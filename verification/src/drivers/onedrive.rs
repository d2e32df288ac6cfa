use vstd::prelude::*;

use crate::text::{chars_of, find_exec, find_from, lemma_find_from, occurs_at, string_of};

verus! {

/// Credentials of one OneDrive account.
pub struct OnedriveConfig {
    /// The refresh token of the account.
    pub refresh_token: String,
    /// The id of the application.
    pub client_id: String,
    /// The secret of the application.
    pub client_secret: String,
}

/// The three characters that part the drive id from the file id in a source token.
pub open spec fn token_delimiter() -> Seq<char> {
    seq!['=', ':', '=']
}

/// The token that names a file on a drive: the drive id, the delimiter, the file id.
pub open spec fn source_token(file_id: Seq<char>, drive_id: Seq<char>) -> Seq<char> {
    drive_id + token_delimiter() + file_id
}

/// The token holds the delimiter somewhere.
pub open spec fn has_delimiter(token: Seq<char>) -> bool {
    find_from(token, token_delimiter(), 0) is Some
}

/// The first two pieces of `token` when it is split at every delimiter: the
/// text before the first delimiter, and the text from there to the next
/// delimiter or the end.
pub open spec fn token_parts(token: Seq<char>) -> (Seq<char>, Seq<char>)
    recommends
        has_delimiter(token),
{
    let i = find_from(token, token_delimiter(), 0)->0;
    let start = i + 3;
    let end = match find_from(token, token_delimiter(), start) {
        Some(j) => j,
        None => token.len() as int,
    };
    (token.subrange(0, i), token.subrange(start, end))
}

/// The token for file `file_id` on drive `drive_id`.
pub fn create_source_token(file_id: String, drive_id: String) -> (r: String)
    ensures
        r@ == source_token(file_id@, drive_id@),
{
    let mut r = drive_id;
    proof {
        reveal_strlit("=:=");
    }
    r.append("=:=");
    r.append(file_id.as_str());
    r
}

/// Whether a token holds the delimiter, so that it names a drive and a file.
pub fn token_has_delimiter(token: &str) -> (r: bool)
    ensures
        r == has_delimiter(token@),
{
    let cs = chars_of(token);
    let delim = vec!['=', ':', '='];
    assert(delim@ =~= token_delimiter());
    match find_exec(&cs, &delim, 0) {
        Some(_) => true,
        None => false,
    }
}

/// The drive id and the file id a token names.
pub fn parse_source_token(token: &str) -> (r: (String, String))
    requires
        has_delimiter(token@),
    ensures
        (r.0@, r.1@) == token_parts(token@),
{
    let cs = chars_of(token);
    let delim = vec!['=', ':', '='];
    assert(delim@ =~= token_delimiter());
    let i = match find_exec(&cs, &delim, 0) {
        Some(i) => i,
        None => {
            assert(false);
            0
        },
    };
    proof {
        lemma_find_from(cs@, delim@, 0);
        assert(delim@.len() == 3);
        assert(find_from(cs@, delim@, 0) == Some(i as int));
        assert(occurs_at(cs@, delim@, i as int));
        assert(i + 3 <= cs@.len());
        assert(cs@.len() == cs.len());
    }
    let start = i + 3;
    let end = match find_exec(&cs, &delim, start) {
        Some(j) => {
            proof {
                lemma_find_from(cs@, delim@, start as int);
            }
            j
        },
        None => cs.len(),
    };
    (string_of(&cs, 0, i), string_of(&cs, start, end))
}

/// No delimiter begins inside the drive id of a token when none occurs in the
/// drive id followed by `=:`.
proof fn lemma_no_delimiter_in_drive_part(file_id: Seq<char>, drive_id: Seq<char>, j: int)
    requires
        find_from(drive_id + seq!['=', ':'], token_delimiter(), 0) is None,
        0 <= j < drive_id.len(),
    ensures
        !occurs_at(source_token(file_id, drive_id), token_delimiter(), j),
{
    let t = source_token(file_id, drive_id);
    let head = drive_id + seq!['=', ':'];
    lemma_find_from(head, token_delimiter(), 0);
    assert(!occurs_at(head, token_delimiter(), j));
    if j + 3 <= t.len() {
        assert(t.subrange(j, j + 3) =~= head.subrange(j, j + 3));
    }
}

/// No delimiter begins inside the file id of a token when none occurs in the
/// file id.
proof fn lemma_no_delimiter_in_file_part(file_id: Seq<char>, drive_id: Seq<char>, j: int)
    requires
        find_from(file_id, token_delimiter(), 0) is None,
        drive_id.len() + 3 <= j,
    ensures
        !occurs_at(source_token(file_id, drive_id), token_delimiter(), j),
{
    let t = source_token(file_id, drive_id);
    let dl = drive_id.len() as int;
    lemma_find_from(file_id, token_delimiter(), 0);
    assert(!occurs_at(file_id, token_delimiter(), j - dl - 3));
    if j + 3 <= t.len() {
        assert(t.subrange(j, j + 3) =~= file_id.subrange(j - dl - 3, j - dl));
    }
}

/// Law: a token made from a drive id and a file id gives them back. This holds
/// where no delimiter begins inside the drive id (that is, none occurs in the
/// drive id followed by `=:`) and none occurs in the file id.
pub proof fn law_parse_created_token(file_id: Seq<char>, drive_id: Seq<char>)
    requires
        find_from(drive_id + seq!['=', ':'], token_delimiter(), 0) is None,
        find_from(file_id, token_delimiter(), 0) is None,
    ensures
        has_delimiter(source_token(file_id, drive_id)),
        token_parts(source_token(file_id, drive_id)) == (drive_id, file_id),
{
    let t = source_token(file_id, drive_id);
    let d = token_delimiter();
    let dl = drive_id.len() as int;
    assert(occurs_at(t, d, dl)) by {
        assert(t.subrange(dl, dl + 3) =~= d);
    }
    lemma_find_from(t, d, 0);
    match find_from(t, d, 0) {
        Some(k) => {
            if k < dl {
                lemma_no_delimiter_in_drive_part(file_id, drive_id, k);
            }
            assert(k == dl);
        },
        None => {},
    }
    lemma_find_from(t, d, dl + 3);
    match find_from(t, d, dl + 3) {
        Some(k) => {
            lemma_no_delimiter_in_file_part(file_id, drive_id, k);
        },
        None => {},
    }
    assert(t.subrange(0, dl) =~= drive_id);
    assert(t.subrange(dl + 3, t.len() as int) =~= file_id);
}

/// Ten minutes, in nanoseconds.
pub const LINK_LIFETIME_NANOS: i128 = 600_000_000_000;

/// One second, in nanoseconds.
pub const NANOS_PER_SECOND: i128 = 1_000_000_000;

/// The latest instant a date-time can stand for, in nanoseconds since the
/// Unix epoch (the last nanosecond of the year 262142).
pub const MAX_TIMESTAMP_NANOS: i128 = 8_210_266_876_799_999_999_999;

/// A link made at `create_time` has expired at `now`: more than ten minutes
/// lie between them. Times are nanoseconds since the Unix epoch (a leap
/// second is not among them).
pub open spec fn expired_at(create_time: int, now: int) -> bool {
    now > create_time + LINK_LIFETIME_NANOS
}

/// Whether a link made at `create_time` has expired at `now`.
pub fn is_expired_at(create_time: i128, now: i128) -> (r: bool)
    requires
        create_time <= MAX_TIMESTAMP_NANOS - LINK_LIFETIME_NANOS,
    ensures
        r == expired_at(create_time as int, now as int),
{
    now > create_time + LINK_LIFETIME_NANOS
}

/// Law: a link that has expired stays expired as time goes on.
pub proof fn law_expiry_is_lasting(create_time: int, now: int, later: int)
    requires
        expired_at(create_time, now),
        now <= later,
    ensures
        expired_at(create_time, later),
{
}

/// The current time as whole seconds since the Unix epoch and the nanoseconds
/// past that second (`chrono::Utc::now`, read by `timestamp` and
/// `timestamp_subsec_nanos`). The contract claims only that the instant lies
/// between the epoch and the latest instant a date-time can stand for, and
/// that the nanoseconds are below one second (`Utc::now` builds its value from
/// the system clock's seconds and sub-second nanoseconds); which instant it
/// is, is the clock's. `Utc::now` panics when the system clock is set before
/// 1970, which no argument can rule out.
#[verifier::external_body]
fn now_seconds_and_nanos() -> (r: (i64, u32))
    ensures
        0 <= r.0,
        r.1 < NANOS_PER_SECOND,
        r.0 * NANOS_PER_SECOND + r.1 <= MAX_TIMESTAMP_NANOS,
{
    let now = chrono::Utc::now();
    (now.timestamp(), now.timestamp_subsec_nanos())
}

/// Whether a link made at `create_time` (nanoseconds since the Unix epoch)
/// has expired by now, by the clock.
pub fn is_expired_time(create_time: i128) -> (r: bool)
    requires
        create_time <= MAX_TIMESTAMP_NANOS - LINK_LIFETIME_NANOS,
    ensures
        exists|now: int| 0 <= now <= MAX_TIMESTAMP_NANOS && r == expired_at(create_time as int, now),
{
    let (secs, nanos) = now_seconds_and_nanos();
    let now: i128 = secs as i128 * NANOS_PER_SECOND + nanos as i128;
    is_expired_at(create_time, now)
}

/// The form sent to the token endpoint to trade the refresh token of an
/// account for an access token, as (field, value) pairs in order.
pub open spec fn token_form(config: OnedriveConfig) -> Seq<(Seq<char>, Seq<char>)> {
    seq![
        ("client_id"@, config.client_id@),
        ("refresh_token"@, config.refresh_token@),
        ("requested_token_use"@, "on_behalf_of"@),
        ("client_secret"@, config.client_secret@),
        ("grant_type"@, "refresh_token"@),
    ]
}

/// The (field, value) pairs of a form, as plain values.
pub open spec fn form_view(form: Seq<(String, String)>) -> Seq<(Seq<char>, Seq<char>)> {
    form.map_values(|p: (String, String)| (p.0@, p.1@))
}

/// The form that trades the refresh token of an account for an access token.
pub fn token_request_form(config: &OnedriveConfig) -> (r: Vec<(String, String)>)
    ensures
        form_view(r@) == token_form(*config),
{
    let mut r: Vec<(String, String)> = Vec::new();
    r.push(("client_id".to_string(), config.client_id.clone()));
    r.push(("refresh_token".to_string(), config.refresh_token.clone()));
    r.push(("requested_token_use".to_string(), "on_behalf_of".to_string()));
    r.push(("client_secret".to_string(), config.client_secret.clone()));
    r.push(("grant_type".to_string(), "refresh_token".to_string()));
    assert(form_view(r@) =~= token_form(*config));
    r
}

/// The value of the `Authorization` header that presents an access token.
pub fn bearer_header(access_token: &str) -> (r: String)
    ensures
        r@ == "Bearer "@ + access_token@,
{
    let mut r = "Bearer ".to_string();
    r.append(access_token);
    r
}

} // verus!
