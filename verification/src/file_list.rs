use rand::seq::SliceRandom;
use vstd::prelude::*;
use vstd::std_specs::cmp::{PartialEqSpec, PartialEqSpecImpl};
use vstd::utf8::encode_utf8;

use crate::drivers::FileDownloadProviderName;
use crate::text::push_char;

verus! {

/// The salt appended to a path before its identifier is derived.
pub open spec fn path_salt() -> Seq<char> {
    seq!['s', 'h', 'i', 'n', 'n', 'k', 'u']
}

/// The DNS namespace of name-based UUIDs (RFC 4122, appendix C), as a
/// big-endian 128-bit value.
pub const NAMESPACE_DNS: u128 = 0x6ba7b810_9dad_11d1_80b4_00c04fd430c8;

/// The version 5 (SHA-1, name-based) UUID of `name` in `namespace`, as a
/// big-endian 128-bit value.
pub uninterp spec fn uuid_v5(namespace: u128, name: Seq<u8>) -> u128;

/// `uuid::Uuid::new_v5`: the name-based UUID of `name` in `namespace`, as a
/// 128-bit value. The contract claims that the result is a function of the two
/// arguments alone, and that it carries version 5 and the RFC 4122 variant
/// (the builder of the crate sets those bits); the SHA-1 digest is not stated.
#[verifier::external_body]
fn new_v5(namespace: u128, name: &[u8]) -> (r: u128)
    ensures
        r == uuid_v5(namespace, name@),
        (r >> 76u128) & 0xf == 5,
        (r >> 62u128) & 0x3 == 2,
{
    uuid::Uuid::new_v5(&uuid::Uuid::from_u128(namespace), name).as_u128()
}

/// The identifier of a file path: the version 5 UUID, in the DNS namespace, of
/// the UTF-8 bytes of the path followed by the salt.
pub open spec fn path_uuid(path: Seq<char>) -> u128 {
    uuid_v5(NAMESPACE_DNS, encode_utf8(path + path_salt()))
}

/// The identifier of a file path.
pub fn path_to_uuid(path: &str) -> (r: u128)
    ensures
        r == path_uuid(path@),
        (r >> 76u128) & 0xf == 5,
        (r >> 62u128) & 0x3 == 2,
{
    let mut salted = path.to_string();
    proof {
        reveal_strlit("shinnku");
    }
    salted.append("shinnku");
    assert(salted@ == path@ + path_salt());
    new_v5(NAMESPACE_DNS, salted.as_str().as_bytes())
}

/// The lower-case hexadecimal digit of a value below 16.
pub open spec fn hex_digit(n: u8) -> char {
    if n < 10 {
        (48 + n) as char
    } else {
        (87 + n) as char
    }
}

/// The `i`-th hexadecimal digit of `u`, most significant first.
pub open spec fn nibble(u: u128, i: int) -> u8 {
    ((u >> (4 * (31 - i)) as u128) & 0xf) as u8
}

/// The 32 hexadecimal digits of `u`, most significant first.
pub open spec fn hex_digits(u: u128) -> Seq<char> {
    Seq::new(32, |i: int| hex_digit(nibble(u, i)))
}

/// The hyphenated text of a UUID: its digits in groups of 8, 4, 4, 4 and 12,
/// parted by hyphens.
pub open spec fn uuid_text(u: u128) -> Seq<char> {
    let h = hex_digits(u);
    h.subrange(0, 8) + seq!['-'] + h.subrange(8, 12) + seq!['-'] + h.subrange(12, 16) + seq!['-']
        + h.subrange(16, 20) + seq!['-'] + h.subrange(20, 32)
}

/// The hyphenated lower-case text of a UUID.
pub fn uuid_to_string(u: u128) -> (r: String)
    ensures
        r@ == uuid_text(u),
{
    let mut out = String::new();
    let mut i: u32 = 0;
    assert(uuid_text(u).len() == 36);
    while i < 32
        invariant
            i <= 32,
            uuid_text(u).len() == 36,
            out@ == uuid_text(u).subrange(0, i + hyphens_before(i as int)),
        decreases 32 - i,
    {
        if i == 8 || i == 12 || i == 16 || i == 20 {
            push_char(&mut out, '-');
        }
        let shift: u32 = 4 * (31 - i);
        let n: u8 = ((u >> shift) & 0xf) as u8;
        assert(((u >> shift) & 0xf) < 16) by (bit_vector);
        let c = if n < 10 {
            (48 + n) as char
        } else {
            (87 + n) as char
        };
        push_char(&mut out, c);
        assert(out@ =~= uuid_text(u).subrange(0, i + 1 + hyphens_before(i + 1)));
        i = i + 1;
    }
    assert(out@ =~= uuid_text(u));
    out
}

/// The number of hyphens before the `i`-th digit in the text of a UUID (before
/// the end, for `i` = 32).
pub open spec fn hyphens_before(i: int) -> int {
    if i > 20 {
        4
    } else if i > 16 {
        3
    } else if i > 12 {
        2
    } else if i > 8 {
        1
    } else {
        0
    }
}

/// One place a file can be downloaded from. Two sources are the same source
/// when they name the same provider and the same token, whatever they cache.
pub struct EqualFileDownloadSource {
    pub provider: FileDownloadProviderName,
    pub token: String,
    pub cache_id: Option<u128>,
}

impl PartialEq for EqualFileDownloadSource {
    fn eq(&self, other: &Self) -> (r: bool) {
        self.provider == other.provider && self.token == other.token
    }
}

impl PartialEqSpecImpl for EqualFileDownloadSource {
    open spec fn obeys_eq_spec() -> bool {
        true
    }

    open spec fn eq_spec(&self, other: &Self) -> bool {
        self.provider == other.provider && self.token@ == other.token@
    }
}

impl Clone for EqualFileDownloadSource {
    fn clone(&self) -> (r: Self)
        ensures
            r == *self,
    {
        EqualFileDownloadSource {
            provider: self.provider,
            token: self.token.clone(),
            cache_id: self.cache_id,
        }
    }
}

/// The index of the first element of `s` equal to `item`.
pub open spec fn first_equal<T: PartialEq>(s: Seq<T>, item: T) -> Option<int>
    decreases s.len(),
{
    if s.len() == 0 {
        None
    } else if s[0].eq_spec(&item) {
        Some(0)
    } else {
        match first_equal(s.drop_first(), item) {
            Some(i) => Some(i + 1),
            None => None,
        }
    }
}

/// `first_equal` gives the least index of an element equal to `item`.
proof fn lemma_first_equal_spec<T: PartialEq>(s: Seq<T>, item: T)
    ensures
        match first_equal(s, item) {
            Some(i) => 0 <= i < s.len() && s[i].eq_spec(&item) && forall|j: int|
                0 <= j < i ==> !s[j].eq_spec(&item),
            None => forall|j: int| 0 <= j < s.len() ==> !s[j].eq_spec(&item),
        },
    decreases s.len(),
{
    if s.len() > 0 && !s[0].eq_spec(&item) {
        lemma_first_equal_spec(s.drop_first(), item);
        assert forall|j: int| 0 < j < s.len() implies s[j] == s.drop_first()[j - 1] by {}
    }
}

/// The least index holding an element equal to `item` is the one `first_equal` gives.
proof fn lemma_first_equal<T: PartialEq>(s: Seq<T>, item: T, i: int)
    requires
        0 <= i < s.len(),
        s[i].eq_spec(&item),
        forall|j: int| 0 <= j < i ==> !s[j].eq_spec(&item),
    ensures
        first_equal(s, item) == Some(i),
{
    lemma_first_equal_spec(s, item);
    match first_equal(s, item) {
        Some(k) => {
            if k < i {
                assert(!s[k].eq_spec(&item));
            } else if k > i {
                assert(!s[i].eq_spec(&item));
            }
        },
        None => {
            assert(!s[i].eq_spec(&item));
        },
    }
}

/// The download sources known for one file.
pub struct FileDownloadSources(pub u128, pub Vec<EqualFileDownloadSource>);

/// The prefix of the keys under which download sources are stored.
pub open spec fn source_key_prefix() -> Seq<char> {
    seq!['f', 'i', 'l', 'e', '_', 's', 'o', 'u', 'r', 'c', 'e', ':']
}

/// The prefix of the keys under which cached links are stored.
pub open spec fn link_key_prefix() -> Seq<char> {
    seq!['l', 'i', 'n', 'k', '_', 'c', 'a', 'c', 'h', 'e', ':']
}

/// `SliceRandom::choose` of `rand`, with the thread-local generator: one
/// element of the slice, picked at random, or nothing for an empty slice. The
/// contract claims only that: nothing of which element is picked. The
/// generator panics if the system's random source fails on first use, which
/// no argument can rule out.
#[verifier::external_body]
fn choose_random(list: &[EqualFileDownloadSource]) -> (r: Option<&EqualFileDownloadSource>)
    ensures
        r is None <==> list@.len() == 0,
        r matches Some(x) ==> exists|i: int| 0 <= i < list@.len() && list@[i] == *x,
{
    list.choose(&mut rand::thread_rng())
}

impl FileDownloadSources {
    /// The key under which the sources of a file are stored.
    pub fn redis_key(uuid: u128) -> (r: String)
        ensures
            r@ == source_key_prefix() + uuid_text(uuid),
    {
        let mut r = String::new();
        proof {
            reveal_strlit("file_source:");
        }
        r.append("file_source:");
        let id = uuid_to_string(uuid);
        r.append(id.as_str());
        r
    }

    /// One of the sources, picked at random; none when there are none.
    pub fn pick_random(sources: &Vec<EqualFileDownloadSource>) -> (r: Option<
        EqualFileDownloadSource,
    >)
        ensures
            r is None <==> sources@.len() == 0,
            r matches Some(x) ==> sources@.contains(x),
    {
        match choose_random(sources.as_slice()) {
            Some(x) => Some(x.clone()),
            None => None,
        }
    }

    /// Moves the first element equal to `item` to the end, as `item` itself;
    /// when no element equals `item`, the list is left as it is.
    pub fn update_item<T: PartialEq + Sized>(list: &mut Vec<T>, item: T)
        requires
            T::obeys_eq_spec(),
        ensures
            match first_equal(old(list)@, item) {
                Some(i) => final(list)@ == old(list)@.remove(i).push(item),
                None => final(list)@ == old(list)@,
            },
    {
        let n = list.len();
        let mut i: usize = 0;
        while i < n
            invariant
                T::obeys_eq_spec(),
                list@ == old(list)@,
                n == list@.len(),
                i <= n,
                forall|j: int| 0 <= j < i ==> !list@[j].eq_spec(&item),
            decreases n - i,
        {
            if list[i] == item {
                proof {
                    lemma_first_equal(list@, item, i as int);
                }
                list.remove(i);
                list.push(item);
                return;
            }
            i = i + 1;
        }
        proof {
            lemma_first_equal_spec(list@, item);
            if let Some(k) = first_equal(list@, item) {
                assert(!list@[k].eq_spec(&item));
            }
        }
    }
}

/// Law: moving a matching source to the end keeps the number of sources, puts
/// the new value last and keeps the others in their order.
pub proof fn law_update_item_moves_to_end<T: PartialEq>(list: Seq<T>, item: T)
    requires
        first_equal(list, item) is Some,
    ensures
        ({
            let i = first_equal(list, item)->0;
            let r = list.remove(i).push(item);
            &&& r.len() == list.len()
            &&& r.last() == item
            &&& forall|j: int| 0 <= j < i ==> r[j] == list[j]
            &&& forall|j: int| i <= j < list.len() - 1 ==> r[j] == list[j + 1]
        }),
{
    lemma_first_equal_spec(list, item);
}

/// Law: two download sources are the same source exactly when they name the
/// same provider and the very same token; what they cache plays no part.
pub proof fn law_source_equality(a: EqualFileDownloadSource, b: EqualFileDownloadSource)
    ensures
        PartialEqSpec::eq_spec(&a, &b) <==> (a.provider == b.provider && a.token@ == b.token@),
        PartialEqSpec::eq_spec(&a, &b) == PartialEqSpec::eq_spec(&b, &a),
        PartialEqSpec::eq_spec(&a, &a),
{
}

/// Law: updating a list of download sources moves the first source with the
/// same provider and the very same token as `item`, and no other; where there
/// is none, nothing moves.
pub proof fn law_update_sources_by_token(list: Seq<EqualFileDownloadSource>, item: EqualFileDownloadSource)
    ensures
        match first_equal(list, item) {
            Some(i) => 0 <= i < list.len() && list[i].provider == item.provider && list[i].token@
                == item.token@ && forall|j: int|
                0 <= j < i ==> !(list[j].provider == item.provider && list[j].token@ == item.token@),
            None => forall|j: int|
                0 <= j < list.len() ==> !(list[j].provider == item.provider && list[j].token@
                    == item.token@),
        },
{
    lemma_first_equal_spec(list, item);
}

/// A download link, and when it was made (nanoseconds since the Unix epoch).
pub struct LinkCache {
    pub link: String,
    pub created_at: i128,
}

/// A cached link under the identifier of the link.
pub struct DownloadLinkCache(pub u128, pub LinkCache);

impl DownloadLinkCache {
    /// The key under which a cached link is stored.
    pub fn redis_key(uuid: u128) -> (r: String)
        ensures
            r@ == link_key_prefix() + uuid_text(uuid),
    {
        let mut r = String::new();
        proof {
            reveal_strlit("link_cache:");
        }
        r.append("link_cache:");
        let id = uuid_to_string(uuid);
        r.append(id.as_str());
        r
    }

    /// The identifier a link is cached under, and the key it is stored at.
    pub fn cache_entry(link: &LinkCache) -> (r: (u128, String))
        ensures
            r.0 == path_uuid(link.link@),
            r.1@ == link_key_prefix() + uuid_text(r.0),
    {
        let uuid = path_to_uuid(link.link.as_str());
        (uuid, DownloadLinkCache::redis_key(uuid))
    }

    /// The stored text of a cache entry, when there is one: an empty value
    /// stands for a missing entry.
    pub fn cached_value(value: String) -> (r: Option<String>)
        ensures
            value@.len() == 0 ==> r is None,
            value@.len() > 0 ==> r == Some(value),
    {
        if value.as_str().is_empty() {
            None
        } else {
            Some(value)
        }
    }
}

/// Law: the keys of download sources and the keys of cached links never meet.
pub proof fn law_key_spaces_are_disjoint(a: u128, b: u128)
    ensures
        source_key_prefix() + uuid_text(a) != link_key_prefix() + uuid_text(b),
{
    assert((source_key_prefix() + uuid_text(a))[0] == 'f');
    assert((link_key_prefix() + uuid_text(b))[0] == 'l');
}

/// Two values that agree above bit `s` and in the four bits below it (from
/// bit `t = s - 4`) agree above bit `t`.
proof fn lemma_shift_step(a: u128, b: u128, s: u128, t: u128)
    by (bit_vector)
    requires
        t + 4 == s,
        s <= 124,
        a >> s == b >> s,
        (a >> t) & 0xf == (b >> t) & 0xf,
    ensures
        a >> t == b >> t,
{
}

/// The four bits below bit `s` of a value are below 16; the top four bits are
/// all there is above bit 124; no bit is lost by a shift of nothing.
proof fn lemma_nibble_facts(a: u128, s: u128)
    by (bit_vector)
    ensures
        (a >> s) & 0xf < 16,
        a >> 124u128 == (a >> 124u128) & 0xf,
        a >> 0u128 == a,
{
}

/// Values with the same first `k` hexadecimal digits agree above bit
/// `4 * (32 - k)`.
proof fn lemma_digits_prefix(a: u128, b: u128, k: int)
    requires
        1 <= k <= 32,
        forall|i: int| 0 <= i < 32 ==> nibble(a, i) == nibble(b, i),
    ensures
        a >> (4 * (32 - k)) as u128 == b >> (4 * (32 - k)) as u128,
    decreases k,
{
    let s = (4 * (32 - k)) as u128;
    lemma_nibble_facts(a, s);
    lemma_nibble_facts(b, s);
    assert(nibble(a, k - 1) == nibble(b, k - 1));
    assert((a >> s) & 0xf == (b >> s) & 0xf);
    if k > 1 {
        lemma_digits_prefix(a, b, k - 1);
        lemma_shift_step(a, b, (s + 4) as u128, s);
    }
}

/// A value is fixed by its 32 hexadecimal digits.
proof fn lemma_nibbles_fix_value(a: u128, b: u128)
    requires
        forall|i: int| 0 <= i < 32 ==> nibble(a, i) == nibble(b, i),
    ensures
        a == b,
{
    lemma_digits_prefix(a, b, 32);
    lemma_nibble_facts(a, 0u128);
    lemma_nibble_facts(b, 0u128);
}

/// Different digit values have different digits.
proof fn lemma_hex_digit_injective(m: u8, n: u8)
    requires
        m < 16,
        n < 16,
        hex_digit(m) == hex_digit(n),
    ensures
        m == n,
{
}

/// Law: different identifiers have different texts, so two files never share
/// a key of one kind.
pub proof fn law_uuid_text_injective(a: u128, b: u128)
    requires
        uuid_text(a) == uuid_text(b),
    ensures
        a == b,
{
    let ha = hex_digits(a);
    let hb = hex_digits(b);
    assert forall|i: int| 0 <= i < 32 implies ha[i] == hb[i] by {
        let k = if i < 8 { i } else if i < 12 { i + 1 } else if i < 16 { i + 2 } else if i < 20 { i + 3 } else { i + 4 };
        assert(uuid_text(a)[k] == ha[i]);
        assert(uuid_text(b)[k] == hb[i]);
    }
    assert forall|i: int| 0 <= i < 32 implies nibble(a, i) == nibble(b, i) by {
        let x = a >> (4 * (31 - i)) as u128;
        let y = b >> (4 * (31 - i)) as u128;
        assert(x & 0xf < 16) by (bit_vector);
        assert(y & 0xf < 16) by (bit_vector);
        assert(ha[i] == hex_digit(nibble(a, i)));
        lemma_hex_digit_injective(nibble(a, i), nibble(b, i));
    }
    lemma_nibbles_fix_value(a, b);
}

/// Law: two sources keys are the same key only for the same identifier, and
/// so are two link keys.
pub proof fn law_redis_keys_injective(a: u128, b: u128)
    ensures
        source_key_prefix() + uuid_text(a) == source_key_prefix() + uuid_text(b) ==> a == b,
        link_key_prefix() + uuid_text(a) == link_key_prefix() + uuid_text(b) ==> a == b,
{
    if source_key_prefix() + uuid_text(a) == source_key_prefix() + uuid_text(b) {
        assert(uuid_text(a) =~= (source_key_prefix() + uuid_text(a)).skip(12));
        assert(uuid_text(b) =~= (source_key_prefix() + uuid_text(b)).skip(12));
        law_uuid_text_injective(a, b);
    }
    if link_key_prefix() + uuid_text(a) == link_key_prefix() + uuid_text(b) {
        assert(uuid_text(a) =~= (link_key_prefix() + uuid_text(a)).skip(11));
        assert(uuid_text(b) =~= (link_key_prefix() + uuid_text(b)).skip(11));
        law_uuid_text_injective(a, b);
    }
}

} // verus!
