use vstd::prelude::*;

use crate::file_meta::string_views;

verus! {

/// Appends one character (`String::push`).
#[verifier::external_body]
pub(crate) fn push_char(s: &mut String, c: char)
    ensures
        final(s)@ == old(s)@.push(c),
{
    s.push(c)
}

/// The pieces of `s` between occurrences of `sep`, as `str::split` with a
/// character gives them: empty pieces included, and one piece more than
/// there are separators.
pub open spec fn split_char(s: Seq<char>, sep: char) -> Seq<Seq<char>>
    decreases s.len(),
{
    if s.len() == 0 {
        seq![Seq::empty()]
    } else {
        let r = split_char(s.drop_last(), sep);
        if s.last() == sep {
            r.push(Seq::empty())
        } else {
            r.update(r.len() - 1, r.last().push(s.last()))
        }
    }
}

/// The split of a string always has at least one piece.
pub proof fn lemma_split_char_nonempty(s: Seq<char>, sep: char)
    ensures
        split_char(s, sep).len() >= 1,
    decreases s.len(),
{
    if s.len() > 0 {
        lemma_split_char_nonempty(s.drop_last(), sep);
    }
}

/// Splits `s` at every `sep`.
pub fn split_on(s: &str, sep: char) -> (r: Vec<String>)
    ensures
        string_views(r@) == split_char(s@, sep),
{
    let mut done: Vec<String> = Vec::new();
    let mut cur = String::new();
    let ghost mut seen: Seq<char> = Seq::empty();
    for c in it: s.chars()
        invariant
            seen == it.seq().take(it.index() as int),
            it.seq() == s@,
            string_views(done@).push(cur@) == split_char(seen, sep),
    {
        proof {
            lemma_split_char_nonempty(seen, sep);
            assert(seen.push(c).drop_last() =~= seen);
        }
        if c == sep {
            let piece = cur;
            done.push(piece);
            cur = String::new();
            proof {
                assert(string_views(done@).push(cur@) =~= split_char(seen, sep).push(Seq::empty()));
            }
        } else {
            push_char(&mut cur, c);
            proof {
                let r = split_char(seen, sep);
                assert(string_views(done@).push(cur@) =~= r.update(r.len() - 1, r.last().push(c)));
            }
        }
        proof {
            seen = seen.push(c);
        }
    }
    done.push(cur);
    assert(seen =~= s@);
    done
}

/// `pat` occurs in `s` at index `i`.
pub open spec fn occurs_at(s: Seq<char>, pat: Seq<char>, i: int) -> bool {
    0 <= i && i + pat.len() <= s.len() && s.subrange(i, i + pat.len()) == pat
}

/// The first index at or after `from` where `pat` occurs in `s`.
pub open spec fn find_from(s: Seq<char>, pat: Seq<char>, from: int) -> Option<int>
    decreases s.len() - from,
{
    if from < 0 || from >= s.len() || from + pat.len() > s.len() {
        None
    } else if s.subrange(from, from + pat.len()) == pat {
        Some(from)
    } else {
        find_from(s, pat, from + 1)
    }
}

/// `find_from` gives the least index of an occurrence at or after `from`.
pub proof fn lemma_find_from(s: Seq<char>, pat: Seq<char>, from: int)
    requires
        0 <= from,
        pat.len() > 0,
    ensures
        match find_from(s, pat, from) {
            Some(k) => from <= k && occurs_at(s, pat, k) && forall|j: int|
                from <= j < k ==> !occurs_at(s, pat, j),
            None => forall|j: int| from <= j ==> !occurs_at(s, pat, j),
        },
    decreases s.len() - from,
{
    if from + pat.len() <= s.len() && s.subrange(from, from + pat.len()) != pat {
        lemma_find_from(s, pat, from + 1);
    }
}

/// The characters of a string slice, one by one.
pub(crate) fn chars_of(s: &str) -> (r: Vec<char>)
    ensures
        r@ == s@,
{
    let mut out: Vec<char> = Vec::new();
    for c in it: s.chars()
        invariant
            it.seq() == s@,
            out@ == it.seq().take(it.index() as int),
    {
        out.push(c);
    }
    assert(out@ =~= s@);
    out
}

/// The string made of `cs[from..to]`.
pub(crate) fn string_of(cs: &Vec<char>, from: usize, to: usize) -> (r: String)
    requires
        from <= to <= cs@.len(),
    ensures
        r@ == cs@.subrange(from as int, to as int),
{
    let mut out = String::new();
    let mut i = from;
    while i < to
        invariant
            from <= i <= to <= cs@.len(),
            out@ == cs@.subrange(from as int, i as int),
        decreases to - i,
    {
        push_char(&mut out, cs[i]);
        assert(cs@.subrange(from as int, i + 1) =~= cs@.subrange(from as int, i as int).push(cs@[i as int]));
        i = i + 1;
    }
    out
}

/// Whether `pat` occurs in `cs` at index `i`.
fn occurs_at_exec(cs: &Vec<char>, pat: &Vec<char>, i: usize) -> (r: bool)
    ensures
        r == occurs_at(cs@, pat@, i as int),
{
    if i > cs.len() || pat.len() > cs.len() - i {
        return false;
    }
    let mut j: usize = 0;
    while j < pat.len()
        invariant
            i + pat@.len() <= cs@.len(),
            cs@.len() == cs.len(),
            j <= pat@.len(),
            forall|k: int| 0 <= k < j ==> cs@[i + k] == pat@[k],
        decreases pat@.len() - j,
    {
        if cs[i + j] != pat[j] {
            assert(cs@.subrange(i as int, i + pat@.len())[j as int] != pat@[j as int]);
            return false;
        }
        j = j + 1;
    }
    assert(cs@.subrange(i as int, i + pat@.len()) =~= pat@);
    true
}

/// The first index at or after `from` where `pat` occurs in `cs`.
pub(crate) fn find_exec(cs: &Vec<char>, pat: &Vec<char>, from: usize) -> (r: Option<usize>)
    requires
        pat@.len() > 0,
        from <= cs@.len(),
    ensures
        match r {
            Some(k) => find_from(cs@, pat@, from as int) == Some(k as int),
            None => find_from(cs@, pat@, from as int) is None,
        },
{
    let mut i = from;
    proof {
        lemma_find_from(cs@, pat@, from as int);
    }
    while i < cs.len()
        invariant
            from <= i <= cs@.len(),
            pat@.len() > 0,
            forall|j: int| from <= j < i ==> !occurs_at(cs@, pat@, j),
            find_from(cs@, pat@, from as int) == find_from(cs@, pat@, i as int),
        decreases cs@.len() - i,
    {
        if occurs_at_exec(cs, pat, i) {
            return Some(i);
        }
        proof {
            if i + pat@.len() <= cs@.len() {
                assert(cs@.subrange(i as int, i + pat@.len()) != pat@);
            }
        }
        i = i + 1;
    }
    None
}

/// A white-space character: one with the Unicode `White_Space` property, as
/// `char::is_whitespace` tells it.
pub open spec fn white_space(c: char) -> bool {
    let u = c as u32;
    ||| 0x09 <= u <= 0x0d
    ||| u == 0x20
    ||| u == 0x85
    ||| u == 0xa0
    ||| u == 0x1680
    ||| 0x2000 <= u <= 0x200a
    ||| u == 0x2028
    ||| u == 0x2029
    ||| u == 0x202f
    ||| u == 0x205f
    ||| u == 0x3000
}

/// Whether `c` is a white-space character.
pub fn is_white_space(c: char) -> (r: bool)
    ensures
        r == white_space(c),
{
    let u = c as u32;
    (0x09 <= u && u <= 0x0d) || u == 0x20 || u == 0x85 || u == 0xa0 || u == 0x1680 || (0x2000 <= u
        && u <= 0x200a) || u == 0x2028 || u == 0x2029 || u == 0x202f || u == 0x205f || u == 0x3000
}

/// The pieces of `s` between white-space characters, empty pieces included.
pub open spec fn white_space_pieces(s: Seq<char>) -> Seq<Seq<char>>
    decreases s.len(),
{
    if s.len() == 0 {
        seq![Seq::empty()]
    } else {
        let r = white_space_pieces(s.drop_last());
        if white_space(s.last()) {
            r.push(Seq::empty())
        } else {
            r.update(r.len() - 1, r.last().push(s.last()))
        }
    }
}

/// The piece is not empty.
pub open spec fn non_empty(w: Seq<char>) -> bool {
    w.len() > 0
}

/// The words of `s`, as `str::split_whitespace` gives them: the non-empty
/// pieces between white-space characters, in order.
pub open spec fn words(s: Seq<char>) -> Seq<Seq<char>> {
    white_space_pieces(s).filter(|w: Seq<char>| non_empty(w))
}

proof fn lemma_white_space_pieces_nonempty(s: Seq<char>)
    ensures
        white_space_pieces(s).len() >= 1,
    decreases s.len(),
{
    if s.len() > 0 {
        lemma_white_space_pieces_nonempty(s.drop_last());
    }
}

/// The words of `s`.
pub fn split_whitespace(s: &str) -> (r: Vec<String>)
    ensures
        string_views(r@) == words(s@),
{
    let ghost f = |w: Seq<char>| non_empty(w);
    let mut done: Vec<String> = Vec::new();
    let mut cur = String::new();
    let ghost mut seen: Seq<char> = Seq::empty();
    assert(white_space_pieces(seen).drop_last() =~= Seq::<Seq<char>>::empty());
    proof {
        reveal(Seq::filter);
    }
    for c in it: s.chars()
        invariant
            seen == it.seq().take(it.index() as int),
            it.seq() == s@,
            white_space_pieces(seen).len() >= 1,
            string_views(done@) == white_space_pieces(seen).drop_last().filter(f),
            cur@ == white_space_pieces(seen).last(),
            f == (|w: Seq<char>| non_empty(w)),
    {
        let ghost p = white_space_pieces(seen);
        proof {
            assert(seen.push(c).drop_last() =~= seen);
        }
        if is_white_space(c) {
            if cur.as_str().is_empty() {
                proof {
                    p.drop_last().lemma_filter_push(p.last(), f);
                    assert(p.drop_last().push(p.last()) =~= p);
                }
            } else {
                let piece = cur;
                done.push(piece);
                proof {
                    p.drop_last().lemma_filter_push(p.last(), f);
                    assert(p.drop_last().push(p.last()) =~= p);
                }
            }
            cur = String::new();
            proof {
                assert(white_space_pieces(seen.push(c)).drop_last() =~= p);
            }
        } else {
            push_char(&mut cur, c);
            proof {
                assert(white_space_pieces(seen.push(c)).drop_last() =~= p.drop_last());
            }
        }
        proof {
            seen = seen.push(c);
            lemma_white_space_pieces_nonempty(seen);
        }
    }
    assert(seen =~= s@);
    let ghost p = white_space_pieces(seen);
    proof {
        p.drop_last().lemma_filter_push(p.last(), f);
        assert(p.drop_last().push(p.last()) =~= p);
    }
    if !cur.as_str().is_empty() {
        done.push(cur);
    }
    done
}

/// The words joined into one string, with one space between two words.
pub open spec fn joined(ws: Seq<Seq<char>>) -> Seq<char>
    decreases ws.len(),
{
    if ws.len() == 0 {
        Seq::empty()
    } else if ws.len() == 1 {
        ws[0]
    } else {
        joined(ws.drop_last()) + seq![' '] + ws.last()
    }
}

/// The words joined with one space between two words (`join(" ")`).
pub fn join_with_space(ws: &Vec<String>) -> (r: String)
    ensures
        r@ == joined(string_views(ws@)),
{
    let mut r = String::new();
    let n = ws.len();
    let mut i: usize = 0;
    while i < n
        invariant
            n == ws@.len(),
            i <= n,
            r@ == joined(string_views(ws@).take(i as int)),
        decreases n - i,
    {
        let ghost v = string_views(ws@);
        assert(v.take(i + 1).drop_last() =~= v.take(i as int));
        if i > 0 {
            push_char(&mut r, ' ');
        }
        r.append(ws[i].as_str());
        i = i + 1;
    }
    assert(string_views(ws@).take(n as int) =~= string_views(ws@));
    r
}

/// No piece between white space holds white space.
proof fn lemma_pieces_hold_no_white_space(s: Seq<char>)
    ensures
        forall|k: int, j: int|
            0 <= k < white_space_pieces(s).len() && 0 <= j < white_space_pieces(s)[k].len()
                ==> !white_space(#[trigger] white_space_pieces(s)[k][j]),
    decreases s.len(),
{
    if s.len() > 0 {
        lemma_pieces_hold_no_white_space(s.drop_last());
        lemma_white_space_pieces_nonempty(s.drop_last());
        let r = white_space_pieces(s.drop_last());
        let p = white_space_pieces(s);
        assert forall|k: int, j: int| 0 <= k < p.len() && 0 <= j < p[k].len() implies !white_space(
            #[trigger] p[k][j],
        ) by {
            if !white_space(s.last()) && k == r.len() - 1 && j == r.last().len() {
            } else if k < r.len() {
                if !white_space(s.last()) && k == r.len() - 1 {
                    assert(p[k][j] == r[k][j]);
                } else {
                    assert(p[k] == r[k]);
                }
            }
        }
    }
}

/// The word is not empty and holds no white space.
pub open spec fn clean_word(w: Seq<char>) -> bool {
    w.len() > 0 && forall|j: int| 0 <= j < w.len() ==> !white_space(#[trigger] w[j])
}

/// Law: every word of a text is non-empty and holds no white space.
pub proof fn law_words_are_clean(s: Seq<char>)
    ensures
        forall|k: int| 0 <= k < words(s).len() ==> clean_word(#[trigger] words(s)[k]),
{
    let f = |w: Seq<char>| non_empty(w);
    let p = white_space_pieces(s);
    lemma_pieces_hold_no_white_space(s);
    assert forall|k: int| 0 <= k < words(s).len() implies clean_word(#[trigger] words(s)[k]) by {
        let w = words(s)[k];
        p.lemma_filter_pred(f, k);
        assert(p.filter(f).contains(w));
        p.lemma_filter_contains_rev(f, w);
        let m = choose|m: int| 0 <= m < p.len() && p[m] == w;
        assert forall|j: int| 0 <= j < w.len() implies !white_space(#[trigger] w[j]) by {
            assert(w[j] == p[m][j]);
        }
    }
}

/// Law: among the ASCII characters, exactly the space and the five control
/// characters from tab to carriage return are white space (as
/// `char::is_whitespace` has them); every printable ASCII character but the
/// space, punctuation such as `.`, `-` and `/` included, is not.
pub proof fn law_ascii_white_space(c: char)
    requires
        (c as u32) < 0x80,
    ensures
        white_space(c) <==> (c == ' ' || (0x09 <= (c as u32) && (c as u32) <= 0x0d)),
{
}

/// Splitting with no white space gives back one piece, the whole text.
proof fn lemma_pieces_without_white_space(s: Seq<char>)
    requires
        forall|i: int| 0 <= i < s.len() ==> !white_space(#[trigger] s[i]),
    ensures
        white_space_pieces(s) == seq![s],
    decreases s.len(),
{
    if s.len() > 0 {
        lemma_pieces_without_white_space(s.drop_last());
        assert(s.drop_last().push(s.last()) =~= s);
        assert(white_space_pieces(s) =~= seq![s]);
    } else {
        assert(s =~= Seq::<char>::empty());
    }
}

/// Law: a non-empty text without white space is one word, the whole text:
/// the words of a text are split only at white space.
pub proof fn law_text_without_white_space_is_one_word(s: Seq<char>)
    requires
        s.len() > 0,
        forall|i: int| 0 <= i < s.len() ==> !white_space(#[trigger] s[i]),
    ensures
        words(s) == seq![s],
{
    lemma_pieces_without_white_space(s);
    let f = |w: Seq<char>| non_empty(w);
    Seq::<Seq<char>>::empty().lemma_filter_push(s, f);
    assert(Seq::<Seq<char>>::empty().push(s) =~= seq![s]);
    reveal(Seq::filter);
    assert(Seq::<Seq<char>>::empty().filter(f) =~= Seq::<Seq<char>>::empty());
}

/// Law: words are split at every white-space character and nowhere else:
/// white space between two texts without white space parts them into exactly
/// two words.
pub proof fn law_words_split_at_white_space(a: Seq<char>, c: char, b: Seq<char>)
    requires
        a.len() > 0,
        b.len() > 0,
        white_space(c),
        forall|i: int| 0 <= i < a.len() ==> !white_space(#[trigger] a[i]),
        forall|i: int| 0 <= i < b.len() ==> !white_space(#[trigger] b[i]),
    ensures
        words(a.push(c) + b) == seq![a, b],
{
    lemma_pieces_after(a.push(c), b);
    lemma_pieces_without_white_space(a);
    assert(a.push(c).drop_last() =~= a);
    assert(white_space_pieces(a.push(c)) =~= seq![a, Seq::empty()]);
    let p = white_space_pieces(a.push(c) + b);
    assert(p =~= seq![a, b]);
    let f = |w: Seq<char>| non_empty(w);
    reveal(Seq::filter);
    Seq::<Seq<char>>::empty().lemma_filter_push(a, f);
    seq![a].lemma_filter_push(b, f);
    assert(Seq::<Seq<char>>::empty().filter(f) =~= Seq::<Seq<char>>::empty());
    assert(Seq::<Seq<char>>::empty().push(a) =~= seq![a]);
    assert(seq![a].push(b) =~= seq![a, b]);
}

/// Appending text without white space extends the last piece.
proof fn lemma_pieces_after(p: Seq<char>, b: Seq<char>)
    requires
        forall|i: int| 0 <= i < b.len() ==> !white_space(#[trigger] b[i]),
    ensures
        white_space_pieces(p).len() >= 1,
        white_space_pieces(p + b) == white_space_pieces(p).update(
            white_space_pieces(p).len() - 1,
            white_space_pieces(p).last() + b,
        ),
    decreases b.len(),
{
    lemma_white_space_pieces_nonempty(p);
    if b.len() == 0 {
        assert(p + b =~= p);
        assert(white_space_pieces(p).last() + b =~= white_space_pieces(p).last());
        assert(white_space_pieces(p).update(white_space_pieces(p).len() - 1, white_space_pieces(p).last()) =~= white_space_pieces(p));
    } else {
        let b0 = b.drop_last();
        lemma_pieces_after(p, b0);
        assert((p + b).drop_last() =~= p + b0);
        assert((p + b).last() == b.last());
        assert(!white_space(b.last()));
        let r = white_space_pieces(p);
        assert(r.last() + b =~= (r.last() + b0).push(b.last()));
        assert(white_space_pieces(p + b) =~= r.update(r.len() - 1, r.last() + b));
    }
}

} // verus!
