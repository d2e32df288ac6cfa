use vstd::prelude::*;

use crate::text::{clean_word, join_with_space, joined, law_words_are_clean, split_whitespace, words};

verus! {

/// What the library knows of one archived file.
pub struct FileMeta {
    pub categories: Vec<String>,
    pub file_name: String,
    pub file_size: u64,
    pub upload_timestamp: u64,
    pub path: String,
}

/// The plain-value picture of a [`FileMeta`].
pub struct FileMetaView {
    pub categories: Seq<Seq<char>>,
    pub file_name: Seq<char>,
    pub file_size: u64,
    pub upload_timestamp: u64,
    pub path: Seq<char>,
}

/// The characters of each string of a sequence.
pub open spec fn string_views(s: Seq<String>) -> Seq<Seq<char>> {
    s.map_values(|x: String| x@)
}

impl View for FileMeta {
    type V = FileMetaView;

    open spec fn view(&self) -> FileMetaView {
        FileMetaView {
            categories: string_views(self.categories@),
            file_name: self.file_name@,
            file_size: self.file_size,
            upload_timestamp: self.upload_timestamp,
            path: self.path@,
        }
    }
}

impl Clone for FileMeta {
    fn clone(&self) -> (r: Self)
        ensures
            r@ == self@,
    {
        let categories = self.categories.clone();
        assert(string_views(categories@) =~= string_views(self.categories@));
        FileMeta {
            categories,
            file_name: self.file_name.clone(),
            file_size: self.file_size,
            upload_timestamp: self.upload_timestamp,
            path: self.path.clone(),
        }
    }
}

/// A search for files: the words the user typed, and the words an assistant
/// suggested beside them.
pub struct SearchFileRequest {
    pub user_request: String,
    pub ai_extended_request: Vec<String>,
}

/// At most the first `n` elements of `s`.
pub open spec fn first_n<A>(s: Seq<A>, n: int) -> Seq<A> {
    if s.len() <= n {
        s
    } else {
        s.take(n)
    }
}

/// The words a request searches for: the first three suggested words, then
/// the first three words the user typed.
pub open spec fn request_words(user_request: Seq<char>, ai_extended_request: Seq<Seq<char>>) -> Seq<
    Seq<char>,
> {
    first_n(ai_extended_request, 3) + first_n(words(user_request), 3)
}

/// Law: a request searches for at most six words: first the suggested words,
/// at most three and in their order, then at most three typed words, each of
/// them non-empty and free of white space.
pub proof fn law_search_words_shape(user_request: Seq<char>, ai_extended_request: Seq<Seq<char>>)
    ensures
        ({
            let r = request_words(user_request, ai_extended_request);
            let ai = first_n(ai_extended_request, 3);
            &&& r.len() <= 6
            &&& ai.len() <= 3
            &&& r.take(ai.len() as int) == ai
            &&& forall|k: int| ai.len() <= k < r.len() ==> clean_word(#[trigger] r[k])
        }),
{
    let r = request_words(user_request, ai_extended_request);
    let ai = first_n(ai_extended_request, 3);
    let w = first_n(words(user_request), 3);
    law_words_are_clean(user_request);
    assert(r.take(ai.len() as int) =~= ai);
    assert forall|k: int| ai.len() <= k < r.len() implies clean_word(#[trigger] r[k]) by {
        assert(r[k] == w[k - ai.len()]);
        assert(w[k - ai.len()] == words(user_request)[k - ai.len()]);
    }
}

/// The first `n` strings of `v`, moved out.
fn take_first(v: Vec<String>, n: usize) -> (r: Vec<String>)
    ensures
        string_views(r@) == first_n(string_views(v@), n as int),
{
    let ghost items = v@;
    let mut out: Vec<String> = Vec::new();
    for s in it: v
        invariant
            it.seq() == items,
            out@.len() <= n,
            string_views(out@) == first_n(string_views(items.take(it.index() as int)), n as int),
    {
        let ghost before = items.take(it.index() as int);
        assert(items.take(it.index() + 1) =~= before.push(s));
        assert(string_views(before.push(s)) =~= string_views(before).push(s@));
        assert(string_views(before).len() == before.len());
        assert(string_views(out@).len() == out@.len());
        if out.len() < n {
            assert(string_views(before).len() < n);
            out.push(s);
            assert(string_views(out@) =~= first_n(string_views(before.push(s)), n as int));
        } else {
            assert(first_n(string_views(before.push(s)), n as int) =~= first_n(string_views(before), n as int));
        }
    }
    assert(items.take(items.len() as int) =~= items);
    out
}

impl SearchFileRequest {
    /// The words this request searches for.
    pub fn search_words(self) -> (r: Vec<String>)
        ensures
            string_views(r@) == request_words(self.user_request@, string_views(self.ai_extended_request@)),
    {
        let mut ai_words = take_first(self.ai_extended_request, 3);
        let mut user_words = take_first(split_whitespace(self.user_request.as_str()), 3);
        let ghost a = string_views(ai_words@);
        let ghost u = string_views(user_words@);
        ai_words.append(&mut user_words);
        assert(string_views(ai_words@) =~= a + u);
        ai_words
    }
}

/// The text of a search for the given words: the words with one space
/// between two of them.
pub fn query_text(query: &Vec<String>) -> (r: String)
    ensures
        r@ == joined(string_views(query@)),
{
    join_with_space(query)
}

/// The value of the first stored field with id `meta_field`, if any.
pub fn select_meta_field(fields: &Vec<(u32, String)>, meta_field: u32) -> (r: Option<String>)
    ensures
        match r {
            Some(v) => exists|i: int|
                0 <= i < fields@.len() && fields@[i].0 == meta_field && fields@[i].1@ == v@ && forall|
                    j: int,
                | 0 <= j < i ==> fields@[j].0 != meta_field,
            None => forall|j: int| 0 <= j < fields@.len() ==> fields@[j].0 != meta_field,
        },
{
    let n = fields.len();
    let mut i: usize = 0;
    while i < n
        invariant
            n == fields@.len(),
            i <= n,
            forall|j: int| 0 <= j < i ==> fields@[j].0 != meta_field,
        decreases n - i,
    {
        if fields[i].0 == meta_field {
            return Some(fields[i].1.clone());
        }
        i = i + 1;
    }
    None
}

/// The metadata of the documents that could be read, in the order the search
/// ranked them; the others are left out.
pub open spec fn found(docs: Seq<Option<FileMetaView>>) -> Seq<FileMetaView>
    decreases docs.len(),
{
    if docs.len() == 0 {
        Seq::empty()
    } else {
        match docs.last() {
            Some(m) => found(docs.drop_last()).push(m),
            None => found(docs.drop_last()),
        }
    }
}

/// The metadata of each document, as plain values.
pub open spec fn docs_view(docs: Seq<Option<FileMeta>>) -> Seq<Option<FileMetaView>> {
    docs.map_values(|d: Option<FileMeta>| match d {
        Some(m) => Some(m@),
        None => None,
    })
}

/// Law: the documents kept are exactly those that could be read, each once
/// and in the order the search ranked them, however many there are: the
/// readable entries of `docs`, unwrapped.
pub proof fn law_found_keeps_every_readable_document(docs: Seq<Option<FileMetaView>>)
    ensures
        found(docs) == docs.filter(|d: Option<FileMetaView>| d is Some).map_values(
            |d: Option<FileMetaView>| d->0,
        ),
        found(docs).len() == docs.filter(|d: Option<FileMetaView>| d is Some).len(),
    decreases docs.len(),
{
    let f = |d: Option<FileMetaView>| d is Some;
    let g = |d: Option<FileMetaView>| d->0;
    reveal(Seq::filter);
    if docs.len() > 0 {
        law_found_keeps_every_readable_document(docs.drop_last());
        assert(docs.drop_last().push(docs.last()) =~= docs);
        docs.drop_last().lemma_filter_push(docs.last(), f);
        let before = docs.drop_last().filter(f);
        if docs.last() is Some {
            assert(before.push(docs.last()).map_values(g) =~= before.map_values(g).push(docs.last()->0));
        }
    } else {
        assert(docs.filter(f) =~= Seq::<Option<FileMetaView>>::empty());
        assert(docs.filter(f).map_values(g) =~= Seq::<FileMetaView>::empty());
    }
}

/// Law: one more readable document, ranked last, is kept last, after all
/// those kept before.
pub proof fn law_found_appends_readable(docs: Seq<Option<FileMetaView>>, m: FileMetaView)
    ensures
        found(docs.push(Some(m))) == found(docs).push(m),
        found(docs.push(None)) == found(docs),
{
    assert(docs.push(Some(m)).drop_last() =~= docs);
    assert(docs.push(None::<FileMetaView>).drop_last() =~= docs);
}

/// Keeps the documents that could be read, in order.
pub fn found_documents(docs: Vec<Option<FileMeta>>) -> (r: Vec<FileMeta>)
    ensures
        r@.map_values(|m: FileMeta| m@) == found(docs_view(docs@)),
{
    let ghost all = docs@;
    let mut out: Vec<FileMeta> = Vec::new();
    for d in it: docs
        invariant
            it.seq() == all,
            out@.map_values(|m: FileMeta| m@) == found(docs_view(all.take(it.index() as int))),
    {
        let ghost before = all.take(it.index() as int);
        assert(docs_view(all.take(it.index() + 1)).drop_last() =~= docs_view(before));
        assert(all.take(it.index() + 1).last() == d);
        match d {
            Some(m) => {
                let ghost prev = out@;
                out.push(m);
                assert(out@.map_values(|m: FileMeta| m@) =~= prev.map_values(|m: FileMeta| m@).push(m@));
            },
            None => {},
        }
    }
    assert(all.take(all.len() as int) =~= all);
    out
}

} // verus!
