use vstd::prelude::*;

verus! {

/// The names an assistant suggests for a query.
pub struct AiResponse {
    pub ans: Vec<String>,
}

/// A query to the assistant.
pub struct SearchRequest {
    pub q: String,
}

/// What the assistant answered: suggested names and an introduction.
pub struct AiSearchResponse {
    pub names: Vec<String>,
    pub intro: String,
}

/// The text of the URL that `input` resolves to against the URL whose text is
/// `base`, when `base` is a URL and the resolution succeeds.
pub uninterp spec fn url_join(base: Seq<char>, input: Seq<char>) -> Option<Seq<char>>;

/// `Url::join` (of the `url` crate, as `reqwest::Url`): the base is parsed from
/// its text and the result is given back as text. The contract names the
/// result as a function of the two texts; how a reference is resolved is not
/// stated.
#[verifier::external_body]
fn join_url(base: &str, input: &str) -> (r: Option<String>)
    ensures
        match r {
            Some(s) => url_join(base@, input@) == Some(s@),
            None => url_join(base@, input@) is None,
        },
{
    match reqwest::Url::parse(base) {
        Ok(u) => match u.join(input) {
            Ok(j) => Some(j.to_string()),
            Err(_) => None,
        },
        Err(_) => None,
    }
}

/// The query part of an assistant request for `q`.
pub fn name_query(q: &str) -> (r: String)
    ensures
        r@ == "?name="@ + q@,
{
    let mut r = "?name=".to_string();
    r.append(q);
    r
}

/// The URL of the endpoint `endpoint` under `root`, asked about `q`: the
/// endpoint resolved against the root, then the query resolved against that.
pub open spec fn endpoint_url(root: Seq<char>, endpoint: Seq<char>, q: Seq<char>) -> Option<
    Seq<char>,
> {
    match url_join(root, endpoint) {
        Some(e) => url_join(e, "?name="@ + q),
        None => None,
    }
}

/// The client of the assistant service found under a root URL.
pub struct AiSearchProcessor {
    pub ai_search_root: String,
}

impl AiSearchProcessor {
    /// A client for the service under `ai_search_root` (the text of a URL).
    pub fn new(ai_search_root: String) -> (r: Self)
        ensures
            r.ai_search_root == ai_search_root,
    {
        AiSearchProcessor { ai_search_root }
    }

    /// The URL of one endpoint of the service, asked about `q`.
    fn endpoint(&self, endpoint: &str, q: &str) -> (r: Option<String>)
        ensures
            match r {
                Some(s) => endpoint_url(self.ai_search_root@, endpoint@, q@) == Some(s@),
                None => endpoint_url(self.ai_search_root@, endpoint@, q@) is None,
            },
    {
        match join_url(self.ai_search_root.as_str(), endpoint) {
            Some(e) => {
                let query = name_query(q);
                join_url(e.as_str(), query.as_str())
            },
            None => None,
        }
    }

    /// The URLs a query is sent to: the name finder, then the introduction.
    /// Where either cannot be formed, there are none.
    pub fn request_urls(&self, request: &SearchRequest) -> (r: Option<(String, String)>)
        ensures
            match r {
                Some((f, i)) => endpoint_url(self.ai_search_root@, "findname"@, request.q@) == Some(
                    f@,
                ) && endpoint_url(self.ai_search_root@, "intro"@, request.q@) == Some(i@),
                None => endpoint_url(self.ai_search_root@, "findname"@, request.q@) is None
                    || endpoint_url(self.ai_search_root@, "intro"@, request.q@) is None,
            },
    {
        let find = self.endpoint("findname", request.q.as_str());
        let intro = self.endpoint("intro", request.q.as_str());
        match (find, intro) {
            (Some(f), Some(i)) => Some((f, i)),
            _ => None,
        }
    }
}

} // verus!
