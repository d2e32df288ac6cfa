use vstd::prelude::*;

use crate::file_list::EqualFileDownloadSource;

verus! {

/// What looking up the sources of a game came to.
pub enum SourceLookup {
    Found(EqualFileDownloadSource),
    Missing,
    Failed,
}

/// What a download request does next.
pub enum DownloadStep {
    /// Answer that the game is not known.
    NotFound,
    /// Answer that the server failed.
    InternalError,
    /// Record the download and fetch a link from this source.
    Fetch(EqualFileDownloadSource),
}

/// The next step of a download request, given what the lookup came to.
pub fn download_step(lookup: SourceLookup) -> (r: DownloadStep)
    ensures
        match lookup {
            SourceLookup::Found(s) => r == DownloadStep::Fetch(s),
            SourceLookup::Missing => r == DownloadStep::NotFound,
            SourceLookup::Failed => r == DownloadStep::InternalError,
        },
{
    match lookup {
        SourceLookup::Found(s) => DownloadStep::Fetch(s),
        SourceLookup::Missing => DownloadStep::NotFound,
        SourceLookup::Failed => DownloadStep::InternalError,
    }
}

/// The address a download is recorded under: the client's real address, or
/// `unknown` when the request does not tell it.
pub fn client_ip(real_ip: Option<&str>) -> (r: String)
    ensures
        match real_ip {
            Some(ip) => r@ == ip@,
            None => r@ == "unknown"@,
        },
{
    match real_ip {
        Some(ip) => ip.to_string(),
        None => "unknown".to_string(),
    }
}

} // verus!
