//! The qpackages.com backend: the addresses that qpm asks it at, what an answer's HTTP status
//! means, and the order in which its versions are handed out.
use vstd::prelude::*;
use crate::version::{Version, version_text};
use crate::versions::{descending, sort_descending, versions_view};

verus! {

/// The qpackages.com backend.
pub struct QPMRepository {}

/// What the HTTP status of an answer to a request means.
#[derive(Clone, Copy, Debug, PartialEq, Eq, Structural)]
pub enum RequestOutcome {
    /// 404: the backend does not know what was asked for.
    NotFound,
    /// Any other status outside 200 to 299: the request failed.
    Failed,
    /// 200 to 299: the body holds the answer.
    Success,
}

/// What the HTTP status of the answer to a publication means.
#[derive(Clone, Copy, Debug, PartialEq, Eq, Structural)]
pub enum PublishOutcome {
    /// 401: the key given was refused.
    Unauthorized,
    /// Any other status outside 200 to 299.
    Failed,
    /// 200 to 299.
    Published,
}

impl QPMRepository {
    /// The address asked for the versions of `id`.
    pub fn versions_request(id: &str) -> (r: String)
        ensures
            r@ == "https://new.qpackages.com"@ + "/"@ + id@ + "?limit=0"@,
    {
        let mut s = String::from_str("https://new.qpackages.com");
        s.append("/");
        s.append(id);
        s.append("?limit=0");
        s
    }

    /// The address asked for the package `id` at `version`; a package is published there too.
    pub fn package_request(id: &str, version: &Version) -> (r: String)
        ensures
            r@ == "https://new.qpackages.com"@ + "/"@ + id@ + "/"@ + version_text(version@),
    {
        let mut s = String::from_str("https://new.qpackages.com");
        s.append("/");
        s.append(id);
        s.append("/");
        let v = version.to_text();
        s.append(v.as_str());
        s
    }

    /// The address asked for the list of packages.
    pub fn packages_request() -> (r: String)
        ensures
            r@ == "https://new.qpackages.com"@ + "/"@,
    {
        let mut s = String::from_str("https://new.qpackages.com");
        s.append("/");
        s
    }

    /// What the status of an answer to a request means.
    pub fn request_outcome(status: u16) -> (r: RequestOutcome)
        ensures
            status == 404 ==> r == RequestOutcome::NotFound,
            status != 404 && !(200 <= status < 300) ==> r == RequestOutcome::Failed,
            200 <= status < 300 ==> r == RequestOutcome::Success,
    {
        if status == 404 {
            RequestOutcome::NotFound
        } else if !(200 <= status && status < 300) {
            RequestOutcome::Failed
        } else {
            RequestOutcome::Success
        }
    }

    /// What the status of the answer to a publication means.
    pub fn publish_outcome(status: u16) -> (r: PublishOutcome)
        ensures
            status == 401 ==> r == PublishOutcome::Unauthorized,
            status != 401 && !(200 <= status < 300) ==> r == PublishOutcome::Failed,
            200 <= status < 300 ==> r == PublishOutcome::Published,
    {
        if status == 401 {
            PublishOutcome::Unauthorized
        } else if !(200 <= status && status < 300) {
            PublishOutcome::Failed
        } else {
            PublishOutcome::Published
        }
    }

    /// The versions that the backend listed for a package, highest first; `None` when it does
    /// not know the package.
    pub fn versions_from_listing(listed: Option<&Vec<Version>>) -> (r: Option<Vec<Version>>)
        ensures
            r is None <==> listed is None,
            r matches Some(vs) ==> descending(versions_view(vs@)) && versions_view(vs@).to_multiset()
                == versions_view(listed->0@).to_multiset(),
    {
        match listed {
            Some(vs) => Some(sort_descending(vs)),
            None => None,
        }
    }
}

} // verus!
