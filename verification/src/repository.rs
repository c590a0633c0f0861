//! Remote level repositories: the listing a repository serves and how
//! it becomes level headers. Fetching the bytes is the network
//! collaborator's business.

use vstd::prelude::*;
use vstd::string::StringExecFns;

use crate::level::LevelInfo;
use crate::level::LevelSource;
use crate::level::LevelSourceV;

verus! {

/// A remote collection of levels: a display name, a base URL and the
/// listing last stored for it.
#[derive(Debug)]
pub struct Repository {
    pub name: String,
    pub url: String,
    pub levels: Vec<LevelInfo>,
}

/// One level of a repository's listing, as the repository serves it:
/// a source path relative to the repository and the three header
/// lines.
#[derive(Debug)]
pub struct RepositoryLevelInfo {
    pub source: String,
    pub name: String,
    pub author: String,
    pub description: String,
}

/// A repository's whole listing.
#[derive(Debug)]
pub struct RepositoryResponse {
    pub levels: Vec<RepositoryLevelInfo>,
}

impl Repository {
    /// A repository with the given name and URL and no listing yet.
    pub fn new(name: String, url: String) -> (r: Repository)
        ensures
            r.name@ == name@,
            r.url@ == url@,
            r.levels@.len() == 0,
    {
        Repository { name, url, levels: Vec::new() }
    }

    /// Stores a downloaded listing: each entry becomes a level header
    /// whose source is the repository's URL, a slash, and the entry's
    /// source path.
    pub fn apply_listing(&mut self, response: &RepositoryResponse)
        ensures
            final(self).name@ == old(self).name@,
            final(self).url@ == old(self).url@,
            final(self).levels@.len() == response.levels@.len(),
            forall|k: int|
                0 <= k < response.levels@.len() ==> {
                    let e = #[trigger] response.levels@[k];
                    let l = final(self).levels@[k];
                    &&& l.name@ == e.name@
                    &&& l.author@ == e.author@
                    &&& l.description@ == e.description@
                    &&& l.source@ == LevelSourceV::Url(old(self).url@ + "/"@ + e.source@)
                },
    {
        let n = response.levels.len();
        let mut levels: Vec<LevelInfo> = Vec::new();
        let mut k: usize = 0;
        while k < n
            invariant
                n == response.levels@.len(),
                k <= n,
                levels@.len() == k,
                self.name == old(self).name,
                self.url == old(self).url,
                forall|t: int|
                    0 <= t < k ==> {
                        let e = #[trigger] response.levels@[t];
                        let l = levels@[t];
                        &&& l.name@ == e.name@
                        &&& l.author@ == e.author@
                        &&& l.description@ == e.description@
                        &&& l.source@ == LevelSourceV::Url(old(self).url@ + "/"@ + e.source@)
                    },
            decreases n - k,
        {
            let url = self.url.clone().concat("/").concat(response.levels[k].source.as_str());
            levels.push(
                LevelInfo {
                    source: LevelSource::Url(url),
                    name: response.levels[k].name.clone(),
                    author: response.levels[k].author.clone(),
                    description: response.levels[k].description.clone(),
                },
            );
            k = k + 1;
        }
        self.levels = levels;
    }
}

} // verus!
