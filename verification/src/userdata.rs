//! The player's progress: which levels are done, and when repository
//! levels were completed. Reading and writing the data file is the
//! persistence collaborator's business; this module owns the rules of
//! what gets recorded.

use vstd::prelude::*;

use vstd::string::StrSliceExecFns;
use vstd::string::StringExecFns;

use crate::level::LevelInfo;
use crate::level::LevelSource;
use crate::repository::Repository;
use crate::text::find_char;
use crate::text::first_index_of;
use crate::text::lines_of;
use crate::text::spec_split_lines;
use crate::text::spec_trim;
use crate::text::split_lines;
use crate::text::trim_spaces;

verus! {

/// A repository level the player has completed, as remembered in the
/// player's data file.
#[derive(Debug)]
pub struct CompletedRepoLevel {
    pub url: String,
    pub name: String,
    pub author: String,
    pub description: String,
    pub completed_at: u64,
}

/// The player's progress: the data file's path, the completed
/// built-in levels, the completed repository levels, and the
/// configured repositories.
pub struct UserData {
    pub file: String,
    pub completed_core_levels: Vec<usize>,
    pub completed_levels: Vec<CompletedRepoLevel>,
    pub repositories: Vec<Repository>,
}

/// The part of [`UserData`] that the data file holds.
#[derive(Debug)]
pub struct SerializedUserData {
    pub file: String,
    pub completed_core_levels: Vec<usize>,
    pub completed_levels: Vec<CompletedRepoLevel>,
}

/// Whether a built-in level is already recorded as completed.
pub open spec fn spec_core_completed(levels: Seq<usize>, level: usize) -> bool {
    exists|k: int| 0 <= k < levels.len() && levels[k] == level
}

/// Whether a repository level is already recorded: by its URL, or by
/// its name and author together.
pub open spec fn spec_repo_completed(
    levels: Seq<CompletedRepoLevel>,
    url: Seq<char>,
    name: Seq<char>,
    author: Seq<char>,
) -> bool {
    exists|k: int|
        0 <= k < levels.len() && ((#[trigger] levels[k]).url@ == url || (levels[k].name@ == name
            && levels[k].author@ == author))
}

/// Relies on std::time::SystemTime::now and duration_since: the wall
/// clock's seconds since the Unix epoch, zero if the clock stands
/// before it. Nothing is promised of the value.
#[verifier::external_body]
fn unix_time_secs() -> u64 {
    match std::time::SystemTime::now().duration_since(std::time::UNIX_EPOCH) {
        Ok(d) => d.as_secs(),
        Err(_) => 0u64,
    }
}

impl UserData {
    /// Records a completed built-in level, once: a level already in
    /// the list is not recorded again.
    fn complete_core(&mut self, level: usize)
        ensures
            final(self).file == old(self).file,
            final(self).repositories == old(self).repositories,
            final(self).completed_levels == old(self).completed_levels,
            final(self).completed_core_levels@ == (if spec_core_completed(
                old(self).completed_core_levels@,
                level,
            ) {
                old(self).completed_core_levels@
            } else {
                old(self).completed_core_levels@.push(level)
            }),
    {
        let n = self.completed_core_levels.len();
        let mut k: usize = 0;
        while k < n
            invariant
                n == self.completed_core_levels@.len(),
                k <= n,
                forall|t: int| 0 <= t < k ==> #[trigger] self.completed_core_levels@[t] != level,
                *self == *old(self),
            decreases n - k,
        {
            if self.completed_core_levels[k] == level {
                return ;
            }
            k = k + 1;
        }
        assert(!spec_core_completed(self.completed_core_levels@, level));
        self.completed_core_levels.push(level);
    }

    /// Records a completed repository level unless its URL — or its
    /// name and author together — is already recorded; the record
    /// carries the wall clock's idea of now.
    fn complete_repo(&mut self, url: String, name: String, author: String, description: String)
        ensures
            final(self).file == old(self).file,
            final(self).repositories == old(self).repositories,
            final(self).completed_core_levels == old(self).completed_core_levels,
            (if spec_repo_completed(old(self).completed_levels@, url@, name@, author@) {
                final(self).completed_levels == old(self).completed_levels
            } else {
                final(self).completed_levels@.len() == old(self).completed_levels@.len() + 1
                    && final(self).completed_levels@.take(
                    old(self).completed_levels@.len() as int,
                ) == old(self).completed_levels@ && final(self).completed_levels@.last().url@
                    == url@ && final(self).completed_levels@.last().name@ == name@ && final(self).completed_levels@.last().author@ == author@ && final(self).completed_levels@.last().description@ == description@
            }),
    {
        let n = self.completed_levels.len();
        let mut k: usize = 0;
        while k < n
            invariant
                n == self.completed_levels@.len(),
                k <= n,
                forall|t: int|
                    0 <= t < k ==> !((#[trigger] self.completed_levels@[t]).url@ == url@ || (
                    self.completed_levels@[t].name@ == name@
                        && self.completed_levels@[t].author@ == author@)),
                *self == *old(self),
            decreases n - k,
        {
            let hit = self.completed_levels[k].url == url || (self.completed_levels[k].name
                == name && self.completed_levels[k].author == author);
            if hit {
                return ;
            }
            k = k + 1;
        }
        assert(!spec_repo_completed(self.completed_levels@, url@, name@, author@));
        let completed_at = unix_time_secs();
        let ghost pre = self.completed_levels@;
        self.completed_levels.push(
            CompletedRepoLevel { url, completed_at, name, author, description },
        );
        proof {
            assert(self.completed_levels@.take(pre.len() as int) =~= pre);
        }
    }

    /// Records a finished level in memory. A built-in level joins the
    /// completed list once; a repository level is remembered with the
    /// time it finished unless it is already recorded; a level from a
    /// plain file is not tracked, which is the one error. Persisting
    /// the new state is the caller's business.
    pub fn complete(&mut self, level_info: LevelInfo) -> (r: Result<(), String>)
        ensures
            final(self).file == old(self).file,
            final(self).repositories == old(self).repositories,
            match level_info.source {
                LevelSource::Core(level) => r is Ok && final(self).completed_levels == old(
                    self,
                ).completed_levels && final(self).completed_core_levels@ == (if
                spec_core_completed(old(self).completed_core_levels@, level) {
                    old(self).completed_core_levels@
                } else {
                    old(self).completed_core_levels@.push(level)
                }),
                LevelSource::Url(url) => r is Ok && final(self).completed_core_levels == old(
                    self,
                ).completed_core_levels && (if spec_repo_completed(
                    old(self).completed_levels@,
                    url@,
                    level_info.name@,
                    level_info.author@,
                ) {
                    final(self).completed_levels == old(self).completed_levels
                } else {
                    final(self).completed_levels@.len() == old(self).completed_levels@.len() + 1
                        && final(self).completed_levels@.take(
                        old(self).completed_levels@.len() as int,
                    ) == old(self).completed_levels@ && final(self).completed_levels@.last().url@
                        == url@ && final(self).completed_levels@.last().name@ == level_info.name@
                        && final(self).completed_levels@.last().author@ == level_info.author@
                        && final(self).completed_levels@.last().description@
                        == level_info.description@
                }),
                LevelSource::File(_) => (r matches Err(m) && m@ == Seq::<char>::empty()) && *final(self) == *old(self),
            },
    {
        let LevelInfo { source, name, author, description } = level_info;
        match source {
            LevelSource::Core(level) => {
                self.complete_core(level);
                Ok(())
            },
            LevelSource::Url(url) => {
                self.complete_repo(url, name, author, description);
                Ok(())
            },
            LevelSource::File(_) => Err(String::new()),
        }
    }
}


/// The name and URL one configuration line yields: the trimmed line
/// must hold an equals sign; what stands before the first one and
/// what stands between the first and the second — or the end — are
/// the name and the URL, each trimmed.
pub open spec fn spec_repo_line(line: Seq<char>) -> Option<(Seq<char>, Seq<char>)> {
    let t = spec_trim(line);
    let i = first_index_of(t, '=');
    if i >= t.len() {
        None
    } else {
        let rest = t.skip(i + 1);
        let j = first_index_of(rest, '=');
        let second = if j >= rest.len() {
            rest
        } else {
            rest.take(j)
        };
        Some((spec_trim(t.take(i)), spec_trim(second)))
    }
}

/// The repository entries a configuration text yields, line by line;
/// a line without an equals sign configures nothing.
pub open spec fn spec_repo_entries(ls: Seq<Seq<char>>) -> Seq<(Seq<char>, Seq<char>)>
    decreases ls.len(),
{
    if ls.len() == 0 {
        Seq::empty()
    } else {
        match spec_repo_line(ls[0]) {
            Some(p) => seq![p] + spec_repo_entries(ls.drop_first()),
            None => spec_repo_entries(ls.drop_first()),
        }
    }
}

/// The name and URL of each repository in a collection.
pub open spec fn repo_views(rs: Seq<Repository>) -> Seq<(Seq<char>, Seq<char>)> {
    Seq::new(rs.len(), |t: int| (rs[t].name@, rs[t].url@))
}

impl UserData {
    /// Reads the repositories configuration: one `name=url` line per
    /// repository, whitespace around either side ignored, lines
    /// without an equals sign skipped.
    pub fn parse_repositories(content: &str) -> (r: Vec<Repository>)
        ensures
            repo_views(r@) == spec_repo_entries(spec_split_lines(spec_trim(content@))),
            forall|t: int| 0 <= t < r@.len() ==> (#[trigger] r@[t]).levels@.len() == 0,
    {
        let trimmed = trim_spaces(content);
        let all_lines = split_lines(trimmed);
        let ghost ls = lines_of(all_lines@);
        let mut result: Vec<Repository> = Vec::new();
        let n = all_lines.len();
        let mut k: usize = 0;
        proof {
            assert(ls.skip(0) =~= ls);
            assert(repo_views(result@) =~= Seq::<(Seq<char>, Seq<char>)>::empty());
            assert(Seq::<(Seq<char>, Seq<char>)>::empty() + spec_repo_entries(ls)
                =~= spec_repo_entries(ls));
        }
        while k < n
            invariant
                n == all_lines@.len(),
                k <= n,
                ls == lines_of(all_lines@),
                spec_repo_entries(ls) == repo_views(result@) + spec_repo_entries(
                    ls.skip(k as int),
                ),
                forall|t: int| 0 <= t < result@.len() ==> (#[trigger] result@[t]).levels@.len()
                    == 0,
            decreases n - k,
        {
            let ghost pre = result@;
            let line_trimmed = trim_spaces(all_lines[k].as_str());
            let tn = line_trimmed.unicode_len();
            let i = find_char(line_trimmed, '=');
            if i < tn {
                let first = line_trimmed.substring_char(0, i);
                let rest = line_trimmed.substring_char(i + 1, tn);
                let j = find_char(rest, '=');
                let second = rest.substring_char(0, j);
                let name = trim_spaces(first);
                let url = trim_spaces(second);
                result.push(
                    Repository::new(String::from_str(name), String::from_str(url)),
                );
                proof {
                    let t = spec_trim(ls[k as int]);
                    assert(first@ =~= t.take(i as int));
                    assert(rest@ =~= t.skip(i as int + 1));
                    if j as int >= rest@.len() {
                        assert(second@ =~= rest@);
                    } else {
                        assert(second@ =~= rest@.take(j as int));
                    }
                    assert(spec_repo_line(ls[k as int]) == Some((name@, url@)));
                    assert(repo_views(result@) =~= repo_views(pre).push((name@, url@)));
                    assert(ls.skip(k as int).drop_first() =~= ls.skip(k as int + 1));
                    assert(repo_views(pre) + (seq![(name@, url@)] + spec_repo_entries(
                        ls.skip(k as int + 1),
                    )) =~= repo_views(result@) + spec_repo_entries(ls.skip(k as int + 1)));
                }
            } else {
                proof {
                    assert(spec_repo_line(ls[k as int]) is None);
                    assert(ls.skip(k as int).drop_first() =~= ls.skip(k as int + 1));
                }
            }
            k = k + 1;
        }
        proof {
            assert(spec_repo_entries(ls.skip(n as int)) =~= Seq::<(Seq<char>, Seq<char>)>::empty());
            assert(repo_views(result@) + Seq::<(Seq<char>, Seq<char>)>::empty() =~= repo_views(
                result@,
            ));
        }
        result
    }
}

} // verus!
