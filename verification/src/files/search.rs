//! Bounded recursive search for local directories.
//!
//! The walk itself (reading directories and metadata, sending results) happens
//! outside this module. [`Search`] holds the state of one search and decides, entry by
//! entry, what is a result, which folders are searched next, and when a batch of
//! results is handed over.

use crate::paths::{lossy, path_text, paths_view};
use crate::text::{contains_str, contains_text, lowercase, lowercased};
use std::collections::VecDeque;
use vstd::prelude::*;

verus! {

/// Results are handed over in batches of this many paths.
pub const RESULT_BATCH: usize = 48;

/// What a search reports.
#[derive(Debug)]
pub enum SearchEvent {
    /// Paths whose names contain the query.
    Batch(Vec<Vec<u8>>),
    /// The search is over; `unreadable` directories or entries could not be read.
    Finished { unreadable: usize },
}

/// A name is a result when its lowercase form, read lossily as UTF-8, contains the
/// (already lowercase) query.
pub open spec fn name_matches(name: Seq<u8>, query: Seq<char>) -> bool {
    contains_text(lowercased(path_text(name)), query)
}

/// `a + 1`, stopping at the largest `usize`.
pub open spec fn saturating_inc(a: usize) -> usize {
    if a == usize::MAX {
        a
    } else {
        (a + 1) as usize
    }
}

/// The state of one search: the lowercase query, whether hidden entries count, the
/// device of the root (searches never cross a mount), the folders found and not yet
/// read, first found first, the results not yet handed over, and how many things
/// could not be read.
pub struct Search {
    pub query: String,
    pub show_hidden: bool,
    pub root_device: u64,
    pub pending: VecDeque<Vec<u8>>,
    pub batch: Vec<Vec<u8>>,
    pub unreadable: usize,
}

impl Search {
    /// A batch is handed over as soon as it is full, so the one being filled is
    /// never full.
    pub open spec fn wf(&self) -> bool {
        self.batch.len() < RESULT_BATCH
    }

    /// The folders still to be read, in the order they will be read.
    pub open spec fn queued(&self) -> Seq<Seq<u8>> {
        paths_view(self.pending@)
    }

    /// A search of `root` for names containing `query`, compared in lowercase.
    pub fn new(root: Vec<u8>, query: &str, show_hidden: bool, root_device: u64) -> (s: Search)
        ensures
            s.wf(),
            s.query@ == lowercased(query@),
            s.show_hidden == show_hidden,
            s.root_device == root_device,
            s.queued() == seq![root@],
            s.batch@.len() == 0,
            s.unreadable == 0,
    {
        let mut pending: VecDeque<Vec<u8>> = VecDeque::new();
        pending.push_back(root);
        let s = Search {
            query: lowercase(query),
            show_hidden,
            root_device,
            pending,
            batch: Vec::new(),
            unreadable: 0,
        };
        assert(s.queued() =~= seq![root@]);
        s
    }

    /// The next folder to read, first found first read; `None` when the walk is over.
    pub fn next_directory(&mut self) -> (r: Option<Vec<u8>>)
        requires
            old(self).wf(),
        ensures
            final(self).wf(),
            old(self).queued().len() == 0 ==> r is None && final(self).queued() == old(self).queued(),
            old(self).queued().len() > 0 ==> (r matches Some(d) && d@ == old(self).queued()[0])
                && final(self).queued() == old(self).queued().drop_first(),
            final(self).query == old(self).query,
            final(self).show_hidden == old(self).show_hidden,
            final(self).root_device == old(self).root_device,
            final(self).batch == old(self).batch,
            final(self).unreadable == old(self).unreadable,
    {
        let directory = self.pending.pop_front();
        proof {
            if old(self).queued().len() > 0 {
                assert(self.queued() =~= old(self).queued().drop_first());
            }
        }
        directory
    }

    /// Count one directory or entry that could not be read.
    pub fn record_unreadable(&mut self)
        ensures
            final(self).unreadable == saturating_inc(old(self).unreadable),
            final(self).query == old(self).query,
            final(self).show_hidden == old(self).show_hidden,
            final(self).root_device == old(self).root_device,
            final(self).pending == old(self).pending,
            final(self).batch == old(self).batch,
    {
        if self.unreadable < usize::MAX {
            self.unreadable = self.unreadable + 1;
        }
    }

    /// Hidden entries (names starting with `.`) are passed over unless asked for.
    pub fn skips(&self, name: &[u8]) -> (r: bool)
        ensures
            r == (!self.show_hidden && name@.len() > 0 && name@[0] == 46u8),
    {
        !self.show_hidden && name.len() > 0 && name[0] == 46u8
    }

    /// Take in one readable entry of the folder being read: a name that contains the
    /// query joins the batch, and a full batch is handed over; a folder on the root's
    /// device is queued to be read later (symlinks are never folders here).
    pub fn observe(&mut self, name: &[u8], path: Vec<u8>, is_dir: bool, device: u64) -> (r: Option<
        SearchEvent,
    >)
        requires
            old(self).wf(),
        ensures
            final(self).wf(),
            !name_matches(name@, old(self).query@) ==> r is None && final(self).batch == old(
                self,
            ).batch,
            name_matches(name@, old(self).query@) && old(self).batch.len() + 1 < RESULT_BATCH
                ==> r is None && paths_view(final(self).batch@) == paths_view(old(self).batch@).push(
                path@,
            ),
            name_matches(name@, old(self).query@) && old(self).batch.len() + 1 == RESULT_BATCH
                ==> (r matches Some(SearchEvent::Batch(b)) && paths_view(b@) == paths_view(
                old(self).batch@,
            ).push(path@)) && final(self).batch@.len() == 0,
            is_dir && device == old(self).root_device ==> final(self).queued() == old(
                self,
            ).queued().push(path@),
            !(is_dir && device == old(self).root_device) ==> final(self).queued() == old(
                self,
            ).queued(),
            final(self).query == old(self).query,
            final(self).show_hidden == old(self).show_hidden,
            final(self).root_device == old(self).root_device,
            final(self).unreadable == old(self).unreadable,
    {
        let shown = lossy(name);
        let lower = lowercase(shown.as_str());
        let mut event: Option<SearchEvent> = None;
        if contains_str(lower.as_str(), self.query.as_str()) {
            let ghost before = paths_view(self.batch@);
            self.batch.push(path.clone());
            assert(paths_view(self.batch@) =~= before.push(path@));
            if self.batch.len() == RESULT_BATCH {
                let mut full: Vec<Vec<u8>> = Vec::new();
                std::mem::swap(&mut full, &mut self.batch);
                event = Some(SearchEvent::Batch(full));
            }
        }
        if is_dir && device == self.root_device {
            let ghost before = self.queued();
            self.pending.push_back(path);
            assert(self.queued() =~= before.push(path@));
        }
        event
    }

    /// What is reported once the walk is over: the last, partial batch when there is
    /// one, then the count of what could not be read.
    pub fn finish(self) -> (r: Vec<SearchEvent>)
        ensures
            self.batch.len() == 0 ==> r.len() == 1 && (r[0] matches SearchEvent::Finished {
                unreadable,
            } && unreadable == self.unreadable),
            self.batch.len() > 0 ==> r.len() == 2 && (r[0] matches SearchEvent::Batch(b) && paths_view(
                b@,
            ) == paths_view(self.batch@)) && (r[1] matches SearchEvent::Finished { unreadable }
                && unreadable == self.unreadable),
    {
        let mut r: Vec<SearchEvent> = Vec::new();
        let unreadable = self.unreadable;
        if self.batch.len() > 0 {
            r.push(SearchEvent::Batch(self.batch));
        }
        r.push(SearchEvent::Finished { unreadable });
        r
    }
}

} // verus!
