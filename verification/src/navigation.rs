//! What a window is showing and how it got there: the kind of view, the folder
//! history behind it, and the tabs that each keep their own.

use crate::paths::{copy_bytes, parent, parent_of, path_eq, paths_view, same_path};
use crate::theme::opt_text;
use vstd::arithmetic::div_mod::{
    lemma_add_mod_noop, lemma_mod_add_multiples_vanish, lemma_mod_self_0, lemma_small_mod,
};
use vstd::prelude::*;

verus! {

/// Which file view is showing.
#[derive(Debug, Clone, Copy, PartialEq, Eq, Structural)]
pub enum ViewMode {
    Grid,
    List,
}

impl ViewMode {
    /// The name of the view's page in the window's stack.
    pub fn stack_name(self) -> (r: &'static str)
        ensures
            r@ == (if self == ViewMode::Grid {
                "grid"@
            } else {
                "list"@
            }),
    {
        match self {
            ViewMode::Grid => "grid",
            ViewMode::List => "list",
        }
    }
}

/// What the file view is showing. Not every view is one folder: the trash holds
/// items that belong elsewhere, and tag and search views gather files from all over.
#[derive(Debug, Clone, PartialEq, Eq)]
pub enum Location {
    /// An ordinary directory on disk.
    Directory(Vec<u8>),
    /// A trash directory. A real path, but its items belong somewhere else.
    Trash(Vec<u8>),
    /// Every file carrying one tag, gathered from across the filesystem.
    Tag(String),
    /// Results from a recursive search rooted in one local directory.
    Search { root: Vec<u8>, query: String },
}

impl Location {
    /// The directory an action should act in, for the views that are one place on
    /// disk; creating, pasting or opening a shell anywhere else has no meaning.
    pub fn working_directory(&self) -> (r: Option<&Vec<u8>>)
        ensures
            self matches Location::Directory(p) ==> r == Some(p),
            !(self is Directory) ==> r is None,
    {
        match self {
            Location::Directory(path) => Some(path),
            _ => None,
        }
    }

    /// True when the view gathers entries rather than showing one folder's contents.
    pub fn is_virtual(&self) -> (r: bool)
        ensures
            r == (self is Tag || self is Search),
    {
        match self {
            Location::Tag(_) | Location::Search { .. } => true,
            _ => false,
        }
    }

    /// True when the view's items are deleted files awaiting restore or removal.
    pub fn is_trash(&self) -> (r: bool)
        ensures
            r == (self is Trash),
    {
        match self {
            Location::Trash(_) => true,
            _ => false,
        }
    }

    /// True when new folders, pastes, drops and a shell make sense here.
    pub fn accepts_new_files(&self) -> (r: bool)
        ensures
            r == (self is Directory),
    {
        match self {
            Location::Directory(_) => true,
            _ => false,
        }
    }
}

/// The location a window shows: a search when one is displayed, else a tag view,
/// else the current folder, which is a trash view when it lies in a trash.
pub fn location_of(search: Option<(Vec<u8>, String)>, tag: Option<String>, current: Vec<u8>, in_trash: bool) -> (r: Location)
    ensures
        search matches Some((root, query)) ==> (r matches Location::Search { root: r2, query: q2 } && r2 == root && q2 == query),
        search is None && tag is Some ==> (r matches Location::Tag(t) && t == tag->0),
        search is None && tag is None && in_trash ==> r == Location::Trash(current),
        search is None && tag is None && !in_trash ==> r == Location::Directory(current),
{
    if let Some((root, query)) = search {
        return Location::Search { root, query };
    }
    if let Some(t) = tag {
        return Location::Tag(t);
    }
    if in_trash {
        Location::Trash(current)
    } else {
        Location::Directory(current)
    }
}

// ------------------------------------------------------------------ history ----

/// How a directory was reached: by navigating away from a folder, or by going back
/// or forward through the history.
#[derive(Debug, Clone, PartialEq, Eq)]
pub enum HistoryStep {
    Push(Vec<u8>),
    Back,
    Forward,
}

/// A history as plain values: the current folder, the back stack, the forward stack
/// (the most recent entry last in each).
pub type HistoryView = (Seq<u8>, Seq<Seq<u8>>, Seq<Seq<u8>>);

/// The history once `path` has been committed as the current folder after `step`.
/// Navigating away records where it came from and forgets the forward history
/// (unless it went nowhere); going back or forward moves the old folder to the
/// other stack.
pub open spec fn committed(h: HistoryView, path: Seq<u8>, step: Option<HistoryStep>) -> HistoryView {
    let (current, back, forward) = h;
    match step {
        Some(HistoryStep::Push(from)) => if !same_path(from@, path) {
            (path, back.push(from@), Seq::empty())
        } else {
            (path, back, forward)
        },
        Some(HistoryStep::Back) => (path, if back.len() > 0 {
            back.drop_last()
        } else {
            back
        }, forward.push(current)),
        Some(HistoryStep::Forward) => (path, back.push(current), if forward.len() > 0 {
            forward.drop_last()
        } else {
            forward
        }),
        None => (path, back, forward),
    }
}

/// The folder a window shows and the history behind it.
#[derive(Debug, Clone)]
pub struct History {
    pub current: Vec<u8>,
    pub back: Vec<Vec<u8>>,
    pub forward: Vec<Vec<u8>>,
}

impl View for History {
    type V = HistoryView;

    open spec fn view(&self) -> HistoryView {
        (self.current@, paths_view(self.back@), paths_view(self.forward@))
    }
}

impl History {
    /// A history that starts at `path`.
    pub fn new(path: Vec<u8>) -> (r: History)
        ensures
            r@ == (path@, Seq::<Seq<u8>>::empty(), Seq::<Seq<u8>>::empty()),
    {
        let r = History { current: path, back: Vec::new(), forward: Vec::new() };
        assert(r@ =~= (path@, Seq::<Seq<u8>>::empty(), Seq::<Seq<u8>>::empty()));
        r
    }

    /// The step that navigating to `path` takes, or `None` when it goes nowhere (the
    /// folder is already showing and no search is covering it).
    pub fn navigate_step(&self, path: &[u8], searching: bool) -> (r: Option<HistoryStep>)
        ensures
            !searching && same_path(self.current@, path@) ==> r is None,
            !(!searching && same_path(self.current@, path@)) ==> (r matches Some(HistoryStep::Push(from)) && from@ == self.current@),
    {
        if !searching && path_eq(self.current.as_slice(), path) {
            return None;
        }
        Some(HistoryStep::Push(copy_bytes(self.current.as_slice())))
    }

    /// Where going back leads, if anywhere.
    pub fn back_target(&self) -> (r: Option<Vec<u8>>)
        ensures
            self@.1.len() == 0 ==> r is None,
            self@.1.len() > 0 ==> (r matches Some(p) && p@ == self@.1.last()),
    {
        if self.back.len() == 0 {
            return None;
        }
        Some(copy_bytes(self.back[self.back.len() - 1].as_slice()))
    }

    /// Where going forward leads, if anywhere.
    pub fn forward_target(&self) -> (r: Option<Vec<u8>>)
        ensures
            self@.2.len() == 0 ==> r is None,
            self@.2.len() > 0 ==> (r matches Some(p) && p@ == self@.2.last()),
    {
        if self.forward.len() == 0 {
            return None;
        }
        Some(copy_bytes(self.forward[self.forward.len() - 1].as_slice()))
    }

    /// Where going up leads: the current folder's parent, if it has one.
    pub fn up_target(&self) -> (r: Option<Vec<u8>>)
        ensures
            match parent(self.current@) {
                Some(p) => r matches Some(q) && q@ == p,
                None => r is None,
            },
    {
        parent_of(self.current.as_slice())
    }

    /// Make `path` the current folder, reached by `step`.
    pub fn commit(&mut self, path: Vec<u8>, step: Option<HistoryStep>)
        ensures
            final(self)@ == committed(old(self)@, path@, step),
    {
        let ghost h = self@;
        let previous = copy_bytes(self.current.as_slice());
        match step {
            Some(HistoryStep::Push(from)) => {
                if !path_eq(from.as_slice(), path.as_slice()) {
                    let ghost b = paths_view(self.back@);
                    let ghost f = from@;
                    self.back.push(from);
                    assert(paths_view(self.back@) =~= b.push(f));
                    self.forward = Vec::new();
                }
            },
            Some(HistoryStep::Back) => {
                let ghost b = paths_view(self.back@);
                let ghost f = paths_view(self.forward@);
                if self.back.len() > 0 {
                    self.back.pop();
                    assert(paths_view(self.back@) =~= b.drop_last());
                }
                self.forward.push(previous);
                assert(paths_view(self.forward@) =~= f.push(h.0));
            },
            Some(HistoryStep::Forward) => {
                let ghost b = paths_view(self.back@);
                let ghost f = paths_view(self.forward@);
                if self.forward.len() > 0 {
                    self.forward.pop();
                    assert(paths_view(self.forward@) =~= f.drop_last());
                }
                self.back.push(previous);
                assert(paths_view(self.back@) =~= b.push(h.0));
            },
            None => {},
        }
        self.current = path;
        assert(self@ =~= committed(h, path@, step));
    }
}

/// Going back and then forward again returns to exactly where the window was.
pub proof fn lemma_back_then_forward(h: HistoryView)
    requires
        h.1.len() > 0,
    ensures
        committed(committed(h, h.1.last(), Some(HistoryStep::Back)), h.0, Some(HistoryStep::Forward)) == h,
{
    let once = committed(h, h.1.last(), Some(HistoryStep::Back));
    let twice = committed(once, h.0, Some(HistoryStep::Forward));
    assert(twice.1 =~= h.1);
    assert(twice.2 =~= h.2);
}

/// Navigating somewhere new remembers where the window was, to go back to, and
/// forgets everything it could have gone forward to.
pub proof fn lemma_navigation_clears_forward(h: HistoryView, from: Vec<u8>, path: Seq<u8>)
    requires
        from@ == h.0,
        !same_path(h.0, path),
    ensures
        committed(h, path, Some(HistoryStep::Push(from))) == (path, h.1.push(h.0), Seq::<Seq<u8>>::empty()),
{
}

/// One browsing tab: a location and its own history.
#[derive(Debug, Clone)]
pub struct Tab {
    pub path: Vec<u8>,
    pub back: Vec<Vec<u8>>,
    pub forward: Vec<Vec<u8>>,
    pub tag: Option<String>,
    pub search: Option<String>,
}

impl Tab {
    /// A fresh tab showing `path`, with no history and no tag or search view.
    pub fn new(path: Vec<u8>) -> (r: Tab)
        ensures
            r.path@ == path@,
            r.back@.len() == 0,
            r.forward@.len() == 0,
            r.tag is None,
            r.search is None,
    {
        Tab { path, back: Vec::new(), forward: Vec::new(), tag: None, search: None }
    }
}

/// A new tab showing `path` is added after the others; its index is returned.
pub fn open_tab(tabs: &mut Vec<Tab>, path: Vec<u8>) -> (r: usize)
    ensures
        r == old(tabs).len(),
        final(tabs)@.len() == old(tabs)@.len() + 1,
        forall|k: int| 0 <= k < old(tabs)@.len() ==> #[trigger] final(tabs)@[k] == old(tabs)@[k],
        final(tabs)@[r as int].path@ == path@,
        final(tabs)@[r as int].back@.len() == 0,
        final(tabs)@[r as int].forward@.len() == 0,
        final(tabs)@[r as int].tag is None,
        final(tabs)@[r as int].search is None,
{
    tabs.push(Tab::new(path));
    tabs.len() - 1
}

/// The tab shown after closing tab `index` of `count`: a tab before the closed one,
/// or after it, stays the one shown; closing the shown tab shows the tab that slid
/// into its place, or the one before it when it was the last.
pub open spec fn active_after_close(count: int, active: int, index: int) -> int {
    if active > index || active >= count - 1 {
        if active > 0 {
            active - 1
        } else {
            0
        }
    } else {
        active
    }
}

/// Close tab `index`, keeping at least one tab open, and say which tab to show next;
/// `None` when it was the only tab, which stays.
pub fn close_tab(tabs: &mut Vec<Tab>, active: usize, index: usize) -> (r: Option<usize>)
    requires
        old(tabs).len() > 1 ==> index < old(tabs).len(),
    ensures
        old(tabs).len() <= 1 ==> r is None && final(tabs)@ == old(tabs)@,
        old(tabs).len() > 1 ==> r == Some(active_after_close(old(tabs).len() as int, active as int, index as int) as usize)
            && final(tabs)@ == old(tabs)@.remove(index as int),
        old(tabs).len() > 1 && active < old(tabs).len() && active != index ==> final(tabs)@[r->0 as int] == old(tabs)@[active as int],
{
    if tabs.len() <= 1 {
        return None;
    }
    tabs.remove(index);
    let next = if active > index || active >= tabs.len() {
        if active > 0 {
            active - 1
        } else {
            0
        }
    } else {
        active
    };
    Some(next)
}

/// The tab cycling moves to from `active` among `count`: the next, or the previous,
/// wrapping around.
pub open spec fn cycled(count: int, active: int, forward: bool) -> int {
    if forward {
        (active + 1) % count
    } else {
        (active + count - 1) % count
    }
}

/// The tab to show after moving through the tabs; `None` with fewer than two.
pub fn cycle_tab(count: usize, active: usize, forward: bool) -> (r: Option<usize>)
    ensures
        count < 2 ==> r is None,
        count >= 2 ==> r == Some(cycled(count as int, active as int, forward) as usize),
{
    if count < 2 {
        return None;
    }
    let a = active % count;
    proof {
        let m = count as int;
        lemma_add_mod_noop(active as int, 1, m);
        lemma_add_mod_noop(active as int, m - 1, m);
        lemma_small_mod(1, m as nat);
        lemma_small_mod((m - 1) as nat, m as nat);
        lemma_mod_self_0(m);
        if a + 1 < m {
            lemma_small_mod((a + 1) as nat, m as nat);
        }
        if a > 0 {
            lemma_mod_add_multiples_vanish(a - 1, m);
            lemma_small_mod((a - 1) as nat, m as nat);
            assert(a + (m - 1) == m + (a - 1));
        } else {
            assert(a + (m - 1) == m - 1);
        }
    }
    if forward {
        if a + 1 == count {
            Some(0)
        } else {
            Some(a + 1)
        }
    } else if a == 0 {
        Some(count - 1)
    } else {
        Some(a - 1)
    }
}

/// Cycling forward and then back returns to the tab that was showing.
pub proof fn lemma_cycle_round_trip(count: int, active: int)
    requires
        count >= 2,
        0 <= active < count,
    ensures
        cycled(count, cycled(count, active, true), false) == active,
{
    let next = cycled(count, active, true);
    if active + 1 < count {
        lemma_small_mod((active + 1) as nat, count as nat);
        assert(next == active + 1);
        lemma_mod_add_multiples_vanish(active, count);
        lemma_small_mod(active as nat, count as nat);
        assert(next + count - 1 == count + active);
    } else {
        lemma_mod_self_0(count);
        assert(next == 0);
        lemma_small_mod((count - 1) as nat, count as nat);
    }
}

} // verus!
