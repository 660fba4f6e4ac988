//! File operations: emptying and restoring the trash, permanent deletion, archives
//! and permissions.
//!
//! The filesystem and desktop calls happen outside this module. What each job decides
//! from what those calls answered, and what it reports, is here.

use crate::files::transfer::{
    candidate_name, destination_name, MAX_NAME_ATTEMPTS, display_name, display_text, Execution, Failure, ItemResult, ItemState, ItemView, JobReport,
    OperationKind,
};
use crate::files::trash::{
    containing, containing_index, files_dir, recorded_original, record_path, Removal, TrashDir,
    TrashedItem, InfoError, info_error_text, lemma_containing_index_facts,
};
use crate::files::{count_text, item_count_label};
use crate::paths::{
    copy_bytes, extend_bytes, extension, extension_of, file_name, file_name_of, file_stem,
    file_stem_of, join, join_path, lossy, path_text, parent, parent_of, path_eq, paths_view,
    same_path,
};
use crate::text::{
    contains_str, contains_text, decimal, decimal_string, push_str, text_bytes, text_eq,
};
use crate::theme::opt_text;
use vstd::prelude::*;
use vstd::utf8::encode_utf8;

verus! {

// ------------------------------------------------------------- free names ----

/// The name looked at on attempt `attempt` when a free name is wanted for `name`: the
/// name itself first, then ` (copy)`, ` (copy 2)` and so on, before the extension.
pub open spec fn free_name_candidate(name: Seq<u8>, attempt: nat) -> Seq<u8> {
    if attempt == 0 {
        name
    } else {
        candidate_name(name, attempt)
    }
}

/// The next name to look at when searching a folder for a free name for `name`, given
/// the attempt last found taken (`None` before the first look): that attempt's number
/// and name, or `None` once all [`MAX_NAME_ATTEMPTS`] names were found taken.
pub fn next_free_name(name: &[u8], last_taken: Option<u32>) -> (r: Option<(u32, Vec<u8>)>)
    ensures
        last_taken is None ==> (r matches Some((a, n)) && a == 0 && n@ == name@),
        last_taken matches Some(a) ==> if a + 1 < MAX_NAME_ATTEMPTS {
            r matches Some((b, n)) && b == a + 1 && n@ == free_name_candidate(name@, b as nat)
        } else {
            r is None
        },
{
    match last_taken {
        None => Some((0, copy_bytes(name))),
        Some(a) => if a < MAX_NAME_ATTEMPTS - 1 {
            let b = a + 1;
            Some((b, destination_name(name, b)))
        } else {
            None
        },
    }
}

// -------------------------------------------------------------------- trash ----

/// What Empty Trash would actually remove, so the confirmation can name real numbers.
#[derive(Debug, Clone, Copy, PartialEq, Eq, Structural)]
pub struct TrashScope {
    pub items: usize,
    pub records: usize,
    pub locations: usize,
}

/// The sentence that names what Empty Trash removes.
pub open spec fn scope_text(s: TrashScope) -> Seq<char> {
    count_text(s.items as nat) + (if s.locations > 1 {
        " across "@ + decimal(s.locations as nat) + " trash locations"@
    } else {
        Seq::empty()
    }) + (if s.records > 0 {
        ", plus "@ + decimal(s.records as nat) + " leftover trash "@ + (if s.records == 1 {
            "record"@
        } else {
            "records"@
        })
    } else {
        Seq::empty()
    })
}

impl TrashScope {
    /// True when there is nothing to remove.
    pub fn is_empty(&self) -> (r: bool)
        ensures
            r == (self.items == 0 && self.records == 0),
    {
        self.items == 0 && self.records == 0
    }

    /// One sentence naming exactly what will be deleted and from where.
    pub fn describe(&self) -> (r: String)
        ensures
            r@ == scope_text(*self),
    {
        let mut d = item_count_label(self.items);
        let ghost first = d@;
        if self.locations > 1 {
            push_str(&mut d, " across ");
            let n = decimal_string(self.locations as u64);
            push_str(&mut d, n.as_str());
            push_str(&mut d, " trash locations");
        }
        let ghost second = d@;
        assert(second =~= first + (if self.locations > 1 {
            " across "@ + decimal(self.locations as nat) + " trash locations"@
        } else {
            Seq::empty()
        }));
        if self.records > 0 {
            push_str(&mut d, ", plus ");
            let n = decimal_string(self.records as u64);
            push_str(&mut d, n.as_str());
            push_str(&mut d, " leftover trash ");
            push_str(&mut d, if self.records == 1 { "record" } else { "records" });
        }
        assert(d@ =~= scope_text(*self));
        d
    }
}

/// One trashed item that a restore is prepared to put back.
#[derive(Debug, Clone)]
pub struct RestoreTarget {
    /// The item as it sits in the trash right now.
    pub file: Vec<u8>,
    /// Its restore record, removed only once the item is back in place.
    pub info: Vec<u8>,
    /// The folder it came from.
    pub parent: Vec<u8>,
    /// The name it must be restored under, with its raw bytes intact.
    pub name: Vec<u8>,
    /// False when the original folder has been removed since the item was trashed.
    pub parent_exists: bool,
    /// True when something already occupies the original location.
    pub occupied: bool,
    /// Where the record says it came from and when it was deleted.
    pub origin: Option<String>,
}

/// What a restore will run into before it starts.
#[derive(Debug)]
pub struct RestorePlan {
    pub targets: Vec<RestoreTarget>,
    /// Items whose record cannot tell Teral where they came from, with the reason.
    pub unrestorable: Vec<(Vec<u8>, String)>,
}

/// How many targets satisfy `p`.
pub open spec fn count_targets(ts: Seq<RestoreTarget>, p: spec_fn(RestoreTarget) -> bool) -> nat
    decreases ts.len(),
{
    if ts.len() == 0 {
        0
    } else {
        count_targets(ts.drop_last(), p) + if p(ts.last()) {
            1nat
        } else {
            0nat
        }
    }
}

impl RestorePlan {
    fn count(&self, occupied: bool) -> (r: usize)
        ensures
            occupied ==> r == count_targets(self.targets@, |t: RestoreTarget| t.occupied),
            !occupied ==> r == count_targets(self.targets@, |t: RestoreTarget| !t.parent_exists),
    {
        let ghost p = if occupied {
            |t: RestoreTarget| t.occupied
        } else {
            |t: RestoreTarget| !t.parent_exists
        };
        let ghost ts = self.targets@;
        let mut n: usize = 0;
        let mut k: usize = 0;
        assert(ts.take(0) =~= Seq::<RestoreTarget>::empty());
        while k < self.targets.len()
            invariant
                k <= self.targets.len(),
                ts == self.targets@,
                p == (if occupied {
                    |t: RestoreTarget| t.occupied
                } else {
                    |t: RestoreTarget| !t.parent_exists
                }),
                n == count_targets(ts.take(k as int), p),
                n <= k,
            decreases self.targets.len() - k,
        {
            let ghost next = ts.take(k + 1);
            assert(next.drop_last() =~= ts.take(k as int));
            let t = &self.targets[k];
            let hit = if occupied {
                t.occupied
            } else {
                !t.parent_exists
            };
            if hit {
                n = n + 1;
            }
            k += 1;
        }
        assert(ts.take(self.targets.len() as int) =~= ts);
        n
    }

    /// How many targets would land on something that already exists.
    pub fn conflicts(&self) -> (r: usize)
        ensures
            r == count_targets(self.targets@, |t: RestoreTarget| t.occupied),
    {
        self.count(true)
    }

    /// How many targets came from a folder that no longer exists.
    pub fn missing_parents(&self) -> (r: usize)
        ensures
            r == count_targets(self.targets@, |t: RestoreTarget| !t.parent_exists),
    {
        self.count(false)
    }
}

/// The trash a selected path can be restored from: the trash holding it, when it is a
/// whole item at the top of that trash's `files/`.
pub open spec fn restore_source_for(path: Seq<u8>, dirs: Seq<(Seq<u8>, Seq<u8>)>) -> Result<int, Seq<char>> {
    match containing_index(path, dirs) {
        None => Err("it is not in a trash directory Teral can restore from"@),
        Some(i) => if parent(path) matches Some(p) && same_path(p, files_dir(dirs[i].0)) {
            Ok(i)
        } else {
            Err("only whole trashed items can be restored; restore the item it is inside"@)
        },
    }
}

/// The trash a selected path can be restored from, or why it cannot be restored.
/// Something further inside a trashed folder has no record of its own; it comes back
/// with the folder it lives in.
pub fn restore_source(path: &[u8], dirs: &Vec<TrashDir>) -> (r: Result<TrashDir, String>)
    ensures
        match restore_source_for(path@, dirs.deep_view()) {
            Ok(i) => r matches Ok(d) && d@ == dirs@[i]@,
            Err(e) => r matches Err(m) && m@ == e,
        },
{
    let dir = match containing(path, dirs) {
        Some(d) => d,
        None => return Err(String::from_str("it is not in a trash directory Teral can restore from")),
    };
    let ghost i = containing_index(path@, dirs.deep_view())->0;
    proof {
        lemma_containing_index_facts(path@, dirs.deep_view());
    }
    assert(dirs.deep_view()[i] == dirs@[i].deep_view());
    assert(dirs.deep_view()[i].0 == dir.root@);
    let files = dir.files();
    let whole = match parent_of(path) {
        Some(p) => path_eq(p.as_slice(), files.as_slice()),
        None => false,
    };
    if !whole {
        return Err(String::from_str("only whole trashed items can be restored; restore the item it is inside"));
    }
    Ok(dir.clone())
}

/// Where a trashed item goes back to, as a folder and a name, or why its record
/// cannot say.
pub fn restore_destination(item: &TrashedItem) -> (r: Result<(Vec<u8>, Vec<u8>), String>)
    ensures
        r matches Ok(pn) ==> recorded_original(item) matches Some(o) && parent(o) == Some(pn.0@) && file_name(o) == Some(pn.1@),
        (recorded_original(item) matches Some(o) && parent(o) is Some && file_name(o) is Some) ==> r is Ok,
        r matches Err(m) ==> (item.info_result matches Err(e) ==> m@ == info_error_text(&e)) && (item.info_result is Ok ==> m@ == "its trash record does not name a folder to restore into"@),
{
    match (item.original_parent(), item.original_name()) {
        (Some(p), Some(n)) => Ok((p, n)),
        _ => match &item.info_result {
            Err(e) => Err(e.message()),
            Ok(_) => Err(String::from_str("its trash record does not name a folder to restore into")),
        },
    }
}

/// What to do about a restore whose original folder no longer exists.
#[derive(Debug, Clone, Copy, PartialEq, Eq, Structural)]
pub enum MissingParent {
    /// Recreate the folder chain and restore into it.
    Recreate,
    /// Leave the item in the trash and say so.
    Fail,
}

/// What happened when one target was put back.
#[derive(Debug)]
pub enum RestoreOutcome {
    /// Its folder was gone and was not to be recreated.
    ParentMissing,
    /// Its folder was gone and could not be recreated, for this reason.
    ParentNotRecreated(String),
    /// It was placed like this; when it completed, removing its record gave this.
    Placed(Result<Execution, Failure>, Result<(), String>),
}

/// ` (origin)` when the record said where an item came from, and nothing otherwise.
pub open spec fn origin_note(origin: Option<Seq<char>>) -> Seq<char> {
    match origin {
        Some(o) => " ("@ + o + ")"@,
        None => Seq::empty(),
    }
}

/// Append what a trash record knows about an item, when it knows anything.
pub fn describe_origin(origin: Option<&str>) -> (r: String)
    ensures
        r@ == origin_note(
            match origin {
                Some(o) => Some(o@),
                None => None,
            },
        ),
{
    match origin {
        Some(o) => {
            let mut r = String::from_str(" (");
            push_str(&mut r, o);
            push_str(&mut r, ")");
            r
        },
        None => String::new(),
    }
}

/// The outcome a restore records for one target.
pub open spec fn restore_item_view(t: RestoreTarget, outcome: RestoreOutcome) -> ItemView {
    let requested = join(t.parent@, t.name@);
    match outcome {
        RestoreOutcome::ParentMissing => (t.file@, requested, None, 0u64, ItemState::Failed, Some(
            "its original folder "@ + path_text(t.parent@) + " no longer exists"@ + origin_note(
                opt_text(t.origin),
            ),
        )),
        RestoreOutcome::ParentNotRecreated(e) => (t.file@, requested, None, 0u64, ItemState::Failed, Some(
            "its original folder "@ + path_text(t.parent@) + " could not be recreated: "@ + e@,
        )),
        RestoreOutcome::Placed(placement, record) => match placement {
            Ok(Execution::Completed(p)) => match record {
                Ok(()) => (t.file@, requested, Some(p@), 0u64, ItemState::Completed, None),
                Err(e) => (t.file@, requested, Some(p@), 0u64, ItemState::Partial, Some(
                    "it was restored, but its trash record could not be removed: "@ + e@,
                )),
            },
            Ok(Execution::Skipped(p)) => (t.file@, requested, Some(p@), 0u64, ItemState::Skipped, None),
            Ok(Execution::Partial(p, e)) => (t.file@, requested, Some(p@), 0u64, ItemState::Partial, Some(e@)),
            Err(f) => if f.cancelled {
                (t.file@, requested, None, 0u64, ItemState::Cancelled, Some("cancelled"@))
            } else {
                (t.file@, requested, None, 0u64, ItemState::Failed, Some(f.message@ + origin_note(opt_text(t.origin))))
            },
        },
    }
}

/// The outcome a restore records for one target. The record goes only once the item
/// is demonstrably back; a restore that lands but keeps its record is partial.
pub fn restore_item(target: &RestoreTarget, outcome: RestoreOutcome) -> (r: ItemResult)
    ensures
        r@ == restore_item_view(*target, outcome),
{
    let requested = join_path(target.parent.as_slice(), target.name.as_slice());
    let mut item = ItemResult::new(copy_bytes(target.file.as_slice()), requested);
    let origin = match &target.origin {
        Some(o) => describe_origin(Some(o.as_str())),
        None => describe_origin(None),
    };
    match outcome {
        RestoreOutcome::ParentMissing => {
            let mut m = String::from_str("its original folder ");
            let shown = lossy(target.parent.as_slice());
            push_str(&mut m, shown.as_str());
            push_str(&mut m, " no longer exists");
            push_str(&mut m, origin.as_str());
            item.error = Some(m);
        },
        RestoreOutcome::ParentNotRecreated(e) => {
            let mut m = String::from_str("its original folder ");
            let shown = lossy(target.parent.as_slice());
            push_str(&mut m, shown.as_str());
            push_str(&mut m, " could not be recreated: ");
            push_str(&mut m, e.as_str());
            item.error = Some(m);
        },
        RestoreOutcome::Placed(placement, record) => match placement {
            Ok(Execution::Completed(p)) => {
                item.actual_destination = Some(p);
                match record {
                    Ok(()) => {
                        item.state = ItemState::Completed;
                    },
                    Err(e) => {
                        item.state = ItemState::Partial;
                        let mut m = String::from_str("it was restored, but its trash record could not be removed: ");
                        push_str(&mut m, e.as_str());
                        item.error = Some(m);
                    },
                }
            },
            Ok(Execution::Skipped(p)) => {
                item.actual_destination = Some(p);
                item.state = ItemState::Skipped;
            },
            Ok(Execution::Partial(p, e)) => {
                item.actual_destination = Some(p);
                item.state = ItemState::Partial;
                item.error = Some(e);
            },
            Err(f) => {
                if f.cancelled {
                    item.state = ItemState::Cancelled;
                    item.error = Some(String::from_str("cancelled"));
                } else {
                    let mut m = f.message;
                    push_str(&mut m, origin.as_str());
                    item.error = Some(m);
                }
            },
        },
    }
    item
}

/// The item a batch deletion records for one path.
pub open spec fn removal_item(path: Seq<u8>, outcome: Removal) -> ItemView {
    match outcome {
        Removal::Removed => (path, path, None, 0u64, ItemState::Completed, None),
        Removal::RecordRemains(e) => (path, path, None, 0u64, ItemState::Partial, Some(e@)),
        Removal::Failed(e) => (path, path, None, 0u64, ItemState::Failed, Some(e@)),
        Removal::Cancelled => (path, path, None, 0u64, ItemState::Cancelled, Some("cancelled"@)),
    }
}

/// Turn per-item removal outcomes into the report the UI reads, one item per path
/// that has an outcome, in order.
pub fn collect_removals(kind: OperationKind, paths: &Vec<Vec<u8>>, outcomes: Vec<Removal>) -> (r: JobReport)
    ensures
        r.kind == kind,
        r.items_view().len() == if paths.len() < outcomes.len() {
            paths.len()
        } else {
            outcomes.len()
        },
        forall|k: int| 0 <= k < r.items_view().len() ==> #[trigger] r.items_view()[k] == removal_item(paths@[k]@, outcomes@[k]),
        r.cancelled == exists|k: int| 0 <= k < r.items_view().len() && (#[trigger] outcomes@[k]) is Cancelled,
{
    let n = if paths.len() < outcomes.len() {
        paths.len()
    } else {
        outcomes.len()
    };
    let mut report = JobReport::new(kind);
    let mut k: usize = 0;
    while k < n
        invariant
            k <= n,
            n <= paths.len(),
            n <= outcomes.len(),
            report.kind == kind,
            report.items_view().len() == k,
            forall|j: int| 0 <= j < k ==> #[trigger] report.items_view()[j] == removal_item(paths@[j]@, outcomes@[j]),
            report.cancelled == exists|j: int| 0 <= j < k && (#[trigger] outcomes@[j]) is Cancelled,
        decreases n - k,
    {
        let path = &paths[k];
        let mut item = ItemResult::new(copy_bytes(path.as_slice()), copy_bytes(path.as_slice()));
        match &outcomes[k] {
            Removal::Removed => {
                item.state = ItemState::Completed;
            },
            Removal::RecordRemains(e) => {
                item.state = ItemState::Partial;
                item.error = Some(e.clone());
            },
            Removal::Failed(e) => {
                item.error = Some(e.clone());
            },
            Removal::Cancelled => {
                item.state = ItemState::Cancelled;
                item.error = Some(String::from_str("cancelled"));
            },
        }
        assert(item@ == removal_item(paths@[k as int]@, outcomes@[k as int]));
        let ghost before = report.items_view();
        report.record(item);
        assert(report.items_view()[k as int] == removal_item(paths@[k as int]@, outcomes@[k as int]));
        assert(forall|j: int| 0 <= j < k ==> report.items_view()[j] == before[j]);
        k += 1;
    }
    report
}

/// The restore record belonging to `path`, when `path` is a whole trashed item.
pub open spec fn record_for_path(path: Seq<u8>, dirs: Seq<(Seq<u8>, Seq<u8>)>) -> Option<Seq<u8>> {
    match containing_index(path, dirs) {
        None => None,
        Some(i) => if parent(path) matches Some(p) && same_path(p, files_dir(dirs[i].0)) {
            match file_name(path) {
                Some(n) => Some(record_path(dirs[i].0, n)),
                None => None,
            }
        } else {
            None
        },
    }
}

/// The restore record belonging to `path`, when `path` is a whole trashed item.
/// Anything deeper inside a trashed folder has no record of its own, and the folder's
/// record must not go because one child was deleted.
pub fn record_for(path: &[u8], dirs: &Vec<TrashDir>) -> (r: Option<Vec<u8>>)
    ensures
        match record_for_path(path@, dirs.deep_view()) {
            Some(p) => r matches Some(q) && q@ == p,
            None => r is None,
        },
{
    let dir = match containing(path, dirs) {
        Some(d) => d,
        None => return None,
    };
    let ghost i = containing_index(path@, dirs.deep_view())->0;
    proof {
        lemma_containing_index_facts(path@, dirs.deep_view());
    }
    assert(dirs.deep_view()[i] == dirs@[i].deep_view());
    let files = dir.files();
    let whole = match parent_of(path) {
        Some(p) => path_eq(p.as_slice(), files.as_slice()),
        None => false,
    };
    if !whole {
        return None;
    }
    match file_name_of(path) {
        Some(name) => Some(dir.info_path(name.as_slice())),
        None => None,
    }
}

/// Why moving something to the trash failed, as far as the desktop said.
#[derive(Debug, Clone, Copy, PartialEq, Eq, Structural)]
pub enum TrashFailure {
    NotFound,
    PermissionDenied,
    NotSupported,
    Other,
}

/// What a failed move to the trash says, around the desktop's own message.
pub open spec fn trash_failure_text(kind: TrashFailure, message: Seq<char>) -> Seq<char> {
    match kind {
        TrashFailure::NotFound => "it no longer exists ("@ + message + ")"@,
        TrashFailure::PermissionDenied => "permission was denied ("@ + message + ")"@,
        TrashFailure::NotSupported => "this filesystem has no trash Teral can use ("@ + message + ")"@,
        TrashFailure::Other => message,
    }
}

/// Say what actually went wrong when moving something to the trash.
pub fn describe_trash_failure(kind: TrashFailure, message: &str) -> (r: String)
    ensures
        r@ == trash_failure_text(kind, message@),
{
    let (lead, wrap) = match kind {
        TrashFailure::NotFound => ("it no longer exists (", true),
        TrashFailure::PermissionDenied => ("permission was denied (", true),
        TrashFailure::NotSupported => ("this filesystem has no trash Teral can use (", true),
        TrashFailure::Other => ("", false),
    };
    if !wrap {
        return String::from_str(message);
    }
    let mut r = String::from_str(lead);
    push_str(&mut r, message);
    push_str(&mut r, ")");
    r
}

/// The item Empty Trash records for a trash whose contents could not be listed.
pub fn unlisted_trash_item(dir: &TrashDir, error: &str) -> (r: ItemResult)
    ensures
        r@ == (files_dir(dir.root@), files_dir(dir.root@), None::<Seq<u8>>, 0u64, ItemState::Failed, Some(
            "its contents could not be read: "@ + error@,
        )),
{
    let mut item = ItemResult::new(dir.files(), dir.files());
    let mut m = String::from_str("its contents could not be read: ");
    push_str(&mut m, error);
    item.error = Some(m);
    item
}

/// The item Empty Trash records for a leftover record it tried to discard.
pub fn leftover_record_item(record: &[u8], discarded: Result<(), String>) -> (r: ItemResult)
    ensures
        discarded is Ok ==> r@ == (record@, record@, None::<Seq<u8>>, 0u64, ItemState::Completed, None::<Seq<char>>),
        discarded matches Err(e) ==> r@ == (record@, record@, None::<Seq<u8>>, 0u64, ItemState::Failed, Some(
            "a leftover trash record remains: "@ + e@,
        )),
{
    let mut item = ItemResult::new(copy_bytes(record), copy_bytes(record));
    match discarded {
        Ok(()) => {
            item.state = ItemState::Completed;
        },
        Err(e) => {
            let mut m = String::from_str("a leftover trash record remains: ");
            push_str(&mut m, e.as_str());
            item.error = Some(m);
        },
    }
    item
}

// ----------------------------------------------------------------- archives ----

/// Content types Teral offers to extract.
pub open spec fn archive_types() -> Seq<Seq<char>> {
    seq![
        "application/zip"@,
        "application/x-tar"@,
        "application/gzip"@,
        "application/x-gzip"@,
        "application/x-bzip2"@,
        "application/x-xz"@,
        "application/zstd"@,
        "application/x-7z-compressed"@,
        "application/vnd.rar"@,
        "application/x-rar"@,
        "application/x-rar-compressed"@,
        "application/x-compressed-tar"@,
    ]
}

/// Content types Teral offers to extract, in the same order as `archive_types`.
pub fn archive_type_list() -> (r: Vec<&'static str>)
    ensures
        r@.map_values(|s: &'static str| s@) == archive_types(),
{
    let mut r: Vec<&'static str> = Vec::new();
    r.push("application/zip");
    r.push("application/x-tar");
    r.push("application/gzip");
    r.push("application/x-gzip");
    r.push("application/x-bzip2");
    r.push("application/x-xz");
    r.push("application/zstd");
    r.push("application/x-7z-compressed");
    r.push("application/vnd.rar");
    r.push("application/x-rar");
    r.push("application/x-rar-compressed");
    r.push("application/x-compressed-tar");
    assert(r@.map_values(|s: &'static str| s@) =~= archive_types());
    r
}

fn listed(value: &str, list: &Vec<&'static str>) -> (r: bool)
    ensures
        r == list@.map_values(|s: &'static str| s@).contains(value@),
{
    let ghost l = list@.map_values(|s: &'static str| s@);
    let mut i: usize = 0;
    while i < list.len()
        invariant
            i <= list.len(),
            l == list@.map_values(|s: &'static str| s@),
            forall|j: int| 0 <= j < i ==> l[j] != value@,
        decreases list.len() - i,
    {
        if text_eq(list[i], value) {
            assert(l[i as int] == value@);
            return true;
        }
        i += 1;
    }
    false
}

/// True when Teral knows how to unpack an entry of this content type.
pub fn is_archive(content_type: Option<&str>) -> (r: bool)
    ensures
        r == (content_type matches Some(v) && archive_types().contains(v@)),
{
    match content_type {
        Some(v) => {
            let list = archive_type_list();
            listed(v, &list)
        },
        None => false,
    }
}

/// `extracted`, as bytes.
pub open spec fn extracted_name() -> Seq<u8> {
    seq![101u8, 120u8, 116u8, 114u8, 97u8, 99u8, 116u8, 101u8, 100u8]
}

/// `tar`, as bytes.
pub open spec fn tar_name() -> Seq<u8> {
    seq![116u8, 97u8, 114u8]
}

/// The name an archive's contents are extracted into: its stem, with a `.tar`
/// dropped as well (`project.tar.gz` becomes `project`), or `extracted` when nothing
/// is left.
pub open spec fn archive_stem_of(path: Seq<u8>) -> Seq<u8> {
    let stem = match file_stem(path) {
        Some(s) => s,
        None => Seq::empty(),
    };
    let stem2 = if extension(stem) == Some(tar_name()) {
        match file_stem(stem) {
            Some(s) => s,
            None => Seq::empty(),
        }
    } else {
        stem
    };
    if stem2.len() == 0 {
        extracted_name()
    } else {
        stem2
    }
}

/// The name an archive's contents should be extracted into.
pub fn archive_stem(path: &[u8]) -> (r: Vec<u8>)
    ensures
        r@ == archive_stem_of(path@),
{
    let mut stem = match file_stem_of(path) {
        Some(s) => s,
        None => Vec::new(),
    };
    let is_tar = match extension_of(stem.as_slice()) {
        Some(e) => e.len() == 3 && e[0] == 116u8 && e[1] == 97u8 && e[2] == 114u8,
        None => false,
    };
    assert(is_tar == (extension(stem@) == Some(tar_name()))) by {
        if extension(stem@) == Some(tar_name()) {
            assert(tar_name()[0] == 116u8);
        }
        if is_tar {
            let e = extension(stem@)->0;
            assert(e =~= tar_name());
        }
    }
    if is_tar {
        stem = match file_stem_of(stem.as_slice()) {
            Some(s) => s,
            None => Vec::new(),
        };
    }
    if stem.len() == 0 {
        let r = copy_bytes(&[101u8, 120u8, 116u8, 114u8, 97u8, 99u8, 116u8, 101u8, 100u8]);
        assert(r@ =~= extracted_name());
        return r;
    }
    stem
}

/// `archive`, as bytes.
pub open spec fn archive_word() -> Seq<u8> {
    seq![97u8, 114u8, 99u8, 104u8, 105u8, 118u8, 101u8]
}

/// The name a new archive of `paths` takes inside `directory`: one item keeps its own
/// name, several take the folder's name, and `.zip` follows.
pub open spec fn archive_name_of(directory: Seq<u8>, paths: Seq<Seq<u8>>) -> Seq<u8> {
    let base = if paths.len() == 1 {
        file_name(paths[0])
    } else {
        file_name(directory)
    };
    (match base {
        Some(n) => n,
        None => archive_word(),
    }) + seq![46u8, 122u8, 105u8, 112u8]
}

/// The name a new archive of `paths` should take, inside `directory`.
pub fn archive_name(directory: &[u8], paths: &Vec<Vec<u8>>) -> (r: Vec<u8>)
    ensures
        r@ == archive_name_of(directory@, paths_view(paths@)),
{
    let base = if paths.len() == 1 {
        file_name_of(paths[0].as_slice())
    } else {
        file_name_of(directory)
    };
    let mut name = match base {
        Some(n) => n,
        None => {
            let w = copy_bytes(&[97u8, 114u8, 99u8, 104u8, 105u8, 118u8, 101u8]);
            assert(w@ =~= archive_word());
            w
        },
    };
    let ghost b = name@;
    extend_bytes(&mut name, &[46u8, 122u8, 105u8, 112u8]);
    assert(name@ =~= b + seq![46u8, 122u8, 105u8, 112u8]);
    name
}

/// The archiving programs found on this machine.
#[derive(Debug)]
pub struct ArchiveTools {
    pub bsdtar: Option<Vec<u8>>,
    pub unzip: Option<Vec<u8>>,
    pub seven_z: Option<Vec<u8>>,
    pub seven_za: Option<Vec<u8>>,
    pub unrar: Option<Vec<u8>>,
    pub tar: Option<Vec<u8>>,
    pub zip: Option<Vec<u8>>,
}

/// The UTF-8 bytes of a word.
pub open spec fn word(s: Seq<char>) -> Seq<u8> {
    encode_utf8(s)
}

/// The command that unpacks `archive` into `destination`: `bsdtar` when it is
/// installed (it handles every format), otherwise the tool for the content type.
pub open spec fn extract_command_for(archive: Seq<u8>, destination: Seq<u8>, content_type: Seq<char>, t: &ArchiveTools) -> Option<Seq<Seq<u8>>> {
    if t.bsdtar is Some {
        Some(seq![t.bsdtar->0@, word("-x"@), word("-f"@), archive, word("-C"@), destination])
    } else if content_type == "application/zip"@ {
        match &t.unzip {
            Some(p) => Some(seq![p@, word("-o"@), word("-q"@), archive, word("-d"@), destination]),
            None => None,
        }
    } else if content_type == "application/x-7z-compressed"@ {
        let seven = if t.seven_z is Some {
            t.seven_z
        } else {
            t.seven_za
        };
        match seven {
            Some(p) => Some(seq![p@, word("x"@), word("-y"@), word("-o"@) + destination, archive]),
            None => None,
        }
    } else if content_type == "application/vnd.rar"@ || content_type == "application/x-rar"@ || content_type
        == "application/x-rar-compressed"@ {
        match &t.unrar {
            Some(p) => Some(seq![p@, word("x"@), word("-y"@), archive, destination]),
            None => None,
        }
    } else {
        match &t.tar {
            Some(p) => Some(seq![p@, word("-x"@), word("-f"@), archive, word("-C"@), destination]),
            None => None,
        }
    }
}

fn push_word(v: &mut Vec<Vec<u8>>, w: &str)
    ensures
        paths_view(final(v)@) == paths_view(old(v)@).push(word(w@)),
{
    let ghost before = paths_view(v@);
    let b = text_bytes(w);
    v.push(b);
    assert(paths_view(v@) =~= before.push(word(w@)));
}

fn push_path(v: &mut Vec<Vec<u8>>, p: &[u8])
    ensures
        paths_view(final(v)@) == paths_view(old(v)@).push(p@),
{
    let ghost before = paths_view(v@);
    v.push(copy_bytes(p));
    assert(paths_view(v@) =~= before.push(p@));
}

/// Build the command that unpacks `archive` into `destination`, or `None` when no
/// suitable tool is installed.
pub fn extract_command(archive: &[u8], destination: &[u8], content_type: &str, tools: &ArchiveTools) -> (r: Option<Vec<Vec<u8>>>)
    ensures
        match extract_command_for(archive@, destination@, content_type@, tools) {
            Some(c) => r matches Some(v) && paths_view(v@) == c,
            None => r is None,
        },
{
    let mut v: Vec<Vec<u8>> = Vec::new();
    if let Some(bsdtar) = &tools.bsdtar {
        push_path(&mut v, bsdtar.as_slice());
        push_word(&mut v, "-x");
        push_word(&mut v, "-f");
        push_path(&mut v, archive);
        push_word(&mut v, "-C");
        push_path(&mut v, destination);
        assert(paths_view(v@) =~= seq![bsdtar@, word("-x"@), word("-f"@), archive@, word("-C"@), destination@]);
        return Some(v);
    }
    if text_eq(content_type, "application/zip") {
        match &tools.unzip {
            Some(p) => {
                push_path(&mut v, p.as_slice());
                push_word(&mut v, "-o");
                push_word(&mut v, "-q");
                push_path(&mut v, archive);
                push_word(&mut v, "-d");
                push_path(&mut v, destination);
                assert(paths_view(v@) =~= seq![p@, word("-o"@), word("-q"@), archive@, word("-d"@), destination@]);
                return Some(v);
            },
            None => return None,
        }
    }
    if text_eq(content_type, "application/x-7z-compressed") {
        let seven = match &tools.seven_z {
            Some(p) => Some(p),
            None => match &tools.seven_za {
                Some(p) => Some(p),
                None => None,
            },
        };
        match seven {
            Some(p) => {
                push_path(&mut v, p.as_slice());
                push_word(&mut v, "x");
                push_word(&mut v, "-y");
                let mut output = text_bytes("-o");
                let ghost o = output@;
                extend_bytes(&mut output, destination);
                assert(output@ =~= o + destination@);
                push_path(&mut v, output.as_slice());
                push_path(&mut v, archive);
                assert(paths_view(v@) =~= seq![p@, word("x"@), word("-y"@), word("-o"@) + destination@, archive@]);
                return Some(v);
            },
            None => return None,
        }
    }
    if text_eq(content_type, "application/vnd.rar") || text_eq(content_type, "application/x-rar") || text_eq(content_type, "application/x-rar-compressed") {
        match &tools.unrar {
            Some(p) => {
                push_path(&mut v, p.as_slice());
                push_word(&mut v, "x");
                push_word(&mut v, "-y");
                push_path(&mut v, archive);
                push_path(&mut v, destination);
                assert(paths_view(v@) =~= seq![p@, word("x"@), word("-y"@), archive@, destination@]);
                return Some(v);
            },
            None => return None,
        }
    }
    match &tools.tar {
        Some(p) => {
            push_path(&mut v, p.as_slice());
            push_word(&mut v, "-x");
            push_word(&mut v, "-f");
            push_path(&mut v, archive);
            push_word(&mut v, "-C");
            push_path(&mut v, destination);
            assert(paths_view(v@) =~= seq![p@, word("-x"@), word("-f"@), archive@, word("-C"@), destination@]);
            Some(v)
        },
        None => None,
    }
}

/// The command that packs `names` (relative to `directory`) into `archive`: `bsdtar`
/// when installed, `zip` otherwise.
pub open spec fn compress_command_for(directory: Seq<u8>, archive: Seq<u8>, names: Seq<Seq<u8>>, t: &ArchiveTools) -> Option<Seq<Seq<u8>>> {
    if t.bsdtar is Some {
        Some(seq![t.bsdtar->0@, word("-a"@), word("-c"@), word("-f"@), archive, word("-C"@), directory] + names)
    } else {
        match &t.zip {
            Some(p) => Some(seq![p@, word("-r"@), word("-q"@), archive] + names),
            None => None,
        }
    }
}

/// Build the command that packs `names` into `archive`, or `None` when no archiver is
/// installed.
pub fn compress_command(directory: &[u8], archive: &[u8], names: &Vec<Vec<u8>>, tools: &ArchiveTools) -> (r: Option<Vec<Vec<u8>>>)
    ensures
        match compress_command_for(directory@, archive@, paths_view(names@), tools) {
            Some(c) => r matches Some(v) && paths_view(v@) == c,
            None => r is None,
        },
{
    let mut v: Vec<Vec<u8>> = Vec::new();
    let ghost head: Seq<Seq<u8>>;
    match &tools.bsdtar {
        Some(b) => {
            push_path(&mut v, b.as_slice());
            push_word(&mut v, "-a");
            push_word(&mut v, "-c");
            push_word(&mut v, "-f");
            push_path(&mut v, archive);
            push_word(&mut v, "-C");
            push_path(&mut v, directory);
            proof {
                head = seq![b@, word("-a"@), word("-c"@), word("-f"@), archive@, word("-C"@), directory@];
            }
            assert(paths_view(v@) =~= head);
        },
        None => match &tools.zip {
            Some(z) => {
                push_path(&mut v, z.as_slice());
                push_word(&mut v, "-r");
                push_word(&mut v, "-q");
                push_path(&mut v, archive);
                proof {
                    head = seq![z@, word("-r"@), word("-q"@), archive@];
                }
                assert(paths_view(v@) =~= head);
            },
            None => return None,
        },
    }
    let ghost ns = paths_view(names@);
    let mut k: usize = 0;
    assert(head + ns.take(0) =~= head);
    while k < names.len()
        invariant
            k <= names.len(),
            ns == paths_view(names@),
            paths_view(v@) == head + ns.take(k as int),
        decreases names.len() - k,
    {
        push_path(&mut v, names[k].as_slice());
        assert(head + ns.take(k + 1) =~= (head + ns.take(k as int)).push(ns[k as int]));
        k += 1;
    }
    assert(ns.take(names.len() as int) =~= ns);
    Some(v)
}

// -------------------------------------------------------------- permissions ----

/// Content types whose files are programs.
pub open spec fn runnable_types() -> Seq<Seq<char>> {
    seq![
        "application/x-executable"@,
        "application/x-sharedlib"@,
        "application/x-shellscript"@,
        "application/x-perl"@,
        "application/x-python-code"@,
        "text/x-shellscript"@,
        "text/x-python"@,
        "text/x-script"@,
    ]
}

/// True when marking an entry executable makes sense: never a folder (it already
/// needs its execute bit), and only a program or a script.
pub open spec fn executable_candidate(is_directory: bool, content_type: Option<Seq<char>>) -> bool {
    !is_directory && match content_type {
        Some(v) => runnable_types().contains(v) || (v.len() >= 7 && v.take(7) == "text/x-"@ && contains_text(v, "script"@)),
        None => false,
    }
}

/// True when marking this entry executable is a sensible thing to offer.
pub fn can_be_executable(is_directory: bool, content_type: Option<&str>) -> (r: bool)
    ensures
        r == executable_candidate(
            is_directory,
            match content_type {
                Some(v) => Some(v@),
                None => None,
            },
        ),
{
    if is_directory {
        return false;
    }
    let v = match content_type {
        Some(v) => v,
        None => return false,
    };
    let mut list: Vec<&'static str> = Vec::new();
    list.push("application/x-executable");
    list.push("application/x-sharedlib");
    list.push("application/x-shellscript");
    list.push("application/x-perl");
    list.push("application/x-python-code");
    list.push("text/x-shellscript");
    list.push("text/x-python");
    list.push("text/x-script");
    assert(list@.map_values(|s: &'static str| s@) =~= runnable_types());
    if listed(v, &list) {
        return true;
    }
    let chars = crate::text::chars_of(v);
    let prefix = crate::text::chars_of("text/x-");
    proof {
        reveal_strlit("text/x-");
    }
    let mut starts = chars.len() >= 7;
    let mut i: usize = 0;
    while starts && i < 7
        invariant
            i <= 7,
            prefix@ == "text/x-"@,
            prefix@.len() == 7,
            starts ==> chars@.len() >= 7,
            starts ==> forall|j: int| 0 <= j < i ==> chars@[j] == prefix@[j],
            !starts ==> !(chars@.len() >= 7 && chars@.take(7) == "text/x-"@),
            chars@ == v@,
        decreases 7 - i,
    {
        if chars[i] != prefix[i] {
            assert(chars@.take(7)[i as int] != prefix@[i as int]);
            starts = false;
        }
        i += 1;
    }
    if starts {
        assert(chars@.take(7) =~= prefix@);
    }
    starts && contains_str(v, "script")
}

/// The execute bit of each class (user, group, other) follows that class's read bit
/// when turned on, as `chmod +x` does, and all three go when turned off; no other
/// bit changes.
pub open spec fn executable_mode_spec(mode: u32, executable: bool, r: u32) -> bool {
    &&& (r & !0o111u32) == (mode & !0o111u32)
    &&& executable ==> ((r & 0o100u32 != 0) == ((mode & 0o100u32 != 0) || (mode & 0o400u32 != 0)))
    &&& executable ==> ((r & 0o010u32 != 0) == ((mode & 0o010u32 != 0) || (mode & 0o040u32 != 0)))
    &&& executable ==> ((r & 0o001u32 != 0) == ((mode & 0o001u32 != 0) || (mode & 0o004u32 != 0)))
    &&& !executable ==> (r & 0o111u32) == 0
}

/// The mode a file gets when its execute bits are turned on or off.
pub fn executable_mode(mode: u32, executable: bool) -> (r: u32)
    ensures
        executable_mode_spec(mode, executable, r),
{
    let bits = (mode & 0o444u32) >> 2u32;
    if executable {
        let r = mode | bits;
        assert(executable_mode_spec(mode, true, r)) by (bit_vector)
            requires
                r == mode | ((mode & 0o444u32) >> 2u32),
        ;
        r
    } else {
        let r = mode & !0o111u32;
        assert(executable_mode_spec(mode, false, r)) by (bit_vector)
            requires
                r == mode & !0o111u32,
        ;
        r
    }
}

/// The mode after replacing the owner, group and other bits with `permissions`, or
/// the refusal of anything beyond those nine bits.
pub fn permission_mode(current: u32, permissions: u32) -> (r: Result<u32, String>)
    ensures
        permissions > 0o777 ==> (r matches Err(m) && m@ == "permissions must contain exactly owner/group/other rwx bits"@),
        permissions <= 0o777 ==> (r matches Ok(m) && (m & !0o777u32) == (current & !0o777u32) && (m & 0o777u32) == permissions),
{
    if permissions > 0o777 {
        return Err(String::from_str("permissions must contain exactly owner/group/other rwx bits"));
    }
    let m = (current & !0o777u32) | permissions;
    assert((m & !0o777u32) == (current & !0o777u32) && (m & 0o777u32) == permissions) by (bit_vector)
        requires
            m == (current & !0o777u32) | permissions,
            permissions <= 0o777u32,
    ;
    Ok(m)
}

} // verus!
