//! Copy, move and duplicate jobs: what they are, how their conflicts are decided,
//! which names they fall back to, which paths they reserve, and what their reports
//! say.
//!
//! The filesystem work of a job happens outside this module. Everything it decides
//! from what the filesystem answered is here.

use crate::paths::{
    copy_bytes, extend_bytes, extension, extension_of, file_name, file_name_of, file_stem,
    file_stem_of, join, join_path, lossy, path_text, path_eq, path_starts_with, paths_view,
    same_path, starts_with,
};
use crate::paths::utf8_text;
use crate::text::{
    chars_eq, chars_of, decimal, decimal_bytes, decimal_bytes_of, decimal_string, is_space,
    lemma_pieces_single, lemma_pieces_split, lines_of, pieces, push_str, split_lines, string_of,
    trim_chars, trim_end, trim_start, trimmed,
};
use crate::theme::opt_text;
use vstd::prelude::*;
use vstd::utf8::{decode_utf8, valid_utf8};

verus! {

/// Whether a job copies, moves or links its sources.
#[derive(Debug, Clone, Copy, PartialEq, Eq, Structural)]
pub enum TransferKind {
    Copy,
    Move,
    Link,
}

/// Every filesystem mutation Teral performs, named up front so every job shares one
/// result contract.
#[derive(Debug, Clone, Copy, PartialEq, Eq, Structural)]
pub enum OperationKind {
    Copy,
    Move,
    Link,
    Duplicate,
    Trash,
    Restore,
    PermanentDelete,
    SetExecutable,
}

/// How a finished job of each kind describes itself.
pub open spec fn operation_past_tense(kind: OperationKind) -> Seq<char> {
    match kind {
        OperationKind::Copy => "Copied"@,
        OperationKind::Move => "Moved"@,
        OperationKind::Link => "Linked"@,
        OperationKind::Duplicate => "Duplicated"@,
        OperationKind::Trash => "Moved to the trash"@,
        OperationKind::Restore => "Restored"@,
        OperationKind::PermanentDelete => "Deleted"@,
        OperationKind::SetExecutable => "Updated"@,
    }
}

/// The operation a transfer of each kind is.
pub open spec fn operation_of(kind: TransferKind) -> OperationKind {
    match kind {
        TransferKind::Copy => OperationKind::Copy,
        TransferKind::Move => OperationKind::Move,
        TransferKind::Link => OperationKind::Link,
    }
}

/// The word a running transfer shows.
pub open spec fn transfer_verb(kind: TransferKind) -> Seq<char> {
    match kind {
        TransferKind::Copy => "Copying"@,
        TransferKind::Move => "Moving"@,
        TransferKind::Link => "Linking"@,
    }
}

/// The word a finished transfer shows.
pub open spec fn transfer_past_tense(kind: TransferKind) -> Seq<char> {
    match kind {
        TransferKind::Copy => "Copied"@,
        TransferKind::Move => "Moved"@,
        TransferKind::Link => "Linked"@,
    }
}

impl OperationKind {
    /// How a finished job of this kind describes itself.
    pub fn past_tense(self) -> (r: &'static str)
        ensures
            r@ == operation_past_tense(self),
    {
        match self {
            OperationKind::Copy => "Copied",
            OperationKind::Move => "Moved",
            OperationKind::Link => "Linked",
            OperationKind::Duplicate => "Duplicated",
            OperationKind::Trash => "Moved to the trash",
            OperationKind::Restore => "Restored",
            OperationKind::PermanentDelete => "Deleted",
            OperationKind::SetExecutable => "Updated",
        }
    }

    /// The operation a transfer of `kind` is.
    pub fn of(kind: TransferKind) -> (r: OperationKind)
        ensures
            r == operation_of(kind),
    {
        match kind {
            TransferKind::Copy => OperationKind::Copy,
            TransferKind::Move => OperationKind::Move,
            TransferKind::Link => OperationKind::Link,
        }
    }
}

impl TransferKind {
    /// The word a running transfer shows.
    pub fn verb(self) -> (r: &'static str)
        ensures
            r@ == transfer_verb(self),
    {
        match self {
            TransferKind::Copy => "Copying",
            TransferKind::Move => "Moving",
            TransferKind::Link => "Linking",
        }
    }

    /// The word a finished transfer shows.
    pub fn past_tense(self) -> (r: &'static str)
        ensures
            r@ == transfer_past_tense(self),
    {
        match self {
            TransferKind::Copy => "Copied",
            TransferKind::Move => "Moved",
            TransferKind::Link => "Linked",
        }
    }
}

// ---------------------------------------------------------------- conflicts ----

/// The decision applied when a requested destination already exists.
#[derive(Debug, Clone, Copy, PartialEq, Eq, Structural)]
pub enum ConflictPolicy {
    Replace,
    Merge,
    RenameIncoming,
    Skip,
    Cancel,
}

/// What kind of collision was found before a transfer started.
#[derive(Debug, Clone, Copy, PartialEq, Eq, Structural)]
pub enum ConflictKind {
    File,
    Folder,
    SameEntry,
    SelfMove,
}

/// One source and destination that need a deliberate user decision.
#[derive(Debug, Clone, PartialEq, Eq)]
pub struct Conflict {
    pub source: Vec<u8>,
    pub destination: Vec<u8>,
    pub kind: ConflictKind,
}

/// The kind of a conflict found before a job: the entry itself (a move onto itself, or
/// a copy onto itself), two real folders (which can be merged), or anything else.
pub open spec fn conflict_kind_for(kind: TransferKind, same_entry: bool, folders: bool) -> ConflictKind {
    if same_entry {
        if kind == TransferKind::Move {
            ConflictKind::SelfMove
        } else {
            ConflictKind::SameEntry
        }
    } else if folders {
        ConflictKind::Folder
    } else {
        ConflictKind::File
    }
}

/// Classify a collision. `same_entry` is true when source and destination are one
/// directory entry; `folders` when both are real (not symlinked) folders. Links never
/// merge.
pub fn classify_conflict(kind: TransferKind, same_entry: bool, source_is_folder: bool, destination_is_folder: bool) -> (r: ConflictKind)
    ensures
        r == conflict_kind_for(
            kind,
            same_entry,
            kind != TransferKind::Link && source_is_folder && destination_is_folder,
        ),
{
    if same_entry {
        if kind == TransferKind::Move {
            ConflictKind::SelfMove
        } else {
            ConflictKind::SameEntry
        }
    } else if kind != TransferKind::Link && source_is_folder && destination_is_folder {
        ConflictKind::Folder
    } else {
        ConflictKind::File
    }
}

/// A decided conflict as plain values: source, destination, decision.
pub type DecisionView = (Seq<u8>, Seq<u8>, ConflictPolicy);

/// The decision most recently recorded for a source and destination, if any; paths
/// are compared as paths.
pub open spec fn decided(ds: Seq<DecisionView>, source: Seq<u8>, destination: Seq<u8>) -> Option<ConflictPolicy>
    decreases ds.len(),
{
    if ds.len() == 0 {
        None
    } else if same_path(ds.last().0, source) && same_path(ds.last().1, destination) {
        Some(ds.last().2)
    } else {
        decided(ds.drop_last(), source, destination)
    }
}

/// Per-entry decisions collected by the conflict UI, and the decision for anything
/// that was not asked about (a late conflict that appeared after inspection).
#[derive(Debug, Clone)]
pub struct ConflictRules {
    pub decisions: Vec<(Vec<u8>, Vec<u8>, ConflictPolicy)>,
    pub fallback: ConflictPolicy,
}

impl ConflictRules {
    /// The decisions as plain values.
    pub open spec fn decisions_view(&self) -> Seq<DecisionView> {
        self.decisions@.map_values(|d: (Vec<u8>, Vec<u8>, ConflictPolicy)| (d.0@, d.1@, d.2))
    }

    /// The decision that applies to a source and destination.
    pub open spec fn policy(&self, source: Seq<u8>, destination: Seq<u8>) -> ConflictPolicy {
        match decided(self.decisions_view(), source, destination) {
            Some(p) => p,
            None => self.fallback,
        }
    }

    /// No decisions yet; everything gets `fallback`.
    pub fn new(fallback: ConflictPolicy) -> (r: ConflictRules)
        ensures
            r.decisions_view().len() == 0,
            r.fallback == fallback,
    {
        ConflictRules { decisions: Vec::new(), fallback }
    }

    /// The same decision for everything.
    pub fn uniform(policy: ConflictPolicy) -> (r: ConflictRules)
        ensures
            r.decisions_view().len() == 0,
            r.fallback == policy,
    {
        ConflictRules::new(policy)
    }

    /// Record the decision for one conflict, replacing any earlier one for it.
    pub fn set(&mut self, conflict: &Conflict, policy: ConflictPolicy)
        ensures
            final(self).decisions_view() == old(self).decisions_view().push(
                (conflict.source@, conflict.destination@, policy),
            ),
            final(self).fallback == old(self).fallback,
    {
        let ghost before = self.decisions_view();
        self.decisions.push((copy_bytes(conflict.source.as_slice()), copy_bytes(conflict.destination.as_slice()), policy));
        assert(self.decisions_view() =~= before.push((conflict.source@, conflict.destination@, policy)));
    }

    /// The decision that applies to `source` going to `destination`.
    pub fn policy_for(&self, source: &[u8], destination: &[u8]) -> (r: ConflictPolicy)
        ensures
            r == self.policy(source@, destination@),
    {
        let ghost ds = self.decisions_view();
        let mut i: usize = self.decisions.len();
        assert(ds.take(i as int) =~= ds);
        while i > 0
            invariant
                i <= self.decisions.len(),
                ds == self.decisions_view(),
                decided(ds, source@, destination@) == decided(ds.take(i as int), source@, destination@),
            decreases i,
        {
            let ghost prefix = ds.take(i as int);
            assert(prefix.drop_last() =~= ds.take(i - 1));
            assert(prefix.last() == ds[i - 1]);
            let d = &self.decisions[i - 1];
            if path_eq(d.0.as_slice(), source) && path_eq(d.1.as_slice(), destination) {
                return d.2;
            }
            i -= 1;
        }
        assert(ds.take(0) =~= Seq::<DecisionView>::empty());
        self.fallback
    }
}

/// Recording a decision makes it the one that applies to that conflict, and leaves
/// the decision for every other source and destination as it was.
pub proof fn lemma_decision_applies(ds: Seq<DecisionView>, d: DecisionView, source: Seq<u8>, destination: Seq<u8>)
    ensures
        same_path(d.0, source) && same_path(d.1, destination) ==> decided(ds.push(d), source, destination) == Some(d.2),
        !(same_path(d.0, source) && same_path(d.1, destination)) ==> decided(ds.push(d), source, destination) == decided(ds, source, destination),
{
    assert(ds.push(d).drop_last() =~= ds);
}

/// What a placement does when the name it wants is already taken.
#[derive(Debug, Clone, Copy, PartialEq, Eq, Structural)]
pub enum OnExisting {
    Skip,
    Cancel,
    Merge,
    Replace,
}

/// The step a policy calls for when the requested name is taken; `None` for
/// `RenameIncoming`, which never asks (it goes straight to a free name).
pub open spec fn on_existing_for(policy: ConflictPolicy) -> Option<OnExisting> {
    match policy {
        ConflictPolicy::Skip => Some(OnExisting::Skip),
        ConflictPolicy::Cancel => Some(OnExisting::Cancel),
        ConflictPolicy::Merge => Some(OnExisting::Merge),
        ConflictPolicy::Replace => Some(OnExisting::Replace),
        ConflictPolicy::RenameIncoming => None,
    }
}

/// The step a policy calls for when the requested name is taken.
pub fn on_existing(policy: ConflictPolicy) -> (r: Option<OnExisting>)
    ensures
        r == on_existing_for(policy),
{
    match policy {
        ConflictPolicy::Skip => Some(OnExisting::Skip),
        ConflictPolicy::Cancel => Some(OnExisting::Cancel),
        ConflictPolicy::Merge => Some(OnExisting::Merge),
        ConflictPolicy::Replace => Some(OnExisting::Replace),
        ConflictPolicy::RenameIncoming => None,
    }
}

/// What the last step of placing one item found out.
#[derive(Debug, Clone, Copy, PartialEq, Eq, Structural)]
pub enum PlacementEvent {
    /// Nothing has been done yet.
    Start,
    /// Whether the requested name was found to be taken.
    Checked(bool),
    /// A new entry was tried under the name of attempt `attempt`; `taken` when that
    /// name turned out to exist already.
    Tried { attempt: u32, taken: bool },
}

/// What placing one item does next.
#[derive(Debug)]
pub enum PlacementStep {
    /// Find out whether the requested name is taken.
    CheckRequested,
    /// Create the item as a new entry under `name`, the name of attempt `attempt`.
    TryName { name: Vec<u8>, attempt: u32 },
    /// The requested name is taken: skip, cancel, merge or replace.
    Resolve(OnExisting),
    /// The item is in place.
    Done,
    /// Every name was taken; the message says so.
    GiveUp(String),
}

/// The message a placement gives up with when no free name is left.
pub open spec fn no_free_name_message() -> Seq<char> {
    "could not reserve an unused name in the destination folder"@
}

/// The next step of placing an item called `name` under `policy`, given what the last
/// step found. A policy other than `RenameIncoming` first checks the requested name:
/// taken, it resolves the conflict; free, it creates the item there, and resolves the
/// conflict after all if the name was taken in the meantime. `RenameIncoming` never
/// checks: it tries the names of [`candidate_name`] in turn, from attempt 0, until one
/// is free, and gives up after [`MAX_NAME_ATTEMPTS`] names.
pub fn placement_step(policy: ConflictPolicy, name: &[u8], last: PlacementEvent) -> (r: PlacementStep)
    ensures
        on_existing_for(policy) matches Some(step) ==> match last {
            PlacementEvent::Start => r is CheckRequested,
            PlacementEvent::Checked(taken) => if taken {
                r == PlacementStep::Resolve(step)
            } else {
                r matches PlacementStep::TryName { name: n, attempt } && n@ == name@ && attempt == 0
            },
            PlacementEvent::Tried { taken, .. } => if taken {
                r == PlacementStep::Resolve(step)
            } else {
                r is Done
            },
        },
        on_existing_for(policy) is None ==> match last {
            PlacementEvent::Tried { attempt, taken } => if !taken {
                r is Done
            } else if attempt + 1 < MAX_NAME_ATTEMPTS {
                r matches PlacementStep::TryName { name: n, attempt: next } && next == attempt + 1
                    && n@ == candidate_name(name@, next as nat)
            } else {
                r matches PlacementStep::GiveUp(m) && m@ == no_free_name_message()
            },
            _ => r matches PlacementStep::TryName { name: n, attempt } && attempt == 0 && n@
                == candidate_name(name@, 0),
        },
{
    match on_existing(policy) {
        Some(step) => match last {
            PlacementEvent::Start => PlacementStep::CheckRequested,
            PlacementEvent::Checked(taken) => if taken {
                PlacementStep::Resolve(step)
            } else {
                PlacementStep::TryName { name: copy_bytes(name), attempt: 0 }
            },
            PlacementEvent::Tried { taken, .. } => if taken {
                PlacementStep::Resolve(step)
            } else {
                PlacementStep::Done
            },
        },
        None => match last {
            PlacementEvent::Tried { attempt, taken } => if !taken {
                PlacementStep::Done
            } else if attempt < MAX_NAME_ATTEMPTS - 1 {
                let next = attempt + 1;
                PlacementStep::TryName { name: destination_name(name, next), attempt: next }
            } else {
                PlacementStep::GiveUp(
                    String::from_str("could not reserve an unused name in the destination folder"),
                )
            },
            _ => PlacementStep::TryName { name: destination_name(name, 0), attempt: 0 },
        },
    }
}

// ---------------------------------------------------------------- clipboard ----

/// The MIME type of GNOME's own copied-files format.
pub const GNOME_COPIED_FILES: &'static str = "x-special/gnome-copied-files";

/// The MIME type of a plain URI list.
pub const URI_LIST: &'static str = "text/uri-list";

/// The MIME type KDE uses to mark a selection as cut.
pub const KDE_CUT_SELECTION: &'static str = "application/x-kde-cutselection";

/// Sources advertised through the desktop clipboard.
#[derive(Debug, Clone, PartialEq, Eq)]
pub struct Clipboard {
    pub kind: TransferKind,
    pub sources: Vec<Vec<u8>>,
}

/// The texts Teral offers besides the typed file list: GNOME's copied-files payload,
/// the URI list, and KDE's cut marker.
#[derive(Debug, Clone, PartialEq, Eq)]
pub struct ClipboardPayload {
    pub special: String,
    pub uri_list: String,
    pub kde_cut: String,
}

/// The texts of a list of strings.
pub open spec fn texts(v: Seq<String>) -> Seq<Seq<char>> {
    v.map_values(|s: String| s@)
}

/// Parts joined with `sep` between them.
pub open spec fn joined(parts: Seq<Seq<char>>, sep: Seq<char>) -> Seq<char>
    decreases parts.len(),
{
    if parts.len() == 0 {
        Seq::empty()
    } else if parts.len() == 1 {
        parts[0]
    } else {
        joined(parts.drop_last(), sep) + sep + parts.last()
    }
}

/// GNOME's action word for a transfer kind.
pub open spec fn clipboard_action(kind: TransferKind) -> Seq<char> {
    if kind == TransferKind::Move {
        "cut"@
    } else {
        "copy"@
    }
}

fn join_texts(parts: &Vec<String>, sep: &str) -> (r: String)
    ensures
        r@ == joined(texts(parts@), sep@),
{
    let ghost ts = texts(parts@);
    let mut r = String::new();
    let mut i: usize = 0;
    assert(ts.take(0) =~= Seq::<Seq<char>>::empty());
    while i < parts.len()
        invariant
            i <= parts.len(),
            ts == texts(parts@),
            r@ == joined(ts.take(i as int), sep@),
        decreases parts.len() - i,
    {
        let ghost next = ts.take(i + 1);
        assert(next.drop_last() =~= ts.take(i as int));
        assert(next.last() == parts@[i as int]@);
        if i > 0 {
            push_str(&mut r, sep);
        } else {
            assert(next =~= seq![parts@[0]@]);
        }
        push_str(&mut r, parts[i].as_str());
        i += 1;
    }
    assert(ts.take(parts.len() as int) =~= ts);
    r
}

/// What Teral puts on the clipboard for the local files `uris` name. GNOME's format is
/// the action word followed by one line-feed-led URI per file, with no final line
/// feed; the URI list ends every URI with CR LF. Nothing is offered for no file, and a
/// link cannot be offered at all.
pub fn clipboard_payload(kind: TransferKind, uris: &Vec<String>) -> (r: Result<ClipboardPayload, String>)
    ensures
        uris.len() == 0 ==> (r matches Err(m) && m@ == "there are no local files to copy"@),
        uris.len() > 0 && kind == TransferKind::Link ==> (r matches Err(m) && m@
            == "link operations cannot be stored in the clipboard"@),
        uris.len() > 0 && kind != TransferKind::Link ==> (r matches Ok(p) && p.special@
            == clipboard_action(kind) + "\n"@ + joined(texts(uris@), "\n"@) && p.uri_list@ == joined(
            texts(uris@),
            "\r\n"@,
        ) + "\r\n"@ && p.kde_cut@ == (if kind == TransferKind::Move {
            "1"@
        } else {
            "0"@
        })),
{
    if uris.len() == 0 {
        return Err(String::from_str("there are no local files to copy"));
    }
    let action = match kind {
        TransferKind::Copy => "copy",
        TransferKind::Move => "cut",
        TransferKind::Link => {
            return Err(String::from_str("link operations cannot be stored in the clipboard"));
        },
    };
    let mut special = String::new();
    push_str(&mut special, action);
    push_str(&mut special, "\n");
    let lines = join_texts(uris, "\n");
    push_str(&mut special, lines.as_str());
    let mut uri_list = join_texts(uris, "\r\n");
    push_str(&mut uri_list, "\r\n");
    let kde_cut = if kind == TransferKind::Move {
        String::from_str("1")
    } else {
        String::from_str("0")
    };
    Ok(ClipboardPayload { special, uri_list, kde_cut })
}

/// The URIs among some lines: each line trimmed, blank lines and `#` comments left out.
pub open spec fn uri_candidates(lines: Seq<Seq<char>>) -> Seq<Seq<char>>
    decreases lines.len(),
{
    if lines.len() == 0 {
        Seq::empty()
    } else {
        let prev = uri_candidates(lines.drop_last());
        let t = trimmed(lines.last());
        if t.len() > 0 && t[0] != '#' {
            prev.push(t)
        } else {
            prev
        }
    }
}

fn candidates_of(lines: &Vec<Vec<char>>, from: usize) -> (r: Vec<String>)
    requires
        from <= lines.len(),
    ensures
        texts(r@) == uri_candidates(lines@.map_values(|l: Vec<char>| l@).skip(from as int)),
{
    let ghost ls = lines@.map_values(|l: Vec<char>| l@).skip(from as int);
    let mut r: Vec<String> = Vec::new();
    let mut i: usize = from;
    assert(ls.take(0) =~= Seq::<Seq<char>>::empty());
    assert(texts(r@) =~= Seq::<Seq<char>>::empty());
    while i < lines.len()
        invariant
            from <= i <= lines.len(),
            ls == lines@.map_values(|l: Vec<char>| l@).skip(from as int),
            texts(r@) == uri_candidates(ls.take(i - from)),
        decreases lines.len() - i,
    {
        let ghost next = ls.take(i - from + 1);
        assert(next.drop_last() =~= ls.take(i - from));
        assert(next.last() == lines@[i as int]@);
        let t = trim_chars(&lines[i]);
        if t.len() > 0 && t[0] != '#' {
            let ghost before = texts(r@);
            r.push(string_of(&t));
            assert(texts(r@) =~= before.push(t@));
        }
        i += 1;
    }
    assert(ls.take(lines.len() - from) =~= ls);
    r
}

/// What a GNOME copied-files payload says: its action and the URIs it lists.
pub open spec fn gnome_parts(text: Seq<char>) -> Option<(TransferKind, Seq<Seq<char>>)> {
    let lines = split_lines(text);
    if lines.len() == 0 {
        None
    } else if trimmed(lines[0]) == "copy"@ {
        Some((TransferKind::Copy, uri_candidates(lines.skip(1))))
    } else if trimmed(lines[0]) == "cut"@ {
        Some((TransferKind::Move, uri_candidates(lines.skip(1))))
    } else {
        None
    }
}

/// Read GNOME's copied-files payload: UTF-8 text whose first line, trimmed, is `copy`
/// or `cut`, followed by URIs one per line. Turning the URIs into local paths is the
/// desktop's business; [`validate_clipboard`] takes the paths it gave back.
pub fn parse_gnome_clipboard(bytes: &[u8]) -> (r: Result<(TransferKind, Vec<String>), String>)
    ensures
        !valid_utf8(bytes@) ==> (r matches Err(m) && m@ == "the clipboard file list is not valid UTF-8"@),
        valid_utf8(bytes@) && gnome_parts(decode_utf8(bytes@)) is None ==> (r matches Err(m) && m@
            == "the clipboard does not contain a valid copy or cut action"@),
        valid_utf8(bytes@) && gnome_parts(decode_utf8(bytes@)) is Some ==> (r matches Ok(p)
            && gnome_parts(decode_utf8(bytes@)) == Some((p.0, texts(p.1@)))),
{
    let text = match utf8_text(bytes) {
        Some(t) => t,
        None => return Err(String::from_str("the clipboard file list is not valid UTF-8")),
    };
    let lines = lines_of(text.as_str());
    let ghost ls = lines@.map_values(|l: Vec<char>| l@);
    if lines.len() == 0 {
        return Err(String::from_str("the clipboard does not contain a valid copy or cut action"));
    }
    let first = trim_chars(&lines[0]);
    assert(first@ == trimmed(ls[0]));
    let copy = chars_of("copy");
    let cut = chars_of("cut");
    let kind = if chars_eq(&first, &copy) {
        TransferKind::Copy
    } else if chars_eq(&first, &cut) {
        TransferKind::Move
    } else {
        return Err(String::from_str("the clipboard does not contain a valid copy or cut action"));
    };
    let uris = candidates_of(&lines, 1);
    Ok((kind, uris))
}

/// A URI as Teral puts it on the clipboard: non-empty, not a comment, with no white
/// space at either end and no line feed inside.
pub open spec fn clean_uri(u: Seq<char>) -> bool {
    &&& u.len() > 0
    &&& u[0] != '#'
    &&& !is_space(u[0])
    &&& !is_space(u.last())
    &&& forall|i: int| 0 <= i < u.len() ==> u[i] != '\n'
}

/// Texts with no line feed in any of them.
pub open spec fn single_lines(us: Seq<Seq<char>>) -> bool {
    forall|k: int, i: int| 0 <= k < us.len() && 0 <= i < us[k].len() ==> #[trigger] us[k][i] != '\n'
}

proof fn lemma_joined_pieces(us: Seq<Seq<char>>)
    requires
        us.len() > 0,
        single_lines(us),
    ensures
        pieces(joined(us, "\n"@)) == us,
    decreases us.len(),
{
    reveal_strlit("\n");
    if us.len() == 1 {
        assert forall|i: int| 0 <= i < us[0].len() implies us[0][i] != '\n' by {
            assert(us[0][i] == us[0][i]);
        }
        lemma_pieces_single(us[0]);
        assert(seq![us[0]] =~= us);
    } else {
        let front = us.drop_last();
        let n = us.len() - 1;
        assert forall|k: int, i: int| 0 <= k < front.len() && 0 <= i < front[k].len() implies #[trigger] front[k][i] != '\n' by {
            assert(front[k] == us[k]);
            assert(us[k][i] != '\n');
        }
        lemma_joined_pieces(front);
        assert(us.last() == us[n]);
        assert forall|i: int| 0 <= i < us[n].len() implies us[n][i] != '\n' by {
            assert(us[n][i] == us[n][i]);
        }
        lemma_pieces_split(joined(front, "\n"@), us.last());
        lemma_pieces_single(us.last());
        assert("\n"@ =~= seq!['\n']);
        assert(front + seq![us.last()] =~= us);
    }
}

proof fn lemma_clean_is_trimmed(u: Seq<char>)
    requires
        clean_uri(u),
    ensures
        trimmed(u) == u,
        trimmed(u.push('\r')) == u,
{
    assert(trim_start(u) == u);
    assert(trim_end(u) == u);
    let v = u.push('\r');
    assert(v[0] == u[0]);
    assert(trim_start(v) == v);
    assert(is_space(v.last()));
    assert(v.drop_last() =~= u);
    assert(trim_end(v) == trim_end(u));
}

proof fn lemma_candidates_keep_clean(us: Seq<Seq<char>>)
    requires
        forall|k: int| 0 <= k < us.len() ==> clean_uri(#[trigger] us[k]),
    ensures
        uri_candidates(us) == us,
    decreases us.len(),
{
    if us.len() > 0 {
        let front = us.drop_last();
        assert forall|k: int| 0 <= k < front.len() implies clean_uri(#[trigger] front[k]) by {
            assert(front[k] == us[k]);
        }
        lemma_candidates_keep_clean(front);
        assert(clean_uri(us[us.len() - 1]));
        assert(us.last() == us[us.len() - 1]);
        lemma_clean_is_trimmed(us.last());
        assert(front.push(us.last()) =~= us);
    }
}

proof fn lemma_action_is_trimmed(kind: TransferKind)
    ensures
        trimmed(clipboard_action(kind)) == clipboard_action(kind),
        forall|i: int| 0 <= i < clipboard_action(kind).len() ==> clipboard_action(kind)[i] != '\n',
        clipboard_action(kind) != "copy"@ ==> clipboard_action(kind) == "cut"@,
        clipboard_action(kind) == "cut"@ <==> kind == TransferKind::Move,
{
    reveal_strlit("cut");
    reveal_strlit("copy");
    let a = clipboard_action(kind);
    assert(!is_space(a[0])) by {
        assert(a[0] == 'c');
    }
    assert(!is_space(a.last())) by {
        if kind == TransferKind::Move {
            assert(a.last() == 't');
        } else {
            assert(a.last() == 'y');
        }
    }
    assert(trim_start(a) == a);
    assert(trim_end(a) == a);
}

/// What Teral puts on the clipboard survives a round trip through its own reader:
/// GNOME's payload for clean URIs reads back as the same action and the same URIs.
pub proof fn lemma_clipboard_round_trip(kind: TransferKind, uris: Seq<Seq<char>>)
    requires
        kind != TransferKind::Link,
        uris.len() > 0,
        forall|k: int| 0 <= k < uris.len() ==> clean_uri(#[trigger] uris[k]),
    ensures
        gnome_parts(clipboard_action(kind) + "\n"@ + joined(uris, "\n"@)) == Some((kind, uris)),
{
    reveal_strlit("\n");
    let action = clipboard_action(kind);
    let text = action + "\n"@ + joined(uris, "\n"@);
    lemma_action_is_trimmed(kind);
    assert forall|k: int, i: int| 0 <= k < uris.len() && 0 <= i < uris[k].len() implies #[trigger] uris[k][i] != '\n' by {
        assert(clean_uri(uris[k]));
    }
    lemma_joined_pieces(uris);
    lemma_pieces_single(action);
    assert("\n"@ =~= seq!['\n']);
    lemma_pieces_split(action, joined(uris, "\n"@));
    let lines = seq![action] + uris;
    assert(pieces(text) =~= lines);
    assert(uris.last() == uris[uris.len() - 1]);
    assert(clean_uri(uris[uris.len() - 1]));
    assert(lines.last() == uris.last());
    assert(split_lines(text) == lines);
    assert(lines[0] == action);
    assert(lines.skip(1) =~= uris);
    lemma_candidates_keep_clean(uris);
    assert(uri_candidates(lines.skip(1)) == uris);
    reveal_strlit("cut");
    reveal_strlit("copy");
    assert(trimmed(lines[0]) == action);
    if kind == TransferKind::Move {
        assert(action == "cut"@);
        assert(action.len() != "copy"@.len());
    } else {
        assert(kind == TransferKind::Copy);
        assert(action == "copy"@);
    }
}

/// Each text with a carriage return after it.
pub open spec fn with_cr(us: Seq<Seq<char>>) -> Seq<Seq<char>> {
    us.map_values(|u: Seq<char>| u.push('\r'))
}

proof fn lemma_crlf_joined(us: Seq<Seq<char>>)
    requires
        us.len() > 0,
    ensures
        joined(us, "\r\n"@) + seq!['\r'] == joined(with_cr(us), "\n"@),
    decreases us.len(),
{
    reveal_strlit("\r\n");
    reveal_strlit("\n");
    let vs = with_cr(us);
    if us.len() == 1 {
        assert(vs[0] == us[0].push('\r'));
        assert(us[0] + seq!['\r'] =~= us[0].push('\r'));
    } else {
        let front = us.drop_last();
        lemma_crlf_joined(front);
        assert(with_cr(front) =~= vs.drop_last());
        assert(vs.last() == us.last().push('\r'));
        assert(joined(us, "\r\n"@) + seq!['\r'] =~= (joined(front, "\r\n"@) + seq!['\r']) + "\n"@ + us.last().push('\r'));
    }
}

proof fn lemma_candidates_strip_cr(us: Seq<Seq<char>>)
    requires
        forall|k: int| 0 <= k < us.len() ==> clean_uri(#[trigger] us[k]),
    ensures
        uri_candidates(with_cr(us)) == us,
    decreases us.len(),
{
    if us.len() > 0 {
        let front = us.drop_last();
        assert forall|k: int| 0 <= k < front.len() implies clean_uri(#[trigger] front[k]) by {
            assert(front[k] == us[k]);
        }
        lemma_candidates_strip_cr(front);
        assert(with_cr(front) =~= with_cr(us).drop_last());
        assert(clean_uri(us[us.len() - 1]));
        assert(us.last() == us[us.len() - 1]);
        lemma_clean_is_trimmed(us.last());
        assert(with_cr(us).last() == us.last().push('\r'));
        assert(front.push(us.last()) =~= us);
    }
}

/// The URI list Teral offers reads back as the same URIs: clean URIs each ended by
/// CR LF, read as a URI list, give the URIs again.
pub proof fn lemma_uri_list_round_trip(uris: Seq<Seq<char>>)
    requires
        uris.len() > 0,
        forall|k: int| 0 <= k < uris.len() ==> clean_uri(#[trigger] uris[k]),
    ensures
        uri_candidates(split_lines(joined(uris, "\r\n"@) + "\r\n"@)) == uris,
{
    reveal_strlit("\r\n");
    reveal_strlit("\n");
    let vs = with_cr(uris);
    lemma_crlf_joined(uris);
    assert forall|k: int, i: int| 0 <= k < vs.len() && 0 <= i < vs[k].len() implies #[trigger] vs[k][i] != '\n' by {
        assert(clean_uri(uris[k]));
        assert(vs[k] == uris[k].push('\r'));
        if i < uris[k].len() {
            assert(vs[k][i] == uris[k][i]);
        }
    }
    lemma_joined_pieces(vs);
    let text = joined(uris, "\r\n"@) + "\r\n"@;
    assert(text =~= joined(vs, "\n"@) + seq!['\n'] + Seq::<char>::empty());
    lemma_pieces_split(joined(vs, "\n"@), Seq::<char>::empty());
    assert(pieces(Seq::<char>::empty()) == seq![Seq::<char>::empty()]);
    assert(pieces(text) =~= vs + seq![Seq::<char>::empty()]);
    assert(split_lines(text) =~= vs);
    lemma_candidates_strip_cr(uris);
}

/// Read a plain URI list: UTF-8 text with URIs one per line.
pub fn parse_uri_list(bytes: &[u8]) -> (r: Result<Vec<String>, String>)
    ensures
        !valid_utf8(bytes@) ==> (r matches Err(m) && m@ == "the clipboard URI list is not valid UTF-8"@),
        valid_utf8(bytes@) ==> (r matches Ok(u) && texts(u@) == uri_candidates(split_lines(decode_utf8(bytes@)))),
{
    let text = match utf8_text(bytes) {
        Some(t) => t,
        None => return Err(String::from_str("the clipboard URI list is not valid UTF-8")),
    };
    let lines = lines_of(text.as_str());
    let uris = candidates_of(&lines, 0);
    assert(lines@.map_values(|l: Vec<char>| l@).skip(0) =~= lines@.map_values(|l: Vec<char>| l@));
    Ok(uris)
}

/// The kind KDE's cut marker gives: a move when its first byte is `1`, a copy
/// otherwise, and a copy when the marker is absent or unreadable.
pub fn kde_cut_kind(marker: Option<&[u8]>) -> (r: TransferKind)
    ensures
        r == (if (marker matches Some(m) && m@.len() > 0 && m@[0] == 49u8) {
            TransferKind::Move
        } else {
            TransferKind::Copy
        }),
{
    match marker {
        Some(m) => if m.len() > 0 && m[0] == 49u8 {
            TransferKind::Move
        } else {
            TransferKind::Copy
        },
        None => TransferKind::Copy,
    }
}

/// A clipboard selection Teral can paste: at least one local file.
pub fn validate_clipboard(kind: TransferKind, sources: Vec<Vec<u8>>) -> (r: Result<Clipboard, String>)
    ensures
        sources.len() == 0 ==> (r matches Err(m) && m@ == "the clipboard has no local files Teral can paste"@),
        sources.len() > 0 ==> (r matches Ok(c) && c.kind == kind && c.sources@ == sources@),
{
    if sources.len() == 0 {
        Err(String::from_str("the clipboard has no local files Teral can paste"))
    } else {
        Ok(Clipboard { kind, sources })
    }
}

// ------------------------------------------------------------------ reports ----

/// Final state of one requested source.
#[derive(Debug, Clone, Copy, PartialEq, Eq, Structural)]
pub enum ItemState {
    Completed,
    Skipped,
    Cancelled,
    Failed,
    /// The destination completed but a later step, such as source removal, failed.
    Partial,
}

/// The byte view of an optional path.
pub open spec fn opt_bytes(o: Option<Vec<u8>>) -> Option<Seq<u8>> {
    match o {
        Some(p) => Some(p@),
        None => None,
    }
}

/// One item's outcome as plain values: source, requested destination, actual
/// destination, bytes, state, error.
pub type ItemView = (Seq<u8>, Seq<u8>, Option<Seq<u8>>, u64, ItemState, Option<Seq<char>>);

/// Structured outcome for one source.
#[derive(Debug, Clone)]
pub struct ItemResult {
    pub source: Vec<u8>,
    pub requested_destination: Vec<u8>,
    pub actual_destination: Option<Vec<u8>>,
    pub bytes: u64,
    pub state: ItemState,
    pub error: Option<String>,
}

impl View for ItemResult {
    type V = ItemView;

    open spec fn view(&self) -> ItemView {
        (
            self.source@,
            self.requested_destination@,
            opt_bytes(self.actual_destination),
            self.bytes,
            self.state,
            opt_text(self.error),
        )
    }
}

/// True when an item landed somewhere other than where it was asked to go.
pub open spec fn item_renamed(i: ItemView) -> bool {
    i.2 matches Some(a) && !same_path(a, i.1)
}

impl ItemResult {
    /// A failed outcome with nothing recorded yet.
    pub fn new(source: Vec<u8>, requested_destination: Vec<u8>) -> (r: ItemResult)
        ensures
            r@ == (source@, requested_destination@, None::<Seq<u8>>, 0u64, ItemState::Failed, None::<Seq<char>>),
    {
        ItemResult {
            source,
            requested_destination,
            actual_destination: None,
            bytes: 0,
            state: ItemState::Failed,
            error: None,
        }
    }

    /// True when the item finished.
    pub fn completed(&self) -> (r: bool)
        ensures
            r == (self.state == ItemState::Completed),
    {
        self.state == ItemState::Completed
    }

    /// True when the job could not use the destination that was asked for: a
    /// conflict-renamed item is a success, but one the user has to be told about.
    pub fn was_renamed(&self) -> (r: bool)
        ensures
            r == item_renamed(self@),
    {
        match &self.actual_destination {
            Some(actual) => !path_eq(actual.as_slice(), self.requested_destination.as_slice()),
            None => false,
        }
    }
}

/// Snapshot emitted by a running job.
#[derive(Debug, Clone)]
pub struct JobProgress {
    pub processed_items: usize,
    pub total_items: usize,
    pub completed_bytes: u64,
    pub total_bytes: u64,
    pub current: Option<Vec<u8>>,
}

/// How many items satisfy `p`.
pub open spec fn count_items(items: Seq<ItemView>, p: spec_fn(ItemView) -> bool) -> nat
    decreases items.len(),
{
    if items.len() == 0 {
        0
    } else {
        count_items(items.drop_last(), p) + if p(items.last()) {
            1nat
        } else {
            0nat
        }
    }
}

proof fn lemma_count_items_le(items: Seq<ItemView>, p: spec_fn(ItemView) -> bool)
    ensures
        count_items(items, p) <= items.len(),
    decreases items.len(),
{
    if items.len() > 0 {
        lemma_count_items_le(items.drop_last(), p);
    }
}

/// The name a report uses for a path: its file name, or the whole path when it has
/// none, read lossily as UTF-8.
pub open spec fn display_text(p: Seq<u8>) -> Seq<char> {
    path_text(
        match file_name(p) {
            Some(n) => n,
            None => p,
        },
    )
}

/// The name a report uses for a path.
pub fn display_name(path: &[u8]) -> (r: String)
    ensures
        r@ == display_text(path@),
{
    match file_name_of(path) {
        Some(name) => lossy(name.as_slice()),
        None => lossy(path),
    }
}

/// `name: error` for every item that carries an error, in order.
pub open spec fn problem_texts(items: Seq<ItemView>) -> Seq<Seq<char>>
    decreases items.len(),
{
    if items.len() == 0 {
        Seq::empty()
    } else {
        let prev = problem_texts(items.drop_last());
        match items.last().5 {
            Some(e) => prev.push(display_text(items.last().0) + ": "@ + e),
            None => prev,
        }
    }
}

/// The sources of every item that did not complete, in order.
pub open spec fn remaining_of(items: Seq<ItemView>) -> Seq<Seq<u8>>
    decreases items.len(),
{
    if items.len() == 0 {
        Seq::empty()
    } else {
        let prev = remaining_of(items.drop_last());
        if items.last().4 != ItemState::Completed {
            prev.push(items.last().0)
        } else {
            prev
        }
    }
}

/// Where a completed item's tags go: to where it actually landed, or nowhere when it
/// landed nowhere (it was destroyed) or did not move.
pub open spec fn tag_target(i: ItemView) -> Option<Seq<u8>> {
    match i.2 {
        Some(a) => if same_path(a, i.0) {
            None
        } else {
            Some(a)
        },
        None => None,
    }
}

/// The tag update of every completed item, in order, and of nothing else.
pub open spec fn tag_updates_of(items: Seq<ItemView>) -> Seq<(Seq<u8>, Option<Seq<u8>>)>
    decreases items.len(),
{
    if items.len() == 0 {
        Seq::empty()
    } else {
        let prev = tag_updates_of(items.drop_last());
        if items.last().4 == ItemState::Completed {
            prev.push((items.last().0, tag_target(items.last())))
        } else {
            prev
        }
    }
}

/// Source and actual destination of every completed item that landed somewhere.
pub open spec fn moves_of(items: Seq<ItemView>) -> Seq<(Seq<u8>, Seq<u8>)>
    decreases items.len(),
{
    if items.len() == 0 {
        Seq::empty()
    } else {
        let prev = moves_of(items.drop_last());
        if items.last().4 == ItemState::Completed && items.last().2 is Some {
            prev.push((items.last().0, items.last().2->0))
        } else {
            prev
        }
    }
}

/// Complete job result.
#[derive(Debug)]
pub struct JobReport {
    pub kind: OperationKind,
    pub items: Vec<ItemResult>,
    pub cancelled: bool,
}

impl JobReport {
    /// The items as plain values.
    pub open spec fn items_view(&self) -> Seq<ItemView> {
        self.items@.map_values(|i: ItemResult| i@)
    }

    /// An empty report of `kind`.
    pub fn new(kind: OperationKind) -> (r: JobReport)
        ensures
            r.kind == kind,
            r.items_view().len() == 0,
            !r.cancelled,
    {
        JobReport { kind, items: Vec::new(), cancelled: false }
    }

    /// Add one item's outcome; a cancelled item marks the job cancelled.
    pub fn record(&mut self, item: ItemResult)
        ensures
            final(self).items_view() == old(self).items_view().push(item@),
            final(self).cancelled == (old(self).cancelled || item.state == ItemState::Cancelled),
            final(self).kind == old(self).kind,
    {
        if item.state == ItemState::Cancelled {
            self.cancelled = true;
        }
        let ghost before = self.items_view();
        let ghost v = item@;
        self.items.push(item);
        assert(self.items_view() =~= before.push(v));
    }

    fn count_where(&self, completed: bool, renamed: bool, skipped: bool) -> (r: usize)
        requires
            (completed && !skipped) || (!completed && !renamed && skipped),
        ensures
            completed && !renamed ==> r == count_items(self.items_view(), |i: ItemView| i.4 == ItemState::Completed),
            completed && renamed ==> r == count_items(self.items_view(), |i: ItemView| i.4 == ItemState::Completed && item_renamed(i)),
            skipped ==> r == count_items(self.items_view(), |i: ItemView| i.4 == ItemState::Skipped),
    {
        let ghost items = self.items_view();
        let ghost p = if skipped {
            |i: ItemView| i.4 == ItemState::Skipped
        } else if renamed {
            |i: ItemView| i.4 == ItemState::Completed && item_renamed(i)
        } else {
            |i: ItemView| i.4 == ItemState::Completed
        };
        let mut n: usize = 0;
        let mut k: usize = 0;
        assert(items.take(0) =~= Seq::<ItemView>::empty());
        while k < self.items.len()
            invariant
                k <= self.items.len(),
                items == self.items_view(),
                p == (if skipped {
                    |i: ItemView| i.4 == ItemState::Skipped
                } else if renamed {
                    |i: ItemView| i.4 == ItemState::Completed && item_renamed(i)
                } else {
                    |i: ItemView| i.4 == ItemState::Completed
                }),
                n == count_items(items.take(k as int), p),
                n <= k,
            decreases self.items.len() - k,
        {
            let item = &self.items[k];
            let ghost next = items.take(k + 1);
            assert(next.drop_last() =~= items.take(k as int));
            assert(next.last() == item@);
            let hit = if skipped {
                item.state == ItemState::Skipped
            } else if renamed {
                item.completed() && item.was_renamed()
            } else {
                item.completed()
            };
            if hit {
                n = n + 1;
            }
            k += 1;
        }
        assert(items.take(self.items.len() as int) =~= items);
        n
    }

    /// How many items completed.
    pub fn succeeded(&self) -> (r: usize)
        ensures
            r == count_items(self.items_view(), |i: ItemView| i.4 == ItemState::Completed),
    {
        self.count_where(true, false, false)
    }

    /// Completed items that had to take a different name than the one requested.
    pub fn renamed(&self) -> (r: usize)
        ensures
            r == count_items(self.items_view(), |i: ItemView| i.4 == ItemState::Completed && item_renamed(i)),
    {
        self.count_where(true, true, false)
    }

    /// How many items were skipped.
    pub fn skipped(&self) -> (r: usize)
        ensures
            r == count_items(self.items_view(), |i: ItemView| i.4 == ItemState::Skipped),
    {
        self.count_where(false, false, true)
    }

    /// `name: error` for every item that failed to do all it should, in order.
    pub fn problems(&self) -> (r: Vec<String>)
        ensures
            r@.map_values(|s: String| s@) == problem_texts(self.items_view()),
    {
        let ghost items = self.items_view();
        let mut out: Vec<String> = Vec::new();
        let mut k: usize = 0;
        assert(items.take(0) =~= Seq::<ItemView>::empty());
        assert(out@.map_values(|s: String| s@) =~= Seq::<Seq<char>>::empty());
        while k < self.items.len()
            invariant
                k <= self.items.len(),
                items == self.items_view(),
                out@.map_values(|s: String| s@) == problem_texts(items.take(k as int)),
            decreases self.items.len() - k,
        {
            let item = &self.items[k];
            let ghost next = items.take(k + 1);
            assert(next.drop_last() =~= items.take(k as int));
            assert(next.last() == item@);
            match &item.error {
                Some(error) => {
                    let mut line = display_name(item.source.as_slice());
                    push_str(&mut line, ": ");
                    push_str(&mut line, error.as_str());
                    let ghost before = out@.map_values(|s: String| s@);
                    out.push(line);
                    assert(out@.map_values(|s: String| s@) =~= before.push(line@));
                },
                None => {},
            }
            k += 1;
        }
        assert(items.take(self.items.len() as int) =~= items);
        out
    }

    /// True when the job was not cancelled and every item completed.
    pub fn is_complete(&self) -> (r: bool)
        ensures
            r == (!self.cancelled && forall|k: int| 0 <= k < self.items_view().len() ==> (#[trigger] self.items_view()[k]).4 == ItemState::Completed),
    {
        if self.cancelled {
            return false;
        }
        let mut k: usize = 0;
        while k < self.items.len()
            invariant
                k <= self.items.len(),
                forall|j: int| 0 <= j < k ==> (#[trigger] self.items_view()[j]).4 == ItemState::Completed,
            decreases self.items.len() - k,
        {
            if !self.items[k].completed() {
                assert(self.items_view()[k as int].4 != ItemState::Completed);
                return false;
            }
            k += 1;
        }
        true
    }

    /// The sources of every item that did not complete, in order.
    pub fn remaining_sources(&self) -> (r: Vec<Vec<u8>>)
        ensures
            paths_view(r@) == remaining_of(self.items_view()),
    {
        let ghost items = self.items_view();
        let mut out: Vec<Vec<u8>> = Vec::new();
        let mut k: usize = 0;
        assert(items.take(0) =~= Seq::<ItemView>::empty());
        assert(paths_view(out@) =~= Seq::<Seq<u8>>::empty());
        while k < self.items.len()
            invariant
                k <= self.items.len(),
                items == self.items_view(),
                paths_view(out@) == remaining_of(items.take(k as int)),
            decreases self.items.len() - k,
        {
            let item = &self.items[k];
            let ghost next = items.take(k + 1);
            assert(next.drop_last() =~= items.take(k as int));
            assert(next.last() == item@);
            if !item.completed() {
                let ghost before = paths_view(out@);
                out.push(copy_bytes(item.source.as_slice()));
                assert(paths_view(out@) =~= before.push(item.source@));
            }
            k += 1;
        }
        assert(items.take(self.items.len() as int) =~= items);
        out
    }

    /// The tag updates this report justifies, and nothing more: every completed item
    /// carries its tags to where it actually landed, or loses them when it landed
    /// nowhere; nothing else moves a tag.
    pub fn tag_updates(&self) -> (r: Vec<(Vec<u8>, Option<Vec<u8>>)>)
        ensures
            r@.map_values(|u: (Vec<u8>, Option<Vec<u8>>)| (u.0@, opt_bytes(u.1))) == tag_updates_of(self.items_view()),
    {
        let ghost items = self.items_view();
        let mut out: Vec<(Vec<u8>, Option<Vec<u8>>)> = Vec::new();
        let mut k: usize = 0;
        assert(items.take(0) =~= Seq::<ItemView>::empty());
        assert(out@.map_values(|u: (Vec<u8>, Option<Vec<u8>>)| (u.0@, opt_bytes(u.1))) =~= Seq::<(Seq<u8>, Option<Seq<u8>>)>::empty());
        while k < self.items.len()
            invariant
                k <= self.items.len(),
                items == self.items_view(),
                out@.map_values(|u: (Vec<u8>, Option<Vec<u8>>)| (u.0@, opt_bytes(u.1))) == tag_updates_of(items.take(k as int)),
            decreases self.items.len() - k,
        {
            let item = &self.items[k];
            let ghost next = items.take(k + 1);
            assert(next.drop_last() =~= items.take(k as int));
            assert(next.last() == item@);
            if item.completed() {
                let target: Option<Vec<u8>> = match &item.actual_destination {
                    Some(actual) => if path_eq(actual.as_slice(), item.source.as_slice()) {
                        None
                    } else {
                        Some(copy_bytes(actual.as_slice()))
                    },
                    None => None,
                };
                let ghost before = out@.map_values(|u: (Vec<u8>, Option<Vec<u8>>)| (u.0@, opt_bytes(u.1)));
                let entry = (copy_bytes(item.source.as_slice()), target);
                let ghost ev = (entry.0@, opt_bytes(entry.1));
                assert(ev == (item.source@, tag_target(item@)));
                out.push(entry);
                assert(out@.map_values(|u: (Vec<u8>, Option<Vec<u8>>)| (u.0@, opt_bytes(u.1))) =~= before.push(ev));
            }
            k += 1;
        }
        assert(items.take(self.items.len() as int) =~= items);
        out
    }

    /// Source and actual destination of every completed item that landed somewhere.
    pub fn completed_moves(&self) -> (r: Vec<(Vec<u8>, Vec<u8>)>)
        ensures
            r@.map_values(|m: (Vec<u8>, Vec<u8>)| (m.0@, m.1@)) == moves_of(self.items_view()),
    {
        let ghost items = self.items_view();
        let mut out: Vec<(Vec<u8>, Vec<u8>)> = Vec::new();
        let mut k: usize = 0;
        assert(items.take(0) =~= Seq::<ItemView>::empty());
        assert(out@.map_values(|m: (Vec<u8>, Vec<u8>)| (m.0@, m.1@)) =~= Seq::<(Seq<u8>, Seq<u8>)>::empty());
        while k < self.items.len()
            invariant
                k <= self.items.len(),
                items == self.items_view(),
                out@.map_values(|m: (Vec<u8>, Vec<u8>)| (m.0@, m.1@)) == moves_of(items.take(k as int)),
            decreases self.items.len() - k,
        {
            let item = &self.items[k];
            let ghost next = items.take(k + 1);
            assert(next.drop_last() =~= items.take(k as int));
            assert(next.last() == item@);
            if item.completed() {
                match &item.actual_destination {
                    Some(actual) => {
                        let ghost before = out@.map_values(|m: (Vec<u8>, Vec<u8>)| (m.0@, m.1@));
                        let entry = (copy_bytes(item.source.as_slice()), copy_bytes(actual.as_slice()));
                        out.push(entry);
                        assert(out@.map_values(|m: (Vec<u8>, Vec<u8>)| (m.0@, m.1@)) =~= before.push((item.source@, actual@)));
                    },
                    None => {},
                }
            }
            k += 1;
        }
        assert(items.take(self.items.len() as int) =~= items);
        out
    }
}

/// Only completed items ever move or drop a tag, and each one does so exactly once,
/// in the order of the report.
pub proof fn lemma_tag_updates_follow_completed_items(items: Seq<ItemView>)
    ensures
        tag_updates_of(items).len() == count_items(items, |i: ItemView| i.4 == ItemState::Completed),
    decreases items.len(),
{
    if items.len() > 0 {
        lemma_tag_updates_follow_completed_items(items.drop_last());
    }
}

// --------------------------------------------------------------- job items ----

/// Where an item is asked to go inside `destination`: under its own file name, or
/// (with no destination, or no file name) where it already is.
pub open spec fn requested_for(source: Seq<u8>, destination: Option<Seq<u8>>) -> Seq<u8> {
    match destination {
        Some(d) => match file_name(source) {
            Some(n) => join(d, n),
            None => source,
        },
        None => source,
    }
}

/// A path's file name, or the whole path when it has none.
pub open spec fn name_or_whole(p: Seq<u8>) -> Seq<u8> {
    match file_name(p) {
        Some(n) => n,
        None => p,
    }
}

fn requested_of(source: &[u8], destination: Option<&[u8]>) -> (r: Vec<u8>)
    ensures
        r@ == requested_for(
            source@,
            match destination {
                Some(d) => Some(d@),
                None => None,
            },
        ),
{
    match destination {
        Some(d) => match file_name_of(source) {
            Some(name) => join_path(d, name.as_slice()),
            None => copy_bytes(source),
        },
        None => copy_bytes(source),
    }
}

fn name_or_whole_of(p: &[u8]) -> (r: Vec<u8>)
    ensures
        r@ == name_or_whole(p@),
{
    match file_name_of(p) {
        Some(n) => n,
        None => copy_bytes(p),
    }
}

/// The item a job records for a source it never reached because it was cancelled.
pub open spec fn cancelled_item(source: Seq<u8>, destination: Option<Seq<u8>>) -> ItemView {
    (source, requested_for(source, destination), None, 0u64, ItemState::Cancelled, Some("cancelled"@))
}

/// Record every source the job did not reach as cancelled. The job itself is marked
/// cancelled by whoever stopped it.
pub fn append_cancelled(report: &mut JobReport, sources: &[Vec<u8>], destination: Option<&[u8]>)
    ensures
        final(report).items_view() == old(report).items_view() + paths_view(sources@).map_values(
            |s: Seq<u8>|
                cancelled_item(
                    s,
                    match destination {
                        Some(d) => Some(d@),
                        None => None,
                    },
                ),
        ),
        final(report).cancelled == old(report).cancelled,
        final(report).kind == old(report).kind,
{
    let ghost dest = match destination {
        Some(d) => Some(d@),
        None => None::<Seq<u8>>,
    };
    let ghost start = report.items_view();
    let ghost added = paths_view(sources@).map_values(|s: Seq<u8>| cancelled_item(s, dest));
    let mut k: usize = 0;
    assert(start + added.take(0) =~= start);
    while k < sources.len()
        invariant
            k <= sources.len(),
            added == paths_view(sources@).map_values(|s: Seq<u8>| cancelled_item(s, dest)),
            dest == match destination {
                Some(d) => Some(d@),
                None => None::<Seq<u8>>,
            },
            report.items_view() == start + added.take(k as int),
            report.cancelled == old(report).cancelled,
            report.kind == old(report).kind,
        decreases sources.len() - k,
    {
        let source = &sources[k];
        let requested = requested_of(source.as_slice(), destination);
        let mut item = ItemResult::new(copy_bytes(source.as_slice()), requested);
        item.state = ItemState::Cancelled;
        item.error = Some(String::from_str("cancelled"));
        let ghost before = report.items_view();
        let ghost v = item@;
        assert(v == added[k as int]);
        report.items.push(item);
        assert(report.items_view() =~= before.push(v));
        assert(start + added.take(k + 1) =~= (start + added.take(k as int)).push(added[k as int]));
        k += 1;
    }
    assert(added.take(sources.len() as int) =~= added);
}

/// The item a job records for a source it refused before starting.
pub open spec fn refused_item(source: Seq<u8>, destination: Option<Seq<u8>>, error: Seq<char>) -> ItemView {
    (
        source,
        match destination {
            Some(d) => join(d, name_or_whole(source)),
            None => source,
        },
        None,
        0u64,
        ItemState::Failed,
        Some(error),
    )
}

/// A job that never ran: every source failed with `error`, asked to go into
/// `destination` (or nowhere, for jobs that do not place anything).
pub fn refused_report(kind: OperationKind, sources: &[Vec<u8>], destination: Option<&[u8]>, error: &str) -> (r: JobReport)
    ensures
        r.kind == kind,
        !r.cancelled,
        r.items_view() == paths_view(sources@).map_values(
            |s: Seq<u8>|
                refused_item(
                    s,
                    match destination {
                        Some(d) => Some(d@),
                        None => None,
                    },
                    error@,
                ),
        ),
{
    let ghost dest = match destination {
        Some(d) => Some(d@),
        None => None::<Seq<u8>>,
    };
    let ghost all = paths_view(sources@).map_values(|s: Seq<u8>| refused_item(s, dest, error@));
    let mut report = JobReport::new(kind);
    let mut k: usize = 0;
    assert(all.take(0) =~= report.items_view());
    while k < sources.len()
        invariant
            k <= sources.len(),
            all == paths_view(sources@).map_values(|s: Seq<u8>| refused_item(s, dest, error@)),
            dest == match destination {
                Some(d) => Some(d@),
                None => None::<Seq<u8>>,
            },
            report.items_view() == all.take(k as int),
            report.kind == kind,
            !report.cancelled,
        decreases sources.len() - k,
    {
        let source = &sources[k];
        let requested = match destination {
            Some(d) => {
                let name = name_or_whole_of(source.as_slice());
                join_path(d, name.as_slice())
            },
            None => copy_bytes(source.as_slice()),
        };
        let mut item = ItemResult::new(copy_bytes(source.as_slice()), requested);
        item.error = Some(String::from_str(error));
        let ghost before = report.items_view();
        let ghost v = item@;
        assert(v == all[k as int]);
        report.items.push(item);
        assert(report.items_view() =~= before.push(v));
        assert(all.take(k + 1) =~= all.take(k as int).push(all[k as int]));
        k += 1;
    }
    assert(all.take(sources.len() as int) =~= all);
    report
}

/// How one placement ended: where the item went, or why it went nowhere.
#[derive(Debug)]
pub enum Execution {
    Completed(Vec<u8>),
    Partial(Vec<u8>, String),
    Skipped(Vec<u8>),
}

/// Why a placement stopped: a cancellation, or another error, with its message.
#[derive(Debug)]
pub struct Failure {
    pub cancelled: bool,
    pub message: String,
}

// ------------------------------------------------------- new entries ----

/// What the last step of creating a new entry found out.
#[derive(Debug)]
pub enum NewEntryEvent {
    /// Nothing done yet: whether the job is cancelled, and whether a move stays on one
    /// filesystem.
    Start { cancelled: bool, same_filesystem: bool },
    /// The link was made, or the entry was moved, at the target.
    Done,
    /// The copy is complete; whether the job was cancelled meanwhile.
    Copied { cancelled: bool },
    /// The source of a move was removed after its copy, or could not be (the error).
    SourceRemoved { error: Option<String> },
}

/// What creating a new entry at the target does next.
#[derive(Debug)]
pub enum NewEntryStep {
    /// Make a symbolic link to the source at the target.
    Link,
    /// Move the source to the target in one rename, never replacing anything.
    MoveInPlace,
    /// Copy the source to the target.
    Copy,
    /// Remove the source, now that its copy is complete.
    RemoveSource,
    /// Stop as cancelled, removing first what the copy created when `discard_copy`.
    Cancel { discard_copy: bool },
    /// The placement is over.
    Finish(Execution),
}

/// The report of a move whose copy completed but whose source stayed.
pub open spec fn copy_kept_message(target: Seq<u8>, error: Seq<char>) -> Seq<char> {
    "the copy completed at "@ + path_text(target) + ", but the source could not be removed: "@
        + error
}

fn copy_kept_report(target: &[u8], error: &str) -> (r: String)
    ensures
        r@ == copy_kept_message(target@, error@),
{
    let mut text = String::from_str("the copy completed at ");
    let shown = lossy(target);
    push_str(&mut text, shown.as_str());
    push_str(&mut text, ", but the source could not be removed: ");
    push_str(&mut text, error);
    text
}

/// The next step of creating a new entry for a `kind` job at `target`. A cancelled
/// job stops at once. A link is made in place; a move within one filesystem is one
/// rename; anything else is copied. A copy is then complete, while a move removes its
/// source, unless the job was cancelled during the copy, in which case the copy is
/// discarded. A source that cannot be removed leaves the copy in place and is
/// reported.
pub fn new_entry_step(kind: TransferKind, target: &[u8], event: NewEntryEvent) -> (r: NewEntryStep)
    ensures
        event matches NewEntryEvent::Start { cancelled, same_filesystem } ==> if cancelled {
            r matches NewEntryStep::Cancel { discard_copy } && !discard_copy
        } else if kind is Link {
            r is Link
        } else if kind is Move && same_filesystem {
            r is MoveInPlace
        } else {
            r is Copy
        },
        event is Done ==> (r matches NewEntryStep::Finish(Execution::Completed(p)) && p@ == target@),
        event matches NewEntryEvent::Copied { cancelled } ==> if kind is Move {
            if cancelled {
                r matches NewEntryStep::Cancel { discard_copy } && discard_copy
            } else {
                r is RemoveSource
            }
        } else {
            r matches NewEntryStep::Finish(Execution::Completed(p)) && p@ == target@
        },
        event matches NewEntryEvent::SourceRemoved { error } ==> match error {
            Some(e) => r matches NewEntryStep::Finish(Execution::Partial(p, m)) && p@ == target@
                && m@ == copy_kept_message(target@, e@),
            None => r matches NewEntryStep::Finish(Execution::Completed(p)) && p@ == target@,
        },
{
    match event {
        NewEntryEvent::Start { cancelled, same_filesystem } => {
            if cancelled {
                NewEntryStep::Cancel { discard_copy: false }
            } else {
                match kind {
                    TransferKind::Link => NewEntryStep::Link,
                    TransferKind::Move => if same_filesystem {
                        NewEntryStep::MoveInPlace
                    } else {
                        NewEntryStep::Copy
                    },
                    TransferKind::Copy => NewEntryStep::Copy,
                }
            }
        },
        NewEntryEvent::Done => NewEntryStep::Finish(Execution::Completed(copy_bytes(target))),
        NewEntryEvent::Copied { cancelled } => match kind {
            TransferKind::Move => if cancelled {
                NewEntryStep::Cancel { discard_copy: true }
            } else {
                NewEntryStep::RemoveSource
            },
            _ => NewEntryStep::Finish(Execution::Completed(copy_bytes(target))),
        },
        NewEntryEvent::SourceRemoved { error } => match error {
            Some(e) => NewEntryStep::Finish(
                Execution::Partial(copy_bytes(target), copy_kept_report(target, e.as_str())),
            ),
            None => NewEntryStep::Finish(Execution::Completed(copy_bytes(target))),
        },
    }
}

// ------------------------------------------------------------ replacing ----

/// What the last step of replacing an existing entry found out.
#[derive(Debug)]
pub enum ReplaceEvent {
    /// Nothing done yet.
    Start,
    /// The incoming entry is ready at a private staging path; whether the job was
    /// cancelled meanwhile.
    Staged { cancelled: bool },
    /// Whether the existing entry was moved aside to its backup path.
    MovedAside { moved: bool },
    /// The staged entry was moved to the target, or could not be (the error).
    Placed { error: Option<String> },
    /// After a failed placement, whether the backup was put back at the target; the
    /// backup path and the placement's error.
    PutBack { restored: bool, backup: Vec<u8>, error: String },
    /// The backup at `backup` was removed, or could not be (the error).
    BackupRemoved { backup: Vec<u8>, error: Option<String> },
    /// The source of a move was removed, or could not be (the error).
    SourceRemoved { error: Option<String> },
}

/// How a replacement stops.
#[derive(Debug)]
pub enum Ending {
    /// As cancelled.
    Cancelled,
    /// With the error the last step raised.
    Failed,
    /// With this result.
    Executed(Execution),
}

/// What replacing an existing entry does next.
#[derive(Debug)]
pub enum ReplaceStep {
    /// Put the incoming entry at a private staging path beside the target: a symbolic
    /// link to the source when `link`, otherwise a copy of it.
    Stage { link: bool },
    /// Move the existing entry into a private backup folder.
    MoveAside,
    /// Move the staged entry to the target, never replacing anything.
    PutInPlace,
    /// Move the backup back to the target.
    PutBack,
    /// Remove the backup.
    RemoveBackup,
    /// Remove the source of the move, after removing the emptied backup folder when
    /// `remove_backup_dir`.
    RemoveSource { remove_backup_dir: bool },
    /// Stop: first remove what staging created when `discard_staged`, then the backup
    /// folder when `remove_backup_dir`.
    Finish { discard_staged: bool, remove_backup_dir: bool, ending: Ending },
}

/// The report of a replacement whose original could not be put back.
pub open spec fn backup_kept_message(error: Seq<char>) -> Seq<char> {
    "replacement failed ("@ + error + "); the original remains in the reported backup path"@
}

/// The report of a replacement whose old entry could not be removed.
pub open spec fn old_kept_message(backup: Seq<u8>, error: Seq<char>) -> Seq<char> {
    "replacement completed, but the old destination remains at "@ + path_text(backup) + ": "@
        + error
}

/// The report of a replacing move whose source could not be removed.
pub open spec fn source_kept_message(error: Seq<char>) -> Seq<char> {
    "replacement completed, but the source could not be removed: "@ + error
}

fn backup_kept_report(error: &str) -> (r: String)
    ensures
        r@ == backup_kept_message(error@),
{
    let mut text = String::from_str("replacement failed (");
    push_str(&mut text, error);
    push_str(&mut text, "); the original remains in the reported backup path");
    text
}

fn old_kept_report(backup: &[u8], error: &str) -> (r: String)
    ensures
        r@ == old_kept_message(backup@, error@),
{
    let mut text = String::from_str("replacement completed, but the old destination remains at ");
    let shown = lossy(backup);
    push_str(&mut text, shown.as_str());
    push_str(&mut text, ": ");
    push_str(&mut text, error);
    text
}

fn source_kept_report(error: &str) -> (r: String)
    ensures
        r@ == source_kept_message(error@),
{
    let mut text = String::from_str("replacement completed, but the source could not be removed: ");
    push_str(&mut text, error);
    text
}

/// The next step of replacing the entry at `target` with a `kind` job's source. The
/// incoming entry is staged first and the existing one is moved aside before anything
/// is put in place, so a failure at any point leaves one of them at the target: a
/// cancellation or a failed move aside discards the staged entry; a failed placement
/// puts the original back (and fails as the placement did), or reports where the
/// original remains when it cannot be put back. Once the new entry is in place, the
/// backup is removed and then, for a move, the source; either one that remains is
/// reported.
pub fn replace_step(kind: TransferKind, target: &[u8], event: ReplaceEvent) -> (r: ReplaceStep)
    ensures
        event is Start ==> (r matches ReplaceStep::Stage { link } && link == (kind is Link)),
        event matches ReplaceEvent::Staged { cancelled } ==> if cancelled {
            r matches ReplaceStep::Finish { discard_staged, remove_backup_dir, ending }
                && discard_staged && !remove_backup_dir && ending is Cancelled
        } else {
            r is MoveAside
        },
        event matches ReplaceEvent::MovedAside { moved } ==> if moved {
            r is PutInPlace
        } else {
            r matches ReplaceStep::Finish { discard_staged, remove_backup_dir, ending }
                && discard_staged && remove_backup_dir && ending is Failed
        },
        event matches ReplaceEvent::Placed { error } ==> if error is Some {
            r is PutBack
        } else {
            r is RemoveBackup
        },
        event matches ReplaceEvent::PutBack { restored, backup, error } ==> if restored {
            r matches ReplaceStep::Finish { discard_staged, remove_backup_dir, ending }
                && discard_staged && remove_backup_dir && ending is Failed
        } else {
            r matches ReplaceStep::Finish {
                discard_staged,
                remove_backup_dir,
                ending: Ending::Executed(Execution::Partial(p, m)),
            } && discard_staged && !remove_backup_dir && p@ == backup@ && m@ == backup_kept_message(
                error@,
            )
        },
        event matches ReplaceEvent::BackupRemoved { backup, error } ==> match error {
            Some(e) => r matches ReplaceStep::Finish {
                discard_staged,
                remove_backup_dir,
                ending: Ending::Executed(Execution::Partial(p, m)),
            } && !discard_staged && !remove_backup_dir && p@ == target@ && m@ == old_kept_message(
                backup@,
                e@,
            ),
            None => if kind is Move {
                r matches ReplaceStep::RemoveSource { remove_backup_dir } && remove_backup_dir
            } else {
                r matches ReplaceStep::Finish {
                    discard_staged,
                    remove_backup_dir,
                    ending: Ending::Executed(Execution::Completed(p)),
                } && !discard_staged && remove_backup_dir && p@ == target@
            },
        },
        event matches ReplaceEvent::SourceRemoved { error } ==> match error {
            Some(e) => r matches ReplaceStep::Finish {
                discard_staged,
                remove_backup_dir,
                ending: Ending::Executed(Execution::Partial(p, m)),
            } && !discard_staged && !remove_backup_dir && p@ == target@ && m@ == source_kept_message(
                e@,
            ),
            None => r matches ReplaceStep::Finish {
                discard_staged,
                remove_backup_dir,
                ending: Ending::Executed(Execution::Completed(p)),
            } && !discard_staged && !remove_backup_dir && p@ == target@,
        },
{
    match event {
        ReplaceEvent::Start => ReplaceStep::Stage { link: kind == TransferKind::Link },
        ReplaceEvent::Staged { cancelled } => if cancelled {
            ReplaceStep::Finish { discard_staged: true, remove_backup_dir: false, ending: Ending::Cancelled }
        } else {
            ReplaceStep::MoveAside
        },
        ReplaceEvent::MovedAside { moved } => if moved {
            ReplaceStep::PutInPlace
        } else {
            ReplaceStep::Finish { discard_staged: true, remove_backup_dir: true, ending: Ending::Failed }
        },
        ReplaceEvent::Placed { error } => match error {
            Some(_) => ReplaceStep::PutBack,
            None => ReplaceStep::RemoveBackup,
        },
        ReplaceEvent::PutBack { restored, backup, error } => if restored {
            ReplaceStep::Finish { discard_staged: true, remove_backup_dir: true, ending: Ending::Failed }
        } else {
            let message = backup_kept_report(error.as_str());
            ReplaceStep::Finish {
                discard_staged: true,
                remove_backup_dir: false,
                ending: Ending::Executed(Execution::Partial(backup, message)),
            }
        },
        ReplaceEvent::BackupRemoved { backup, error } => match error {
            Some(e) => {
                let message = old_kept_report(backup.as_slice(), e.as_str());
                ReplaceStep::Finish {
                    discard_staged: false,
                    remove_backup_dir: false,
                    ending: Ending::Executed(Execution::Partial(copy_bytes(target), message)),
                }
            },
            None => match kind {
                TransferKind::Move => ReplaceStep::RemoveSource { remove_backup_dir: true },
                _ => ReplaceStep::Finish {
                    discard_staged: false,
                    remove_backup_dir: true,
                    ending: Ending::Executed(Execution::Completed(copy_bytes(target))),
                },
            },
        },
        ReplaceEvent::SourceRemoved { error } => match error {
            Some(e) => {
                let message = source_kept_report(e.as_str());
                ReplaceStep::Finish {
                    discard_staged: false,
                    remove_backup_dir: false,
                    ending: Ending::Executed(Execution::Partial(copy_bytes(target), message)),
                }
            },
            None => ReplaceStep::Finish {
                discard_staged: false,
                remove_backup_dir: false,
                ending: Ending::Executed(Execution::Completed(copy_bytes(target))),
            },
        },
    }
}

/// What happened to one source of a transfer.
#[derive(Debug)]
pub enum Placement {
    /// Moving an item onto itself; nothing was done.
    SelfMove,
    /// The job refused the item before placing it (a folder into itself, say).
    Refused(String),
    /// The placement ran and ended like this, having moved `bytes` bytes.
    Placed(Result<Execution, Failure>, u64),
}

/// The outcome recorded for a source that went through a transfer.
pub open spec fn transfer_item_view(source: Seq<u8>, destination: Seq<u8>, placement: Placement) -> ItemView {
    match file_name(source) {
        None => (source, destination, None, 0u64, ItemState::Failed, Some("the source has no file name"@)),
        Some(name) => {
            let requested = join(destination, name);
            match placement {
                Placement::SelfMove => (source, requested, Some(source), 0u64, ItemState::Skipped, None),
                Placement::Refused(e) => (source, requested, None, 0u64, ItemState::Failed, Some(e@)),
                Placement::Placed(outcome, bytes) => match outcome {
                    Ok(Execution::Completed(p)) => (source, requested, Some(p@), bytes, ItemState::Completed, None),
                    Ok(Execution::Partial(p, e)) => (source, requested, Some(p@), bytes, ItemState::Partial, Some(e@)),
                    Ok(Execution::Skipped(p)) => (source, requested, Some(p@), 0u64, ItemState::Skipped, None),
                    Err(f) => if f.cancelled {
                        (source, requested, None, 0u64, ItemState::Cancelled, Some("cancelled"@))
                    } else {
                        (source, requested, None, 0u64, ItemState::Failed, Some(f.message@))
                    },
                },
            }
        },
    }
}

/// The outcome a transfer records for `source` sent into `destination`: a source with
/// no file name fails before anything else, and otherwise the item is asked to go to
/// `destination` under its own name and records where it actually went.
pub fn transfer_item(source: &[u8], destination: &[u8], placement: Placement) -> (r: ItemResult)
    ensures
        r@ == transfer_item_view(source@, destination@, placement),
{
    let name = match file_name_of(source) {
        Some(n) => n,
        None => {
            let mut item = ItemResult::new(copy_bytes(source), copy_bytes(destination));
            item.error = Some(String::from_str("the source has no file name"));
            return item;
        },
    };
    let requested = join_path(destination, name.as_slice());
    let mut item = ItemResult::new(copy_bytes(source), requested);
    match placement {
        Placement::SelfMove => {
            item.actual_destination = Some(copy_bytes(source));
            item.state = ItemState::Skipped;
        },
        Placement::Refused(e) => {
            item.error = Some(e);
        },
        Placement::Placed(outcome, bytes) => match outcome {
            Ok(Execution::Completed(p)) => {
                item.actual_destination = Some(p);
                item.bytes = bytes;
                item.state = ItemState::Completed;
            },
            Ok(Execution::Partial(p, e)) => {
                item.actual_destination = Some(p);
                item.bytes = bytes;
                item.state = ItemState::Partial;
                item.error = Some(e);
            },
            Ok(Execution::Skipped(p)) => {
                item.actual_destination = Some(p);
                item.state = ItemState::Skipped;
            },
            Err(f) => {
                if f.cancelled {
                    item.state = ItemState::Cancelled;
                    item.error = Some(String::from_str("cancelled"));
                } else {
                    item.error = Some(f.message);
                }
            },
        },
    }
    item
}

// ------------------------------------------------------------ merging folders ----

/// Whether the source folder of a merged move could be removed afterwards.
#[derive(Debug)]
pub enum DirRemoval {
    Removed,
    Failed { not_empty: bool, message: String },
}

/// The running state of a folder merge: whether anything landed yet, and what did
/// not go as asked.
#[derive(Debug)]
pub struct MergeState {
    pub changed: bool,
    pub incomplete: Vec<String>,
}

/// What one child's placement adds to a merge: it may mark the merge as having
/// changed something, and it may add a complaint. `None` as the complaint list means
/// the merge stops with the child's error (nothing had changed yet).
pub open spec fn merge_step(changed: bool, child: Seq<u8>, outcome: Result<Execution, Failure>) -> (bool, Option<Seq<char>>, bool) {
    match outcome {
        Ok(Execution::Completed(_)) => (true, None, false),
        Ok(Execution::Skipped(_)) => (changed, Some(path_text(child) + " was skipped"@), false),
        Ok(Execution::Partial(_, e)) => (true, Some(e@), false),
        Err(f) => if !changed {
            (changed, None, true)
        } else {
            (changed, Some(f.message@), false)
        },
    }
}

impl MergeState {
    /// The complaints so far.
    pub open spec fn complaints(&self) -> Seq<Seq<char>> {
        self.incomplete@.map_values(|s: String| s@)
    }

    /// Nothing merged yet.
    pub fn new() -> (r: MergeState)
        ensures
            !r.changed,
            r.complaints().len() == 0,
    {
        MergeState { changed: false, incomplete: Vec::new() }
    }

    /// Take in how one child named `child` was placed. Returns the error that ends
    /// the merge when a child fails before anything has changed.
    pub fn absorb(&mut self, child: &[u8], outcome: Result<Execution, Failure>) -> (r: Option<Failure>)
        ensures
            ({
                let step = merge_step(old(self).changed, child@, outcome);
                &&& final(self).changed == step.0
                &&& final(self).complaints() == match step.1 {
                    Some(c) => old(self).complaints().push(c),
                    None => old(self).complaints(),
                }
                &&& (r is Some) == step.2
                &&& (r matches Some(f) ==> (outcome matches Err(g) && f.message@ == g.message@ && f.cancelled == g.cancelled))
            }),
    {
        let ghost before = self.complaints();
        match outcome {
            Ok(Execution::Completed(_)) => {
                self.changed = true;
                None
            },
            Ok(Execution::Skipped(_)) => {
                let mut line = lossy(child);
                push_str(&mut line, " was skipped");
                let ghost l = line@;
                self.incomplete.push(line);
                assert(self.complaints() =~= before.push(l));
                None
            },
            Ok(Execution::Partial(_, e)) => {
                self.changed = true;
                let ghost l = e@;
                self.incomplete.push(e);
                assert(self.complaints() =~= before.push(l));
                None
            },
            Err(f) => {
                if !self.changed {
                    Some(f)
                } else {
                    let ghost l = f.message@;
                    self.incomplete.push(f.message);
                    assert(self.complaints() =~= before.push(l));
                    None
                }
            },
        }
    }

    /// End a merge into `target`. After a move the source folder is removed; a folder
    /// left non-empty by skipped children is expected, any other failure is a
    /// complaint once something changed and the merge's error before that.
    pub fn finish(self, kind: TransferKind, removal: DirRemoval, target: Vec<u8>) -> (r: Result<Execution, Failure>)
        ensures
            ({
                let extra: Option<Seq<char>> = if kind != TransferKind::Move {
                    None
                } else {
                    match removal {
                        DirRemoval::Removed => None,
                        DirRemoval::Failed { not_empty, message } => if not_empty && self.complaints().len() > 0 {
                            None
                        } else if self.changed {
                            Some("the source folder remains because it could not be removed: "@ + message@)
                        } else {
                            None
                        },
                    }
                };
                let fails = kind == TransferKind::Move && ((removal matches DirRemoval::Failed { not_empty, message } && !(not_empty && self.complaints().len() > 0)) && !self.changed);
                let all = match extra {
                    Some(c) => self.complaints().push(c),
                    None => self.complaints(),
                };
                &&& fails ==> (r matches Err(f) && !f.cancelled && (removal matches DirRemoval::Failed { not_empty, message } && f.message@ == message@))
                &&& !fails && all.len() == 0 ==> (r matches Ok(Execution::Completed(p)) && p@ == target@)
                &&& !fails && all.len() > 0 ==> (r matches Ok(Execution::Partial(p, e)) && p@ == target@ && e@ == joined(all, "; "@))
            }),
    {
        let mut incomplete = self.incomplete;
        let ghost before = incomplete@.map_values(|s: String| s@);
        if kind == TransferKind::Move {
            match removal {
                DirRemoval::Removed => {},
                DirRemoval::Failed { not_empty, message } => {
                    if not_empty && incomplete.len() > 0 {
                    } else if self.changed {
                        let mut line = String::from_str("the source folder remains because it could not be removed: ");
                        push_str(&mut line, message.as_str());
                        let ghost l = line@;
                        incomplete.push(line);
                        assert(incomplete@.map_values(|s: String| s@) =~= before.push(l));
                    } else {
                        return Err(Failure { cancelled: false, message });
                    }
                },
            }
        }
        if incomplete.len() == 0 {
            Ok(Execution::Completed(target))
        } else {
            let text = join_texts(&incomplete, "; ");
            Ok(Execution::Partial(target, text))
        }
    }
}

// --------------------------------------------------------- destination names ----

/// ` (copy)`, as bytes.
pub open spec fn copy_mark() -> Seq<u8> {
    seq![32u8, 40u8, 99u8, 111u8, 112u8, 121u8, 41u8]
}

/// ` (copy `, as bytes.
pub open spec fn copy_mark_open() -> Seq<u8> {
    seq![32u8, 40u8, 99u8, 111u8, 112u8, 121u8, 32u8]
}

/// The name a placement tries on attempt `attempt`: the name itself first, then
/// ` (copy)`, then ` (copy 2)`, ` (copy 3)` and so on, always before the extension.
pub open spec fn candidate_name(name: Seq<u8>, attempt: nat) -> Seq<u8> {
    let stem = match file_stem(name) {
        Some(s) => s,
        None => name,
    };
    let base = if attempt == 0 {
        stem
    } else if attempt == 1 {
        stem + copy_mark()
    } else {
        stem + copy_mark_open() + decimal_bytes(attempt) + seq![41u8]
    };
    match extension(name) {
        Some(e) => base + seq![46u8] + e,
        None => base,
    }
}

/// A placement gives up after this many names.
pub const MAX_NAME_ATTEMPTS: u32 = 10000;

/// The name tried on attempt `attempt` for an item called `name`.
pub fn destination_name(name: &[u8], attempt: u32) -> (r: Vec<u8>)
    ensures
        r@ == candidate_name(name@, attempt as nat),
{
    let mut r = match file_stem_of(name) {
        Some(s) => s,
        None => copy_bytes(name),
    };
    if attempt == 1 {
        extend_bytes(&mut r, &[32u8, 40u8, 99u8, 111u8, 112u8, 121u8, 41u8]);
    } else if attempt > 1 {
        extend_bytes(&mut r, &[32u8, 40u8, 99u8, 111u8, 112u8, 121u8, 32u8]);
        let digits = decimal_bytes_of(attempt as u64);
        extend_bytes(&mut r, digits.as_slice());
        r.push(41u8);
    }
    let ghost base = r@;
    match extension_of(name) {
        Some(e) => {
            r.push(46u8);
            extend_bytes(&mut r, e.as_slice());
            assert(r@ =~= base + seq![46u8] + e@);
        },
        None => {},
    }
    assert(r@ =~= candidate_name(name@, attempt as nat));
    r
}

/// `.teral-<purpose>-<pid>-<sequence>`, the name of a private staging entry.
pub open spec fn private_name_text(purpose: Seq<char>, pid: nat, sequence: nat) -> Seq<char> {
    ".teral-"@ + purpose + "-"@ + decimal(pid) + "-"@ + decimal(sequence)
}

/// The name of a private staging entry for `purpose`, unique to this process and
/// this sequence number.
pub fn private_name(purpose: &str, pid: u32, sequence: u64) -> (r: String)
    ensures
        r@ == private_name_text(purpose@, pid as nat, sequence as nat),
{
    let mut r = String::from_str(".teral-");
    push_str(&mut r, purpose);
    push_str(&mut r, "-");
    let p = decimal_string(pid as u64);
    push_str(&mut r, p.as_str());
    push_str(&mut r, "-");
    let q = decimal_string(sequence);
    push_str(&mut r, q.as_str());
    r
}

// ------------------------------------------------------------------- leases ----

/// Two paths overlap when they are the same path or one lies inside the other.
pub open spec fn overlap(a: Seq<u8>, b: Seq<u8>) -> bool {
    same_path(a, b) || path_starts_with(a, b) || path_starts_with(b, a)
}

/// True when `left` and `right` are the same path or one lies inside the other.
pub fn paths_overlap(left: &[u8], right: &[u8]) -> (r: bool)
    ensures
        r == overlap(left@, right@),
{
    path_eq(left, right) || starts_with(left, right) || starts_with(right, left)
}

/// True when a folder would be placed inside itself: the destination is the source
/// or lies inside it (both taken after resolving symlinks).
pub fn is_inside_itself(source: &[u8], destination: &[u8]) -> (r: bool)
    ensures
        r == (same_path(destination@, source@) || path_starts_with(destination@, source@)),
{
    path_eq(destination, source) || starts_with(destination, source)
}

/// Some requested path overlaps some path already reserved.
pub open spec fn blocked(active: Seq<Seq<u8>>, targets: Seq<Seq<u8>>) -> bool {
    exists|i: int, j: int| 0 <= i < targets.len() && 0 <= j < active.len() && #[trigger] overlap(targets[i], active[j])
}

/// `p` is one of `targets`, compared as paths.
pub open spec fn among(p: Seq<u8>, targets: Seq<Seq<u8>>) -> bool {
    exists|i: int| 0 <= i < targets.len() && same_path(#[trigger] targets[i], p)
}

/// What stays reserved after `targets` are released: every path that is not one of
/// them, in order.
pub open spec fn released(active: Seq<Seq<u8>>, targets: Seq<Seq<u8>>) -> Seq<Seq<u8>>
    decreases active.len(),
{
    if active.len() == 0 {
        Seq::empty()
    } else {
        let prev = released(active.drop_last(), targets);
        if among(active.last(), targets) {
            prev
        } else {
            prev.push(active.last())
        }
    }
}

/// The paths running operations have reserved. No two operations may change
/// overlapping paths at once.
#[derive(Debug)]
pub struct LeaseRegistry {
    pub active: Vec<Vec<u8>>,
}

/// The refusal of an overlapping reservation.
pub open spec fn lease_refusal() -> Seq<char> {
    "another operation is already changing the same destination"@
}

impl LeaseRegistry {
    /// The reserved paths.
    pub open spec fn reserved(&self) -> Seq<Seq<u8>> {
        paths_view(self.active@)
    }

    /// Nothing reserved.
    pub fn new() -> (r: LeaseRegistry)
        ensures
            r.reserved().len() == 0,
    {
        LeaseRegistry { active: Vec::new() }
    }

    /// Reserve `targets` for one operation, or refuse when any of them overlaps a
    /// path another operation holds.
    pub fn acquire(&mut self, targets: &Vec<Vec<u8>>) -> (r: Result<(), String>)
        ensures
            blocked(old(self).reserved(), paths_view(targets@)) ==> (r matches Err(m) && m@ == lease_refusal()
                && final(self).reserved() == old(self).reserved()),
            !blocked(old(self).reserved(), paths_view(targets@)) ==> (r is Ok && final(self).reserved()
                == old(self).reserved() + paths_view(targets@)),
    {
        let ghost ts = paths_view(targets@);
        let ghost act = self.reserved();
        let mut i: usize = 0;
        while i < targets.len()
            invariant
                i <= targets.len(),
                ts == paths_view(targets@),
                act == self.reserved(),
                forall|a: int, b: int| 0 <= a < i && 0 <= b < act.len() ==> !#[trigger] overlap(ts[a], act[b]),
            decreases targets.len() - i,
        {
            let mut j: usize = 0;
            while j < self.active.len()
                invariant
                    i < targets.len(),
                    j <= self.active.len(),
                    ts == paths_view(targets@),
                    act == self.reserved(),
                    forall|a: int, b: int| 0 <= a < i && 0 <= b < act.len() ==> !#[trigger] overlap(ts[a], act[b]),
                    forall|b: int| 0 <= b < j ==> !#[trigger] overlap(ts[i as int], act[b]),
                decreases self.active.len() - j,
            {
                if paths_overlap(targets[i].as_slice(), self.active[j].as_slice()) {
                    assert(overlap(ts[i as int], act[j as int]));
                    return Err(String::from_str("another operation is already changing the same destination"));
                }
                j += 1;
            }
            i += 1;
        }
        let mut k: usize = 0;
        let ghost start = self.reserved();
        assert(start + ts.take(0) =~= start);
        while k < targets.len()
            invariant
                k <= targets.len(),
                ts == paths_view(targets@),
                self.reserved() == start + ts.take(k as int),
            decreases targets.len() - k,
        {
            let ghost before = self.reserved();
            self.active.push(copy_bytes(targets[k].as_slice()));
            assert(self.reserved() =~= before.push(ts[k as int]));
            assert(start + ts.take(k + 1) =~= (start + ts.take(k as int)).push(ts[k as int]));
            k += 1;
        }
        assert(ts.take(targets.len() as int) =~= ts);
        Ok(())
    }

    /// Release what one operation reserved: every reserved path equal to one of
    /// `targets` is freed.
    pub fn release(&mut self, targets: &Vec<Vec<u8>>)
        ensures
            final(self).reserved() == released(old(self).reserved(), paths_view(targets@)),
    {
        let ghost ts = paths_view(targets@);
        let ghost act = self.reserved();
        let mut kept: Vec<Vec<u8>> = Vec::new();
        let mut j: usize = 0;
        assert(act.take(0) =~= Seq::<Seq<u8>>::empty());
        assert(paths_view(kept@) =~= Seq::<Seq<u8>>::empty());
        while j < self.active.len()
            invariant
                j <= self.active.len(),
                ts == paths_view(targets@),
                act == self.reserved(),
                paths_view(kept@) == released(act.take(j as int), ts),
            decreases self.active.len() - j,
        {
            let p = &self.active[j];
            let mut hit = false;
            let mut i: usize = 0;
            while i < targets.len()
                invariant
                    i <= targets.len(),
                    j < self.active.len(),
                    ts == paths_view(targets@),
                    act == self.reserved(),
                    p@ == act[j as int],
                    hit == (exists|k: int| 0 <= k < i && same_path(#[trigger] ts[k], act[j as int])),
                decreases targets.len() - i,
            {
                assert(ts[i as int] == targets@[i as int]@);
                if path_eq(targets[i].as_slice(), p.as_slice()) {
                    assert(same_path(ts[i as int], act[j as int]));
                    hit = true;
                }
                i += 1;
            }
            assert(hit == among(act[j as int], ts));
            let ghost before = paths_view(kept@);
            let ghost next = act.take(j + 1);
            assert(next.drop_last() =~= act.take(j as int));
            assert(next.last() == act[j as int]);
            if !hit {
                kept.push(copy_bytes(p.as_slice()));
                assert(paths_view(kept@) =~= before.push(act[j as int]));
            }
            j += 1;
        }
        assert(act.take(self.active.len() as int) =~= act);
        self.active = kept;
    }
}

/// Once an operation holds its paths, any request touching one of them (the same
/// path, a path inside it, or a folder containing it) is refused.
pub proof fn lemma_held_paths_refuse_overlaps(active: Seq<Seq<u8>>, targets: Seq<Seq<u8>>, other: Seq<u8>, i: int)
    requires
        0 <= i < targets.len(),
        overlap(other, targets[i]),
    ensures
        blocked(active + targets, seq![other]),
{
    let all = active + targets;
    assert(all[active.len() + i] == targets[i]);
    assert(seq![other][0] == other);
    assert(overlap(seq![other][0], all[active.len() + i]));
}

proof fn lemma_released_members(active: Seq<Seq<u8>>, targets: Seq<Seq<u8>>)
    ensures
        forall|k: int| 0 <= k < released(active, targets).len() ==> exists|j: int| 0 <= j < active.len() && active[j] == #[trigger] released(active, targets)[k] && !among(active[j], targets),
    decreases active.len(),
{
    if active.len() > 0 {
        lemma_released_members(active.drop_last(), targets);
        let prev = released(active.drop_last(), targets);
        assert forall|k: int| 0 <= k < released(active, targets).len() implies exists|j: int| 0 <= j < active.len() && active[j] == #[trigger] released(active, targets)[k] && !among(active[j], targets) by {
            if k < prev.len() {
                let j = choose|j: int| 0 <= j < active.drop_last().len() && active.drop_last()[j] == #[trigger] prev[k] && !among(active.drop_last()[j], targets);
                assert(active[j] == released(active, targets)[k]);
            } else {
                assert(active[active.len() - 1] == released(active, targets)[k]);
            }
        }
    }
}

/// Releasing an operation's paths frees everything that only they were blocking: a
/// request that overlaps no path still held by another operation goes through.
pub proof fn lemma_release_frees(active: Seq<Seq<u8>>, targets: Seq<Seq<u8>>, other: Seq<u8>)
    requires
        forall|j: int| 0 <= j < active.len() && overlap(other, active[j]) ==> among(#[trigger] active[j], targets),
    ensures
        !blocked(released(active, targets), seq![other]),
{
    lemma_released_members(active, targets);
    let rest = released(active, targets);
    assert forall|i: int, k: int| 0 <= i < 1 && 0 <= k < rest.len() implies !#[trigger] overlap(seq![other][i], rest[k]) by {
        let j = choose|j: int| 0 <= j < active.len() && active[j] == #[trigger] rest[k] && !among(active[j], targets);
        assert(seq![other][i] == other);
    }
}

/// Each conflict policy resolves a taken name with its own action and no other policy
/// leads to that action: only Skip skips, only Replace replaces, only Merge merges, only
/// Cancel cancels, and only RenameIncoming never resolves a taken name at all.
pub proof fn lemma_each_policy_resolves_its_own_way(policy: ConflictPolicy)
    ensures
        (on_existing_for(policy) == Some(OnExisting::Skip)) <==> (policy == ConflictPolicy::Skip),
        (on_existing_for(policy) == Some(OnExisting::Replace)) <==> (policy == ConflictPolicy::Replace),
        (on_existing_for(policy) == Some(OnExisting::Merge)) <==> (policy == ConflictPolicy::Merge),
        (on_existing_for(policy) == Some(OnExisting::Cancel)) <==> (policy == ConflictPolicy::Cancel),
        (on_existing_for(policy) is None) <==> (policy == ConflictPolicy::RenameIncoming),
{
}

} // verus!
