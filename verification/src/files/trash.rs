//! The FreeDesktop trash model.
//!
//! Directory discovery, `.trashinfo` records, raw filename bytes and the bookkeeping of
//! permanent deletion. Filenames never pass through a lossy string: `Path=` is decoded
//! to raw bytes, so a file whose name is not valid UTF-8 is restored under the name it
//! actually had. Reading and removing files is left to the caller, which hands the
//! outcome of each filesystem call to the functions here.

use crate::paths::{
    copy_bytes, extend_bytes, file_name, file_name_of, is_absolute, is_prefix, join, join_path,
    lossy, path_text, parent, parent_of, path_eq, path_starts_with, same_path, starts_with,
};
use crate::text::{decimal_bytes, decimal_bytes_of, push_str};
use vstd::prelude::*;

verus! {

/// The suffix every restore record carries, per the trash specification.
pub const INFO_SUFFIX: &'static str = ".trashinfo";

/// `.trashinfo` as bytes.
pub open spec fn info_suffix() -> Seq<u8> {
    seq![46u8, 116u8, 114u8, 97u8, 115u8, 104u8, 105u8, 110u8, 102u8, 111u8]
}

/// `files` as bytes.
pub open spec fn files_name() -> Seq<u8> {
    seq![102u8, 105u8, 108u8, 101u8, 115u8]
}

/// `info` as bytes.
pub open spec fn info_name() -> Seq<u8> {
    seq![105u8, 110u8, 102u8, 111u8]
}

/// `Trash` as bytes.
pub open spec fn trash_name() -> Seq<u8> {
    seq![84u8, 114u8, 97u8, 115u8, 104u8]
}

/// `.Trash` as bytes.
pub open spec fn shared_trash_name() -> Seq<u8> {
    seq![46u8, 84u8, 114u8, 97u8, 115u8, 104u8]
}

/// `.Trash-` as bytes.
pub open spec fn private_trash_prefix() -> Seq<u8> {
    seq![46u8, 84u8, 114u8, 97u8, 115u8, 104u8, 45u8]
}

fn bytes_from(v: &[u8]) -> (r: Vec<u8>)
    ensures
        r@ == v@,
{
    copy_bytes(v)
}

fn files_bytes() -> (r: Vec<u8>)
    ensures
        r@ == files_name(),
{
    let r = bytes_from(&[102u8, 105u8, 108u8, 101u8, 115u8]);
    assert(r@ =~= files_name());
    r
}

fn info_bytes() -> (r: Vec<u8>)
    ensures
        r@ == info_name(),
{
    let r = bytes_from(&[105u8, 110u8, 102u8, 111u8]);
    assert(r@ =~= info_name());
    r
}

fn suffix_bytes() -> (r: Vec<u8>)
    ensures
        r@ == info_suffix(),
{
    let r = bytes_from(&[46u8, 116u8, 114u8, 97u8, 115u8, 104u8, 105u8, 110u8, 102u8, 111u8]);
    assert(r@ =~= info_suffix());
    r
}

/// One trash directory: the home trash, or a trash on another filesystem.
///
/// `top_dir` is the mount point the trash serves. The specification stores `Path=`
/// relative to it for anything other than the home trash.
#[derive(Debug, PartialEq, Eq)]
pub struct TrashDir {
    pub root: Vec<u8>,
    pub top_dir: Vec<u8>,
}

impl Clone for TrashDir {
    fn clone(&self) -> (r: Self)
        ensures
            r@ == self@,
    {
        TrashDir { root: copy_bytes(self.root.as_slice()), top_dir: copy_bytes(self.top_dir.as_slice()) }
    }
}

/// Where a trash keeps its data.
pub open spec fn files_dir(root: Seq<u8>) -> Seq<u8> {
    join(root, files_name())
}

/// Where a trash keeps its records.
pub open spec fn info_dir(root: Seq<u8>) -> Seq<u8> {
    join(root, info_name())
}

/// The record that belongs to an entry named `name` in `files/`.
pub open spec fn record_path(root: Seq<u8>, name: Seq<u8>) -> Seq<u8> {
    join(info_dir(root), name + info_suffix())
}

/// A trash directory as plain values: its root and the mount point it serves.
pub type DirView = (Seq<u8>, Seq<u8>);

impl View for TrashDir {
    type V = DirView;

    open spec fn view(&self) -> DirView {
        (self.root@, self.top_dir@)
    }
}

impl DeepView for TrashDir {
    type V = DirView;

    open spec fn deep_view(&self) -> DirView {
        (self.root@, self.top_dir@)
    }
}

/// Two trash directories are the same when both their paths are the same paths.
pub open spec fn same_dir(a: DirView, b: DirView) -> bool {
    same_path(a.0, b.0) && same_path(a.1, b.1)
}

impl TrashDir {
    pub fn new(root: Vec<u8>, top_dir: Vec<u8>) -> (r: Self)
        ensures
            r.root@ == root@,
            r.top_dir@ == top_dir@,
    {
        TrashDir { root, top_dir }
    }

    /// Where trashed data lives.
    pub fn files(&self) -> (r: Vec<u8>)
        ensures
            r@ == files_dir(self.root@),
    {
        let f = files_bytes();
        join_path(self.root.as_slice(), f.as_slice())
    }

    /// Where restore records live.
    pub fn info(&self) -> (r: Vec<u8>)
        ensures
            r@ == info_dir(self.root@),
    {
        let i = info_bytes();
        join_path(self.root.as_slice(), i.as_slice())
    }

    /// The record belonging to a name inside `files/`.
    pub fn info_path(&self, name: &[u8]) -> (r: Vec<u8>)
        ensures
            r@ == record_path(self.root@, name@),
    {
        let mut record = copy_bytes(name);
        let suffix = suffix_bytes();
        extend_bytes(&mut record, suffix.as_slice());
        let info = self.info();
        join_path(info.as_slice(), record.as_slice())
    }

    /// Whether two trash directories name the same places.
    pub fn same_as(&self, other: &TrashDir) -> (r: bool)
        ensures
            r == same_dir(self@, other@),
    {
        path_eq(self.root.as_slice(), other.root.as_slice()) && path_eq(
            self.top_dir.as_slice(),
            other.top_dir.as_slice(),
        )
    }
}

/// The home trash lives in `$XDG_DATA_HOME/Trash` and serves `/`.
pub open spec fn home_trash_dir(data_home: Seq<u8>) -> DirView {
    (join(data_home, trash_name()), seq![47u8])
}

/// The home trash, which serves the filesystem `$XDG_DATA_HOME` lives on. Records
/// written here are absolute, so `/` is the base for a malformed relative one.
pub fn home_trash(data_home: &[u8]) -> (r: TrashDir)
    ensures
        r.root@ == join(data_home@, trash_name()),
        r.top_dir@ == seq![47u8],
{
    let name = bytes_from(&[84u8, 114u8, 97u8, 115u8, 104u8]);
    assert(name@ =~= trash_name());
    let root = join_path(data_home, name.as_slice());
    let top = bytes_from(&[47u8]);
    assert(top@ =~= seq![47u8]);
    TrashDir::new(root, top)
}

/// Whether `$topdir/.Trash` may be used as an administrator-created shared trash: a
/// real directory, not a symlink, with the sticky bit set.
pub fn trusts_shared_trash(is_dir: bool, is_symlink: bool, mode: u32) -> (r: bool)
    ensures
        r == (is_dir && !is_symlink && mode & 0o1000u32 != 0),
{
    is_dir && !is_symlink && mode & 0o1000u32 != 0
}

/// The trash directories a filesystem may use, in the specification's order: the
/// shared `$topdir/.Trash/$uid` when the shared trash is trusted, then the unshared
/// `$topdir/.Trash-$uid`.
pub open spec fn top_dir_candidates(top_dir: Seq<u8>, uid: nat, shared_trusted: bool) -> Seq<
    DirView,
> {
    let private = (join(top_dir, private_trash_prefix() + decimal_bytes(uid)), top_dir);
    if shared_trusted {
        let shared = (join(join(top_dir, shared_trash_name()), decimal_bytes(uid)), top_dir);
        seq![shared, private]
    } else {
        seq![private]
    }
}

/// The two forms a per-filesystem trash may take. `shared_trusted` is what
/// [`trusts_shared_trash`] says of `$topdir/.Trash`.
pub fn top_dir_trashes(top_dir: &[u8], uid: u32, shared_trusted: bool) -> (r: Vec<TrashDir>)
    ensures
        r.deep_view() == top_dir_candidates(top_dir@, uid as nat, shared_trusted),
{
    let digits = decimal_bytes_of(uid as u64);
    let mut candidates: Vec<TrashDir> = Vec::new();
    if shared_trusted {
        let shared_name = bytes_from(&[46u8, 84u8, 114u8, 97u8, 115u8, 104u8]);
        assert(shared_name@ =~= shared_trash_name());
        let shared = join_path(top_dir, shared_name.as_slice());
        let root = join_path(shared.as_slice(), digits.as_slice());
        candidates.push(TrashDir::new(root, copy_bytes(top_dir)));
    }
    let mut private_name = bytes_from(&[46u8, 84u8, 114u8, 97u8, 115u8, 104u8, 45u8]);
    assert(private_name@ =~= private_trash_prefix());
    extend_bytes(&mut private_name, digits.as_slice());
    let root = join_path(top_dir, private_name.as_slice());
    candidates.push(TrashDir::new(root, copy_bytes(top_dir)));
    assert(candidates.deep_view() =~= top_dir_candidates(top_dir@, uid as nat, shared_trusted));
    candidates
}

/// Every candidate in discovery order: the home trash, then each mount's candidates.
pub open spec fn mount_candidates(
    mounts: Seq<Seq<u8>>,
    uid: nat,
    shared_trusted: Seq<bool>,
) -> Seq<DirView>
    decreases mounts.len(),
{
    if mounts.len() == 0 {
        Seq::empty()
    } else {
        mount_candidates(mounts.drop_last(), uid, shared_trusted) + top_dir_candidates(
            mounts.last(),
            uid,
            shared_trusted[mounts.len() - 1],
        )
    }
}

/// All candidate trash directories, home first.
pub open spec fn trash_candidates(
    data_home: Seq<u8>,
    mounts: Seq<Seq<u8>>,
    uid: nat,
    shared_trusted: Seq<bool>,
) -> Seq<DirView> {
    seq![home_trash_dir(data_home)] + mount_candidates(mounts, uid, shared_trusted)
}

/// True when `d` is the same directory as one already in `found`.
pub open spec fn already_found(found: Seq<DirView>, d: DirView) -> bool {
    exists|j: int| 0 <= j < found.len() && same_dir(#[trigger] found[j], d)
}

/// The first `n` candidates that are present, each kept only once.
pub open spec fn select_present(cands: Seq<DirView>, present: Seq<bool>, n: nat) -> Seq<DirView>
    decreases n,
{
    if n == 0 {
        Seq::empty()
    } else {
        let prev = select_present(cands, present, (n - 1) as nat);
        let c = cands[n - 1];
        if present[n - 1] && !already_found(prev, c) {
            prev.push(c)
        } else {
            prev
        }
    }
}

/// Every candidate trash directory, in the order [`discover`] considers them.
/// `shared_trusted[i]` says whether mount `i`'s `.Trash` is trusted.
pub fn trash_candidates_of(
    data_home: &[u8],
    mount_points: &Vec<Vec<u8>>,
    uid: u32,
    shared_trusted: &Vec<bool>,
) -> (r: Vec<TrashDir>)
    requires
        shared_trusted.len() == mount_points.len(),
    ensures
        r.deep_view() == trash_candidates(
            data_home@,
            mount_points@.map_values(|m: Vec<u8>| m@),
            uid as nat,
            shared_trusted@,
        ),
{
    let ghost mounts = mount_points@.map_values(|m: Vec<u8>| m@);
    let mut found: Vec<TrashDir> = Vec::new();
    found.push(home_trash(data_home));
    assert(found.deep_view() =~= seq![home_trash_dir(data_home@)]);
    let mut i: usize = 0;
    while i < mount_points.len()
        invariant
            i <= mount_points.len(),
            shared_trusted.len() == mount_points.len(),
            mounts == mount_points@.map_values(|m: Vec<u8>| m@),
            found.deep_view() == seq![home_trash_dir(data_home@)] + mount_candidates(
                mounts.subrange(0, i as int),
                uid as nat,
                shared_trusted@,
            ),
        decreases mount_points.len() - i,
    {
        let more = top_dir_trashes(mount_points[i].as_slice(), uid, shared_trusted[i]);
        let ghost before = found.deep_view();
        let mut k: usize = 0;
        while k < more.len()
            invariant
                k <= more.len(),
                found.deep_view() == before + more.deep_view().subrange(0, k as int),
            decreases more.len() - k,
        {
            let item = more[k].clone();
            assert(item@ == more.deep_view()[k as int]);
            let ghost prev = found.deep_view();
            found.push(item);
            assert(found.deep_view() =~= prev.push(item@));
            assert(found.deep_view() =~= before + more.deep_view().subrange(0, k + 1));
            k += 1;
        }
        proof {
            let prefix = mounts.subrange(0, i as int);
            let next = mounts.subrange(0, i + 1);
            assert(next.drop_last() =~= prefix);
            assert(next.last() == mount_points@[i as int]@);
            assert(more.deep_view().subrange(0, more.len() as int) =~= more.deep_view());
            assert(found.deep_view() =~= seq![home_trash_dir(data_home@)] + mount_candidates(
                next,
                uid as nat,
                shared_trusted@,
            ));
        }
        i += 1;
    }
    assert(mounts.subrange(0, mount_points.len() as int) =~= mounts);
    found
}

/// Every trash directory that currently exists, home first, each once.
///
/// `candidates` is what [`trash_candidates_of`] returns, and `present[i]` is whether
/// candidate `i` has a `files/` directory. A device that has been unplugged simply
/// stops appearing among the mount points.
pub fn discover(candidates: &Vec<TrashDir>, present: &Vec<bool>) -> (r: Vec<TrashDir>)
    requires
        present.len() == candidates.len(),
    ensures
        r.deep_view() == select_present(candidates.deep_view(), present@, candidates.len() as nat),
{
    let mut found: Vec<TrashDir> = Vec::new();
    let mut i: usize = 0;
    while i < candidates.len()
        invariant
            i <= candidates.len(),
            present.len() == candidates.len(),
            found.deep_view() == select_present(candidates.deep_view(), present@, i as nat),
        decreases candidates.len() - i,
    {
        let candidate = &candidates[i];
        if present[i] {
            let mut seen = false;
            let mut j: usize = 0;
            while j < found.len()
                invariant
                    j <= found.len(),
                    seen == (exists|k: int|
                        0 <= k < j && same_dir(#[trigger] found.deep_view()[k], candidate@)),
                decreases found.len() - j,
            {
                assert(found.deep_view()[j as int] == found@[j as int]@);
                if found[j].same_as(candidate) {
                    seen = true;
                }
                j += 1;
            }
            assert(seen == already_found(found.deep_view(), candidates.deep_view()[i as int]));
            if !seen {
                found.push(candidate.clone());
                assert(found.deep_view() =~= select_present(candidates.deep_view(), present@, i as nat).push(
                    candidates.deep_view()[i as int],
                ));
            }
        }
        i += 1;
    }
    found
}

/// The index of the first trash whose `files/` contains `path`.
pub open spec fn containing_index(path: Seq<u8>, dirs: Seq<DirView>) -> Option<int>
    decreases dirs.len(),
{
    if dirs.len() == 0 {
        None
    } else {
        match containing_index(path, dirs.drop_last()) {
            Some(i) => Some(i),
            None => if path_starts_with(path, files_dir(dirs.last().0)) {
                Some(dirs.len() - 1)
            } else {
                None
            },
        }
    }
}

/// The trash found for a path is one of `dirs` whose `files/` holds it, and no
/// earlier one holds it; when none is found, none holds it.
pub proof fn lemma_containing_index_facts(path: Seq<u8>, dirs: Seq<DirView>)
    ensures
        containing_index(path, dirs) matches Some(i) ==> 0 <= i < dirs.len() && path_starts_with(
            path,
            files_dir(dirs[i].0),
        ) && forall|j: int|
            0 <= j < i ==> !path_starts_with(path, files_dir(#[trigger] dirs[j].0)),
        containing_index(path, dirs) is None ==> forall|j: int|
            0 <= j < dirs.len() ==> !path_starts_with(path, files_dir(#[trigger] dirs[j].0)),
    decreases dirs.len(),
{
    if dirs.len() > 0 {
        lemma_containing_index_facts(path, dirs.drop_last());
        assert forall|j: int| 0 <= j < dirs.len() - 1 implies #[trigger] dirs[j] == dirs.drop_last()[j] by {}
    }
}

/// The trash directory whose `files/` contains `path`, if any.
pub fn containing<'a>(path: &[u8], dirs: &'a Vec<TrashDir>) -> (r: Option<&'a TrashDir>)
    ensures
        r matches Some(d) ==> containing_index(path@, dirs.deep_view()) matches Some(i) && *d
            == dirs@[i],
        r is None ==> containing_index(path@, dirs.deep_view()) is None,
{
    let mut i: usize = 0;
    while i < dirs.len()
        invariant
            i <= dirs.len(),
            containing_index(path@, dirs.deep_view().subrange(0, i as int)) is None,
        decreases dirs.len() - i,
    {
        let files = dirs[i].files();
        let ghost pre = dirs.deep_view().subrange(0, i as int);
        let ghost next = dirs.deep_view().subrange(0, i + 1);
        assert(next.drop_last() =~= pre);
        if starts_with(path, files.as_slice()) {
            proof {
                assert(containing_index(path@, next) == Some(i as int));
                lemma_prefix_index(path@, dirs.deep_view(), (i + 1) as int);
            }
            return Some(&dirs[i]);
        }
        i += 1;
    }
    assert(dirs.deep_view().subrange(0, dirs.len() as int) =~= dirs.deep_view());
    None
}

proof fn lemma_prefix_index(path: Seq<u8>, dirs: Seq<DirView>, n: int)
    requires
        0 <= n <= dirs.len(),
        containing_index(path, dirs.subrange(0, n)) is Some,
    ensures
        containing_index(path, dirs) == containing_index(path, dirs.subrange(0, n)),
    decreases dirs.len() - n,
{
    if n < dirs.len() {
        let next = dirs.subrange(0, n + 1);
        assert(next.drop_last() =~= dirs.subrange(0, n));
        lemma_prefix_index(path, dirs, n + 1);
    } else {
        assert(dirs.subrange(0, n) =~= dirs);
    }
}

/// True when `path` is a trashed item, or something inside one.
pub fn is_in_trash(path: &[u8], dirs: &Vec<TrashDir>) -> (r: bool)
    ensures
        r == (containing_index(path@, dirs.deep_view()) is Some),
        r == exists|j: int|
            0 <= j < dirs@.len() && path_starts_with(path@, files_dir(#[trigger] dirs@[j].root@)),
{
    proof {
        lemma_containing_index_facts(path@, dirs.deep_view());
        assert forall|j: int| 0 <= j < dirs@.len() implies #[trigger] dirs@[j].root@ == dirs.deep_view()[j].0 by {}
    }
    containing(path, dirs).is_some()
}

// ------------------------------------------------------------------- records ----

/// `u8::to_ascii_lowercase`.
pub open spec fn lower_byte(b: u8) -> u8 {
    if 65 <= b <= 90 {
        (b + 32) as u8
    } else {
        b
    }
}

/// `[u8]::eq_ignore_ascii_case`.
pub open spec fn bytes_ci_eq(a: Seq<u8>, b: Seq<u8>) -> bool {
    &&& a.len() == b.len()
    &&& forall|i: int| 0 <= i < a.len() ==> lower_byte(#[trigger] a[i]) == lower_byte(b[i])
}

/// `u8::is_ascii_whitespace`: space, tab, line feed, form feed, carriage return.
pub open spec fn is_ascii_space(b: u8) -> bool {
    b == 32 || b == 9 || b == 10 || b == 12 || b == 13
}

/// Leading ASCII white space removed.
pub open spec fn trim_start_bytes(s: Seq<u8>) -> Seq<u8>
    decreases s.len(),
{
    if s.len() > 0 && is_ascii_space(s[0]) {
        trim_start_bytes(s.drop_first())
    } else {
        s
    }
}

/// Trailing ASCII white space removed.
pub open spec fn trim_end_bytes(s: Seq<u8>) -> Seq<u8>
    decreases s.len(),
{
    if s.len() > 0 && is_ascii_space(s.last()) {
        trim_end_bytes(s.drop_last())
    } else {
        s
    }
}

/// `<[u8]>::trim_ascii`.
pub open spec fn trim_ascii(s: Seq<u8>) -> Seq<u8> {
    trim_end_bytes(trim_start_bytes(s))
}

/// A hexadecimal digit, in either case.
pub open spec fn is_hex(b: u8) -> bool {
    (48 <= b <= 57) || (97 <= b <= 102) || (65 <= b <= 70)
}

/// The value of a hexadecimal digit.
pub open spec fn hex_value(b: u8) -> nat {
    if 48 <= b <= 57 {
        (b - 48) as nat
    } else if 97 <= b <= 102 {
        (b - 87) as nat
    } else {
        (b - 55) as nat
    }
}

/// Percent-decoding of a record value: `%` and two hex digits become one byte, and
/// anything else, including a `%` not followed by two hex digits, is kept as it is.
pub open spec fn percent_decoded(v: Seq<u8>) -> Seq<u8>
    decreases v.len(),
{
    if v.len() == 0 {
        Seq::empty()
    } else if v[0] == 37u8 && v.len() > 2 && is_hex(v[1]) && is_hex(v[2]) {
        seq![(16 * hex_value(v[1]) + hex_value(v[2])) as u8] + percent_decoded(v.skip(3))
    } else {
        seq![v[0]] + percent_decoded(v.skip(1))
    }
}

/// A `Path=` value as an absolute path: decoded, then resolved against the mount
/// point when it is relative.
pub open spec fn resolve_original(value: Seq<u8>, top_dir: Seq<u8>) -> Seq<u8> {
    let decoded = percent_decoded(value);
    if is_absolute(decoded) {
        decoded
    } else {
        join(top_dir, decoded)
    }
}

/// `[Trash Info]`.
pub open spec fn section_header() -> Seq<u8> {
    seq![91u8, 84u8, 114u8, 97u8, 115u8, 104u8, 32u8, 73u8, 110u8, 102u8, 111u8, 93u8]
}

/// `Path=`.
pub open spec fn path_key() -> Seq<u8> {
    seq![80u8, 97u8, 116u8, 104u8, 61u8]
}

/// `DeletionDate=`.
pub open spec fn date_key() -> Seq<u8> {
    seq![68u8, 101u8, 108u8, 101u8, 116u8, 105u8, 111u8, 110u8, 68u8, 97u8, 116u8, 101u8, 61u8]
}

/// What has been read from a record so far: whether the current section is
/// `[Trash Info]`, the first `Path=`, and the first `DeletionDate=`.
pub type RecordState = (bool, Option<Seq<u8>>, Option<Seq<char>>);

/// Read one line of a record.
pub open spec fn record_step(st: RecordState, raw: Seq<u8>, top_dir: Seq<u8>) -> RecordState {
    let line = trim_ascii(raw);
    if line.len() == 0 {
        st
    } else if line[0] == 91u8 {
        (bytes_ci_eq(line, section_header()), st.1, st.2)
    } else if !st.0 {
        st
    } else if is_prefix(path_key(), line) {
        if st.1 is None {
            (st.0, Some(resolve_original(line.skip(5), top_dir)), st.2)
        } else {
            st
        }
    } else if is_prefix(date_key(), line) && st.2 is None {
        (st.0, st.1, Some(path_text(line.skip(13))))
    } else {
        st
    }
}

/// Splitting at line feeds: the lines closed so far and the line being read.
pub open spec fn line_scan(c: Seq<u8>) -> (Seq<Seq<u8>>, Seq<u8>)
    decreases c.len(),
{
    if c.len() == 0 {
        (Seq::empty(), Seq::empty())
    } else {
        let prev = line_scan(c.drop_last());
        if c.last() == 10u8 {
            (prev.0.push(prev.1), Seq::empty())
        } else {
            (prev.0, prev.1.push(c.last()))
        }
    }
}

/// `contents.split(|b| *b == b'\n')`.
pub open spec fn record_lines(c: Seq<u8>) -> Seq<Seq<u8>> {
    line_scan(c).0.push(line_scan(c).1)
}

/// Reading lines in order.
pub open spec fn record_fold(lines: Seq<Seq<u8>>, top_dir: Seq<u8>) -> RecordState
    decreases lines.len(),
{
    if lines.len() == 0 {
        (false, None, None)
    } else {
        record_step(record_fold(lines.drop_last(), top_dir), lines.last(), top_dir)
    }
}

/// What a record says: malformed when it ends outside `[Trash Info]` without having
/// named a path, without a path when none was given, otherwise the first path
/// (decoded and resolved) and the first deletion date.
pub open spec fn record_verdict(c: Seq<u8>, top_dir: Seq<u8>) -> Result<
    (Seq<u8>, Option<Seq<char>>),
    InfoError,
> {
    let st = record_fold(record_lines(c), top_dir);
    if !st.0 && st.1 is None {
        Err(InfoError::Malformed)
    } else {
        match st.1 {
            Some(original) => Ok((original, st.2)),
            None => Err(InfoError::NoOriginalPath),
        }
    }
}

/// What a `.trashinfo` record says.
#[derive(Debug)]
pub struct TrashInfo {
    /// The absolute path the item came from, with its raw bytes intact.
    pub original: Vec<u8>,
    /// The specification's `DeletionDate`, kept verbatim because it is display-only.
    pub deleted_at: Option<String>,
}

/// Why a restore record could not be used.
#[derive(Debug)]
pub enum InfoError {
    Unreadable(String),
    Missing,
    Malformed,
    NoOriginalPath,
}

/// The sentence explaining why a record could not be used.
pub open spec fn info_error_text(e: &InfoError) -> Seq<char> {
    match e {
        InfoError::Unreadable(m) => "its trash record is unreadable: "@ + m@,
        InfoError::Missing => "it has no trash record, so its original location is unknown"@,
        InfoError::Malformed => "its trash record is not a valid [Trash Info] record"@,
        InfoError::NoOriginalPath => "its trash record does not record an original location"@,
    }
}

impl InfoError {
    /// The sentence explaining the problem.
    pub fn message(&self) -> (r: String)
        ensures
            r@ == info_error_text(self),
    {
        match self {
            InfoError::Unreadable(error) => {
                let mut r = String::from_str("its trash record is unreadable: ");
                push_str(&mut r, error.as_str());
                r
            },
            InfoError::Missing => String::from_str(
                "it has no trash record, so its original location is unknown",
            ),
            InfoError::Malformed => String::from_str(
                "its trash record is not a valid [Trash Info] record",
            ),
            InfoError::NoOriginalPath => String::from_str(
                "its trash record does not record an original location",
            ),
        }
    }
}

fn is_space_byte(b: u8) -> (r: bool)
    ensures
        r == is_ascii_space(b),
{
    b == 32 || b == 9 || b == 10 || b == 12 || b == 13
}

proof fn lemma_trim_start_bytes_skip(s: Seq<u8>, i: int)
    requires
        0 <= i <= s.len(),
        forall|j: int| 0 <= j < i ==> is_ascii_space(#[trigger] s[j]),
    ensures
        trim_start_bytes(s) == trim_start_bytes(s.subrange(i, s.len() as int)),
    decreases i,
{
    if i > 0 {
        let t = s.drop_first();
        assert forall|j: int| 0 <= j < i - 1 implies is_ascii_space(#[trigger] t[j]) by {
            assert(t[j] == s[j + 1]);
        }
        lemma_trim_start_bytes_skip(t, i - 1);
        assert(t.subrange(i - 1, t.len() as int) =~= s.subrange(i, s.len() as int));
    } else {
        assert(s.subrange(0, s.len() as int) =~= s);
    }
}

proof fn lemma_trim_end_bytes_skip(s: Seq<u8>, k: int)
    requires
        0 <= k <= s.len(),
        forall|j: int| k <= j < s.len() ==> is_ascii_space(#[trigger] s[j]),
    ensures
        trim_end_bytes(s) == trim_end_bytes(s.subrange(0, k)),
    decreases s.len() - k,
{
    if k < s.len() {
        let t = s.drop_last();
        lemma_trim_end_bytes_skip(t, k);
        assert(t.subrange(0, k) =~= s.subrange(0, k));
    } else {
        assert(s.subrange(0, k) =~= s);
    }
}

/// `<[u8]>::trim_ascii`, as an owned copy.
pub fn trim_ascii_of(v: &[u8]) -> (r: Vec<u8>)
    ensures
        r@ == trim_ascii(v@),
{
    let n = v.len();
    let mut start: usize = 0;
    while start < n && is_space_byte(v[start])
        invariant
            n == v.len(),
            start <= n,
            forall|j: int| 0 <= j < start ==> is_ascii_space(#[trigger] v@[j]),
        decreases n - start,
    {
        start += 1;
    }
    proof {
        lemma_trim_start_bytes_skip(v@, start as int);
    }
    let ghost rest = v@.subrange(start as int, n as int);
    assert(trim_start_bytes(rest) == rest);
    let mut end: usize = n;
    while end > start && is_space_byte(v[end - 1])
        invariant
            n == v.len(),
            start <= end <= n,
            forall|j: int| end <= j < n ==> is_ascii_space(#[trigger] v@[j]),
        decreases end,
    {
        end -= 1;
    }
    proof {
        lemma_trim_end_bytes_skip(rest, end - start);
        assert(rest.subrange(0, end - start) =~= v@.subrange(start as int, end as int));
    }
    let mut r: Vec<u8> = Vec::new();
    let mut i: usize = start;
    while i < end
        invariant
            start <= i <= end <= n,
            n == v.len(),
            r@ == v@.subrange(start as int, i as int),
        decreases end - i,
    {
        r.push(v[i]);
        assert(v@.subrange(start as int, i + 1) =~= v@.subrange(start as int, i as int).push(
            v@[i as int],
        ));
        i += 1;
    }
    r
}

fn lower_byte_of(b: u8) -> (r: u8)
    ensures
        r == lower_byte(b),
{
    if 65 <= b && b <= 90 {
        b + 32
    } else {
        b
    }
}

fn bytes_ci_eq_of(a: &[u8], b: &[u8]) -> (r: bool)
    ensures
        r == bytes_ci_eq(a@, b@),
{
    if a.len() != b.len() {
        return false;
    }
    let mut i: usize = 0;
    while i < a.len()
        invariant
            a.len() == b.len(),
            i <= a.len(),
            forall|j: int| 0 <= j < i ==> lower_byte(#[trigger] a@[j]) == lower_byte(b@[j]),
        decreases a.len() - i,
    {
        if lower_byte_of(a[i]) != lower_byte_of(b[i]) {
            return false;
        }
        i += 1;
    }
    true
}

fn has_prefix(line: &[u8], prefix: &[u8]) -> (r: bool)
    ensures
        r == is_prefix(prefix@, line@),
{
    if prefix.len() > line.len() {
        return false;
    }
    let mut i: usize = 0;
    while i < prefix.len()
        invariant
            prefix.len() <= line.len(),
            i <= prefix.len(),
            forall|j: int| 0 <= j < i ==> line@[j] == prefix@[j],
        decreases prefix.len() - i,
    {
        if line[i] != prefix[i] {
            assert(line@.subrange(0, prefix.len() as int)[i as int] != prefix@[i as int]);
            return false;
        }
        i += 1;
    }
    assert(line@.subrange(0, prefix.len() as int) =~= prefix@);
    true
}

fn skip_bytes(v: &[u8], k: usize) -> (r: Vec<u8>)
    requires
        k <= v.len(),
    ensures
        r@ == v@.skip(k as int),
{
    let mut r: Vec<u8> = Vec::new();
    let mut i: usize = k;
    while i < v.len()
        invariant
            k <= i <= v.len(),
            r@ == v@.subrange(k as int, i as int),
        decreases v.len() - i,
    {
        r.push(v[i]);
        assert(v@.subrange(k as int, i + 1) =~= v@.subrange(k as int, i as int).push(v@[i as int]));
        i += 1;
    }
    assert(v@.subrange(k as int, v.len() as int) =~= v@.skip(k as int));
    r
}

fn hex_of(b: u8) -> (r: Option<u8>)
    ensures
        r is Some <==> is_hex(b),
        r matches Some(v) ==> v as nat == hex_value(b),
{
    if 48 <= b && b <= 57 {
        Some(b - 48)
    } else if 97 <= b && b <= 102 {
        Some(b - 87)
    } else if 65 <= b && b <= 70 {
        Some(b - 55)
    } else {
        None
    }
}

/// Percent-decode a record value into raw bytes.
pub fn percent_decode(value: &[u8]) -> (r: Vec<u8>)
    ensures
        r@ == percent_decoded(value@),
{
    let mut decoded: Vec<u8> = Vec::new();
    let mut index: usize = 0;
    assert(value@.skip(0) =~= value@);
    while index < value.len()
        invariant
            index <= value.len(),
            decoded@ + percent_decoded(value@.skip(index as int)) == percent_decoded(value@),
        decreases value.len() - index,
    {
        let ghost rest = value@.skip(index as int);
        if value[index] == 37u8 && value.len() - index > 2 {
            let high = hex_of(value[index + 1]);
            let low = hex_of(value[index + 2]);
            if let (Some(h), Some(l)) = (high, low) {
                let byte = h * 16 + l;
                decoded.push(byte);
                assert(rest.skip(3) =~= value@.skip(index + 3));
                assert(decoded@ + percent_decoded(value@.skip(index + 3)) =~= percent_decoded(
                    value@,
                ));
                index += 3;
                continue;
            }
        }
        decoded.push(value[index]);
        assert(rest.skip(1) =~= value@.skip(index + 1));
        assert(decoded@ + percent_decoded(value@.skip(index + 1)) =~= percent_decoded(value@));
        index += 1;
    }
    assert(value@.skip(value.len() as int) =~= Seq::<u8>::empty());
    assert(decoded@ + Seq::<u8>::empty() =~= decoded@);
    decoded
}

fn resolve_original_of(value: &[u8], top_dir: &[u8]) -> (r: Vec<u8>)
    ensures
        r@ == resolve_original(value@, top_dir@),
{
    let decoded = percent_decode(value);
    if decoded.len() > 0 && decoded[0] == 47u8 {
        decoded
    } else {
        join_path(top_dir, decoded.as_slice())
    }
}

/// The views of the pieces of a record state.
pub open spec fn state_view(in_section: bool, original: Option<Vec<u8>>, deleted: Option<String>) -> RecordState {
    (
        in_section,
        match original {
            Some(o) => Some(o@),
            None => None,
        },
        match deleted {
            Some(d) => Some(d@),
            None => None,
        },
    )
}

fn record_step_of(
    in_section: &mut bool,
    original: &mut Option<Vec<u8>>,
    deleted: &mut Option<String>,
    raw: &[u8],
    top_dir: &[u8],
)
    ensures
        state_view(*final(in_section), *final(original), *final(deleted)) == record_step(
            state_view(*old(in_section), *old(original), *old(deleted)),
            raw@,
            top_dir@,
        ),
{
    let line = trim_ascii_of(raw);
    if line.len() == 0 {
        return;
    }
    if line[0] == 91u8 {
        let header = bytes_from(&[91u8, 84u8, 114u8, 97u8, 115u8, 104u8, 32u8, 73u8, 110u8, 102u8, 111u8, 93u8]);
        assert(header@ =~= section_header());
        *in_section = bytes_ci_eq_of(line.as_slice(), header.as_slice());
        return;
    }
    if !*in_section {
        return;
    }
    let path_prefix = bytes_from(&[80u8, 97u8, 116u8, 104u8, 61u8]);
    assert(path_prefix@ =~= path_key());
    let date_prefix = bytes_from(&[68u8, 101u8, 108u8, 101u8, 116u8, 105u8, 111u8, 110u8, 68u8, 97u8, 116u8, 101u8, 61u8]);
    assert(date_prefix@ =~= date_key());
    if has_prefix(line.as_slice(), path_prefix.as_slice()) {
        if original.is_none() {
            let value = skip_bytes(line.as_slice(), 5);
            *original = Some(resolve_original_of(value.as_slice(), top_dir));
        }
    } else if has_prefix(line.as_slice(), date_prefix.as_slice()) && deleted.is_none() {
        let value = skip_bytes(line.as_slice(), 13);
        *deleted = Some(lossy(value.as_slice()));
    }
}

/// Parse a `.trashinfo` record.
///
/// The file is handled as bytes throughout. `Path=` may legally contain percent escapes
/// for bytes that are not valid UTF-8, and some implementations write those bytes
/// unescaped. The first occurrence of a key wins, so a second `Path=` cannot redirect
/// a restore somewhere else.
pub fn parse_info(contents: &[u8], top_dir: &[u8]) -> (r: Result<TrashInfo, InfoError>)
    ensures
        r matches Ok(info) ==> record_verdict(contents@, top_dir@) == Ok::<
            (Seq<u8>, Option<Seq<char>>),
            InfoError,
        >((info.original@, state_view(false, None, info.deleted_at).2)),
        r matches Err(e) ==> (e is Malformed && record_verdict(contents@, top_dir@) matches Err(
            InfoError::Malformed,
        )) || (e is NoOriginalPath && record_verdict(contents@, top_dir@) matches Err(
            InfoError::NoOriginalPath,
        )),
        record_verdict(contents@, top_dir@) is Ok ==> r is Ok,
{
    let mut in_section = false;
    let mut original: Option<Vec<u8>> = None;
    let mut deleted: Option<String> = None;
    let mut line: Vec<u8> = Vec::new();
    let mut i: usize = 0;
    assert(contents@.subrange(0, 0) =~= Seq::<u8>::empty());
    while i < contents.len()
        invariant
            i <= contents.len(),
            state_view(in_section, original, deleted) == record_fold(
                line_scan(contents@.subrange(0, i as int)).0,
                top_dir@,
            ),
            line@ == line_scan(contents@.subrange(0, i as int)).1,
        decreases contents.len() - i,
    {
        let ghost pre = contents@.subrange(0, i as int);
        let ghost next = contents@.subrange(0, i + 1);
        assert(next.drop_last() =~= pre);
        if contents[i] == 10u8 {
            let ghost closed = line_scan(pre).0.push(line@);
            assert(closed.drop_last() =~= line_scan(pre).0);
            record_step_of(&mut in_section, &mut original, &mut deleted, line.as_slice(), top_dir);
            line = Vec::new();
        } else {
            line.push(contents[i]);
        }
        i += 1;
    }
    assert(contents@.subrange(0, contents.len() as int) =~= contents@);
    let ghost all = record_lines(contents@);
    assert(all.drop_last() =~= line_scan(contents@).0);
    record_step_of(&mut in_section, &mut original, &mut deleted, line.as_slice(), top_dir);
    if !in_section && original.is_none() {
        return Err(InfoError::Malformed);
    }
    match original {
        Some(original) => Ok(TrashInfo { original, deleted_at: deleted }),
        None => Err(InfoError::NoOriginalPath),
    }
}

/// What reading a file produced.
#[derive(Debug)]
pub enum ReadOutcome {
    Contents(Vec<u8>),
    NotFound,
    Failed(String),
}

/// The record for a trashed item, given what reading its `.trashinfo` produced: a
/// missing file is `Missing`, any other read failure is `Unreadable`, and contents are
/// parsed.
pub fn info_from_read(read: ReadOutcome, top_dir: &[u8]) -> (r: Result<TrashInfo, InfoError>)
    ensures
        read is NotFound ==> r matches Err(InfoError::Missing),
        read matches ReadOutcome::Failed(e) ==> r matches Err(InfoError::Unreadable(m)) && m@
            == e@,
        read matches ReadOutcome::Contents(c) ==> (r matches Ok(info) ==> record_verdict(
            c@,
            top_dir@,
        ) == Ok::<(Seq<u8>, Option<Seq<char>>), InfoError>(
            (info.original@, state_view(false, None, info.deleted_at).2),
        )) && (r matches Err(e) ==> (e is Malformed && record_verdict(c@, top_dir@) matches Err(
            InfoError::Malformed,
        )) || (e is NoOriginalPath && record_verdict(c@, top_dir@) matches Err(
            InfoError::NoOriginalPath,
        ))) && (record_verdict(c@, top_dir@) is Ok ==> r is Ok),
{
    match read {
        ReadOutcome::Contents(contents) => parse_info(contents.as_slice(), top_dir),
        ReadOutcome::NotFound => Err(InfoError::Missing),
        ReadOutcome::Failed(error) => Err(InfoError::Unreadable(error)),
    }
}

// ------------------------------------------------------------------- listing ----

/// One entry in a trash directory, paired with whatever its record says.
#[derive(Debug)]
pub struct TrashedItem {
    /// The item as it exists now, inside `files/`.
    pub file: Vec<u8>,
    /// Where its record lives, whether or not the record is readable.
    pub info: Vec<u8>,
    /// The record, or the reason it cannot be used.
    pub info_result: Result<TrashInfo, InfoError>,
}

/// The original path a record names, when it was readable.
pub open spec fn recorded_original(item: &TrashedItem) -> Option<Seq<u8>> {
    match &item.info_result {
        Ok(info) => Some(info.original@),
        Err(_) => None,
    }
}

/// The text shown for where an item came from and when it was deleted.
pub open spec fn origin_text(parent: Seq<u8>, deleted: Option<Seq<char>>) -> Seq<char> {
    match deleted {
        Some(d) => "from "@ + path_text(parent) + ", deleted "@ + d,
        None => "from "@ + path_text(parent),
    }
}

impl TrashedItem {
    /// The name the item should be restored under, taken from its record.
    pub fn original_name(&self) -> (r: Option<Vec<u8>>)
        ensures
            r matches Some(n) ==> recorded_original(self) matches Some(o) && file_name(o) == Some(
                n@,
            ),
            r is None ==> recorded_original(self) is None || file_name(
                recorded_original(self)->0,
            ) is None,
    {
        match &self.info_result {
            Ok(info) => file_name_of(info.original.as_slice()),
            Err(_) => None,
        }
    }

    /// The directory the item should be restored into.
    pub fn original_parent(&self) -> (r: Option<Vec<u8>>)
        ensures
            r matches Some(p) ==> recorded_original(self) matches Some(o) && parent(o) == Some(
                p@,
            ),
            r is None ==> recorded_original(self) is None || parent(
                recorded_original(self)->0,
            ) is None,
    {
        match &self.info_result {
            Ok(info) => parent_of(info.original.as_slice()),
            Err(_) => None,
        }
    }

    /// Where the item came from and when it was deleted, for messages about it.
    pub fn origin_summary(&self) -> (r: Option<String>)
        ensures
            r matches Some(text) ==> self.info_result matches Ok(info) && parent(info.original@)
                matches Some(p) && text@ == origin_text(
                p,
                state_view(false, None, info.deleted_at).2,
            ),
            r is None ==> self.info_result is Err || parent(recorded_original(self)->0) is None,
    {
        match &self.info_result {
            Ok(info) => {
                match parent_of(info.original.as_slice()) {
                    Some(p) => {
                        let mut text = String::from_str("from ");
                        let shown = lossy(p.as_slice());
                        push_str(&mut text, shown.as_str());
                        match &info.deleted_at {
                            Some(d) => {
                                push_str(&mut text, ", deleted ");
                                push_str(&mut text, d.as_str());
                            },
                            None => {},
                        }
                        Some(text)
                    },
                    None => None,
                }
            },
            Err(_) => None,
        }
    }
}

/// Where the record of the trashed entry at `path` lives: the entry's own name plus
/// `.trashinfo`, inside `info/` (the whole path stands in when it has no name).
pub open spec fn item_record(path: Seq<u8>, root: Seq<u8>) -> Seq<u8> {
    match file_name(path) {
        Some(name) => record_path(root, name),
        None => record_path(root, path),
    }
}

/// The record path [`item_at`] reads for `path`.
pub fn item_record_path(path: &[u8], dir: &TrashDir) -> (r: Vec<u8>)
    ensures
        r@ == item_record(path@, dir.root@),
{
    match file_name_of(path) {
        Some(name) => dir.info_path(name.as_slice()),
        None => dir.info_path(path),
    }
}

/// Describe one trashed path, given what reading its record (at
/// [`item_record_path`]) produced.
pub fn item_at(path: &[u8], dir: &TrashDir, record: ReadOutcome) -> (r: TrashedItem)
    ensures
        r.file@ == path@,
        r.info@ == item_record(path@, dir.root@),
        record is NotFound ==> r.info_result matches Err(InfoError::Missing),
        record matches ReadOutcome::Failed(e) ==> r.info_result matches Err(
            InfoError::Unreadable(m),
        ) && m@ == e@,
        record matches ReadOutcome::Contents(c) ==> (r.info_result matches Ok(info)
            ==> record_verdict(c@, dir.top_dir@) == Ok::<(Seq<u8>, Option<Seq<char>>), InfoError>(
            (info.original@, state_view(false, None, info.deleted_at).2),
        )) && (r.info_result matches Err(e) ==> (e is Malformed && record_verdict(
            c@,
            dir.top_dir@,
        ) matches Err(InfoError::Malformed)) || (e is NoOriginalPath && record_verdict(
            c@,
            dir.top_dir@,
        ) matches Err(InfoError::NoOriginalPath))) && (record_verdict(c@, dir.top_dir@) is Ok
            ==> r.info_result is Ok),
{
    let info = item_record_path(path, dir);
    let info_result = info_from_read(record, dir.top_dir.as_slice());
    TrashedItem { file: copy_bytes(path), info, info_result }
}

/// The name a record in `info/` belongs to, when it carries the `.trashinfo` suffix.
pub open spec fn record_stem(name: Seq<u8>) -> Option<Seq<u8>> {
    if name.len() >= 10 && name.skip(name.len() - 10) == info_suffix() {
        Some(name.subrange(0, name.len() - 10))
    } else {
        None
    }
}

/// Strip `.trashinfo` from a record's name.
pub fn strip_info_suffix(name: &[u8]) -> (r: Option<Vec<u8>>)
    ensures
        r matches Some(v) ==> record_stem(name@) == Some(v@),
        r is None ==> record_stem(name@) is None,
{
    if name.len() < 10 {
        return None;
    }
    let split = name.len() - 10;
    let suffix = suffix_bytes();
    let mut k: usize = 0;
    while k < 10
        invariant
            k <= 10,
            split + 10 == name.len(),
            suffix@ == info_suffix(),
            forall|j: int| 0 <= j < k ==> name@[split + j] == suffix@[j],
        decreases 10 - k,
    {
        if name[split + k] != suffix[k] {
            assert(name@.skip(split as int)[k as int] != info_suffix()[k as int]);
            return None;
        }
        k += 1;
    }
    assert(name@.skip(split as int) =~= info_suffix());
    let mut stem: Vec<u8> = Vec::new();
    let mut i: usize = 0;
    while i < split
        invariant
            i <= split,
            split + 10 == name.len(),
            stem@ == name@.subrange(0, i as int),
        decreases split - i,
    {
        stem.push(name[i]);
        assert(name@.subrange(0, i + 1) =~= name@.subrange(0, i as int).push(name@[i as int]));
        i += 1;
    }
    Some(stem)
}

// ------------------------------------------------------------------ deletion ----

/// What one filesystem removal produced.
#[derive(Debug)]
pub enum IoOutcome {
    Done,
    NotFound,
    Failed(String),
}

/// Why a permanent deletion did not fully succeed.
#[derive(Debug)]
pub enum PurgeError {
    /// Nothing was removed. The item and its record are both intact.
    Failed(String),
    /// The data is gone, but its record could not be removed.
    RecordRemains(String),
}

/// The sentence for a purge failure.
pub open spec fn purge_error_text(e: &PurgeError) -> Seq<char> {
    match e {
        PurgeError::Failed(m) => m@,
        PurgeError::RecordRemains(m) => "it was deleted, but its trash record could not be removed: "@
            + m@,
    }
}

impl PurgeError {
    pub fn message(&self) -> (r: String)
        ensures
            r@ == purge_error_text(self),
    {
        match self {
            PurgeError::Failed(error) => String::from_str(error.as_str()),
            PurgeError::RecordRemains(error) => {
                let mut r = String::from_str(
                    "it was deleted, but its trash record could not be removed: ",
                );
                push_str(&mut r, error.as_str());
                r
            },
        }
    }
}

/// A record is removed only once its data is gone, whether removed now or already.
pub open spec fn data_gone(data: &IoOutcome) -> bool {
    data is Done || data is NotFound
}

/// True when, after removing the data with this outcome, the record should be removed.
pub fn should_remove_record(data: &IoOutcome) -> (r: bool)
    ensures
        r == data_gone(data),
{
    match data {
        IoOutcome::Failed(_) => false,
        _ => true,
    }
}

/// The result of deleting a trashed item permanently, from what removing its data and
/// then its record produced. Data that something else already removed counts as gone,
/// and so does a record that is already missing. When the data could not be removed the
/// record was left alone (`record` is then not looked at).
pub fn purge(data: IoOutcome, record: Option<IoOutcome>) -> (r: Result<(), PurgeError>)
    ensures
        data matches IoOutcome::Failed(e) ==> r matches Err(PurgeError::Failed(m)) && m@ == e@,
        data_gone(&data) ==> match record {
            Some(IoOutcome::Failed(e)) => r matches Err(PurgeError::RecordRemains(m)) && m@ == e@,
            _ => r is Ok,
        },
{
    match data {
        IoOutcome::Failed(error) => Err(PurgeError::Failed(error)),
        _ => match record {
            Some(IoOutcome::Failed(error)) => Err(PurgeError::RecordRemains(error)),
            _ => Ok(()),
        },
    }
}

/// What happened to one item in a batch deletion.
#[derive(Debug, PartialEq, Eq)]
pub enum Removal {
    /// Gone, along with its restore record.
    Removed,
    /// The data is gone but its record could not be removed.
    RecordRemains(String),
    /// Nothing was removed; the item is still exactly where it was.
    Failed(String),
    /// The batch was cancelled before reaching this item.
    Cancelled,
}

/// The removal reported for one purge result.
pub open spec fn removal_for(r: &Removal, result: &Result<(), PurgeError>) -> bool {
    match result {
        Ok(()) => r is Removed,
        Err(e) => match e {
            PurgeError::RecordRemains(_) => r matches Removal::RecordRemains(m) && m@
                == purge_error_text(e),
            PurgeError::Failed(_) => r matches Removal::Failed(m) && m@ == purge_error_text(e),
        },
    }
}

/// The removal reported for one purge result.
pub fn removal_of(result: Result<(), PurgeError>) -> (r: Removal)
    ensures
        removal_for(&r, &result),
{
    match result {
        Ok(()) => Removal::Removed,
        Err(error) => {
            let text = error.message();
            match error {
                PurgeError::RecordRemains(_) => Removal::RecordRemains(text),
                PurgeError::Failed(_) => Removal::Failed(text),
            }
        },
    }
}

/// What a batch deletion does next.
#[derive(Debug, Clone, Copy, PartialEq, Eq, Structural)]
pub enum BatchStep {
    /// Purge the item at this index, then report back.
    Purge(usize),
    /// Every item has an outcome.
    Finished,
}

/// One step of a batch deletion, which runs one item at a time.
///
/// `last` is the result of purging the item the previous step asked for (none on the
/// first call), and `cancelled` is whether cancellation has been requested. Its outcome
/// is recorded first. Then, when every item has an outcome the batch is finished; when
/// cancellation was requested every item not reached is reported `Cancelled` and the
/// batch is finished; otherwise the next item is purged. So one item's failure never
/// stops the rest, and every item gets exactly one outcome, in order.
pub fn purge_batch(
    outcomes: &mut Vec<Removal>,
    total: usize,
    cancelled: bool,
    last: Option<Result<(), PurgeError>>,
) -> (step: BatchStep)
    requires
        old(outcomes)@.len() + (if last is Some {
            1int
        } else {
            0int
        }) <= total,
    ensures
        ({
            let n = old(outcomes)@.len() + (if last is Some {
                1int
            } else {
                0int
            });
            &&& forall|i: int|
                0 <= i < old(outcomes)@.len() ==> #[trigger] final(outcomes)@[i] == old(
                    outcomes,
                )@[i]
            &&& last matches Some(res) ==> removal_for(&final(outcomes)@[old(outcomes)@.len() as int], &res)
            &&& if n == total {
                step == BatchStep::Finished && final(outcomes)@.len() == total
            } else if cancelled {
                &&& step == BatchStep::Finished
                &&& final(outcomes)@.len() == total
                &&& forall|i: int| n <= i < total ==> #[trigger] final(outcomes)@[i] is Cancelled
            } else {
                step == BatchStep::Purge(n as usize) && final(outcomes)@.len() == n
            }
        }),
{
    match last {
        Some(result) => outcomes.push(removal_of(result)),
        None => {},
    }
    if outcomes.len() == total {
        return BatchStep::Finished;
    }
    if cancelled {
        let n = outcomes.len();
        let ghost base = outcomes@;
        while outcomes.len() < total
            invariant
                n <= outcomes@.len() <= total,
                forall|i: int| 0 <= i < n ==> #[trigger] outcomes@[i] == base[i],
                forall|i: int| n <= i < outcomes@.len() ==> #[trigger] outcomes@[i] is Cancelled,
            decreases total - outcomes@.len(),
        {
            outcomes.push(Removal::Cancelled);
        }
        return BatchStep::Finished;
    }
    BatchStep::Purge(outcomes.len())
}

} // verus!
