//! Sidebar locations: XDG user directories, mounted volumes and user pins, and the
//! labels they are shown under.
//!
//! Asking the desktop which directories and volumes exist happens outside this
//! module; what it answered is turned into sidebar entries here.

use crate::files::trash::{files_dir, DirView, TrashDir};
use crate::paths::{
    copy_bytes, file_name, file_name_of, join, join_path, lossy, path_text, path_eq, paths_view,
    same_path,
};
use crate::persistence::{decode_path, decoded, encode_path, hex_text, lemma_path_round_trip};
use crate::text::{escape, escaped, is_blank, is_blank_str, push_str, text_bytes};
use crate::seqs::{first_index, lemma_first_index_facts};
use crate::tags::{at_path, path_position};
use crate::theme::opt_text;
use vstd::prelude::*;
use vstd::utf8::encode_utf8;

verus! {

/// A navigable location shown in the sidebar.
#[derive(Debug, Clone)]
pub struct Place {
    pub label: String,
    pub icon_name: String,
    pub path: Vec<u8>,
}

/// A place as plain values: label, icon name, path.
pub type PlaceView = (Seq<char>, Seq<char>, Seq<u8>);

impl View for Place {
    type V = PlaceView;

    open spec fn view(&self) -> PlaceView {
        (self.label@, self.icon_name@, self.path@)
    }
}

/// The views of a list of places.
pub open spec fn places_view(v: Seq<Place>) -> Seq<PlaceView> {
    v.map_values(|p: Place| p@)
}

// -------------------------------------------------------------------- trash ----

/// The label one trash location carries: plain "Trash" for the home trash, and
/// otherwise "Trash on" the mount it belongs to, so two disks' trashes can be told
/// apart.
pub open spec fn trash_label_text(dir: DirView, home: DirView) -> Seq<char> {
    if same_path(dir.0, home.0) {
        "Trash"@
    } else {
        match file_name(dir.1) {
            Some(mount) => "Trash on "@ + path_text(mount),
            None => "Trash"@,
        }
    }
}

/// The label one trash location should carry in the sidebar.
pub fn trash_label(dir: &TrashDir, home: &TrashDir) -> (r: String)
    ensures
        r@ == trash_label_text(dir@, home@),
{
    if path_eq(dir.root.as_slice(), home.root.as_slice()) {
        return String::from_str("Trash");
    }
    match file_name_of(dir.top_dir.as_slice()) {
        Some(mount) => {
            let mut r = String::from_str("Trash on ");
            let shown = lossy(mount.as_slice());
            push_str(&mut r, shown.as_str());
            r
        },
        None => String::from_str("Trash"),
    }
}

/// The sidebar entries of the trash locations other than the home trash.
pub open spec fn other_trash_places(dirs: Seq<DirView>, home: DirView) -> Seq<PlaceView>
    decreases dirs.len(),
{
    if dirs.len() == 0 {
        Seq::empty()
    } else {
        let prev = other_trash_places(dirs.drop_last(), home);
        if same_path(dirs.last().0, home.0) {
            prev
        } else {
            prev.push((trash_label_text(dirs.last(), home), "user-trash-symbolic"@, files_dir(dirs.last().0)))
        }
    }
}

/// Every trash Teral can currently browse: the home trash first, then every other
/// trash found, labelled by its disk.
pub fn trash_places(home: &TrashDir, dirs: &Vec<TrashDir>) -> (r: Vec<Place>)
    ensures
        places_view(r@) == seq![("Trash"@, "user-trash-symbolic"@, files_dir(home.root@))] + other_trash_places(
            dirs.deep_view(),
            home@,
        ),
{
    let mut r: Vec<Place> = Vec::new();
    r.push(Place { label: String::from_str("Trash"), icon_name: String::from_str("user-trash-symbolic"), path: home.files() });
    let ghost head = places_view(r@);
    let ghost ds = dirs.deep_view();
    let mut k: usize = 0;
    assert(ds.take(0) =~= Seq::<DirView>::empty());
    assert(places_view(r@) =~= head + other_trash_places(ds.take(0), home@));
    while k < dirs.len()
        invariant
            k <= dirs.len(),
            ds == dirs.deep_view(),
            head == seq![("Trash"@, "user-trash-symbolic"@, files_dir(home.root@))],
            places_view(r@) == head + other_trash_places(ds.take(k as int), home@),
        decreases dirs.len() - k,
    {
        let dir = &dirs[k];
        let ghost next = ds.take(k + 1);
        assert(next.drop_last() =~= ds.take(k as int));
        assert(next.last() == dir@);
        if !path_eq(dir.root.as_slice(), home.root.as_slice()) {
            let ghost before = places_view(r@);
            let place = Place { label: trash_label(dir, home), icon_name: String::from_str("user-trash-symbolic"), path: dir.files() };
            let ghost v = place@;
            r.push(place);
            assert(places_view(r@) =~= before.push(v));
        }
        k += 1;
    }
    assert(ds.take(dirs.len() as int) =~= ds);
    r
}

// ----------------------------------------------------------- user directories ----

/// The XDG user directories Teral shows, in order: label and icon of each.
pub open spec fn user_directory(k: int) -> (Seq<char>, Seq<char>) {
    if k == 0 {
        ("Desktop"@, "user-desktop-symbolic"@)
    } else if k == 1 {
        ("Documents"@, "folder-documents-symbolic"@)
    } else if k == 2 {
        ("Downloads"@, "folder-download-symbolic"@)
    } else if k == 3 {
        ("Pictures"@, "folder-pictures-symbolic"@)
    } else if k == 4 {
        ("Music"@, "folder-music-symbolic"@)
    } else {
        ("Videos"@, "folder-videos-symbolic"@)
    }
}

/// How many XDG user directories Teral shows.
pub const USER_DIRECTORIES: usize = 6;

fn user_directory_of(k: usize) -> (r: (&'static str, &'static str))
    ensures
        (r.0@, r.1@) == user_directory(k as int),
{
    if k == 0 {
        ("Desktop", "user-desktop-symbolic")
    } else if k == 1 {
        ("Documents", "folder-documents-symbolic")
    } else if k == 2 {
        ("Downloads", "folder-download-symbolic")
    } else if k == 3 {
        ("Pictures", "folder-pictures-symbolic")
    } else if k == 4 {
        ("Music", "folder-music-symbolic")
    } else {
        ("Videos", "folder-videos-symbolic")
    }
}

/// What the desktop said of one user directory: where it is, and whether it is a
/// folder right now.
pub type FoundView = Option<(Seq<u8>, bool)>;

/// The entries of the user directories that exist, are folders, and are not the home
/// folder itself (a user who disabled a directory sees no broken entry).
pub open spec fn directory_places(found: Seq<FoundView>, home: Option<Seq<u8>>) -> Seq<PlaceView>
    decreases found.len(),
{
    if found.len() == 0 {
        Seq::empty()
    } else {
        let prev = directory_places(found.drop_last(), home);
        let k = found.len() - 1;
        match found.last() {
            Some((path, is_dir)) => if k < USER_DIRECTORIES && is_dir && !(home matches Some(h) && same_path(path, h)) {
                prev.push((user_directory(k).0, user_directory(k).1, path))
            } else {
                prev
            },
            None => prev,
        }
    }
}

/// The plain values of what the desktop said of the user directories.
pub open spec fn found_view(found: Seq<Option<(Vec<u8>, bool)>>) -> Seq<FoundView> {
    found.map_values(|f: Option<(Vec<u8>, bool)>| match f {
        Some((p, d)) => Some((p@, d)),
        None => None,
    })
}

/// The sidebar's standard places: Home when there is one, the XDG user directories
/// in order (`found` holds what the desktop said of each), then the trash places.
pub fn user_places(home: Option<&[u8]>, found: &Vec<Option<(Vec<u8>, bool)>>, trash: Vec<Place>) -> (r: Vec<Place>)
    ensures
        places_view(r@) == (match home {
            Some(h) => seq![("Home"@, "user-home-symbolic"@, h@)],
            None => Seq::empty(),
        }) + directory_places(
            found_view(found@),
            match home {
                Some(h) => Some(h@),
                None => None,
            },
        ) + places_view(trash@),
{
    let ghost hv = match home {
        Some(h) => Some(h@),
        None => None::<Seq<u8>>,
    };
    let mut r: Vec<Place> = Vec::new();
    if let Some(h) = home {
        r.push(Place { label: String::from_str("Home"), icon_name: String::from_str("user-home-symbolic"), path: copy_bytes(h) });
    }
    let ghost head = places_view(r@);
    assert(head =~= match home {
        Some(h) => seq![("Home"@, "user-home-symbolic"@, h@)],
        None => Seq::empty(),
    });
    let ghost fs = found_view(found@);
    let mut k: usize = 0;
    assert(fs.take(0) =~= Seq::<FoundView>::empty());
    assert(places_view(r@) =~= head + directory_places(fs.take(0), hv));
    while k < found.len()
        invariant
            k <= found.len(),
            fs == found_view(found@),
            hv == match home {
                Some(h) => Some(h@),
                None => None::<Seq<u8>>,
            },
            places_view(r@) == head + directory_places(fs.take(k as int), hv),
        decreases found.len() - k,
    {
        let ghost next = fs.take(k + 1);
        assert(next.drop_last() =~= fs.take(k as int));
        assert(next.last() == fs[k as int]);
        match &found[k] {
            Some((path, is_dir)) => {
                let is_home = match home {
                    Some(h) => path_eq(path.as_slice(), h),
                    None => false,
                };
                if k < USER_DIRECTORIES && *is_dir && !is_home {
                    let (label, icon) = user_directory_of(k);
                    let ghost before = places_view(r@);
                    let place = Place { label: String::from_str(label), icon_name: String::from_str(icon), path: copy_bytes(path.as_slice()) };
                    let ghost v = place@;
                    r.push(place);
                    assert(places_view(r@) =~= before.push(v));
                }
            },
            None => {},
        }
        k += 1;
    }
    assert(fs.take(found.len() as int) =~= fs);
    let ghost middle = places_view(r@);
    let mut t = trash;
    let ghost tv = places_view(t@);
    let ghost tseq = t@;
    r.append(&mut t);
    assert(places_view(r@) =~= middle + tv);
    r
}

// ------------------------------------------------------------------ devices ----

/// `/`, as bytes.
pub open spec fn root_path() -> Seq<u8> {
    seq![47u8]
}

/// Where a sidebar device entry came from: the root filesystem, a volume or a mount,
/// by its position in what the desktop listed.
#[derive(Debug, Clone, Copy, PartialEq, Eq, Structural)]
pub enum DeviceOrigin {
    Root,
    Volume(usize),
    Mount(usize),
}

/// One device entry of the sidebar.
#[derive(Debug)]
pub struct DeviceSlot {
    pub label: String,
    pub path: Option<Vec<u8>>,
    pub origin: DeviceOrigin,
}

/// What the desktop said of one volume: its name, and where it is mounted.
#[derive(Debug)]
pub struct VolumeFacts {
    pub name: String,
    pub path: Option<Vec<u8>>,
}

/// What the desktop said of one mount.
#[derive(Debug)]
pub struct MountFacts {
    pub name: String,
    pub path: Option<Vec<u8>>,
    pub shadowed: bool,
    pub has_volume: bool,
}

/// A device entry as plain values.
pub type SlotView = (Seq<char>, Option<Seq<u8>>, DeviceOrigin);

/// The byte view of an optional path.
pub open spec fn opt_path(o: Option<Vec<u8>>) -> Option<Seq<u8>> {
    match o {
        Some(p) => Some(p@),
        None => None,
    }
}

/// Some entry already shows `path`.
pub open spec fn shown(slots: Seq<SlotView>, path: Seq<u8>) -> bool {
    exists|k: int| 0 <= k < slots.len() && ((#[trigger] slots[k]).1 matches Some(p) && same_path(p, path))
}

/// The root filesystem, then every volume that is not mounted at `/`.
pub open spec fn volume_slots(volumes: Seq<VolumeFacts>) -> Seq<SlotView>
    decreases volumes.len(),
{
    if volumes.len() == 0 {
        seq![("Filesystem"@, Some(root_path()), DeviceOrigin::Root)]
    } else {
        let prev = volume_slots(volumes.drop_last());
        let v = volumes.last();
        if opt_path(v.path) matches Some(p) && same_path(p, root_path()) {
            prev
        } else {
            prev.push((v.name@, opt_path(v.path), DeviceOrigin::Volume((volumes.len() - 1) as usize)))
        }
    }
}

/// Then every mount that is not shadowed, has no volume of its own, has a local path
/// that is not `/`, and is not shown already.
pub open spec fn mount_slots(start: Seq<SlotView>, mounts: Seq<MountFacts>) -> Seq<SlotView>
    decreases mounts.len(),
{
    if mounts.len() == 0 {
        start
    } else {
        let prev = mount_slots(start, mounts.drop_last());
        let m = mounts.last();
        if m.shadowed || m.has_volume {
            prev
        } else {
            match opt_path(m.path) {
                None => prev,
                Some(p) => if same_path(p, root_path()) || shown(prev, p) {
                    prev
                } else {
                    prev.push((m.name@, Some(p), DeviceOrigin::Mount((mounts.len() - 1) as usize)))
                },
            }
        }
    }
}

/// The views of a list of device entries.
pub open spec fn slots_view(v: Seq<DeviceSlot>) -> Seq<SlotView> {
    v.map_values(|d: DeviceSlot| (d.label@, opt_path(d.path), d.origin))
}

fn is_root(p: &[u8]) -> (r: bool)
    ensures
        r == same_path(p@, root_path()),
{
    let root: [u8; 1] = [47u8];
    let r = path_eq(p, &root);
    assert(root@ =~= root_path());
    r
}

/// The sidebar's devices: the root filesystem, the volumes, then the mounts that no
/// volume stands for, each shown once.
pub fn device_slots(volumes: &Vec<VolumeFacts>, mounts: &Vec<MountFacts>) -> (r: Vec<DeviceSlot>)
    ensures
        slots_view(r@) == mount_slots(volume_slots(volumes@), mounts@),
{
    let mut r: Vec<DeviceSlot> = Vec::new();
    let root = copy_bytes(&[47u8]);
    assert(root@ =~= root_path());
    r.push(DeviceSlot { label: String::from_str("Filesystem"), path: Some(root), origin: DeviceOrigin::Root });
    assert(volumes@.take(0).len() == 0);
    assert(slots_view(r@) =~= volume_slots(volumes@.take(0)));
    let mut k: usize = 0;
    while k < volumes.len()
        invariant
            k <= volumes.len(),
            slots_view(r@) == volume_slots(volumes@.take(k as int)),
        decreases volumes.len() - k,
    {
        let v = &volumes[k];
        let ghost next = volumes@.take(k + 1);
        assert(next.drop_last() =~= volumes@.take(k as int));
        assert(next.last() == volumes@[k as int]);
        let at_root = match &v.path {
            Some(p) => is_root(p.as_slice()),
            None => false,
        };
        if !at_root {
            let ghost before = slots_view(r@);
            let path = match &v.path {
                Some(p) => Some(copy_bytes(p.as_slice())),
                None => None,
            };
            let slot = DeviceSlot { label: v.name.clone(), path, origin: DeviceOrigin::Volume(k) };
            let ghost sv = (slot.label@, opt_path(slot.path), slot.origin);
            r.push(slot);
            assert(slots_view(r@) =~= before.push(sv));
        }
        k += 1;
    }
    assert(volumes@.take(volumes.len() as int) =~= volumes@);
    let ghost start = slots_view(r@);
    let mut j: usize = 0;
    assert(mount_slots(start, mounts@.take(0)) == start);
    while j < mounts.len()
        invariant
            j <= mounts.len(),
            start == volume_slots(volumes@),
            slots_view(r@) == mount_slots(start, mounts@.take(j as int)),
        decreases mounts.len() - j,
    {
        let m = &mounts[j];
        let ghost next = mounts@.take(j + 1);
        assert(next.drop_last() =~= mounts@.take(j as int));
        assert(next.last() == mounts@[j as int]);
        let ghost prev = slots_view(r@);
        if !m.shadowed && !m.has_volume {
            if let Some(p) = &m.path {
                let mut seen = is_root(p.as_slice());
                let mut i: usize = 0;
                while i < r.len() && !seen
                    invariant
                        i <= r.len(),
                        prev == slots_view(r@),
                        seen ==> (same_path(p@, root_path()) || shown(prev, p@)),
                        !seen ==> !same_path(p@, root_path()) && forall|q: int| 0 <= q < i ==> !((#[trigger] prev[q]).1 matches Some(x) && same_path(x, p@)),
                    decreases r.len() - i,
                {
                    match &r[i].path {
                        Some(x) => {
                            if path_eq(x.as_slice(), p.as_slice()) {
                                assert(prev[i as int].1 == Some(x@));
                                seen = true;
                            }
                        },
                        None => {},
                    }
                    i += 1;
                }
                if !seen {
                    assert(!shown(prev, p@));
                    let slot = DeviceSlot { label: m.name.clone(), path: Some(copy_bytes(p.as_slice())), origin: DeviceOrigin::Mount(j) };
                    let ghost sv = (slot.label@, opt_path(slot.path), slot.origin);
                    r.push(slot);
                    assert(slots_view(r@) =~= prev.push(sv));
                }
            }
        }
        j += 1;
    }
    assert(mounts@.take(mounts.len() as int) =~= mounts@);
    r
}

// ------------------------------------------------------------------- labels ----

/// Labels recorded for paths; a later entry for the same path wins.
pub type LabelsView = Seq<(Seq<u8>, Seq<char>)>;

/// The label recorded for `p`, if any.
pub open spec fn label_for(entries: LabelsView, p: Seq<u8>) -> Option<Seq<char>>
    decreases entries.len(),
{
    if entries.len() == 0 {
        None
    } else if same_path(entries.last().0, p) {
        Some(entries.last().1)
    } else {
        label_for(entries.drop_last(), p)
    }
}

/// Every entry whose path is not `p`, in order.
pub open spec fn without(entries: LabelsView, p: Seq<u8>) -> LabelsView
    decreases entries.len(),
{
    if entries.len() == 0 {
        Seq::empty()
    } else if same_path(entries.last().0, p) {
        without(entries.drop_last(), p)
    } else {
        without(entries.drop_last(), p).push(entries.last())
    }
}

/// Labels for paths: a bookmark's own name, or a device's.
#[derive(Debug)]
pub struct PathLabels {
    pub entries: Vec<(Vec<u8>, String)>,
}

impl PathLabels {
    /// The entries as plain values.
    pub open spec fn entries_view(&self) -> LabelsView {
        self.entries@.map_values(|e: (Vec<u8>, String)| (e.0@, e.1@))
    }

    /// No labels.
    pub fn new() -> (r: PathLabels)
        ensures
            r.entries_view().len() == 0,
    {
        PathLabels { entries: Vec::new() }
    }

    /// The label recorded for `path`.
    pub fn get(&self, path: &[u8]) -> (r: Option<String>)
        ensures
            match label_for(self.entries_view(), path@) {
                Some(l) => r matches Some(s) && s@ == l,
                None => r is None,
            },
    {
        let ghost es = self.entries_view();
        let mut i: usize = self.entries.len();
        assert(es.take(i as int) =~= es);
        while i > 0
            invariant
                i <= self.entries.len(),
                es == self.entries_view(),
                label_for(es, path@) == label_for(es.take(i as int), path@),
            decreases i,
        {
            let ghost prefix = es.take(i as int);
            assert(prefix.drop_last() =~= es.take(i - 1));
            assert(prefix.last() == es[i - 1]);
            let e = &self.entries[i - 1];
            if path_eq(e.0.as_slice(), path) {
                return Some(e.1.clone());
            }
            i -= 1;
        }
        assert(es.take(0) =~= LabelsView::empty());
        None
    }

    /// Record `label` for `path`; a later label for the same path replaces it.
    pub fn insert(&mut self, path: Vec<u8>, label: String)
        ensures
            final(self).entries_view() == old(self).entries_view().push((path@, label@)),
    {
        let ghost before = self.entries_view();
        let ghost v = (path@, label@);
        self.entries.push((path, label));
        assert(self.entries_view() =~= before.push(v));
    }

    /// Forget the label of `path`.
    pub fn remove(&mut self, path: &[u8])
        ensures
            final(self).entries_view() == without(old(self).entries_view(), path@),
    {
        let ghost es = self.entries_view();
        let mut kept: Vec<(Vec<u8>, String)> = Vec::new();
        let mut i: usize = 0;
        assert(es.take(0) =~= LabelsView::empty());
        assert(kept@.map_values(|e: (Vec<u8>, String)| (e.0@, e.1@)) =~= LabelsView::empty());
        while i < self.entries.len()
            invariant
                i <= self.entries.len(),
                es == self.entries_view(),
                kept@.map_values(|e: (Vec<u8>, String)| (e.0@, e.1@)) == without(es.take(i as int), path@),
            decreases self.entries.len() - i,
        {
            let e = &self.entries[i];
            let ghost next = es.take(i + 1);
            assert(next.drop_last() =~= es.take(i as int));
            assert(next.last() == es[i as int]);
            if !path_eq(e.0.as_slice(), path) {
                let ghost before = kept@.map_values(|e: (Vec<u8>, String)| (e.0@, e.1@));
                kept.push((copy_bytes(e.0.as_slice()), e.1.clone()));
                assert(kept@.map_values(|e: (Vec<u8>, String)| (e.0@, e.1@)) =~= before.push(es[i as int]));
            }
            i += 1;
        }
        assert(es.take(self.entries.len() as int) =~= es);
        self.entries = kept;
    }

    /// Set or clear a bookmark's own name: a blank name clears it.
    pub fn set_bookmark_label(&mut self, path: &[u8], label: Option<String>)
        ensures
            (label matches Some(l) && !is_blank(l@)) ==> final(self).entries_view() == old(self).entries_view().push((path@, label->0@)),
            !(label matches Some(l) && !is_blank(l@)) ==> final(self).entries_view() == without(old(self).entries_view(), path@),
    {
        match label {
            Some(l) => {
                if is_blank_str(l.as_str()) {
                    self.remove(path);
                } else {
                    self.insert(copy_bytes(path), l);
                }
            },
            None => self.remove(path),
        }
    }
}

/// Labelling a path and then asking for its label gives that label back; clearing it
/// leaves no label for it.
pub proof fn lemma_label_read_back(entries: LabelsView, p: Seq<u8>, q: Seq<u8>, label: Seq<char>)
    requires
        same_path(p, q),
    ensures
        label_for(entries.push((p, label)), q) == Some(label),
        label_for(without(entries, p), q) is None,
    decreases entries.len(),
{
    assert(entries.push((p, label)).drop_last() =~= entries);
    if entries.len() > 0 {
        lemma_label_read_back(entries.drop_last(), p, q, label);
        let w = without(entries, p);
        let rest = without(entries.drop_last(), p);
        if same_path(entries.last().0, p) {
            assert(w == rest);
        } else {
            assert(w == rest.push(entries.last()));
            assert(w.drop_last() =~= rest);
            assert(!same_path(entries.last().0, q));
        }
    }
}

/// The labels of the device entries that have a path, in order.
pub open spec fn slot_labels(slots: Seq<SlotView>) -> LabelsView
    decreases slots.len(),
{
    if slots.len() == 0 {
        Seq::empty()
    } else {
        let prev = slot_labels(slots.drop_last());
        match slots.last().1 {
            Some(p) => prev.push((p, slots.last().0)),
            None => prev,
        }
    }
}

/// The device labels the sidebar resolves paths with, from its device entries.
pub fn device_labels(slots: &Vec<DeviceSlot>) -> (r: PathLabels)
    ensures
        r.entries_view() == slot_labels(slots_view(slots@)),
{
    let ghost sv = slots_view(slots@);
    let mut r = PathLabels::new();
    let mut j: usize = 0;
    assert(sv.take(0) =~= Seq::<SlotView>::empty());
    while j < slots.len()
        invariant
            j <= slots.len(),
            sv == slots_view(slots@),
            r.entries_view() == slot_labels(sv.take(j as int)),
        decreases slots.len() - j,
    {
        let ghost next = sv.take(j + 1);
        assert(next.drop_last() =~= sv.take(j as int));
        assert(next.last() == sv[j as int]);
        if let Some(p) = &slots[j].path {
            r.insert(copy_bytes(p.as_slice()), slots[j].label.clone());
        }
        j += 1;
    }
    assert(sv.take(slots.len() as int) =~= sv);
    r
}

// ------------------------------------------------------------------ bookmarks ----

/// The pins file as read: plain pinned paths, and bookmarks with hex-encoded paths
/// and optional names.
#[derive(Debug)]
pub struct RawPinned {
    pub pinned: Vec<String>,
    pub bookmarks: Vec<(String, Option<String>)>,
}

/// `teral/places.toml`, as bytes.
pub open spec fn places_file_name() -> Seq<u8> {
    seq![116u8, 101u8, 114u8, 97u8, 108u8, 47u8, 112u8, 108u8, 97u8, 99u8, 101u8, 115u8, 46u8, 116u8, 111u8, 109u8, 108u8]
}

/// Where the pinned locations are kept, under the user's data directory.
pub fn pinned_path(data_home: &[u8]) -> (r: Vec<u8>)
    ensures
        r@ == join(data_home@, places_file_name()),
{
    let name = copy_bytes(&[116u8, 101u8, 114u8, 97u8, 108u8, 47u8, 112u8, 108u8, 97u8, 99u8, 101u8, 115u8, 46u8, 116u8, 111u8, 109u8, 108u8]);
    assert(name@ =~= places_file_name());
    join_path(data_home, name.as_slice())
}

/// Pins in order, a path that is already pinned not added again.
pub open spec fn add_pin(pins: Seq<Seq<u8>>, p: Seq<u8>) -> Seq<Seq<u8>> {
    if exists|k: int| 0 <= k < pins.len() && same_path(#[trigger] pins[k], p) {
        pins
    } else {
        pins.push(p)
    }
}

/// What loading the pins file gives: the plain pins, then each bookmark's path unless
/// already pinned, and the bookmark names that are not blank; the first bookmark
/// whose path cannot be decoded refuses the whole file.
pub open spec fn loaded_pins(pinned: Seq<Seq<char>>, bookmarks: Seq<(Seq<char>, Option<Seq<char>>)>) -> Result<(Seq<Seq<u8>>, LabelsView), Seq<char>>
    decreases bookmarks.len(),
{
    if bookmarks.len() == 0 {
        Ok((pinned.map_values(|s: Seq<char>| encode_utf8(s)), Seq::empty()))
    } else {
        match loaded_pins(pinned, bookmarks.drop_last()) {
            Err(e) => Err(e),
            Ok((pins, labels)) => match decoded(bookmarks.last().0) {
                Err(e) => Err(e),
                Ok(p) => Ok(
                    (
                        add_pin(pins, p),
                        match bookmarks.last().1 {
                            Some(l) => if is_blank(l) {
                                labels
                            } else {
                                labels.push((p, l))
                            },
                            None => labels,
                        },
                    ),
                ),
            },
        }
    }
}

/// The pins file as plain values.
pub open spec fn raw_pinned_view(raw: &RawPinned) -> (Seq<Seq<char>>, Seq<(Seq<char>, Option<Seq<char>>)>) {
    (
        raw.pinned@.map_values(|s: String| s@),
        raw.bookmarks@.map_values(|b: (String, Option<String>)| (b.0@, opt_text(b.1))),
    )
}

proof fn lemma_loaded_pins_prefix_err(pinned: Seq<Seq<char>>, bs: Seq<(Seq<char>, Option<Seq<char>>)>, k: int)
    requires
        0 <= k <= bs.len(),
        loaded_pins(pinned, bs.take(k)) is Err,
    ensures
        loaded_pins(pinned, bs) == loaded_pins(pinned, bs.take(k)),
    decreases bs.len(),
{
    if bs.len() == k {
        assert(bs.take(k) =~= bs);
    } else {
        assert(bs.drop_last().take(k) =~= bs.take(k));
        lemma_loaded_pins_prefix_err(pinned, bs.drop_last(), k);
    }
}

/// Read the pins file: the pinned locations in order, and the bookmark names.
pub fn pinned_from(raw: &RawPinned) -> (r: Result<(Vec<Vec<u8>>, PathLabels), String>)
    ensures
        match loaded_pins(raw_pinned_view(raw).0, raw_pinned_view(raw).1) {
            Ok((pins, labels)) => r matches Ok(v) && paths_view(v.0@) == pins && v.1.entries_view() == labels,
            Err(e) => r matches Err(m) && m@ == e,
        },
{
    let ghost ps = raw_pinned_view(raw).0;
    let ghost bs = raw_pinned_view(raw).1;
    let mut pins: Vec<Vec<u8>> = Vec::new();
    let mut i: usize = 0;
    while i < raw.pinned.len()
        invariant
            i <= raw.pinned.len(),
            ps == raw_pinned_view(raw).0,
            paths_view(pins@) == ps.take(i as int).map_values(|s: Seq<char>| encode_utf8(s)),
        decreases raw.pinned.len() - i,
    {
        let ghost before = paths_view(pins@);
        pins.push(text_bytes(raw.pinned[i].as_str()));
        assert(ps.take(i + 1).map_values(|s: Seq<char>| encode_utf8(s)) =~= ps.take(i as int).map_values(|s: Seq<char>| encode_utf8(s)).push(encode_utf8(ps[i as int])));
        assert(paths_view(pins@) =~= before.push(encode_utf8(ps[i as int])));
        i += 1;
    }
    assert(ps.take(raw.pinned.len() as int) =~= ps);
    let mut labels = PathLabels::new();
    let mut k: usize = 0;
    assert(bs.take(0) =~= Seq::<(Seq<char>, Option<Seq<char>>)>::empty());
    assert(labels.entries_view() =~= LabelsView::empty());
    assert(paths_view(pins@) =~= ps.map_values(|s: Seq<char>| encode_utf8(s)));
    while k < raw.bookmarks.len()
        invariant
            k <= raw.bookmarks.len(),
            ps == raw_pinned_view(raw).0,
            bs == raw_pinned_view(raw).1,
            loaded_pins(ps, bs.take(k as int)) == Ok::<(Seq<Seq<u8>>, LabelsView), Seq<char>>((paths_view(pins@), labels.entries_view())),
        decreases raw.bookmarks.len() - k,
    {
        let ghost next = bs.take(k + 1);
        assert(next.drop_last() =~= bs.take(k as int));
        assert(next.last() == bs[k as int]);
        let b = &raw.bookmarks[k];
        let path = match decode_path(b.0.as_str()) {
            Ok(p) => p,
            Err(m) => {
                proof {
                    lemma_loaded_pins_prefix_err(ps, bs, k + 1);
                }
                return Err(m);
            },
        };
        let ghost pv = paths_view(pins@);
        let mut present = false;
        let mut j: usize = 0;
        while j < pins.len()
            invariant
                j <= pins.len(),
                pv == paths_view(pins@),
                present == exists|q: int| 0 <= q < j && same_path(#[trigger] pv[q], path@),
            decreases pins.len() - j,
        {
            assert(pv[j as int] == pins@[j as int]@);
            if path_eq(pins[j].as_slice(), path.as_slice()) {
                present = true;
            }
            j += 1;
        }
        if !present {
            pins.push(copy_bytes(path.as_slice()));
            assert(paths_view(pins@) =~= pv.push(path@));
        }
        match &b.1 {
            Some(l) => {
                if !is_blank_str(l.as_str()) {
                    labels.insert(path, l.clone());
                }
            },
            None => {},
        }
        k += 1;
    }
    assert(bs.take(raw.bookmarks.len() as int) =~= bs);
    Ok((pins, labels))
}

/// One `[[bookmark]]` table per pin, with its name when it has one.
pub open spec fn bookmark_tables(pins: Seq<Seq<u8>>, labels: LabelsView) -> Seq<char>
    decreases pins.len(),
{
    if pins.len() == 0 {
        Seq::empty()
    } else {
        bookmark_tables(pins.drop_last(), labels) + "\n[[bookmark]]\n"@ + ("path_hex = \""@ + hex_text(pins.last()) + "\"\n"@) + match label_for(labels, pins.last()) {
            Some(l) => "label = \""@ + escaped(l) + "\"\n"@,
            None => Seq::empty(),
        }
    }
}

/// The pins file for `pins` with the bookmark names in `labels`.
pub open spec fn pins_document(pins: Seq<Seq<u8>>, labels: LabelsView) -> Seq<char> {
    "version = 2\n"@ + bookmark_tables(pins, labels)
}

/// The pins file that saving `pins` writes.
pub fn pinned_payload(pins: &Vec<Vec<u8>>, labels: &PathLabels) -> (r: String)
    ensures
        r@ == pins_document(paths_view(pins@), labels.entries_view()),
{
    let ghost ps = paths_view(pins@);
    let mut d = String::from_str("version = 2\n");
    let ghost start = d@;
    let mut i: usize = 0;
    assert(ps.take(0) =~= Seq::<Seq<u8>>::empty());
    while i < pins.len()
        invariant
            i <= pins.len(),
            ps == paths_view(pins@),
            d@ == start + bookmark_tables(ps.take(i as int), labels.entries_view()),
        decreases pins.len() - i,
    {
        let ghost next = ps.take(i + 1);
        assert(next.drop_last() =~= ps.take(i as int));
        assert(next.last() == pins@[i as int]@);
        let ghost before = d@;
        push_str(&mut d, "\n[[bookmark]]\n");
        push_str(&mut d, "path_hex = \"");
        let encoded = encode_path(pins[i].as_slice());
        push_str(&mut d, encoded.as_str());
        push_str(&mut d, "\"\n");
        let ghost middle = d@;
        match labels.get(pins[i].as_slice()) {
            Some(l) => {
                push_str(&mut d, "label = \"");
                let e = escape(l.as_str());
                push_str(&mut d, e.as_str());
                push_str(&mut d, "\"\n");
                assert(d@ =~= middle + ("label = \""@ + escaped(l@) + "\"\n"@));
            },
            None => {},
        }
        assert(d@ =~= start + bookmark_tables(next, labels.entries_view()));
        i += 1;
    }
    assert(ps.take(pins.len() as int) =~= ps);
    d
}

/// The bookmark entries saving writes: each pin's encoded path, with its name.
pub open spec fn stored_bookmarks(pins: Seq<Seq<u8>>, labels: LabelsView) -> Seq<(Seq<char>, Option<Seq<char>>)> {
    pins.map_values(|p: Seq<u8>| (hex_text(p), label_for(labels, p)))
}

/// The names loading keeps: each pin's name when it has one that is not blank, in
/// the order of the pins.
pub open spec fn kept_labels(pins: Seq<Seq<u8>>, labels: LabelsView) -> LabelsView
    decreases pins.len(),
{
    if pins.len() == 0 {
        Seq::empty()
    } else {
        let prev = kept_labels(pins.drop_last(), labels);
        match label_for(labels, pins.last()) {
            Some(l) => if is_blank(l) {
                prev
            } else {
                prev.push((pins.last(), l))
            },
            None => prev,
        }
    }
}

/// No two pins are the same path, as pinning and loading keep them.
pub open spec fn distinct_pins(pins: Seq<Seq<u8>>) -> bool {
    forall|i: int, j: int| 0 <= i < j < pins.len() ==> !same_path(#[trigger] pins[i], #[trigger] pins[j])
}

/// Loading what saving the bookmarks wrote gives them back: every pin, in order and
/// byte for byte, with each name that is not blank.
pub proof fn lemma_bookmarks_round_trip(pins: Seq<Seq<u8>>, labels: LabelsView)
    requires
        distinct_pins(pins),
    ensures
        loaded_pins(Seq::empty(), stored_bookmarks(pins, labels)) == Ok::<(Seq<Seq<u8>>, LabelsView), Seq<char>>(
            (pins, kept_labels(pins, labels)),
        ),
    decreases pins.len(),
{
    let stored = stored_bookmarks(pins, labels);
    if pins.len() == 0 {
        assert(Seq::<Seq<char>>::empty().map_values(|s: Seq<char>| encode_utf8(s)) =~= pins);
        assert(stored =~= Seq::<(Seq<char>, Option<Seq<char>>)>::empty());
    } else {
        let front = pins.drop_last();
        let p = pins.last();
        assert forall|i: int, j: int| 0 <= i < j < front.len() implies !same_path(#[trigger] front[i], #[trigger] front[j]) by {
            assert(front[i] == pins[i] && front[j] == pins[j]);
        }
        lemma_bookmarks_round_trip(front, labels);
        assert(stored.drop_last() =~= stored_bookmarks(front, labels));
        assert(stored.last() == (hex_text(p), label_for(labels, p)));
        lemma_path_round_trip(p);
        assert(decoded(hex_text(p)) == Ok::<Seq<u8>, Seq<char>>(p));
        assert(!exists|k: int| 0 <= k < front.len() && same_path(#[trigger] front[k], p)) by {
            assert forall|k: int| 0 <= k < front.len() implies !same_path(#[trigger] front[k], p) by {
                assert(front[k] == pins[k]);
                assert(p == pins[pins.len() - 1]);
            }
        }
        assert(front.push(p) =~= pins);
    }
}

// --------------------------------------------------------------------- pins ----

/// Pinning a path that is not pinned adds it at the end; for a pinned path, its
/// first entry is removed.
pub open spec fn toggled_pins(pins: Seq<Seq<u8>>, p: Seq<u8>) -> Seq<Seq<u8>> {
    match first_index(pins, at_path(p)) {
        Some(i) => pins.remove(i),
        None => pins.push(p),
    }
}

/// True when `path` is among the pins.
pub fn is_pinned(pins: &Vec<Vec<u8>>, path: &[u8]) -> (r: bool)
    ensures
        r == (first_index(paths_view(pins@), at_path(path@)) is Some),
{
    path_position(pins, path).is_some()
}

/// Pin `path`, or unpin it when it is pinned.
pub fn toggle_pin(pins: &mut Vec<Vec<u8>>, path: &[u8])
    ensures
        paths_view(final(pins)@) == toggled_pins(paths_view(old(pins)@), path@),
{
    let ghost before = paths_view(pins@);
    match path_position(pins, path) {
        Some(i) => {
            pins.remove(i);
            assert(paths_view(pins@) =~= before.remove(i as int));
        },
        None => {
            pins.push(copy_bytes(path));
            assert(paths_view(pins@) =~= before.push(path@));
        },
    }
}

/// Pinning a path that was not pinned and then toggling it again leaves the pins as
/// they were.
pub proof fn lemma_pin_then_unpin(pins: Seq<Seq<u8>>, p: Seq<u8>)
    requires
        first_index(pins, at_path(p)) is None,
    ensures
        toggled_pins(toggled_pins(pins, p), p) == pins,
{
    let pushed = pins.push(p);
    assert(pushed.drop_last() =~= pins);
    assert(at_path(p)(p));
    assert(first_index(pushed, at_path(p)) == Some(pins.len() as int));
    assert(pushed.remove(pins.len() as int) =~= pins);
}

/// Where a pin moved by `offset` places lands: the offset position, held inside the
/// list.
pub open spec fn reorder_target(index: int, offset: int, len: int) -> int {
    let moved = if index + offset < 0 {
        0
    } else {
        index + offset
    };
    if moved > len - 1 {
        len - 1
    } else {
        moved
    }
}

/// The pins once `p`'s entry has traded places with the one `offset` places away;
/// unchanged when `p` is not pinned.
pub open spec fn reordered_pins(pins: Seq<Seq<u8>>, p: Seq<u8>, offset: int) -> Seq<Seq<u8>> {
    match first_index(pins, at_path(p)) {
        None => pins,
        Some(i) => {
            let t = reorder_target(i, offset, pins.len() as int);
            pins.update(i, pins[t]).update(t, pins[i])
        },
    }
}

/// Move a bookmark by `offset` places without changing the location it points to.
pub fn reorder_pin(pins: &mut Vec<Vec<u8>>, path: &[u8], offset: isize)
    ensures
        paths_view(final(pins)@) == reordered_pins(paths_view(old(pins)@), path@, offset as int),
{
    let ghost before = paths_view(pins@);
    proof {
        lemma_first_index_facts(before, at_path(path@));
    }
    let index = match path_position(pins, path) {
        Some(i) => i,
        None => return,
    };
    let last = pins.len() - 1;
    let wanted: i128 = index as i128 + offset as i128;
    let target: usize = if wanted < 0 {
        0
    } else if wanted > last as i128 {
        last
    } else {
        wanted as usize
    };
    assert(target as int == reorder_target(index as int, offset as int, pins.len() as int));
    if target == index {
        assert(before.update(index as int, before[index as int]).update(index as int, before[index as int]) =~= before);
        return;
    }
    let moving = copy_bytes(pins[index].as_slice());
    let other = copy_bytes(pins[target].as_slice());
    pins.set(index, other);
    pins.set(target, moving);
    assert(paths_view(pins@) =~= before.update(index as int, before[target as int]).update(target as int, before[index as int]));
}

// ----------------------------------------------------------------- labelling ----

/// `files`, as bytes.
pub open spec fn files_word() -> Seq<u8> {
    seq![102u8, 105u8, 108u8, 101u8, 115u8]
}

/// The first trash among `dirs` whose `files/` is `path`.
pub open spec fn trash_at(path: Seq<u8>, dirs: Seq<DirView>) -> Option<DirView>
    decreases dirs.len(),
{
    if dirs.len() == 0 {
        None
    } else {
        match trash_at(path, dirs.drop_last()) {
            Some(d) => Some(d),
            None => if same_path(files_dir(dirs.last().0), path) {
                Some(dirs.last())
            } else {
                None
            },
        }
    }
}

/// A short, friendly label for a directory shown in the sidebar or the title: the
/// root is "Filesystem", the home folder "Home", a device's mount point its device's
/// name, a trash its trash label, and anything else its final component.
pub open spec fn display_label_text(path: Seq<u8>, home: Option<Seq<u8>>, devices: LabelsView, home_trash: DirView, dirs: Seq<DirView>) -> Seq<char> {
    if same_path(path, root_path()) {
        "Filesystem"@
    } else if home matches Some(h) && same_path(path, h) {
        "Home"@
    } else if label_for(devices, path) is Some {
        label_for(devices, path)->0
    } else if file_name(path) == Some(files_word()) && same_path(files_dir(home_trash.0), path) {
        "Trash"@
    } else if file_name(path) == Some(files_word()) && trash_at(path, dirs) is Some {
        trash_label_text(trash_at(path, dirs)->0, home_trash)
    } else {
        match file_name(path) {
            Some(n) => path_text(n),
            None => path_text(path),
        }
    }
}

/// A short, friendly label for a directory shown in the sidebar or the title.
pub fn display_label(path: &[u8], home: Option<&[u8]>, devices: &PathLabels, home_trash: &TrashDir, dirs: &Vec<TrashDir>) -> (r: String)
    ensures
        r@ == display_label_text(
            path@,
            match home {
                Some(h) => Some(h@),
                None => None,
            },
            devices.entries_view(),
            home_trash@,
            dirs.deep_view(),
        ),
{
    if is_root(path) {
        return String::from_str("Filesystem");
    }
    if let Some(h) = home {
        if path_eq(path, h) {
            return String::from_str("Home");
        }
    }
    if let Some(label) = devices.get(path) {
        return label;
    }
    let name = file_name_of(path);
    let is_files = match &name {
        Some(n) => n.len() == 5 && n[0] == 102u8 && n[1] == 105u8 && n[2] == 108u8 && n[3] == 101u8 && n[4] == 115u8,
        None => false,
    };
    assert(is_files == (file_name(path@) == Some(files_word()))) by {
        if is_files {
            assert(name->0@ =~= files_word());
        }
    }
    if is_files {
        let home_files = home_trash.files();
        if path_eq(home_files.as_slice(), path) {
            return String::from_str("Trash");
        }
        let ghost ds = dirs.deep_view();
        let mut k: usize = 0;
        assert(ds.take(0) =~= Seq::<DirView>::empty());
        while k < dirs.len()
            invariant
                k <= dirs.len(),
                ds == dirs.deep_view(),
                trash_at(path@, ds.take(k as int)) is None,
                !same_path(path@, root_path()),
                !(home matches Some(h) && same_path(path@, h@)),
                label_for(devices.entries_view(), path@) is None,
                file_name(path@) == Some(files_word()),
                !same_path(files_dir(home_trash.root@), path@),
            decreases dirs.len() - k,
        {
            let ghost next = ds.take(k + 1);
            assert(next.drop_last() =~= ds.take(k as int));
            assert(next.last() == dirs@[k as int]@);
            let files = dirs[k].files();
            if path_eq(files.as_slice(), path) {
                assert(trash_at(path@, next) == Some(dirs@[k as int]@));
                proof {
                    lemma_trash_at_prefix(path@, ds, k + 1);
                }
                return trash_label(&dirs[k], home_trash);
            }
            k += 1;
        }
        assert(ds.take(dirs.len() as int) =~= ds);
    }
    match name {
        Some(n) => lossy(n.as_slice()),
        None => lossy(path),
    }
}

proof fn lemma_trash_at_prefix(path: Seq<u8>, dirs: Seq<DirView>, k: int)
    requires
        0 <= k <= dirs.len(),
        trash_at(path, dirs.take(k)) is Some,
    ensures
        trash_at(path, dirs) == trash_at(path, dirs.take(k)),
    decreases dirs.len(),
{
    if dirs.len() == k {
        assert(dirs.take(k) =~= dirs);
    } else {
        assert(dirs.drop_last().take(k) =~= dirs.take(k));
        lemma_trash_at_prefix(path, dirs.drop_last(), k);
    }
}

/// A bookmark's label: its own name when it has one, its display label otherwise.
pub fn bookmark_label(path: &[u8], bookmarks: &PathLabels, home: Option<&[u8]>, devices: &PathLabels, home_trash: &TrashDir, dirs: &Vec<TrashDir>) -> (r: String)
    ensures
        r@ == match label_for(bookmarks.entries_view(), path@) {
            Some(l) => l,
            None => display_label_text(
                path@,
                match home {
                    Some(h) => Some(h@),
                    None => None,
                },
                devices.entries_view(),
                home_trash@,
                dirs.deep_view(),
            ),
        },
{
    match bookmarks.get(path) {
        Some(l) => l,
        None => display_label(path, home, devices, home_trash, dirs),
    }
}

} // verus!
