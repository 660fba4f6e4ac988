//! A single directory entry as plain data, and what can be done with it.
//!
//! Names are kept twice on purpose: `path` carries the real, possibly non-UTF-8 name
//! for filesystem calls, while `display_name` is the UTF-8 text shown for it.
//! Timestamps are Unix seconds.

use crate::files::{format_size, item_count_label, count_text, size_text};
use crate::paths::{copy_bytes, lossy, path_text};
use crate::text::{chars_of, push_str};
use crate::theme::opt_text;
use vstd::prelude::*;

verus! {

/// Images larger than this are shown with their type's icon instead of a thumbnail.
pub const MAX_THUMBNAIL_BYTES: u64 = 32 * 1024 * 1024;

/// Plain data describing one filesystem entry.
#[derive(Debug)]
pub struct EntryData {
    pub path: Vec<u8>,
    pub display_name: String,
    pub sort_key: String,
    pub is_directory: bool,
    pub is_symlink: bool,
    /// A symlink whose target does not exist: listed, selectable and deletable, but
    /// never followed.
    pub is_broken_symlink: bool,
    /// A FIFO, socket, block or character device: described but never launched.
    pub is_special: bool,
    pub is_hidden: bool,
    pub symlink_target: Option<Vec<u8>>,
    pub size: u64,
    pub content_type: Option<String>,
    pub kind: String,
    pub modified: Option<i64>,
    pub created: Option<i64>,
    pub accessed: Option<i64>,
    pub owner: Option<String>,
    pub group: Option<String>,
    pub mode: Option<u32>,
}

/// An entry as plain values.
pub struct EntryView {
    pub path: Seq<u8>,
    pub display_name: Seq<char>,
    pub sort_key: Seq<char>,
    pub is_directory: bool,
    pub is_symlink: bool,
    pub is_broken_symlink: bool,
    pub is_special: bool,
    pub is_hidden: bool,
    pub symlink_target: Option<Seq<u8>>,
    pub size: u64,
    pub content_type: Option<Seq<char>>,
    pub kind: Seq<char>,
    pub modified: Option<i64>,
    pub created: Option<i64>,
    pub accessed: Option<i64>,
    pub owner: Option<Seq<char>>,
    pub group: Option<Seq<char>>,
    pub mode: Option<u32>,
}

/// The byte view of an optional path.
pub open spec fn opt_bytes(o: Option<Vec<u8>>) -> Option<Seq<u8>> {
    match o {
        Some(p) => Some(p@),
        None => None,
    }
}

impl View for EntryData {
    type V = EntryView;

    open spec fn view(&self) -> EntryView {
        EntryView {
            path: self.path@,
            display_name: self.display_name@,
            sort_key: self.sort_key@,
            is_directory: self.is_directory,
            is_symlink: self.is_symlink,
            is_broken_symlink: self.is_broken_symlink,
            is_special: self.is_special,
            is_hidden: self.is_hidden,
            symlink_target: opt_bytes(self.symlink_target),
            size: self.size,
            content_type: opt_text(self.content_type),
            kind: self.kind@,
            modified: self.modified,
            created: self.created,
            accessed: self.accessed,
            owner: opt_text(self.owner),
            group: opt_text(self.group),
            mode: self.mode,
        }
    }
}

fn copy_text(s: &Option<String>) -> (r: Option<String>)
    ensures
        opt_text(r) == opt_text(*s),
{
    match s {
        Some(t) => Some(t.clone()),
        None => None,
    }
}

fn copy_path(p: &Option<Vec<u8>>) -> (r: Option<Vec<u8>>)
    ensures
        opt_bytes(r) == opt_bytes(*p),
{
    match p {
        Some(v) => Some(copy_bytes(v.as_slice())),
        None => None,
    }
}

/// True when `s` starts with `prefix`.
pub open spec fn starts_with_text(s: Seq<char>, prefix: Seq<char>) -> bool {
    s.len() >= prefix.len() && s.take(prefix.len() as int) == prefix
}

/// True when the text starts with `prefix`.
pub fn text_starts_with(s: &str, prefix: &str) -> (r: bool)
    ensures
        r == starts_with_text(s@, prefix@),
{
    let a = chars_of(s);
    let b = chars_of(prefix);
    if a.len() < b.len() {
        return false;
    }
    let mut i: usize = 0;
    while i < b.len()
        invariant
            i <= b.len(),
            b.len() <= a.len(),
            a@ == s@,
            b@ == prefix@,
            forall|j: int| 0 <= j < i ==> a@[j] == b@[j],
        decreases b.len() - i,
    {
        if a[i] != b[i] {
            assert(a@.take(b.len() as int)[i as int] != b@[i as int]);
            return false;
        }
        i += 1;
    }
    assert(a@.take(b.len() as int) =~= b@);
    true
}

impl EntryData {
    /// A copy of this entry.
    pub fn copy(&self) -> (r: EntryData)
        ensures
            r@ == self@,
    {
        EntryData {
            path: copy_bytes(self.path.as_slice()),
            display_name: self.display_name.clone(),
            sort_key: self.sort_key.clone(),
            is_directory: self.is_directory,
            is_symlink: self.is_symlink,
            is_broken_symlink: self.is_broken_symlink,
            is_special: self.is_special,
            is_hidden: self.is_hidden,
            symlink_target: copy_path(&self.symlink_target),
            size: self.size,
            content_type: copy_text(&self.content_type),
            kind: self.kind.clone(),
            modified: self.modified,
            created: self.created,
            accessed: self.accessed,
            owner: copy_text(&self.owner),
            group: copy_text(&self.group),
            mode: self.mode,
        }
    }

    /// True when opening this entry with an application makes sense: a broken link
    /// has nothing to open, and a FIFO or device can block whatever opens it.
    pub fn is_openable(&self) -> (r: bool)
        ensures
            r == (!self.is_broken_symlink && !self.is_special),
    {
        !self.is_broken_symlink && !self.is_special
    }

    /// What a symlink points at, and whether that target is still there.
    pub fn link_summary(&self) -> (r: Option<String>)
        ensures
            self.symlink_target is None ==> r is None,
            self.symlink_target matches Some(t) ==> (r matches Some(s) && s@ == path_text(t@) + (if self.is_broken_symlink {
                " (missing)"@
            } else {
                Seq::empty()
            })),
    {
        match &self.symlink_target {
            Some(t) => {
                let mut s = lossy(t.as_slice());
                if self.is_broken_symlink {
                    push_str(&mut s, " (missing)");
                } else {
                    assert(s@ =~= s@ + Seq::<char>::empty());
                }
                Some(s)
            },
            None => None,
        }
    }

    /// True when Teral can render a real thumbnail: a non-empty image file of at
    /// most `MAX_THUMBNAIL_BYTES` that is neither special nor a broken link.
    pub fn is_thumbnailable(&self) -> (r: bool)
        ensures
            r == (!self.is_directory && !self.is_special && !self.is_broken_symlink && self.size > 0
                && self.size <= MAX_THUMBNAIL_BYTES && (opt_text(self.content_type) matches Some(c)
                && starts_with_text(c, "image/"@))),
    {
        if self.is_directory || self.is_special || self.is_broken_symlink || self.size == 0 || self.size > MAX_THUMBNAIL_BYTES {
            return false;
        }
        match &self.content_type {
            Some(c) => text_starts_with(c.as_str(), "image/"),
            None => false,
        }
    }
}

/// The subtitle under an entry's name: the item count of a folder once it is known
/// (a negative count means not yet), and the size of anything else.
pub open spec fn subtitle_text(is_directory: bool, child_count: i64, size: u64) -> Seq<char> {
    if is_directory {
        if child_count < 0 {
            Seq::empty()
        } else if child_count > usize::MAX {
            count_text(0)
        } else {
            count_text(child_count as nat)
        }
    } else {
        size_text(size as nat)
    }
}

/// The subtitle shown under an entry's name.
pub fn subtitle(is_directory: bool, child_count: i64, size: u64) -> (r: String)
    ensures
        r@ == subtitle_text(is_directory, child_count, size),
{
    if is_directory {
        if child_count < 0 {
            String::new()
        } else if child_count as u64 > usize::MAX as u64 {
            item_count_label(0)
        } else {
            item_count_label(child_count as usize)
        }
    } else {
        format_size(size)
    }
}

/// The type of entry a listing reports, once a symlink has been followed.
#[derive(Debug, Clone, Copy, PartialEq, Eq, Structural)]
pub enum FileKind {
    Directory,
    Regular,
    Special,
    Other,
}

/// What an entry turns out to be: whether it is a folder, a broken link, or a
/// special file.
#[derive(Debug, Clone, Copy, PartialEq, Eq, Structural)]
pub struct Resolution {
    pub is_directory: bool,
    pub is_broken_symlink: bool,
    pub is_special: bool,
}

/// Resolve an entry. Something that is not a symlink is what the listing says. A
/// symlink is what its target is (`target` is `None` when following it failed, which
/// is what makes a link broken); a target that is neither folder nor file is special.
pub fn resolve(is_symlink: bool, listed: FileKind, target: Option<FileKind>) -> (r: Resolution)
    ensures
        !is_symlink ==> r == (Resolution {
            is_directory: listed == FileKind::Directory,
            is_broken_symlink: false,
            is_special: listed == FileKind::Special,
        }),
        is_symlink && target is None ==> r == (Resolution { is_directory: false, is_broken_symlink: true, is_special: false }),
        is_symlink && target is Some ==> r == (Resolution {
            is_directory: target->0 == FileKind::Directory,
            is_broken_symlink: false,
            is_special: target->0 != FileKind::Directory && target->0 != FileKind::Regular,
        }),
{
    if !is_symlink {
        return Resolution {
            is_directory: listed == FileKind::Directory,
            is_broken_symlink: false,
            is_special: listed == FileKind::Special,
        };
    }
    match target {
        Some(t) => Resolution {
            is_directory: t == FileKind::Directory,
            is_broken_symlink: false,
            is_special: t != FileKind::Directory && t != FileKind::Regular,
        },
        None => Resolution { is_directory: false, is_broken_symlink: true, is_special: false },
    }
}

/// The kind a listing shows: "Folder", "Broken link", the description of the content
/// type, or "Unknown".
pub fn kind_label(resolution: Resolution, description: Option<String>) -> (r: String)
    ensures
        resolution.is_directory ==> r@ == "Folder"@,
        !resolution.is_directory && resolution.is_broken_symlink ==> r@ == "Broken link"@,
        !resolution.is_directory && !resolution.is_broken_symlink ==> r@ == match opt_text(description) {
            Some(d) => d,
            None => "Unknown"@,
        },
{
    if resolution.is_directory {
        String::from_str("Folder")
    } else if resolution.is_broken_symlink {
        String::from_str("Broken link")
    } else {
        match description {
            Some(d) => d,
            None => String::from_str("Unknown"),
        }
    }
}

} // verus!
