//! What the details panel says about the selection: the summary of several entries,
//! the metadata rows of one, and what its text preview shows.
//!
//! Drawing the panel happens outside this module.

use crate::files::entry::{starts_with_text, text_starts_with, EntryData};
use crate::files::preview::TextPreview;
use crate::files::{
    count_text, format_permissions, format_size, item_count_label, permissions_text, size_text,
};
use crate::paths::{lossy, path_text};
use crate::text::{decimal, decimal_string, push_str, text_eq};
use crate::theme::opt_text;
use vstd::prelude::*;

verus! {

/// `1 noun`, or the count followed by the plural.
pub open spec fn count_label_text(count: nat, noun: Seq<char>) -> Seq<char> {
    if count == 1 {
        "1 "@ + noun
    } else {
        decimal(count) + " "@ + noun + "s"@
    }
}

/// `1 noun`, or the count followed by the plural.
pub fn count_label(count: usize, noun: &str) -> (r: String)
    ensures
        r@ == count_label_text(count as nat, noun@),
{
    if count == 1 {
        let mut r = String::from_str("1 ");
        push_str(&mut r, noun);
        r
    } else {
        let mut r = decimal_string(count as u64);
        push_str(&mut r, " ");
        push_str(&mut r, noun);
        push_str(&mut r, "s");
        r
    }
}

/// The label of a selection of several entries.
pub fn selection_title(count: usize) -> (r: String)
    ensures
        r@ == decimal(count as nat) + " items selected"@,
{
    let mut r = decimal_string(count as u64);
    push_str(&mut r, " items selected");
    r
}

/// How many of the selected entries are folders.
pub open spec fn folder_count(entries: Seq<(bool, u64)>) -> nat
    decreases entries.len(),
{
    if entries.len() == 0 {
        0
    } else {
        folder_count(entries.drop_last()) + if entries.last().0 {
            1nat
        } else {
            0nat
        }
    }
}

/// The total size of the selected files (a folder's own size says nothing about what
/// it holds, so folders count for nothing).
pub open spec fn file_bytes(entries: Seq<(bool, u64)>) -> nat
    decreases entries.len(),
{
    if entries.len() == 0 {
        0
    } else {
        file_bytes(entries.drop_last()) + if entries.last().0 {
            0nat
        } else {
            entries.last().1 as nat
        }
    }
}

/// What a selection of several entries amounts to: its folders, its files and their
/// total size, each only when there is any, separated by a middle dot.
pub open spec fn selection_summary_text(entries: Seq<(bool, u64)>) -> Seq<char> {
    let folders = folder_count(entries);
    let files = (entries.len() - folders) as nat;
    let bytes = file_bytes(entries);
    let parts = (if folders > 0 {
        seq![count_label_text(folders, "folder"@)]
    } else {
        Seq::empty()
    }) + (if files > 0 {
        seq![count_label_text(files, "file"@)]
    } else {
        Seq::empty()
    }) + (if bytes > 0 {
        seq![size_text(bytes)]
    } else {
        Seq::empty()
    });
    joined_parts(parts)
}

/// Parts separated by a middle dot with spaces around it.
pub open spec fn joined_parts(parts: Seq<Seq<char>>) -> Seq<char>
    decreases parts.len(),
{
    if parts.len() == 0 {
        Seq::empty()
    } else if parts.len() == 1 {
        parts[0]
    } else {
        joined_parts(parts.drop_last()) + "   \u{b7}   "@ + parts.last()
    }
}

proof fn lemma_folder_count_le(entries: Seq<(bool, u64)>)
    ensures
        folder_count(entries) <= entries.len(),
    decreases entries.len(),
{
    if entries.len() > 0 {
        lemma_folder_count_le(entries.drop_last());
    }
}

/// Summarise a selection of several entries, each given as whether it is a folder and
/// its size.
pub fn selection_summary(entries: &Vec<(bool, u64)>) -> (r: String)
    requires
        file_bytes(entries@) <= u64::MAX,
    ensures
        r@ == selection_summary_text(entries@),
{
    let ghost es = entries@;
    let mut folders: usize = 0;
    let mut bytes: u64 = 0;
    let mut i: usize = 0;
    assert(es.take(0) =~= Seq::<(bool, u64)>::empty());
    while i < entries.len()
        invariant
            i <= entries.len(),
            es == entries@,
            file_bytes(es) <= u64::MAX,
            folders == folder_count(es.take(i as int)),
            folders <= i,
            bytes == file_bytes(es.take(i as int)),
        decreases entries.len() - i,
    {
        let ghost next = es.take(i + 1);
        assert(next.drop_last() =~= es.take(i as int));
        assert(next.last() == es[i as int]);
        proof {
            lemma_file_bytes_prefix(es, i + 1);
        }
        let (is_dir, size) = entries[i];
        if is_dir {
            folders = folders + 1;
        } else {
            bytes = bytes + size;
        }
        i += 1;
    }
    assert(es.take(entries.len() as int) =~= es);
    let files = entries.len() - folders;
    let mut parts: Vec<String> = Vec::new();
    if folders > 0 {
        parts.push(count_label(folders, "folder"));
    }
    if files > 0 {
        parts.push(count_label(files, "file"));
    }
    if bytes > 0 {
        parts.push(format_size(bytes));
    }
    let ghost pv = parts@.map_values(|s: String| s@);
    assert(pv =~= (if folders > 0 {
        seq![count_label_text(folders as nat, "folder"@)]
    } else {
        Seq::empty()
    }) + (if files > 0 {
        seq![count_label_text(files as nat, "file"@)]
    } else {
        Seq::empty()
    }) + (if bytes > 0 {
        seq![size_text(bytes as nat)]
    } else {
        Seq::empty()
    }));
    let mut r = String::new();
    let mut k: usize = 0;
    assert(pv.take(0) =~= Seq::<Seq<char>>::empty());
    while k < parts.len()
        invariant
            k <= parts.len(),
            pv == parts@.map_values(|s: String| s@),
            r@ == joined_parts(pv.take(k as int)),
        decreases parts.len() - k,
    {
        let ghost next = pv.take(k + 1);
        assert(next.drop_last() =~= pv.take(k as int));
        assert(next.last() == parts@[k as int]@);
        if k > 0 {
            push_str(&mut r, "   \u{b7}   ");
        } else {
            assert(next =~= seq![parts@[0]@]);
        }
        push_str(&mut r, parts[k].as_str());
        k += 1;
    }
    assert(pv.take(parts.len() as int) =~= pv);
    r
}

proof fn lemma_file_bytes_prefix(es: Seq<(bool, u64)>, k: int)
    requires
        0 <= k <= es.len(),
    ensures
        file_bytes(es.take(k)) <= file_bytes(es),
    decreases es.len(),
{
    if es.len() > k {
        assert(es.drop_last().take(k) =~= es.take(k));
        lemma_file_bytes_prefix(es.drop_last(), k);
    } else {
        assert(es.take(k) =~= es);
    }
}

/// The status bar's two texts for a selection: how many entries are selected, and
/// the total size of the selected files; each is empty when there is nothing to say.
pub open spec fn status_texts(entries: Seq<(bool, u64)>) -> (Seq<char>, Seq<char>) {
    (
        if entries.len() == 0 {
            Seq::empty()
        } else {
            decimal(entries.len()) + " selected"@
        },
        if file_bytes(entries) > 0 {
            size_text(file_bytes(entries))
        } else {
            Seq::empty()
        },
    )
}

/// What the status bar says about the selection, each entry given as whether it is a
/// folder and its size.
pub fn status_line(entries: &Vec<(bool, u64)>) -> (r: (String, String))
    requires
        file_bytes(entries@) <= u64::MAX,
    ensures
        (r.0@, r.1@) == status_texts(entries@),
{
    let ghost es = entries@;
    let mut bytes: u64 = 0;
    let mut i: usize = 0;
    assert(es.take(0) =~= Seq::<(bool, u64)>::empty());
    while i < entries.len()
        invariant
            i <= entries.len(),
            es == entries@,
            file_bytes(es) <= u64::MAX,
            bytes == file_bytes(es.take(i as int)),
        decreases entries.len() - i,
    {
        let ghost next = es.take(i + 1);
        assert(next.drop_last() =~= es.take(i as int));
        assert(next.last() == es[i as int]);
        proof {
            lemma_file_bytes_prefix(es, i + 1);
        }
        let (is_dir, size) = entries[i];
        if !is_dir {
            bytes = bytes + size;
        }
        i += 1;
    }
    assert(es.take(entries.len() as int) =~= es);
    let count = if entries.len() == 0 {
        String::new()
    } else {
        let mut c = decimal_string(entries.len() as u64);
        push_str(&mut c, " selected");
        c
    };
    let size = if bytes > 0 {
        format_size(bytes)
    } else {
        String::new()
    };
    (count, size)
}

/// What the folder header says of its contents: the count of items, or how many of
/// them the filter shows.
pub open spec fn shown_text(visible: nat, total: nat) -> Seq<char> {
    if visible == total {
        count_text(total)
    } else {
        decimal(visible) + " of "@ + count_text(total)
    }
}

/// The folder header's count of what is listed.
pub fn shown_count_label(visible: usize, total: usize) -> (r: String)
    ensures
        r@ == shown_text(visible as nat, total as nat),
{
    let all = item_count_label(total);
    if visible == total {
        return all;
    }
    let mut r = decimal_string(visible as u64);
    push_str(&mut r, " of ");
    push_str(&mut r, all.as_str());
    r
}

/// `user:group`, or whichever of the two is known.
pub open spec fn owner_label(owner: Option<Seq<char>>, group: Option<Seq<char>>) -> Seq<char> {
    match (owner, group) {
        (Some(u), Some(g)) => u + ":"@ + g,
        (Some(u), None) => u,
        (None, Some(g)) => g,
        (None, None) => Seq::empty(),
    }
}

/// `user:group`, or whichever of the two is known.
pub fn owner_text(owner: Option<&str>, group: Option<&str>) -> (r: String)
    ensures
        r@ == owner_label(
            match owner {
                Some(u) => Some(u@),
                None => None,
            },
            match group {
                Some(g) => Some(g@),
                None => None,
            },
        ),
{
    match (owner, group) {
        (Some(u), Some(g)) => {
            let mut r = String::from_str(u);
            push_str(&mut r, ":");
            push_str(&mut r, g);
            r
        },
        (Some(u), None) => String::from_str(u),
        (None, Some(g)) => String::from_str(g),
        (None, None) => String::new(),
    }
}

/// Content types the panel previews as text: every `text/` type, and JSON, TOML, XML
/// and YAML.
pub open spec fn text_previewed(content_type: Option<Seq<char>>) -> bool {
    match content_type {
        Some(c) => starts_with_text(c, "text/"@) || c == "application/json"@ || c == "application/toml"@ || c
            == "application/xml"@ || c == "application/x-yaml"@,
        None => false,
    }
}

/// True when the panel previews an entry of this content type as text.
pub fn is_text_preview(content_type: Option<&str>) -> (r: bool)
    ensures
        r == text_previewed(
            match content_type {
                Some(c) => Some(c@),
                None => None,
            },
        ),
{
    match content_type {
        Some(c) => text_starts_with(c, "text/") || text_eq(c, "application/json") || text_eq(c, "application/toml")
            || text_eq(c, "application/xml") || text_eq(c, "application/x-yaml"),
        None => false,
    }
}

/// What the preview area says instead of showing text; nothing when it shows text.
pub fn preview_message(result: &Result<TextPreview, String>) -> (r: Option<String>)
    ensures
        (result matches Ok(TextPreview::Text(_))) ==> r is None,
        (result matches Ok(TextPreview::Oversized)) ==> (r matches Some(m) && m@ == "Text preview is limited to 2 MiB"@),
        (result matches Ok(TextPreview::Binary)) ==> (r matches Some(m) && m@ == "This file contains binary data"@),
        (result matches Ok(TextPreview::UnsupportedEncoding)) ==> (r matches Some(m) && m@ == "This text encoding is not supported"@),
        result is Err ==> (r matches Some(m) && m@ == "Preview unavailable: "@ + result->Err_0@),
{
    match result {
        Ok(TextPreview::Text(_)) => None,
        Ok(TextPreview::Oversized) => Some(String::from_str("Text preview is limited to 2 MiB")),
        Ok(TextPreview::Binary) => Some(String::from_str("This file contains binary data")),
        Ok(TextPreview::UnsupportedEncoding) => Some(String::from_str("This text encoding is not supported")),
        Err(e) => {
            let mut m = String::from_str("Preview unavailable: ");
            push_str(&mut m, e.as_str());
            Some(m)
        },
    }
}

/// The metadata rows of the panel, in display order. Times arrive already formatted
/// for the user's locale; a row whose value is empty is not shown.
pub fn detail_rows(entry: &EntryData, modified: Option<String>, created: Option<String>, accessed: Option<String>) -> (r: Vec<(&'static str, String)>)
    ensures
        r@.len() == 7,
        r@[0].0@ == "Modified"@ && r@[0].1@ == match opt_text(modified) {
            Some(t) => t,
            None => Seq::empty(),
        },
        r@[1].0@ == "Created"@ && r@[1].1@ == match opt_text(created) {
            Some(t) => t,
            None => Seq::empty(),
        },
        r@[2].0@ == "Accessed"@ && r@[2].1@ == match opt_text(accessed) {
            Some(t) => t,
            None => Seq::empty(),
        },
        r@[3].0@ == "Owner"@ && r@[3].1@ == owner_label(opt_text(entry.owner), opt_text(entry.group)),
        r@[4].0@ == "Permissions"@ && r@[4].1@ == match entry.mode {
            Some(m) => permissions_text(m),
            None => Seq::empty(),
        },
        r@[5].0@ == "Links to"@ && r@[5].1@ == match opt_text_bytes(entry.symlink_target) {
            Some(t) => path_text(t) + (if entry.is_broken_symlink {
                " (missing)"@
            } else {
                Seq::empty()
            }),
            None => Seq::empty(),
        },
        r@[6].0@ == "Path"@ && r@[6].1@ == path_text(entry.path@),
{
    let mut rows: Vec<(&'static str, String)> = Vec::new();
    rows.push(("Modified", match modified {
        Some(t) => t,
        None => String::new(),
    }));
    rows.push(("Created", match created {
        Some(t) => t,
        None => String::new(),
    }));
    rows.push(("Accessed", match accessed {
        Some(t) => t,
        None => String::new(),
    }));
    let owner = match (&entry.owner, &entry.group) {
        (Some(u), Some(g)) => owner_text(Some(u.as_str()), Some(g.as_str())),
        (Some(u), None) => owner_text(Some(u.as_str()), None),
        (None, Some(g)) => owner_text(None, Some(g.as_str())),
        (None, None) => owner_text(None, None),
    };
    rows.push(("Owner", owner));
    rows.push(("Permissions", match entry.mode {
        Some(m) => format_permissions(m),
        None => String::new(),
    }));
    rows.push(("Links to", match entry.link_summary() {
        Some(s) => s,
        None => String::new(),
    }));
    rows.push(("Path", lossy(entry.path.as_slice())));
    rows
}

/// The byte view of an optional path.
pub open spec fn opt_text_bytes(o: Option<Vec<u8>>) -> Option<Seq<u8>> {
    match o {
        Some(p) => Some(p@),
        None => None,
    }
}

/// The labels of the cut and trash actions: restoring and deleting inside the trash,
/// cutting and trashing anywhere else.
pub fn action_labels(in_trash: bool) -> (r: (&'static str, &'static str))
    ensures
        in_trash ==> r.0@ == "Restore"@ && r.1@ == "Delete"@,
        !in_trash ==> r.0@ == "Cut"@ && r.1@ == "Trash"@,
{
    if in_trash {
        ("Restore", "Delete")
    } else {
        ("Cut", "Trash")
    }
}

} // verus!
