//! Bounded, inert previews for text-like files.
//!
//! Reading the file happens outside this module; [`classify_text`] decides what the
//! bytes read are shown as.

use crate::paths::utf8_text;
use vstd::prelude::*;
use vstd::utf8::{decode_utf8, valid_utf8};

verus! {

/// Files larger than this are never read into the preview panel.
pub const MAX_TEXT_BYTES: u64 = 2 * 1024 * 1024;

/// What the preview panel shows for a file.
#[derive(Debug, Clone, PartialEq, Eq)]
pub enum TextPreview {
    Text(String),
    Oversized,
    Binary,
    UnsupportedEncoding,
}

/// A control byte other than tab, line feed, vertical tab, form feed and carriage
/// return (NUL included).
pub open spec fn is_control_byte(b: u8) -> bool {
    b < 9 || (14 <= b && b < 32)
}

/// How many control bytes a text holds.
pub open spec fn control_count(bs: Seq<u8>) -> nat
    decreases bs.len(),
{
    if bs.len() == 0 {
        0
    } else {
        control_count(bs.drop_last()) + if is_control_byte(bs.last()) {
            1nat
        } else {
            0nat
        }
    }
}

/// Binary content: a NUL byte anywhere, or control bytes making up more than one
/// percent of the bytes.
pub open spec fn looks_binary(bs: Seq<u8>) -> bool {
    bs.contains(0u8) || control_count(bs) * 100 > if bs.len() > 1 {
        bs.len()
    } else {
        1
    }
}

/// True when a file of this many bytes is too large to preview.
pub fn is_oversized(len: u64) -> (r: bool)
    ensures
        r == (len > MAX_TEXT_BYTES),
{
    len > MAX_TEXT_BYTES
}

proof fn lemma_control_count_bound(bs: Seq<u8>)
    ensures
        control_count(bs) <= bs.len(),
    decreases bs.len(),
{
    if bs.len() > 0 {
        lemma_control_count_bound(bs.drop_last());
    }
}

/// Decide what the bytes read from a file are shown as: too large, binary, text,
/// or text in an encoding other than UTF-8.
pub fn classify_text(bytes: Vec<u8>) -> (r: TextPreview)
    ensures
        bytes.len() > MAX_TEXT_BYTES ==> r is Oversized,
        bytes.len() <= MAX_TEXT_BYTES && looks_binary(bytes@) ==> r is Binary,
        bytes.len() <= MAX_TEXT_BYTES && !looks_binary(bytes@) && valid_utf8(bytes@) ==> (r matches TextPreview::Text(t) && t@ == decode_utf8(bytes@)),
        bytes.len() <= MAX_TEXT_BYTES && !looks_binary(bytes@) && !valid_utf8(bytes@) ==> r is UnsupportedEncoding,
{
    if is_oversized(bytes.len() as u64) {
        return TextPreview::Oversized;
    }
    let mut controls: usize = 0;
    let mut has_nul = false;
    let mut i: usize = 0;
    while i < bytes.len()
        invariant
            i <= bytes.len(),
            bytes.len() <= MAX_TEXT_BYTES,
            controls == control_count(bytes@.take(i as int)),
            controls <= i,
            has_nul == bytes@.take(i as int).contains(0u8),
        decreases bytes.len() - i,
    {
        let b = bytes[i];
        let ghost next = bytes@.take(i + 1);
        assert(next.drop_last() =~= bytes@.take(i as int));
        if b < 9 || (14 <= b && b < 32) {
            controls = controls + 1;
        }
        if b == 0 {
            assert(next[i as int] == 0u8);
            has_nul = true;
        } else if has_nul {
            let ghost k = choose|k: int| 0 <= k < i && bytes@.take(i as int)[k] == 0u8;
            assert(next[k] == 0u8);
        } else {
            assert forall|k: int| 0 <= k < next.len() implies next[k] != 0u8 by {
                if k < i {
                    assert(bytes@.take(i as int)[k] == next[k]);
                }
            }
        }
        i += 1;
    }
    assert(bytes@.take(bytes.len() as int) =~= bytes@);
    let floor: usize = if bytes.len() > 1 {
        bytes.len()
    } else {
        1
    };
    if has_nul || controls * 100 > floor {
        return TextPreview::Binary;
    }
    match utf8_text(bytes.as_slice()) {
        Some(text) => TextPreview::Text(text),
        None => TextPreview::UnsupportedEncoding,
    }
}

} // verus!
