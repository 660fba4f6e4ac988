//! Filename rules.
//!
//! Linux allows almost anything in a filename: spaces, newlines, quotes, leading and
//! trailing whitespace, emoji, and bytes that are not valid UTF-8. Only what the kernel
//! itself refuses is refused here, plus the two names that would silently mean a
//! different directory.

use crate::paths::{file_name, file_name_of, utf8_text};
use vstd::prelude::*;
use vstd::utf8::valid_utf8;

verus! {

/// The longest a single filename component may be on the filesystems Teral targets.
pub const MAX_NAME_BYTES: usize = 255;

/// Why a name cannot be used.
#[derive(Debug, Clone, Copy, PartialEq, Eq, Structural)]
pub enum NameError {
    Empty,
    Separator,
    Nul,
    Dot,
    DotDot,
    TooLong,
}

/// The sentence shown for each refusal.
pub open spec fn message_text(error: NameError) -> Seq<char> {
    match error {
        NameError::Empty => "A name is required"@,
        NameError::Separator => "A name cannot contain a slash"@,
        NameError::Nul => "A name cannot contain a null character"@,
        NameError::Dot => "“.” already means this folder"@,
        NameError::DotDot => "“..” already means the parent folder"@,
        NameError::TooLong => "That name is too long for the filesystem"@,
    }
}

impl NameError {
    /// A message that says what to change, in the words a person would use.
    pub fn message(self) -> (r: &'static str)
        ensures
            r@ == message_text(self),
    {
        match self {
            NameError::Empty => "A name is required",
            NameError::Separator => "A name cannot contain a slash",
            NameError::Nul => "A name cannot contain a null character",
            NameError::Dot => "“.” already means this folder",
            NameError::DotDot => "“..” already means the parent folder",
            NameError::TooLong => "That name is too long for the filesystem",
        }
    }
}

/// The verdict on a candidate name, checked in this order: empty, slash, NUL, `.`,
/// `..`, longer than 255 bytes.
pub open spec fn name_verdict(name: Seq<u8>) -> Result<(), NameError> {
    if name.len() == 0 {
        Err(NameError::Empty)
    } else if name.contains(47u8) {
        Err(NameError::Separator)
    } else if name.contains(0u8) {
        Err(NameError::Nul)
    } else if name == seq![46u8] {
        Err(NameError::Dot)
    } else if name == seq![46u8, 46u8] {
        Err(NameError::DotDot)
    } else if name.len() > 255 {
        Err(NameError::TooLong)
    } else {
        Ok(())
    }
}

fn contains_byte(bytes: &[u8], b: u8) -> (r: bool)
    ensures
        r == bytes@.contains(b),
{
    let mut i: usize = 0;
    while i < bytes.len()
        invariant
            i <= bytes.len(),
            forall|j: int| 0 <= j < i ==> bytes@[j] != b,
        decreases bytes.len() - i,
    {
        if bytes[i] == b {
            return true;
        }
        i += 1;
    }
    false
}

/// Check that `name` is exactly one usable filename component. Nothing is trimmed or
/// rewritten.
pub fn validate(name: &[u8]) -> (r: Result<(), NameError>)
    ensures
        r == name_verdict(name@),
{
    if name.len() == 0 {
        return Err(NameError::Empty);
    }
    if contains_byte(name, 47u8) {
        return Err(NameError::Separator);
    }
    if contains_byte(name, 0u8) {
        return Err(NameError::Nul);
    }
    if name.len() == 1 && name[0] == 46u8 {
        assert(name@ =~= seq![46u8]);
        return Err(NameError::Dot);
    }
    assert(name@ != seq![46u8]) by {
        if name@ == seq![46u8] {
            assert(name@.len() == 1 && name@[0] == 46u8);
        }
    }
    if name.len() == 2 && name[0] == 46u8 && name[1] == 46u8 {
        assert(name@ =~= seq![46u8, 46u8]);
        return Err(NameError::DotDot);
    }
    assert(name@ != seq![46u8, 46u8]) by {
        if name@ == seq![46u8, 46u8] {
            assert(name@.len() == 2 && name@[0] == 46u8 && name@[1] == 46u8);
        }
    }
    if name.len() > MAX_NAME_BYTES {
        return Err(NameError::TooLong);
    }
    Ok(())
}

/// The path's own file name exists and is not valid UTF-8.
pub open spec fn lossy_on_screen(path: Seq<u8>) -> bool {
    match file_name(path) {
        Some(name) => !valid_utf8(name),
        None => false,
    }
}

/// True when `path`'s own file name is not valid UTF-8, so the text on screen is not
/// the name on disk.
pub fn is_lossy_on_screen(path: &[u8]) -> (r: bool)
    ensures
        r == lossy_on_screen(path@),
{
    match file_name_of(path) {
        Some(name) => utf8_text(name.as_slice()).is_none(),
        None => false,
    }
}

} // verus!
