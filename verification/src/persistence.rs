//! Crash-safe storage for Teral-owned state: a lossless text form for raw Linux paths
//! and the name of the temporary file an atomic write goes through.

use crate::paths::extend_bytes;
use crate::text::{decimal_bytes, decimal_bytes_of, push_char};
use vstd::prelude::*;
use vstd::utf8::{encode_utf8, is_ascii_chars, is_ascii_chars_encode_utf8};

verus! {

/// The lowercase hexadecimal digit for a value below 16.
pub open spec fn hex_char(v: nat) -> char {
    if v < 10 {
        ((v + 48) as u32) as char
    } else {
        ((v + 87) as u32) as char
    }
}

/// Two lowercase hexadecimal digits per byte, in order.
pub open spec fn hex_text(bytes: Seq<u8>) -> Seq<char>
    decreases bytes.len(),
{
    if bytes.len() == 0 {
        Seq::empty()
    } else {
        hex_text(bytes.drop_last()) + seq![
            hex_char((bytes.last() / 16) as nat),
            hex_char((bytes.last() % 16) as nat),
        ]
    }
}

/// The value of a hexadecimal digit byte, in either case.
pub open spec fn hex_digit_value(b: u8) -> Option<u8> {
    if 48 <= b <= 57 {
        Some((b - 48) as u8)
    } else if 97 <= b <= 102 {
        Some((b - 87) as u8)
    } else if 65 <= b <= 70 {
        Some((b - 55) as u8)
    } else {
        None
    }
}

/// The bytes a hexadecimal text stands for, when every byte is a hex digit and there
/// is an even number of them.
pub open spec fn hex_bytes(b: Seq<u8>) -> Option<Seq<u8>>
    decreases b.len(),
{
    if b.len() == 0 {
        Some(Seq::empty())
    } else if b.len() == 1 {
        None
    } else {
        match (hex_bytes(b.subrange(0, b.len() - 2)), hex_digit_value(b[b.len() - 2]), hex_digit_value(b.last())) {
            (Some(front), Some(h), Some(l)) => Some(front.push((h * 16 + l) as u8)),
            _ => None,
        }
    }
}

/// Why an encoded path was refused.
pub open spec fn decode_refusal(b: Seq<u8>) -> Seq<char> {
    if b.len() % 2 != 0 {
        "encoded path has an odd number of digits"@
    } else {
        "encoded path is not hexadecimal"@
    }
}

/// What decoding a stored text gives: the path, or the reason it is refused.
pub open spec fn decoded(text: Seq<char>) -> Result<Seq<u8>, Seq<char>> {
    match hex_bytes(encode_utf8(text)) {
        Some(p) => Ok(p),
        None => Err(decode_refusal(encode_utf8(text))),
    }
}

/// Lossless TOML-friendly representation of a Linux path.
pub fn encode_path(path: &[u8]) -> (r: String)
    ensures
        r@ == hex_text(path@),
{
    let mut encoded = String::new();
    let mut i: usize = 0;
    while i < path.len()
        invariant
            i <= path.len(),
            encoded@ == hex_text(path@.subrange(0, i as int)),
        decreases path.len() - i,
    {
        let byte = path[i];
        let high = byte / 16;
        let low = byte % 16;
        let hc = if high < 10 {
            (high + 48) as char
        } else {
            (high + 87) as char
        };
        let lc = if low < 10 {
            (low + 48) as char
        } else {
            (low + 87) as char
        };
        push_char(&mut encoded, hc);
        push_char(&mut encoded, lc);
        assert(path@.subrange(0, i + 1).drop_last() =~= path@.subrange(0, i as int));
        i += 1;
    }
    assert(path@.subrange(0, path.len() as int) =~= path@);
    encoded
}

/// The value of one hexadecimal digit byte.
pub fn hex_digit(byte: u8) -> (r: Option<u8>)
    ensures
        r == hex_digit_value(byte),
{
    if 48 <= byte && byte <= 57 {
        Some(byte - 48)
    } else if 97 <= byte && byte <= 102 {
        Some(byte - 87)
    } else if 65 <= byte && byte <= 70 {
        Some(byte - 55)
    } else {
        None
    }
}

proof fn lemma_hex_bytes_odd(b: Seq<u8>)
    requires
        b.len() % 2 != 0,
    ensures
        hex_bytes(b) is None,
    decreases b.len(),
{
    if b.len() > 1 {
        lemma_hex_bytes_odd(b.subrange(0, b.len() - 2));
    }
}

/// Decode a path previously produced by [`encode_path`]. The text is read as its UTF-8
/// bytes; an odd count or a byte that is not a hex digit is refused.
pub fn decode_path(encoded: &str) -> (r: Result<Vec<u8>, String>)
    ensures
        r matches Ok(p) ==> hex_bytes(encode_utf8(encoded@)) == Some(p@),
        r matches Err(m) ==> hex_bytes(encode_utf8(encoded@)) is None && m@ == decode_refusal(
            encode_utf8(encoded@),
        ),
        hex_bytes(encode_utf8(encoded@)) is Some ==> r is Ok,
{
    let b = encoded.as_bytes();
    let ghost bs = encode_utf8(encoded@);
    if b.len() % 2 != 0 {
        proof {
            lemma_hex_bytes_odd(bs);
        }
        return Err(String::from_str("encoded path has an odd number of digits"));
    }
    let mut bytes: Vec<u8> = Vec::new();
    let mut i: usize = 0;
    assert(bs.subrange(0, 0) =~= Seq::<u8>::empty());
    while i < b.len()
        invariant
            b@ == bs,
            bs == encode_utf8(encoded@),
            b.len() % 2 == 0,
            i % 2 == 0,
            i <= b.len(),
            hex_bytes(bs.subrange(0, i as int)) == Some(bytes@),
        decreases b.len() - i,
    {
        let ghost next = bs.subrange(0, i + 2);
        assert(next.subrange(0, next.len() - 2) =~= bs.subrange(0, i as int));
        let high = hex_digit(b[i]);
        let low = hex_digit(b[i + 1]);
        match (high, low) {
            (Some(h), Some(l)) => {
                bytes.push((h << 4) | l);
                assert(((h << 4) | l) == (h * 16 + l) as u8) by (bit_vector)
                    requires
                        h < 16,
                        l < 16,
                ;
            },
            _ => {
                proof {
                    assert(next[next.len() - 2] == b@[i as int]);
                    assert(next.last() == b@[i + 1]);
                    assert(hex_bytes(next) is None);
                    lemma_hex_bytes_prefix_none(bs, i + 2);
                }
                return Err(String::from_str("encoded path is not hexadecimal"));
            },
        }
        i += 2;
    }
    assert(bs.subrange(0, b.len() as int) =~= bs);
    Ok(bytes)
}

proof fn lemma_hex_bytes_prefix_none(b: Seq<u8>, k: int)
    requires
        0 <= k <= b.len(),
        k % 2 == 0,
        b.len() % 2 == 0,
        hex_bytes(b.subrange(0, k)) is None,
    ensures
        hex_bytes(b) is None,
    decreases b.len() - k,
{
    if k < b.len() {
        let next = b.subrange(0, k + 2);
        assert(next.subrange(0, next.len() - 2) =~= b.subrange(0, k));
        lemma_hex_bytes_prefix_none(b, k + 2);
    } else {
        assert(b.subrange(0, k) =~= b);
    }
}

proof fn lemma_hex_text_ascii(p: Seq<u8>)
    ensures
        is_ascii_chars(hex_text(p)),
        encode_utf8(hex_text(p)) == hex_text(p).map_values(|c: char| c as u8),
        hex_text(p).len() == 2 * p.len(),
    decreases p.len(),
{
    if p.len() > 0 {
        lemma_hex_text_ascii(p.drop_last());
        let t = hex_text(p);
        let front = hex_text(p.drop_last());
        assert forall|i: int| 0 <= i < t.len() implies (#[trigger] t[i] as u32) < 128 by {
            if i >= front.len() {
                let b = p.last();
                assert((b / 16) < 16);
            } else {
                assert(t[i] == front[i]);
            }
        }
    }
    is_ascii_chars_encode_utf8(hex_text(p));
}

/// Decoding an encoded path gives back exactly the bytes that were encoded.
pub proof fn lemma_path_round_trip(p: Seq<u8>)
    ensures
        hex_bytes(encode_utf8(hex_text(p))) == Some(p),
    decreases p.len(),
{
    lemma_hex_text_ascii(p);
    if p.len() > 0 {
        let front = p.drop_last();
        lemma_path_round_trip(front);
        lemma_hex_text_ascii(front);
        let b = encode_utf8(hex_text(p));
        let fb = encode_utf8(hex_text(front));
        assert(b.subrange(0, b.len() - 2) =~= fb);
        let x = p.last();
        let h = (x / 16) as u8;
        let l = (x % 16) as u8;
        assert(b[b.len() - 2] == hex_char(h as nat) as u8);
        assert(b.last() == hex_char(l as nat) as u8);
        assert(hex_digit_value(b[b.len() - 2]) == Some(h));
        assert(hex_digit_value(b.last()) == Some(l));
        assert((h * 16 + l) as u8 == x);
        assert(front.push(x) =~= p);
    } else {
        assert(hex_text(p).len() == 0);
    }
}

/// The name of the temporary file an atomic write of `destination` goes through:
/// `.` + the destination's name (or `state`) + `.teral-<pid>-<sequence>.tmp`.
pub open spec fn temporary_name_text(destination: Option<Seq<u8>>, pid: nat, sequence: nat) -> Seq<u8> {
    let base = match destination {
        Some(d) => d,
        None => seq![115u8, 116u8, 97u8, 116u8, 101u8],
    };
    seq![46u8] + base + seq![46u8, 116u8, 101u8, 114u8, 97u8, 108u8, 45u8] + decimal_bytes(pid)
        + seq![45u8] + decimal_bytes(sequence) + seq![46u8, 116u8, 109u8, 112u8]
}

/// The temporary file name for one attempt of an atomic write.
pub fn temporary_name(destination: Option<&[u8]>, pid: u32, sequence: u64) -> (r: Vec<u8>)
    ensures
        r@ == temporary_name_text(
            match destination {
                Some(d) => Some(d@),
                None => None,
            },
            pid as nat,
            sequence as nat,
        ),
{
    let mut name: Vec<u8> = Vec::new();
    name.push(46u8);
    match destination {
        Some(d) => extend_bytes(&mut name, d),
        None => {
            extend_bytes(&mut name, &[115u8, 116u8, 97u8, 116u8, 101u8]);
        },
    }
    extend_bytes(&mut name, &[46u8, 116u8, 101u8, 114u8, 97u8, 108u8, 45u8]);
    let p = decimal_bytes_of(pid as u64);
    extend_bytes(&mut name, p.as_slice());
    name.push(45u8);
    let s = decimal_bytes_of(sequence);
    extend_bytes(&mut name, s.as_slice());
    extend_bytes(&mut name, &[46u8, 116u8, 109u8, 112u8]);
    proof {
        let base = match destination {
            Some(d) => d@,
            None => seq![115u8, 116u8, 97u8, 116u8, 101u8],
        };
        assert(name@ =~= temporary_name_text(
            match destination {
                Some(d) => Some(d@),
                None => None,
            },
            pid as nat,
            sequence as nat,
        ));
    }
    name
}

} // verus!
