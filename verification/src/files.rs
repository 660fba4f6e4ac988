//! Filesystem domain layer: the text a listing shows for sizes, modes and counts.

pub mod entry;
pub mod name;
pub mod ops;
pub mod preview;
pub mod scan;
pub mod search;
pub mod transfer;
pub mod trash;

use crate::text::{decimal, decimal_string, digit_char, push_char, push_str};
use vstd::prelude::*;

verus! {

/// `1024^u`.
pub open spec fn p1024(u: nat) -> nat
    decreases u,
{
    if u == 0 {
        1
    } else {
        1024 * p1024((u - 1) as nat)
    }
}

/// `2^s`.
pub open spec fn scale(s: nat) -> nat
    decreases s,
{
    if s == 0 {
        1
    } else {
        2 * scale((s - 1) as nat)
    }
}

/// The largest integer an `f64` holds exactly, plus one: `2^53`.
pub open spec fn exact_limit() -> nat {
    0x20_0000_0000_0000
}

/// How many low bits a count loses when it is stored in an `f64`.
pub open spec fn excess_bits(n: nat) -> nat
    decreases n,
{
    if n < exact_limit() {
        0
    } else {
        1 + excess_bits(n / 2)
    }
}

/// `num / den` rounded to the nearest integer, ties going to the even neighbour.
pub open spec fn round_half_even(num: nat, den: nat) -> nat {
    let q = num / den;
    let r = num % den;
    if 2 * r > den || (2 * r == den && q % 2 == 1) {
        q + 1
    } else {
        q
    }
}

/// The value `bytes as f64` holds: the count rounded to 53 significant bits.
pub open spec fn nearest_double(n: nat) -> nat {
    let d = scale(excess_bits(n));
    round_half_even(n, d) * d
}

/// The unit a value is shown in: divide by 1024 while it is at least 1024, up to PB.
pub open spec fn unit_of(b: nat, u: nat) -> nat
    decreases 5 - u,
{
    if u < 5 && b >= p1024(u + 1) {
        unit_of(b, u + 1)
    } else {
        u
    }
}

/// The name of unit `u`.
pub open spec fn unit_name(u: nat) -> Seq<char> {
    if u == 0 {
        "B"@
    } else if u == 1 {
        "KB"@
    } else if u == 2 {
        "MB"@
    } else if u == 3 {
        "GB"@
    } else if u == 4 {
        "TB"@
    } else {
        "PB"@
    }
}

/// The text `format_size` gives: exact bytes below 1 KiB; otherwise the `f64` value of
/// the count in the largest unit it reaches, with no decimals from 100 upwards and one
/// decimal below, rounded to nearest with ties to even.
pub open spec fn size_text(bytes: nat) -> Seq<char> {
    if bytes < 1024 {
        decimal(bytes) + " B"@
    } else {
        let b = nearest_double(bytes);
        let u = unit_of(b, 0);
        let d = p1024(u);
        if b >= 100 * d {
            decimal(round_half_even(b, d)) + " "@ + unit_name(u)
        } else {
            let t = round_half_even(10 * b, d);
            decimal(t / 10) + "."@ + seq![digit_char(t % 10)] + " "@ + unit_name(u)
        }
    }
}

proof fn lemma_round_bound(num: nat, den: nat)
    requires
        den > 0,
    ensures
        round_half_even(num, den) <= num / den + 1,
        round_half_even(num, den) >= num / den,
        num / den * den <= num,
{
    vstd::arithmetic::div_mod::lemma_fundamental_div_mod(num as int, den as int);
    assert((num / den) * den == den * (num / den)) by (nonlinear_arith);
}

proof fn lemma_p1024_pos(u: nat)
    ensures
        p1024(u) >= 1,
    decreases u,
{
    if u > 0 {
        lemma_p1024_pos((u - 1) as nat);
    }
}

proof fn lemma_unit_of_bounds(b: nat, u: nat)
    requires
        u <= 5,
    ensures
        u <= unit_of(b, u) <= 5,
        unit_of(b, u) == u || b >= p1024(u + 1),
    decreases 5 - u,
{
    if u < 5 && b >= p1024(u + 1) {
        lemma_unit_of_bounds(b, u + 1);
    }
}

/// `bytes as f64`, as an exact integer.
fn nearest_double_of(n: u64) -> (r: u128)
    ensures
        r as nat == nearest_double(n as nat),
        n >= 1024 ==> r >= 1024,
        r <= 0x4_0000_0000_0000_0000u128,
{
    let mut m: u128 = n as u128;
    let mut d: u128 = 1;
    let ghost mut s: nat = 0;
    while m >= 0x20_0000_0000_0000u128
        invariant
            d == scale(s),
            m == n as nat / d as nat,
            excess_bits(n as nat) == s + excess_bits(m as nat),
            1 <= d <= n + 1,
            d <= 0x1_0000_0000_0000_0000u128,
            d > 1 ==> m >= 0x10_0000_0000_0000u128,
        decreases m,
    {
        proof {
            vstd::arithmetic::div_mod::lemma_div_denominator(n as int, d as int, 2);
            vstd::arithmetic::div_mod::lemma_fundamental_div_mod(n as int, d as int);
            assert(d * 2 <= n) by (nonlinear_arith)
                requires
                    m >= 0x20_0000_0000_0000u128,
                    m == n as nat / d as nat,
                    (n as nat / d as nat) * d <= n,
                    d >= 1,
            ;
        }
        m = m / 2;
        d = d * 2;
        proof {
            s = s + 1;
        }
    }
    assert(excess_bits(m as nat) == 0);
    let q = n as u128 / d;
    let rem = n as u128 % d;
    let rounded = if 2 * rem > d || (2 * rem == d && q % 2 == 1) {
        q + 1
    } else {
        q
    };
    proof {
        vstd::arithmetic::div_mod::lemma_fundamental_div_mod(n as int, d as int);
        assert(rounded * d <= 0x4_0000_0000_0000_0000u128) by (nonlinear_arith)
            requires
                rounded <= q + 1,
                q < 0x20_0000_0000_0000u128,
                d <= 0x1_0000_0000_0000_0000u128,
                q * d <= n,
                n < 0x1_0000_0000_0000_0000u128,
                d <= n + 1,
        ;
        if n >= 1024 {
            if d > 1 {
                assert(q >= 1024) by {
                    assert(q == m);
                }
                assert(rounded * d >= 1024) by (nonlinear_arith)
                    requires
                        rounded >= q,
                        q >= 1024,
                        d >= 1,
                ;
            } else {
                assert(q == n as u128);
            }
        }
    }
    rounded * d
}

/// Format a byte count the way a Linux desktop normally does.
pub fn format_size(bytes: u64) -> (r: String)
    ensures
        r@ == size_text(bytes as nat),
{
    if bytes < 1024 {
        let mut s = decimal_string(bytes);
        push_str(&mut s, " B");
        return s;
    }
    let b = nearest_double_of(bytes);
    let mut unit: usize = 0;
    let mut d: u128 = 1;
    while unit < 5 && b >= d * 1024
        invariant
            unit <= 5,
            d == p1024(unit as nat),
            d <= 0x4_0000_0000_0000u128,
            b <= 0x4_0000_0000_0000_0000u128,
            unit_of(b as nat, 0) == unit_of(b as nat, unit as nat),
        decreases 5 - unit,
    {
        proof {
            reveal_with_fuel(p1024, 6);
            assert(p1024(5) == 0x4_0000_0000_0000u128);
            assert(d * 1024 == p1024((unit + 1) as nat));
            if unit == 0 {
            } else if unit == 1 {
            } else if unit == 2 {
            } else if unit == 3 {
            } else {
            }
        }
        d = d * 1024;
        unit += 1;
    }
    proof {
        lemma_unit_of_bounds(b as nat, unit as nat);
        lemma_p1024_pos(unit as nat);
        assert(unit >= 1) by {
            if unit == 0 {
                assert(b >= 1024 && unit < 5);
            }
        }
        assert(d >= 1024) by {
            reveal_with_fuel(p1024, 2);
            assert(p1024(1) == 1024);
            if unit > 1 {
                assert(p1024(unit as nat) == 1024 * p1024((unit - 1) as nat));
                lemma_p1024_pos((unit - 1) as nat);
            }
        }
    }
    let unit_label = if unit == 1 {
        "KB"
    } else if unit == 2 {
        "MB"
    } else if unit == 3 {
        "GB"
    } else if unit == 4 {
        "TB"
    } else {
        "PB"
    };
    if b >= 100 * d {
        let q = b / d;
        let rem = b % d;
        let rounded = if 2 * rem > d || (2 * rem == d && q % 2 == 1) {
            q + 1
        } else {
            q
        };
        proof {
            lemma_round_bound(b as nat, d as nat);
            assert(q <= b / 1024) by {
                vstd::arithmetic::div_mod::lemma_div_is_ordered_by_denominator(
                    b as int,
                    1024,
                    d as int,
                );
            }
        }
        let mut s = decimal_string(rounded as u64);
        push_str(&mut s, " ");
        push_str(&mut s, unit_label);
        s
    } else {
        let q = (10 * b) / d;
        let rem = (10 * b) % d;
        let t = if 2 * rem > d || (2 * rem == d && q % 2 == 1) {
            q + 1
        } else {
            q
        };
        proof {
            lemma_round_bound((10 * b) as nat, d as nat);
            assert(q <= 1000) by {
                assert((10 * b) / (d as int) <= 1000) by (nonlinear_arith)
                    requires
                        b < 100 * d,
                        d >= 1,
                {
                    vstd::arithmetic::div_mod::lemma_div_is_ordered(
                        10 * b as int,
                        1000 * d as int,
                        d as int,
                    );
                    vstd::arithmetic::div_mod::lemma_div_multiples_vanish(1000, d as int);
                }
            }
        }
        let mut s = decimal_string((t / 10) as u64);
        push_char(&mut s, '.');
        push_char(&mut s, (((t % 10) as u8) + 48) as char);
        push_str(&mut s, " ");
        push_str(&mut s, unit_label);
        proof {
            assert("."@ =~= seq!['.']) by {
                reveal_strlit(".");
            }
        }
        s
    }
}

/// The letter shown for permission bit `k` (0 = owner read … 8 = others execute).
pub open spec fn permission_char(mode: u32, k: int) -> char {
    if mode & (0o400u32 >> (k as u32)) == 0 {
        '-'
    } else if k % 3 == 0 {
        'r'
    } else if k % 3 == 1 {
        'w'
    } else {
        'x'
    }
}

/// The nine-letter `rwxr-xr-x` rendering of a mode.
pub open spec fn permissions_text(mode: u32) -> Seq<char> {
    Seq::new(9, |k: int| permission_char(mode, k))
}

/// Render a Unix mode as the familiar `rwxr-xr-x` string.
pub fn format_permissions(mode: u32) -> (r: String)
    ensures
        r@ == permissions_text(mode),
{
    let mut rendered = String::new();
    let mut k: u32 = 0;
    while k < 9
        invariant
            k <= 9,
            rendered@ =~= permissions_text(mode).subrange(0, k as int),
        decreases 9 - k,
    {
        let symbol = if mode & (0o400u32 >> k) == 0 {
            '-'
        } else if k % 3 == 0 {
            'r'
        } else if k % 3 == 1 {
            'w'
        } else {
            'x'
        };
        push_char(&mut rendered, symbol);
        k += 1;
    }
    rendered
}

/// `"1 item"` for one, `"N items"` otherwise.
pub open spec fn count_text(count: nat) -> Seq<char> {
    if count == 1 {
        "1 item"@
    } else {
        decimal(count) + " items"@
    }
}

/// Pluralise an item count.
pub fn item_count_label(count: usize) -> (r: String)
    ensures
        r@ == count_text(count as nat),
{
    if count == 1 {
        String::from_str("1 item")
    } else {
        let mut s = decimal_string(count as u64);
        push_str(&mut s, " items");
        s
    }
}

proof fn lemma_exact_below_limit(n: nat)
    requires
        n < exact_limit(),
    ensures
        nearest_double(n) == n,
{
    assert(excess_bits(n) == 0);
    assert(scale(0) == 1);
}

proof fn lemma_p1024_values()
    ensures
        p1024(1) == 0x400,
        p1024(2) == 0x10_0000,
        p1024(3) == 0x4000_0000,
        p1024(4) == 0x100_0000_0000,
        p1024(5) == 0x4_0000_0000_0000,
{
    reveal_with_fuel(p1024, 6);
}

proof fn lemma_ends_with(pre: Seq<char>, unit: Seq<char>)
    ensures
        (pre + " "@ + unit).skip(pre.len() as int) == " "@ + unit,
{
    assert((pre + " "@ + unit).skip(pre.len() as int) =~= " "@ + unit);
}

/// A size is shown in the unit named for the power of 1024 it reaches: bytes below
/// 1 KiB, then KB, MB, GB and TB up to 1024 TiB. The text ends in a space and that
/// unit's name (for example 1073741824 bytes is shown in GB).
pub proof fn lemma_size_unit(bytes: nat)
    requires
        bytes < 0x4_0000_0000_0000,
    ensures
        exists|pre: Seq<char>| size_text(bytes) == pre + " "@ + if bytes < 0x400 {
            "B"@
        } else if bytes < 0x10_0000 {
            "KB"@
        } else if bytes < 0x4000_0000 {
            "MB"@
        } else if bytes < 0x100_0000_0000 {
            "GB"@
        } else {
            "TB"@
        },
{
    lemma_p1024_values();
    if bytes < 1024 {
        let pre = decimal(bytes);
        reveal_strlit(" B");
        reveal_strlit(" ");
        reveal_strlit("B");
        assert(size_text(bytes) =~= pre + " "@ + "B"@);
    } else {
        lemma_exact_below_limit(bytes);
        let b = nearest_double(bytes);
        assert(b == bytes);
        let u = unit_of(b, 0);
        if bytes < 0x10_0000 {
            assert(unit_of(b, 1) == 1);
            assert(u == 1);
        } else if bytes < 0x4000_0000 {
            assert(unit_of(b, 2) == 2);
            assert(unit_of(b, 1) == 2);
            assert(u == 2);
        } else if bytes < 0x100_0000_0000 {
            assert(unit_of(b, 3) == 3);
            assert(unit_of(b, 2) == 3);
            assert(unit_of(b, 1) == 3);
            assert(u == 3);
        } else {
            assert(unit_of(b, 4) == 4);
            assert(unit_of(b, 3) == 4);
            assert(unit_of(b, 2) == 4);
            assert(unit_of(b, 1) == 4);
            assert(u == 4);
        }
        let d = p1024(u);
        let pre = if b >= 100 * d {
            decimal(round_half_even(b, d))
        } else {
            let t = round_half_even(10 * b, d);
            decimal(t / 10) + "."@ + seq![digit_char(t % 10)]
        };
        assert(size_text(bytes) == pre + " "@ + unit_name(u));
    }
}

} // verus!
