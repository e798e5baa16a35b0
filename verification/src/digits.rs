//! Decimal digit sequences: their numeric value (with saturation at the
//! 32-bit limit, as a `u32` parse has) and the decimal rendering of a number.

use vstd::prelude::*;

verus! {

/// A character is an ASCII decimal digit.
pub open spec fn is_digit(c: char) -> bool {
    ('0' as u32) <= (c as u32) && (c as u32) <= ('9' as u32)
}

/// Executable test for an ASCII decimal digit.
pub fn digit_char(c: char) -> (r: bool)
    ensures
        r == is_digit(c),
{
    let u = c as u32;
    ('0' as u32) <= u && u <= ('9' as u32)
}

/// The numeric value of one digit character.
pub open spec fn digit_val(c: char) -> nat {
    if is_digit(c) {
        (c as u32 - '0' as u32) as nat
    } else {
        0
    }
}

/// The digit character for a value below ten.
pub open spec fn digit_to_char(d: nat) -> char {
    if d == 0 {
        '0'
    } else if d == 1 {
        '1'
    } else if d == 2 {
        '2'
    } else if d == 3 {
        '3'
    } else if d == 4 {
        '4'
    } else if d == 5 {
        '5'
    } else if d == 6 {
        '6'
    } else if d == 7 {
        '7'
    } else if d == 8 {
        '8'
    } else {
        '9'
    }
}

/// The numeric value of a digit sequence read in the usual way.
pub open spec fn digits_val(ds: Seq<char>) -> nat
    decreases ds.len(),
{
    if ds.len() == 0 {
        0
    } else {
        10 * digits_val(ds.drop_last()) + digit_val(ds.last())
    }
}

/// The decimal rendering of a number, most significant digit first.
pub open spec fn dec_digits(n: nat) -> Seq<char>
    decreases n,
{
    if n < 10 {
        seq![digit_to_char(n)]
    } else {
        dec_digits(n / 10).push(digit_to_char(n % 10))
    }
}

/// Reads the digits of `v` between `a` and `b`; the flag reports a value
/// beyond `u32::MAX`, in which case the returned number is meaningless.
pub fn digits_value(v: &Vec<char>, a: usize, b: usize) -> (r: (u64, bool))
    requires
        a <= b <= v@.len(),
        forall|j: int| a <= j < b ==> is_digit(v@[j]),
    ensures
        !r.1 ==> r.0 == digits_val(v@.subrange(a as int, b as int)) && r.0 <= u32::MAX,
        r.1 ==> digits_val(v@.subrange(a as int, b as int)) > u32::MAX,
{
    let mut acc: u64 = 0;
    let mut over: bool = false;
    let mut i: usize = a;
    proof {
        assert(v@.subrange(a as int, a as int) =~= Seq::<char>::empty());
    }
    while i < b
        invariant
            a <= i <= b <= v@.len(),
            forall|j: int| a <= j < b ==> is_digit(v@[j]),
            !over ==> acc == digits_val(v@.subrange(a as int, i as int)) && acc <= u32::MAX,
            over ==> digits_val(v@.subrange(a as int, i as int)) > u32::MAX,
        decreases b - i,
    {
        let ghost pre = v@.subrange(a as int, i as int);
        let ghost post = v@.subrange(a as int, i as int + 1);
        proof {
            assert(post.drop_last() =~= pre);
            assert(post.last() == v@[i as int]);
        }
        let c = v[i];
        let d: u64 = (c as u32 - '0' as u32) as u64;
        proof {
            assert(d == digit_val(v@[i as int]));
        }
        if !over {
            let next: u64 = 10 * acc + d;
            if next > u32::MAX as u64 {
                over = true;
                proof {
                    assert(digits_val(post) == 10 * digits_val(pre) + digit_val(v@[i as int]));
                }
            } else {
                acc = next;
            }
        } else {
            proof {
                assert(digits_val(post) == 10 * digits_val(pre) + digit_val(v@[i as int]));
                assert(digits_val(post) >= digits_val(pre));
            }
        }
        i = i + 1;
    }
    (acc, over)
}

/// Renders a number in decimal.
pub fn render_u64(n: u64) -> (r: Vec<char>)
    ensures
        r@ == dec_digits(n as nat),
    decreases n,
{
    if n < 10 {
        let c = digit_of(n);
        let mut r: Vec<char> = Vec::new();
        r.push(c);
        proof {
            assert(r@ =~= seq![digit_to_char(n as nat)]);
        }
        r
    } else {
        let mut r = render_u64(n / 10);
        r.push(digit_of(n % 10));
        r
    }
}

/// The character for one digit value.
fn digit_of(d: u64) -> (c: char)
    requires
        d < 10,
    ensures
        c == digit_to_char(d as nat),
{
    if d == 0 {
        '0'
    } else if d == 1 {
        '1'
    } else if d == 2 {
        '2'
    } else if d == 3 {
        '3'
    } else if d == 4 {
        '4'
    } else if d == 5 {
        '5'
    } else if d == 6 {
        '6'
    } else if d == 7 {
        '7'
    } else if d == 8 {
        '8'
    } else {
        '9'
    }
}

} // verus!
