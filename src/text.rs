use vstd::prelude::*;
use crate::reward::REWARD_SCALE;

verus! {

/// Relies on `String::push`: the character is appended at the end.
#[verifier::external_body]
fn push_char(s: &mut String, c: char)
    ensures
        final(s)@ == old(s)@.push(c),
{
    s.push(c);
}

/// The character of decimal digit `d`.
pub open spec fn digit(d: int) -> char {
    seq!['0', '1', '2', '3', '4', '5', '6', '7', '8', '9'][d]
}

/// The decimal digits of `n`, most significant first.
pub open spec fn decimal(n: nat) -> Seq<char>
    decreases n,
{
    if n < 10 {
        seq![digit(n as int)]
    } else {
        decimal(n / 10).push(digit((n % 10) as int))
    }
}

/// The last `width` decimal digits of `f`, with leading zeros.
pub open spec fn padded(f: nat, width: nat) -> Seq<char>
    decreases width,
{
    if width == 0 {
        Seq::empty()
    } else {
        padded(f / 10, (width - 1) as nat).push(digit((f % 10) as int))
    }
}

/// `s` without its trailing zeros.
pub open spec fn trimmed(s: Seq<char>) -> Seq<char>
    decreases s.len(),
{
    if s.len() > 0 && s.last() == '0' {
        trimmed(s.drop_last())
    } else {
        s
    }
}

/// The text of `x` reward units as a decimal number of reward points:
/// a minus sign when negative, the whole part, and the fractional digits
/// without trailing zeros after a point when there are any.
pub open spec fn fixed_point(x: int) -> Seq<char> {
    let m = if x < 0 { -x } else { x };
    let sign = if x < 0 { seq!['-'] } else { Seq::<char>::empty() };
    let whole = decimal((m / (REWARD_SCALE as int)) as nat);
    let frac = m % (REWARD_SCALE as int);
    if frac == 0 {
        sign + whole
    } else {
        sign + whole + seq!['.'] + trimmed(padded(frac as nat, 6))
    }
}

/// Ten to the power `w`.
pub open spec fn pow10(w: nat) -> nat
    decreases w,
{
    if w == 0 {
        1
    } else {
        10 * pow10((w - 1) as nat)
    }
}

fn digit_char(d: u64) -> (r: char)
    requires
        d < 10,
    ensures
        r == digit(d as int),
{
    match d {
        0 => '0',
        1 => '1',
        2 => '2',
        3 => '3',
        4 => '4',
        5 => '5',
        6 => '6',
        7 => '7',
        8 => '8',
        _ => '9',
    }
}

/// Appends the decimal digits of `n`.
pub fn push_decimal(s: &mut String, n: u64)
    ensures
        final(s)@ == old(s)@ + decimal(n as nat),
    decreases n,
{
    if n >= 10 {
        push_decimal(s, n / 10);
    }
    push_char(s, digit_char(n % 10));
    proof {
        if n >= 10 {
            assert(decimal(n as nat) == decimal((n / 10) as nat).push(digit((n % 10) as int)));
        } else {
            assert(decimal(n as nat) == seq![digit(n as int)]);
        }
        assert(final(s)@ =~= old(s)@ + decimal(n as nat));
    }
}

fn push_padded(s: &mut String, f: u64, width: u64)
    ensures
        final(s)@ == old(s)@ + padded(f as nat, width as nat),
    decreases width,
{
    if width > 0 {
        push_padded(s, f / 10, width - 1);
        push_char(s, digit_char(f % 10));
        proof {
            assert(final(s)@ =~= old(s)@ + padded(f as nat, width as nat));
        }
    } else {
        proof {
            assert(final(s)@ =~= old(s)@ + padded(f as nat, width as nat));
        }
    }
}

proof fn lemma_trim_step(f: nat, width: nat)
    requires
        width > 0,
    ensures
        f % 10 == 0 ==> trimmed(padded(f, width)) == trimmed(padded(f / 10, (width - 1) as nat)),
        f % 10 != 0 ==> trimmed(padded(f, width)) == padded(f, width),
{
    let p = padded(f, width);
    assert(p.last() == digit((f % 10) as int));
    assert(p.drop_last() =~= padded(f / 10, (width - 1) as nat));
}

/// The text of `x` reward units as a decimal number of reward points.
pub fn fixed_point_text(x: i64) -> (r: String)
    ensures
        r@ == fixed_point(x as int),
{
    let mut s = String::new();
    let m: u64 = if x < 0 { (0i128 - x as i128) as u64 } else { x as u64 };
    if x < 0 {
        push_char(&mut s, '-');
    }
    let scale = REWARD_SCALE as u64;
    push_decimal(&mut s, m / scale);
    let frac = m % scale;
    if frac != 0 {
        push_char(&mut s, '.');
        let mut f = frac;
        let mut width: u64 = 6;
        assert(pow10(0) == 1);
        assert(pow10(1) == 10);
        assert(pow10(2) == 100);
        assert(pow10(3) == 1000);
        assert(pow10(4) == 10_000);
        assert(pow10(5) == 100_000);
        assert(pow10(6) == 1_000_000);
        while f % 10 == 0
            invariant
                0 < f,
                0 < width <= 6,
                trimmed(padded(frac as nat, 6)) == trimmed(padded(f as nat, width as nat)),
                f < pow10(width as nat),
            decreases width,
        {
            proof {
                lemma_trim_step(f as nat, width as nat);
            }
            proof {
                if width == 1 {
                    assert(pow10(0) == 1);
                    assert(f < 10);
                }
                assert(f / 10 < pow10((width - 1) as nat)) by (nonlinear_arith)
                    requires
                        f < 10 * pow10((width - 1) as nat),
                ;
            }
            f = f / 10;
            width = width - 1;
        }
        proof {
            lemma_trim_step(f as nat, width as nat);
        }
        push_padded(&mut s, f, width);
    }
    proof {
        let sign = if x < 0 { seq!['-'] } else { Seq::<char>::empty() };
        assert(s@ =~= fixed_point(x as int));
    }
    s
}

} // verus!
