//! Character-level building blocks: decimal rendering of integers, and
//! left-justified / centered padding, each as a spec function over
//! `Seq<char>` with an exec builder proved against it.

use vstd::prelude::*;
use vstd::string::StrSliceExecFns;
use vstd::string::StringExecFns;

verus! {

/// Relies on `String::push`: appends the given `char` to the end of the
/// `String`.
pub assume_specification[ String::push ](s: &mut String, ch: char)
    ensures
        final(s)@ == old(s)@.push(ch),
;

/// The character for one decimal digit.
pub open spec fn dec_digit(d: int) -> char {
    if d == 0 {
        '0'
    } else if d == 1 {
        '1'
    } else if d == 2 {
        '2'
    } else if d == 3 {
        '3'
    } else if d == 4 {
        '4'
    } else if d == 5 {
        '5'
    } else if d == 6 {
        '6'
    } else if d == 7 {
        '7'
    } else if d == 8 {
        '8'
    } else {
        '9'
    }
}

/// Decimal digits of a natural number, most significant first, no leading
/// zeros (a lone zero for `0`).
pub open spec fn dec_nat(n: nat) -> Seq<char>
    decreases n,
{
    if n < 10 {
        seq![dec_digit(n as int)]
    } else {
        dec_nat(n / 10).push(dec_digit((n % 10) as int))
    }
}

/// Decimal rendering of an integer, with a leading `-` when negative.
pub open spec fn dec_int(n: int) -> Seq<char> {
    if n < 0 {
        seq!['-'] + dec_nat((-n) as nat)
    } else {
        dec_nat(n as nat)
    }
}

/// `n` copies of `c`.
pub open spec fn repeat_char(c: char, n: nat) -> Seq<char> {
    Seq::new(n, |i: int| c)
}

/// `s` left-justified in a field of `w` columns, filled with spaces; `s`
/// unchanged when it is already `w` columns or wider.
pub open spec fn pad_right(s: Seq<char>, w: nat) -> Seq<char> {
    if s.len() >= w {
        s
    } else {
        s + repeat_char(' ', (w - s.len()) as nat)
    }
}

/// `s` centered in a field of `w` columns filled with `fill`; when the
/// slack is odd the extra column goes to the right.
pub open spec fn center(s: Seq<char>, w: nat, fill: char) -> Seq<char> {
    if s.len() >= w {
        s
    } else {
        let pad = (w - s.len()) as nat;
        repeat_char(fill, pad / 2) + s + repeat_char(fill, (pad - pad / 2) as nat)
    }
}

fn dec_digit_char(d: u64) -> (c: char)
    requires
        d < 10,
    ensures
        c == dec_digit(d as int),
{
    if d == 0 {
        '0'
    } else if d == 1 {
        '1'
    } else if d == 2 {
        '2'
    } else if d == 3 {
        '3'
    } else if d == 4 {
        '4'
    } else if d == 5 {
        '5'
    } else if d == 6 {
        '6'
    } else if d == 7 {
        '7'
    } else if d == 8 {
        '8'
    } else {
        '9'
    }
}

/// Appends the decimal digits of `n`.
pub fn push_dec_u64(s: &mut String, n: u64)
    ensures
        final(s)@ == old(s)@ + dec_nat(n as nat),
    decreases n,
{
    if n < 10 {
        let c = dec_digit_char(n);
        s.push(c);
        proof {
            assert(old(s)@.push(c) =~= old(s)@ + dec_nat(n as nat));
        }
    } else {
        push_dec_u64(s, n / 10);
        let c = dec_digit_char(n % 10);
        s.push(c);
        proof {
            assert((old(s)@ + dec_nat((n / 10) as nat)).push(c) =~= old(s)@ + dec_nat(
                n as nat,
            ));
        }
    }
}

/// Appends the decimal rendering of `n`, `-` first when negative.
pub fn push_dec_i64(s: &mut String, n: i64)
    ensures
        final(s)@ == old(s)@ + dec_int(n as int),
{
    if n >= 0 {
        push_dec_u64(s, n as u64);
    } else {
        s.push('-');
        let mag: u64 = if n == i64::MIN {
            9223372036854775808u64
        } else {
            (-n) as u64
        };
        assert(mag as int == -(n as int));
        push_dec_u64(s, mag);
        proof {
            assert(old(s)@.push('-') + dec_nat(mag as nat) =~= old(s)@ + dec_int(n as int));
        }
    }
}

/// Appends `count` copies of `c`.
pub fn push_repeat(s: &mut String, c: char, count: usize)
    ensures
        final(s)@ == old(s)@ + repeat_char(c, count as nat),
{
    proof {
        assert(old(s)@ + repeat_char(c, 0) =~= old(s)@);
    }
    let mut i: usize = 0;
    while i < count
        invariant
            i <= count,
            s@ == old(s)@ + repeat_char(c, i as nat),
        decreases count - i,
    {
        s.push(c);
        proof {
            assert((old(s)@ + repeat_char(c, i as nat)).push(c) =~= old(s)@ + repeat_char(
                c,
                (i + 1) as nat,
            ));
        }
        i = i + 1;
    }
}

/// Left-justifies the current contents in a field of `width` columns.
pub fn pad_to(s: &mut String, width: usize)
    ensures
        final(s)@ == pad_right(old(s)@, width as nat),
{
    let n = s.as_str().unicode_len();
    if n < width {
        push_repeat(s, ' ', width - n);
    }
}

/// Appends `content` centered in a field of `width` columns filled with
/// `fill`.
pub fn push_center(s: &mut String, content: &str, width: usize, fill: char)
    ensures
        final(s)@ == old(s)@ + center(content@, width as nat, fill),
{
    let n = content.unicode_len();
    if n >= width {
        s.append(content);
    } else {
        let pad = width - n;
        let left = pad / 2;
        push_repeat(s, fill, left);
        s.append(content);
        push_repeat(s, fill, pad - left);
        proof {
            assert(old(s)@ + repeat_char(fill, left as nat) + content@ + repeat_char(
                fill,
                (pad - left) as nat,
            ) =~= old(s)@ + center(content@, width as nat, fill));
        }
    }
}

} // verus!
