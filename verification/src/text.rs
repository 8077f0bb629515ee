//! Decimal rendering of the numbers that appear in disassembled text, and
//! case-insensitive comparison of mnemonics. All output is plain ASCII and
//! is written so that the statement parser reads the same values back.

use vstd::prelude::*;
use vstd::string::StrSliceExecFns;
use vstd::string::StringExecFns;

verus! {

/// The decimal digit character for `d`.
pub open spec fn digit_char(d: int) -> char {
    if d == 0 {
        '0'
    } else if d == 1 {
        '1'
    } else if d == 2 {
        '2'
    } else if d == 3 {
        '3'
    } else if d == 4 {
        '4'
    } else if d == 5 {
        '5'
    } else if d == 6 {
        '6'
    } else if d == 7 {
        '7'
    } else if d == 8 {
        '8'
    } else {
        '9'
    }
}

/// The decimal digits of `n`, most significant first, with no sign and no
/// leading zeroes except for `n == 0` itself.
pub open spec fn dec_digits(n: nat) -> Seq<char>
    decreases n,
{
    if n < 10 {
        seq![digit_char(n as int)]
    } else {
        dec_digits(n / 10) + seq![digit_char((n % 10) as int)]
    }
}

/// The decimal text of a signed value: a `-` sign ahead of the digits of its
/// magnitude.
pub open spec fn int_text(v: int) -> Seq<char> {
    if v < 0 {
        seq!['-'] + dec_digits((-v) as nat)
    } else {
        dec_digits(v as nat)
    }
}

/// A one-character string slice holding the decimal digit `d`.
pub fn digit_str(d: u32) -> (r: &'static str)
    requires
        d < 10,
    ensures
        r@ == seq![digit_char(d as int)],
{
    proof {
        reveal_strlit("0");
        reveal_strlit("1");
        reveal_strlit("2");
        reveal_strlit("3");
        reveal_strlit("4");
        reveal_strlit("5");
        reveal_strlit("6");
        reveal_strlit("7");
        reveal_strlit("8");
        reveal_strlit("9");
    }
    match d {
        0 => "0",
        1 => "1",
        2 => "2",
        3 => "3",
        4 => "4",
        5 => "5",
        6 => "6",
        7 => "7",
        8 => "8",
        _ => "9",
    }
}

/// The decimal text of an unsigned 32-bit value.
pub fn dec_str(n: u32) -> (r: String)
    ensures
        r@ == dec_digits(n as nat),
    decreases n,
{
    if n < 10 {
        digit_str(n).to_owned()
    } else {
        let mut s = dec_str(n / 10);
        s.append(digit_str(n % 10));
        s
    }
}

/// The decimal text of a signed 32-bit value.
pub fn int_str(v: i32) -> (r: String)
    ensures
        r@ == int_text(v as int),
{
    if v < 0 {
        let magnitude = (-(v as i64)) as u32;
        let mut s = "-".to_owned();
        proof {
            reveal_strlit("-");
        }
        s.append(dec_str(magnitude).as_str());
        proof {
            assert(s@ =~= int_text(v as int));
        }
        s
    } else {
        dec_str(v as u32)
    }
}

/// Two characters match here when they are the same letter in either case,
/// or the same character outright.
pub open spec fn char_eq_nocase(x: char, y: char) -> bool {
    x == y || ('a' <= x && x <= 'z' && y as u32 + 32 == x as u32) || ('A' <= x && x <= 'Z'
        && x as u32 + 32 == y as u32)
}

/// Case-insensitive equality of two character sequences.
pub open spec fn eq_nocase(a: Seq<char>, b: Seq<char>) -> bool {
    a.len() == b.len() && forall|i: int| 0 <= i < a.len() ==> char_eq_nocase(a[i], b[i])
}

/// Case-insensitive equality of two string slices, decided character by
/// character.
pub fn str_eq_nocase(a: &str, b: &str) -> (r: bool)
    ensures
        r == eq_nocase(a@, b@),
{
    let la = a.unicode_len();
    let lb = b.unicode_len();
    if la != lb {
        return false;
    }
    let mut i: usize = 0;
    while i < la
        invariant
            a@.len() == la,
            b@.len() == lb,
            la == lb,
            i <= la,
            forall|j: int| 0 <= j < i ==> char_eq_nocase(a@[j], b@[j]),
        decreases la - i,
    {
        let x = a.get_char(i);
        let y = b.get_char(i);
        let xu = x as u32;
        let yu = y as u32;
        let same = x == y || (97 <= xu && xu <= 122 && yu + 32 == xu) || (65 <= xu && xu <= 90
            && xu + 32 == yu);
        if !same {
            assert(!char_eq_nocase(a@[i as int], b@[i as int]));
            return false;
        }
        i += 1;
    }
    true
}

} // verus!
