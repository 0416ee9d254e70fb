//! Exactly specified text building blocks: decimal rendering of numbers and
//! the padding the tile renderer uses.

use vstd::prelude::*;

verus! {

/// The digit character for a value in `0..10`.
pub open spec fn spec_digit(d: int) -> char {
    if d == 0 {
        '0'
    } else if d == 1 {
        '1'
    } else if d == 2 {
        '2'
    } else if d == 3 {
        '3'
    } else if d == 4 {
        '4'
    } else if d == 5 {
        '5'
    } else if d == 6 {
        '6'
    } else if d == 7 {
        '7'
    } else if d == 8 {
        '8'
    } else {
        '9'
    }
}

/// The usual decimal rendering of a non-negative number, most significant
/// digit first, without leading zeroes (zero itself is "0").
pub open spec fn spec_decimal(n: int) -> Seq<char>
    decreases n,
{
    if n < 10 {
        seq![spec_digit(n)]
    } else {
        spec_decimal(n / 10).push(spec_digit(n % 10))
    }
}

/// `k` spaces.
pub open spec fn spec_spaces(k: int) -> Seq<char> {
    Seq::new(k as nat, |i: int| ' ')
}

/// `s` padded with spaces on the left up to `width`; text already that wide
/// is kept as it is.
pub open spec fn spec_pad_left(s: Seq<char>, width: int) -> Seq<char> {
    if s.len() >= width {
        s
    } else {
        spec_spaces(width - s.len()) + s
    }
}

/// `s` padded with one space on each side until it reaches `width`, then
/// cut back to exactly `width` (one trailing pad space is dropped when the
/// deficit was odd).
pub open spec fn spec_pad_both(s: Seq<char>, width: int) -> Seq<char>
    decreases width - s.len() + 1,
{
    if s.len() < width {
        spec_pad_both(seq![' '] + s + seq![' '], width)
    } else if s.len() > width {
        s.take(width)
    } else {
        s
    }
}

/// The single-character string for a digit.
fn digit_str(d: usize) -> (r: &'static str)
    requires
        d < 10,
    ensures
        r@ == seq![spec_digit(d as int)],
        r.is_ascii(),
{
    proof {
        reveal_strlit("0");
        reveal_strlit("1");
        reveal_strlit("2");
        reveal_strlit("3");
        reveal_strlit("4");
        reveal_strlit("5");
        reveal_strlit("6");
        reveal_strlit("7");
        reveal_strlit("8");
        reveal_strlit("9");
    }
    match d {
        0 => "0",
        1 => "1",
        2 => "2",
        3 => "3",
        4 => "4",
        5 => "5",
        6 => "6",
        7 => "7",
        8 => "8",
        _ => "9",
    }
}

/// Render `n` in decimal.
pub fn decimal_string(n: usize) -> (r: String)
    ensures
        r@ == spec_decimal(n as int),
        r@.len() >= 1,
        r.is_ascii(),
    decreases n,
{
    if n < 10 {
        digit_str(n).to_owned()
    } else {
        let mut s = decimal_string(n / 10);
        let ghost prefix = s@;
        s.append(digit_str(n % 10));
        proof {
            assert(s@ =~= spec_decimal(n as int));
            assert(s.is_ascii()) by {
                assert(forall|i: int|
                    0 <= i < s@.len() ==> (#[trigger] s@[i]) == prefix[i] || s@[i] == spec_digit(
                        n as int % 10,
                    ));
            }
        }
        s
    }
}

/// Pad `s` on the left with spaces up to `width`.
pub fn pad_left(s: String, width: usize) -> (r: String)
    ensures
        r@ == spec_pad_left(s@, width as int),
{
    let len = s.as_str().unicode_len();
    if len >= width {
        return s;
    }
    let mut out = String::new();
    let mut k: usize = 0;
    while k < width - len
        invariant
            len == s@.len(),
            len < width,
            k <= width - len,
            out@ =~= spec_spaces(k as int),
        decreases width - len - k,
    {
        proof {
            reveal_strlit(" ");
        }
        out.append(" ");
        proof {
            assert(out@ =~= spec_spaces(k as int + 1));
        }
        k += 1;
    }
    out.append(s.as_str());
    proof {
        assert(out@ =~= spec_pad_left(s@, width as int));
    }
    out
}

/// Pad `s` on both sides with spaces until it reaches `width`, then cut it
/// back to exactly `width`, as the tile renderer centres its numbers.
pub fn pad_both(text: String, length: usize) -> (r: String)
    requires
        text.is_ascii(),
    ensures
        r@ == spec_pad_both(text@, length as int),
    decreases length - text@.len() + 1,
{
    let len = text.as_str().unicode_len();
    if len < length {
        proof {
            reveal_strlit(" ");
        }
        let mut padded = " ".to_owned();
        padded.append(text.as_str());
        padded.append(" ");
        proof {
            assert(padded@ =~= seq![' '] + text@ + seq![' ']);
            assert(padded.is_ascii()) by {
                assert(forall|i: int|
                    0 <= i < padded@.len() ==> (#[trigger] padded@[i]) == ' ' || padded@[i]
                        == text@[i - 1]);
            }
        }
        pad_both(padded, length)
    } else if len > length {
        let cut = text.as_str().substring_ascii(0, length);
        proof {
            assert(cut@ =~= spec_pad_both(text@, length as int));
        }
        cut.to_owned()
    } else {
        text
    }
}

} // verus!
