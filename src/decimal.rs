//! Decimal formatting of positions and left padding with zeros.

use vstd::prelude::*;
use vstd::utf8::{encode_utf8, is_ascii_chars, is_ascii_chars_encode_utf8};

verus! {

/// The character of a decimal digit.
pub open spec fn digit_char(d: nat) -> char {
    if d == 0 { '0' }
    else if d == 1 { '1' }
    else if d == 2 { '2' }
    else if d == 3 { '3' }
    else if d == 4 { '4' }
    else if d == 5 { '5' }
    else if d == 6 { '6' }
    else if d == 7 { '7' }
    else if d == 8 { '8' }
    else { '9' }
}

/// The numeric value of a decimal digit character.
pub open spec fn digit_value(c: char) -> int {
    (c as int) - ('0' as int)
}

/// The decimal digits of `n`, most significant first, without leading zeros.
pub open spec fn decimal(n: nat) -> Seq<char>
    decreases n,
{
    if n < 10 {
        seq![digit_char(n)]
    } else {
        decimal(n / 10).push(digit_char(n % 10))
    }
}

/// The number that a string of decimal digits denotes.
pub open spec fn parse_decimal(s: Seq<char>) -> int
    decreases s.len(),
{
    if s.len() == 0 {
        0
    } else {
        parse_decimal(s.drop_last()) * 10 + digit_value(s.last())
    }
}

/// `k` zero characters.
pub open spec fn zeros(k: nat) -> Seq<char> {
    Seq::new(k, |i: int| '0')
}

/// The length of `s` in UTF-8 bytes.
pub open spec fn byte_len(s: Seq<char>) -> nat {
    encode_utf8(s).len()
}

/// `s` left-padded with zeros up to `width` UTF-8 bytes; unchanged if it is
/// already that long.
pub open spec fn padded(s: Seq<char>, width: nat) -> Seq<char> {
    if byte_len(s) >= width {
        s
    } else {
        zeros((width - byte_len(s)) as nat) + s
    }
}

proof fn lemma_digit_char(d: nat)
    requires
        d < 10,
    ensures
        digit_value(digit_char(d)) == d,
        digit_char(d) != '\0',
        digit_char(d) != '/',
        '0' <= digit_char(d) <= '9',
{
}

proof fn lemma_parse_decimal(n: nat)
    ensures
        parse_decimal(decimal(n)) == n,
    decreases n,
{
    if n < 10 {
        lemma_digit_char(n);
        let d = decimal(n);
        assert(d.drop_last() =~= Seq::<char>::empty());
        assert(parse_decimal(d.drop_last()) == 0);
        assert(d.last() == digit_char(n));
    } else {
        lemma_parse_decimal(n / 10);
        lemma_digit_char(n % 10);
        let d = decimal(n);
        assert(d.drop_last() =~= decimal(n / 10));
        assert(d.last() == digit_char(n % 10));
        assert(parse_decimal(d) == parse_decimal(d.drop_last()) * 10 + digit_value(d.last()));
        assert(n == (n / 10) * 10 + n % 10);
    }
}

proof fn lemma_parse_leading_zeros(k: nat, s: Seq<char>)
    ensures
        parse_decimal(zeros(k) + s) == parse_decimal(s),
    decreases s.len(), k,
{
    if s.len() == 0 {
        assert(zeros(k) + s =~= zeros(k));
        if k > 0 {
            assert(zeros(k).drop_last() =~= zeros((k - 1) as nat) + s);
            lemma_parse_leading_zeros((k - 1) as nat, s);
        }
    } else {
        assert((zeros(k) + s).drop_last() =~= zeros(k) + s.drop_last());
        lemma_parse_leading_zeros(k, s.drop_last());
    }
}

proof fn lemma_decimal_len_monotonic(a: nat, b: nat)
    requires
        a <= b,
    ensures
        decimal(a).len() <= decimal(b).len(),
    decreases b,
{
    if b >= 10 && a >= 10 {
        lemma_decimal_len_monotonic(a / 10, b / 10);
    }
    if a < 10 {
        lemma_decimal_len_positive(b);
    }
}

/// Every number has at least one decimal digit.
pub proof fn lemma_decimal_len_positive(n: nat)
    ensures
        decimal(n).len() >= 1,
    decreases n,
{
    if n >= 10 {
        lemma_decimal_len_positive(n / 10);
    }
}

/// The decimal digits of `n` are ASCII digits: neither a NUL nor a path
/// separator, and one UTF-8 byte each.
pub proof fn lemma_decimal_chars(n: nat)
    ensures
        forall|i: int| 0 <= i < decimal(n).len() ==> #[trigger] decimal(n)[i] != '\0' && decimal(n)[i] != '/'
            && '0' <= decimal(n)[i] <= '9',
        byte_len(decimal(n)) == decimal(n).len(),
    decreases n,
{
    if n < 10 {
        lemma_digit_char(n);
    } else {
        lemma_decimal_chars(n / 10);
        lemma_digit_char(n % 10);
        let d = decimal(n);
        assert(d == decimal(n / 10).push(digit_char(n % 10)));
        assert forall|i: int| 0 <= i < d.len() implies #[trigger] d[i] != '\0' && d[i] != '/'
            && '0' <= d[i] <= '9' by {
            if i < d.len() - 1 {
                assert(d[i] == decimal(n / 10)[i]);
            }
        }
    }
    assert(is_ascii_chars(decimal(n)));
    is_ascii_chars_encode_utf8(decimal(n));
}

/// A position in `[1, total]`, padded to the digit count of `total`, has
/// exactly that many characters and still reads as the position.
pub proof fn lemma_padded_position(total: nat, position: nat)
    requires
        1 <= position <= total,
    ensures
        padded(decimal(position), decimal(total).len()).len() == decimal(total).len(),
        parse_decimal(padded(decimal(position), decimal(total).len())) == position,
{
    lemma_decimal_len_monotonic(position, total);
    lemma_decimal_chars(position);
    lemma_parse_decimal(position);
    let d = decimal(position);
    let w = decimal(total).len();
    if d.len() < w {
        lemma_parse_leading_zeros((w - d.len()) as nat, d);
    }
}

fn digit_str(d: usize) -> (r: &'static str)
    requires
        d < 10,
    ensures
        r@ == seq![digit_char(d as nat)],
{
    if d == 0 {
        proof { reveal_strlit("0"); }
        "0"
    } else if d == 1 {
        proof { reveal_strlit("1"); }
        "1"
    } else if d == 2 {
        proof { reveal_strlit("2"); }
        "2"
    } else if d == 3 {
        proof { reveal_strlit("3"); }
        "3"
    } else if d == 4 {
        proof { reveal_strlit("4"); }
        "4"
    } else if d == 5 {
        proof { reveal_strlit("5"); }
        "5"
    } else if d == 6 {
        proof { reveal_strlit("6"); }
        "6"
    } else if d == 7 {
        proof { reveal_strlit("7"); }
        "7"
    } else if d == 8 {
        proof { reveal_strlit("8"); }
        "8"
    } else {
        proof { reveal_strlit("9"); }
        "9"
    }
}

/// `n` written in decimal.
pub fn to_decimal(n: usize) -> (r: String)
    ensures
        r@ == decimal(n as nat),
    decreases n,
{
    if n < 10 {
        String::from_str(digit_str(n))
    } else {
        let mut s = to_decimal(n / 10);
        s.append(digit_str(n % 10));
        s
    }
}

/// The number of decimal digits of `num`, which is also its length in bytes.
pub fn get_max_length(num: usize) -> (r: usize)
    ensures
        r == decimal(num as nat).len(),
{
    proof { lemma_decimal_chars(num as nat); }
    let digits = to_decimal(num);
    digits.as_str().as_bytes().len()
}

proof fn lemma_byte_len_zero_prefix(s: Seq<char>)
    ensures
        byte_len(seq!['0'] + s) == byte_len(s) + 1,
{
    let t = seq!['0'] + s;
    assert(t.drop_first() =~= s);
    assert(t[0] == '0');
    assert(encode_utf8(t) == vstd::utf8::encode_scalar('0' as u32) + encode_utf8(s));
}

/// `s` left-padded with `'0'` characters until it is `len` bytes long.
pub fn pad_left(s: String, len: usize) -> (r: String)
    ensures
        r@ == padded(s@, len as nat),
{
    let mut out = s;
    let ghost k: nat = 0;
    let mut n: usize = out.as_str().as_bytes().len();
    while n < len
        invariant
            n as nat == byte_len(out@),
            out@ == zeros(k) + s@,
            byte_len(out@) == k + byte_len(s@),
            k > 0 ==> byte_len(out@) <= len,
        decreases len - byte_len(out@),
    {
        proof { reveal_strlit("0"); }
        let ghost before = out@;
        out = String::from_str("0").concat(out.as_str());
        proof {
            assert(out@ =~= seq!['0'] + before);
            lemma_byte_len_zero_prefix(before);
            assert(zeros(k + 1) + s@ =~= seq!['0'] + (zeros(k) + s@));
            k = k + 1;
        }
        n = n + 1;
    }
    proof {
        if byte_len(s@) < len {
            assert(k == len - byte_len(s@));
        } else {
            assert(k == 0);
            assert(out@ =~= s@);
        }
    }
    out
}

} // verus!
