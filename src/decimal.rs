//! Decimal digits: the value of a digit run, the rendering of a number, and
//! the parse of an unsigned 64-bit integer as `u64::from_str` performs it.
use vstd::prelude::*;

verus! {

pub open spec fn is_digit(c: char) -> bool {
    '0' <= c && c <= '9'
}

pub open spec fn digit_value(c: char) -> nat {
    (c as int - '0' as int) as nat
}

pub open spec fn digit_char(d: nat) -> char {
    if d == 0 { '0' }
    else if d == 1 { '1' }
    else if d == 2 { '2' }
    else if d == 3 { '3' }
    else if d == 4 { '4' }
    else if d == 5 { '5' }
    else if d == 6 { '6' }
    else if d == 7 { '7' }
    else if d == 8 { '8' }
    else { '9' }
}

/// The byte that stands for `c` in a scan: its code when it is ASCII, and
/// 255, which no ASCII character has, otherwise.
pub open spec fn ascii_code(c: char) -> int {
    if (c as int) < 128 { c as int } else { 255 }
}

pub open spec fn all_digits(s: Seq<char>) -> bool {
    forall|i: int| 0 <= i < s.len() ==> is_digit(#[trigger] s[i])
}

/// The number that a run of decimal digits denotes, most significant first.
pub open spec fn digits_value(s: Seq<char>) -> nat
    decreases s.len(),
{
    if s.len() == 0 {
        0
    } else {
        digits_value(s.drop_last()) * 10 + digit_value(s.last())
    }
}

/// The shortest decimal rendering of `n`.
pub open spec fn dec(n: nat) -> Seq<char>
    decreases n,
{
    if n < 10 {
        seq![digit_char(n)]
    } else {
        dec(n / 10).push(digit_char(n % 10))
    }
}

/// The text with an optional leading `+` removed.
pub open spec fn unsigned_digits(s: Seq<char>) -> Seq<char> {
    if s.len() > 0 && s[0] == '+' {
        s.drop_first()
    } else {
        s
    }
}

/// What parsing `s` as a `u64` yields: an optional `+`, then one or more
/// decimal digits whose value fits in 64 bits.
pub open spec fn parse_u64_spec(s: Seq<char>) -> Option<u64> {
    let d = unsigned_digits(s);
    if d.len() > 0 && all_digits(d) && digits_value(d) <= u64::MAX {
        Some(digits_value(d) as u64)
    } else {
        None
    }
}

/// The character of a digit value is a digit worth that value.
pub proof fn lemma_digit_char(d: nat)
    requires
        d < 10,
    ensures
        is_digit(digit_char(d)),
        digit_value(digit_char(d)) == d,
        digit_char(d) != '+',
        digit_char(d) != '-',
{
}

/// A digit run is worth at least any of its prefixes.
pub proof fn lemma_digits_value_prefix(s: Seq<char>, j: int)
    requires
        0 <= j <= s.len(),
    ensures
        digits_value(s.subrange(0, j)) <= digits_value(s),
    decreases s.len(),
{
    if j < s.len() {
        lemma_digits_value_prefix(s.drop_last(), j);
        assert(s.drop_last().subrange(0, j) =~= s.subrange(0, j));
    } else {
        assert(s.subrange(0, j) =~= s);
    }
}

/// The rendering of a number is a digit run, without sign, that denotes it.
pub proof fn lemma_dec_digits(n: nat)
    ensures
        dec(n).len() > 0,
        all_digits(dec(n)),
        digits_value(dec(n)) == n,
        dec(n)[0] != '+',
        forall|i: int| 0 <= i < dec(n).len() ==> #[trigger] dec(n)[i] != '-',
    decreases n,
{
    lemma_digit_char(n % 10);
    if n < 10 {
        assert(dec(n).drop_last() =~= Seq::<char>::empty());
        assert(digits_value(dec(n)) == digits_value(Seq::<char>::empty()) * 10 + digit_value(dec(n).last()));
    } else {
        lemma_dec_digits(n / 10);
        assert(n == (n / 10) * 10 + n % 10);
        assert(dec(n).drop_last() =~= dec(n / 10));
        assert(dec(n)[0] == dec(n / 10)[0]);
        assert forall|i: int| 0 <= i < dec(n).len() implies #[trigger] dec(n)[i] != '-' by {
            if i < dec(n / 10).len() {
                assert(dec(n)[i] == dec(n / 10)[i]);
            }
        }
    }
}

/// A decimal number reads back as itself.
pub proof fn lemma_parse_dec(n: u64)
    ensures
        parse_u64_spec(dec(n as nat)) == Some(n),
{
    lemma_dec_digits(n as nat);
}

/// Parses the characters `cs[lo..hi]`, given by their codes in `b`.
pub(crate) fn parse_u64_bytes(b: &[u8], lo: usize, hi: usize, Ghost(cs): Ghost<Seq<char>>) -> (r:
    Option<u64>)
    requires
        lo <= hi <= b@.len(),
        b@.len() == cs.len(),
        forall|i: int| 0 <= i < cs.len() ==> ascii_code(#[trigger] cs[i]) == b@[i] as int,
    ensures
        r == parse_u64_spec(cs.subrange(lo as int, hi as int)),
{
    let ghost s = cs.subrange(lo as int, hi as int);
    let mut start: usize = lo;
    if lo < hi && b[lo] == 43u8 {
        start = lo + 1;
        assert(s.drop_first() =~= cs.subrange(start as int, hi as int));
    }
    let ghost d = cs.subrange(start as int, hi as int);
    assert(unsigned_digits(s) == d);
    if start == hi {
        return None;
    }
    let mut v: u64 = 0;
    let mut i: usize = start;
    while i < hi
        invariant
            start <= i <= hi <= b@.len(),
            b@.len() == cs.len(),
            forall|k: int| 0 <= k < cs.len() ==> ascii_code(#[trigger] cs[k]) == b@[k] as int,
            lo <= start,
            s == cs.subrange(lo as int, hi as int),
            d == cs.subrange(start as int, hi as int),
            unsigned_digits(s) == d,
            all_digits(cs.subrange(start as int, i as int)),
            v as nat == digits_value(cs.subrange(start as int, i as int)),
        decreases hi - i,
    {
        let c = b[i];
        if c < 48u8 || c > 57u8 {
            assert(d[i - start] == cs[i as int]);
            assert(!is_digit(d[i - start]));
            assert(!all_digits(d));
            return None;
        }
        let ghost pre = cs.subrange(start as int, i as int);
        let ghost next = cs.subrange(start as int, i + 1);
        assert(next.drop_last() =~= pre);
        assert(next.last() == cs[i as int]);
        let digit: u64 = (c - 48u8) as u64;
        if v > (u64::MAX - digit) / 10 {
            proof {
                assert(digit_value(cs[i as int]) == digit as nat);
                assert(digits_value(next) == v as nat * 10 + digit as nat);
                assert(v as nat * 10 + digit as nat > u64::MAX) by (nonlinear_arith)
                    requires v > (u64::MAX - digit) / 10, digit < 10;
                assert(digits_value(next) > u64::MAX);
                assert(d.subrange(0, i + 1 - start) =~= next);
                lemma_digits_value_prefix(d, i + 1 - start);
            }
            return None;
        }
        v = v * 10 + digit;
        i = i + 1;
        assert(all_digits(cs.subrange(start as int, i as int))) by {
            assert forall|k: int| 0 <= k < next.len() implies is_digit(#[trigger] next[k]) by {
                if k < pre.len() {
                    assert(next[k] == pre[k]);
                }
            }
        }
    }
    assert(cs.subrange(start as int, i as int) =~= d);
    Some(v)
}

/// The one-character text of a decimal digit.
fn digit_str(d: u64) -> (r: &'static str)
    requires
        d < 10,
    ensures
        r@ == seq![digit_char(d as nat)],
{
    proof {
        reveal_strlit("0");
        reveal_strlit("1");
        reveal_strlit("2");
        reveal_strlit("3");
        reveal_strlit("4");
        reveal_strlit("5");
        reveal_strlit("6");
        reveal_strlit("7");
        reveal_strlit("8");
        reveal_strlit("9");
    }
    if d == 0 {
        "0"
    } else if d == 1 {
        "1"
    } else if d == 2 {
        "2"
    } else if d == 3 {
        "3"
    } else if d == 4 {
        "4"
    } else if d == 5 {
        "5"
    } else if d == 6 {
        "6"
    } else if d == 7 {
        "7"
    } else if d == 8 {
        "8"
    } else {
        "9"
    }
}

/// Appends the decimal rendering of `n` to `out`.
pub fn push_decimal(out: &mut String, n: u64)
    ensures
        final(out)@ == old(out)@ + dec(n as nat),
    decreases n,
{
    if n >= 10 {
        push_decimal(out, n / 10);
    }
    out.append(digit_str(n % 10));
    proof {
        if n >= 10 {
            assert(dec(n as nat) == dec((n / 10) as nat).push(digit_char((n % 10) as nat)));
        }
    }
    assert(final(out)@ =~= old(out)@ + dec(n as nat));
}

/// The decimal rendering of `n`, as `n.to_string()` gives it.
pub fn to_decimal(n: u64) -> (r: String)
    ensures
        r@ == dec(n as nat),
{
    let mut s = String::new();
    push_decimal(&mut s, n);
    assert(s@ =~= dec(n as nat));
    s
}

} // verus!
