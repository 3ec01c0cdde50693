//! Resolution of a single `Range: bytes=<start>-<end>` request against the
//! length of the resource it asks for.
use vstd::prelude::*;
use crate::decimal::{ascii_code, dec, lemma_dec_digits, lemma_parse_dec, parse_u64_bytes, parse_u64_spec};

verus! {

pub open spec fn bytes_prefix() -> Seq<char> {
    seq!['b', 'y', 't', 'e', 's', '=']
}

pub open spec fn has_bytes_prefix(h: Seq<char>) -> bool {
    h.len() >= 6 && h.subrange(0, 6) == bytes_prefix()
}

/// `k` is the position of the one and only `-` in `r`.
pub open spec fn single_dash(r: Seq<char>, k: int) -> bool {
    &&& 0 <= k < r.len()
    &&& r[k] == '-'
    &&& forall|j: int| 0 <= j < r.len() && j != k ==> #[trigger] r[j] != '-'
}

/// The window that a parsed start and end give in a resource of `length`
/// bytes: none when the start is missing or past the end, or when the
/// window would be empty; a missing or too large end is clamped to the last
/// byte.
pub open spec fn window_spec(start: Option<u64>, end: Option<u64>, length: u64) -> Option<(u64, u64)> {
    match start {
        None => None,
        Some(s) => if s >= length {
            None
        } else {
            let e = match end {
                Some(e) => if e > length - 1 { (length - 1) as u64 } else { e },
                None => (length - 1) as u64,
            };
            if e < s { None } else { Some((s, e)) }
        },
    }
}

/// The window that the header text `h` selects in a resource of `length`
/// bytes, or `None` for the whole resource.
pub open spec fn range_spec(h: Seq<char>, length: u64) -> Option<(u64, u64)> {
    let r = h.subrange(6, h.len() as int);
    if has_bytes_prefix(h) && exists|k: int| single_dash(r, k) {
        let k = choose|k: int| single_dash(r, k);
        window_spec(
            parse_u64_spec(r.subrange(0, k)),
            parse_u64_spec(r.subrange(k + 1, r.len() as int)),
            length,
        )
    } else {
        None
    }
}

/// The header text `bytes=<start>-<end>` written in decimal.
pub open spec fn range_header(start: u64, end: u64) -> Seq<char> {
    bytes_prefix() + dec(start as nat) + seq!['-'] + dec(end as nat)
}

/// Parses the value of a `Range` header against a resource of `file_size`
/// bytes. Returns the inclusive window `(start, end)`, or `None` when the
/// whole resource is to be served: the text is not of the form
/// `bytes=<start>-<end>`, the start is missing or not a number, the start is
/// at or past the end of the resource, or the end lies before the start.
/// An end that is missing or not a number, or lies past the last byte,
/// counts as the last byte.
pub fn parse_range(range_str: &str, file_size: u64) -> (r: Option<(u64, u64)>)
    ensures
        r == range_spec(range_str@, file_size),
        r matches Some((s, e)) ==> s <= e < file_size,
{
    let ghost cs = range_str@;
    if range_str.is_ascii() {
        let b = range_str.as_bytes();
        proof {
            vstd::string::is_ascii_spec_bytes(range_str);
            assert forall|i: int| 0 <= i < cs.len() implies ascii_code(#[trigger] cs[i]) == b@[i] as int by {
                vstd::utf8::is_ascii_chars_nat_bound(cs);
                assert(b@[i] == cs[i] as u8);
            }
        }
        parse_range_codes(b, Ghost(cs), file_size)
    } else {
        let codes = char_codes(range_str);
        parse_range_codes(codes.as_slice(), Ghost(cs), file_size)
    }
}

/// The codes of the characters of `s`, one per character.
fn char_codes(s: &str) -> (r: Vec<u8>)
    ensures
        r@.len() == s@.len(),
        forall|i: int| 0 <= i < s@.len() ==> ascii_code(#[trigger] s@[i]) == r@[i] as int,
{
    let n = s.unicode_len();
    let mut r: Vec<u8> = Vec::new();
    let mut i: usize = 0;
    while i < n
        invariant
            n == s@.len(),
            i <= n,
            r@.len() == i,
            forall|k: int| 0 <= k < i ==> ascii_code(#[trigger] s@[k]) == r@[k] as int,
        decreases n - i,
    {
        let c = s.get_char(i);
        let v: u32 = c as u32;
        if v < 128 {
            r.push(v as u8);
        } else {
            r.push(255u8);
        }
        i = i + 1;
    }
    r
}

/// The window that the characters `cs`, given by their codes in `b`, select.
fn parse_range_codes(b: &[u8], Ghost(cs): Ghost<Seq<char>>, file_size: u64) -> (r: Option<(u64, u64)>)
    requires
        b@.len() == cs.len(),
        forall|i: int| 0 <= i < cs.len() ==> ascii_code(#[trigger] cs[i]) == b@[i] as int,
    ensures
        r == range_spec(cs, file_size),
        r matches Some((s, e)) ==> s <= e < file_size,
{
    let n = b.len();
    if n < 6 || b[0] != 98u8 || b[1] != 121u8 || b[2] != 116u8 || b[3] != 101u8 || b[4] != 115u8
        || b[5] != 61u8 {
        proof {
            if cs.len() >= 6 && cs.subrange(0, 6) == bytes_prefix() {
                assert(cs[0] == cs.subrange(0, 6)[0]);
                assert(cs[1] == cs.subrange(0, 6)[1]);
                assert(cs[2] == cs.subrange(0, 6)[2]);
                assert(cs[3] == cs.subrange(0, 6)[3]);
                assert(cs[4] == cs.subrange(0, 6)[4]);
                assert(cs[5] == cs.subrange(0, 6)[5]);
            }
        }
        return None;
    }
    assert(cs.subrange(0, 6) =~= bytes_prefix());
    let ghost r = cs.subrange(6, cs.len() as int);
    // Count the dashes after the prefix, and remember the first.
    let mut dashes: usize = 0;
    let mut first: usize = n;
    let mut i: usize = 6;
    while i < n
        invariant
            6 <= i <= n == b@.len() == cs.len(),
            r == cs.subrange(6, cs.len() as int),
            forall|k: int| 0 <= k < cs.len() ==> ascii_code(#[trigger] cs[k]) == b@[k] as int,
            dashes <= i - 6,
            dashes == 0 ==> first == n && forall|j: int| 6 <= j < i ==> #[trigger] cs[j] != '-',
            dashes == 1 ==> 6 <= first < i && cs[first as int] == '-' && forall|j: int|
                6 <= j < i && j != first ==> #[trigger] cs[j] != '-',
            dashes >= 2 ==> 6 <= first < i && cs[first as int] == '-' && exists|j: int|
                6 <= j < i && j != first && #[trigger] cs[j] == '-',
        decreases n - i,
    {
        if b[i] == 45u8 {
            assert(cs[i as int] == '-');
            if dashes == 0 {
                first = i;
            } else {
                assert(cs[i as int] == '-');
            }
            if dashes < 2 {
                dashes = dashes + 1;
            }
        } else {
            assert(cs[i as int] != '-');
        }
        i = i + 1;
    }
    if dashes != 1 {
        proof {
            if exists|k: int| single_dash(r, k) {
                let k = choose|k: int| single_dash(r, k);
                assert(r[k] == cs[k + 6]);
                if dashes >= 2 {
                    let j = choose|j: int| 6 <= j < n && j != first && #[trigger] cs[j] == '-';
                    assert(r[j - 6] == cs[j]);
                    assert(r[first - 6] == cs[first as int]);
                }
            }
        }
        return None;
    }
    let ghost k = first - 6;
    assert(single_dash(r, k)) by {
        assert forall|j: int| 0 <= j < r.len() && j != k implies #[trigger] r[j] != '-' by {
            assert(r[j] == cs[j + 6]);
        }
    }
    assert(r.subrange(0, k) =~= cs.subrange(6, first as int));
    assert(r.subrange(k + 1, r.len() as int) =~= cs.subrange(first + 1, n as int));
    let start = parse_u64_bytes(b, 6, first, Ghost(cs));
    let end = parse_u64_bytes(b, first + 1, n, Ghost(cs));
    resolve_window(start, end, file_size)
}

/// Applies the window rules to a parsed start and end.
fn resolve_window(start: Option<u64>, end: Option<u64>, length: u64) -> (r: Option<(u64, u64)>)
    ensures
        r == window_spec(start, end, length),
{
    match start {
        None => None,
        Some(s) => {
            if s >= length {
                return None;
            }
            let e = match end {
                Some(e) => if e > length - 1 { length - 1 } else { e },
                None => length - 1,
            };
            if e < s { None } else { Some((s, e)) }
        },
    }
}

/// Resolves an optional `Range` header: no header, or one that names no
/// window, means the whole resource.
pub fn resolve_range(header: Option<&str>, file_size: u64) -> (r: Option<(u64, u64)>)
    ensures
        r == match header {
            Some(h) => range_spec(h@, file_size),
            None => None,
        },
{
    match header {
        Some(h) => parse_range(h, file_size),
        None => None,
    }
}

/// A well-formed request `bytes=<start>-<end>` with `start <= end` inside the
/// resource resolves to exactly that window; a start at or past the end of
/// the resource resolves to the whole resource.
pub proof fn lemma_range_exact(start: u64, end: u64, length: u64)
    ensures
        start <= end < length ==> range_spec(range_header(start, end), length) == Some((start, end)),
        start >= length ==> range_spec(range_header(start, end), length) is None,
{
    let h = range_header(start, end);
    let ds = dec(start as nat);
    let de = dec(end as nat);
    lemma_dec_digits(start as nat);
    lemma_dec_digits(end as nat);
    lemma_parse_dec(start);
    lemma_parse_dec(end);
    let r = h.subrange(6, h.len() as int);
    assert(h.subrange(0, 6) =~= bytes_prefix());
    assert(r =~= ds + seq!['-'] + de);
    let k = ds.len() as int;
    assert(single_dash(r, k)) by {
        assert forall|j: int| 0 <= j < r.len() && j != k implies #[trigger] r[j] != '-' by {
            if j < k {
                assert(r[j] == ds[j]);
            } else {
                assert(r[j] == de[j - k - 1]);
            }
        }
    }
    let k2 = choose|k: int| single_dash(r, k);
    assert(k2 == k);
    assert(r.subrange(0, k) =~= ds);
    assert(r.subrange(k + 1, r.len() as int) =~= de);
}

} // verus!
