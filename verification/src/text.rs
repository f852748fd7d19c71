//! Text rules of the engine: the destination filename derived from a URL,
//! the probe headers read into plain values, and the ranged-request header
//! built from a byte range.
use vstd::prelude::*;
use vstd::string::{StrSliceExecFns, StringExecFns};

verus! {

/// The characters after the last slash of `s`: the whole of `s` if it has no
/// slash, empty if it ends in one.
pub open spec fn tail_after_slash(s: Seq<char>) -> Seq<char>
    decreases s.len(),
{
    if s.len() == 0 {
        s
    } else if s.last() == '/' {
        Seq::empty()
    } else {
        tail_after_slash(s.drop_last()).push(s.last())
    }
}

/// The filename a URL yields: its last path segment, or the fixed fallback
/// name when the URL has no discernible segment.
pub open spec fn spec_filename(url: Seq<char>) -> Seq<char> {
    if tail_after_slash(url).len() == 0 {
        "download.bin"@
    } else {
        tail_after_slash(url)
    }
}

/// After the last slash, the tail is exactly the suffix that starts there.
proof fn lemma_tail_after_slash(s: Seq<char>, cut: int)
    requires
        0 <= cut <= s.len(),
        cut == 0 || s[cut - 1] == '/',
        forall|k: int| cut <= k < s.len() ==> s[k] != '/',
    ensures
        tail_after_slash(s) == s.subrange(cut, s.len() as int),
    decreases s.len(),
{
    if cut == s.len() {
        if s.len() == 0 {
            assert(tail_after_slash(s) =~= s.subrange(cut, s.len() as int));
        } else {
            assert(s.last() == '/');
            assert(tail_after_slash(s) =~= s.subrange(cut, s.len() as int));
        }
    } else {
        assert(s[s.len() - 1] != '/');
        lemma_tail_after_slash(s.drop_last(), cut);
        assert(s.drop_last().subrange(cut, s.len() - 1) =~= s.subrange(cut, s.len() - 1));
        assert(tail_after_slash(s) =~= s.subrange(cut, s.len() as int));
    }
}

/// Derives the destination filename from the URL: the last path segment, or
/// the fallback name when the URL ends in a slash or is empty.
pub fn derive_filename(url: &str) -> (r: String)
    ensures
        r@ == spec_filename(url@),
{
    let n: usize = url.unicode_len();
    let mut cut: usize = 0;
    let mut j: usize = 0;
    while j < n
        invariant
            n == url@.len(),
            j <= n,
            cut <= j,
            cut == 0 || url@[cut - 1] == '/',
            forall|k: int| cut <= k < j ==> url@[k] != '/',
        decreases n - j,
    {
        if url.get_char(j) == '/' {
            cut = j + 1;
        }
        j = j + 1;
    }
    proof {
        lemma_tail_after_slash(url@, cut as int);
    }
    if cut == n {
        "download.bin".to_owned()
    } else {
        url.substring_char(cut, n).to_owned()
    }
}

/// A decimal digit byte.
pub open spec fn is_digit(b: u8) -> bool {
    48 <= b <= 57
}

/// Every byte a decimal digit.
pub open spec fn all_digits(s: Seq<u8>) -> bool {
    forall|i: int| 0 <= i < s.len() ==> is_digit(#[trigger] s[i])
}

/// The number a sequence of digit bytes denotes.
pub open spec fn dec_value(s: Seq<u8>) -> int
    decreases s.len(),
{
    if s.len() == 0 {
        0
    } else {
        dec_value(s.drop_last()) * 10 + (s.last() - 48)
    }
}

/// The digit part of a length header: a single leading plus sign is
/// tolerated, as the standard number parser tolerates it.
pub open spec fn digits_of_header(s: Seq<u8>) -> Seq<u8> {
    if s.len() > 0 && s[0] == 43 {
        s.subrange(1, s.len() as int)
    } else {
        s
    }
}

/// The declared content length a header value denotes: its digits read as a
/// number, or zero when it is empty, not a number, or too large to hold.
pub open spec fn spec_content_length(s: Seq<u8>) -> u64 {
    let d = digits_of_header(s);
    if d.len() > 0 && all_digits(d) && dec_value(d) <= u64::MAX {
        dec_value(d) as u64
    } else {
        0
    }
}

/// A longer digit string never denotes a smaller number.
proof fn lemma_dec_value_grows(s: Seq<u8>, k: int)
    requires
        all_digits(s),
        0 <= k <= s.len(),
    ensures
        0 <= dec_value(s.take(k)) <= dec_value(s),
    decreases s.len() - k,
{
    if k == s.len() {
        assert(s.take(k) =~= s);
        lemma_dec_value_nonneg(s);
    } else {
        lemma_dec_value_grows(s, k + 1);
        assert(s.take(k + 1).drop_last() =~= s.take(k));
        assert(s.take(k + 1).last() == s[k]);
        lemma_dec_value_nonneg(s.take(k));
    }
}

/// A digit string denotes a non-negative number.
proof fn lemma_dec_value_nonneg(s: Seq<u8>)
    requires
        all_digits(s),
    ensures
        dec_value(s) >= 0,
    decreases s.len(),
{
    if s.len() > 0 {
        assert(forall|i: int| 0 <= i < s.drop_last().len() ==> s.drop_last()[i] == s[i]);
        lemma_dec_value_nonneg(s.drop_last());
    }
}

/// Reads the declared content length out of a probe's header value: absent,
/// non-numeric, or oversized values all count as an unknown length of zero.
pub fn parse_content_length(header: Option<&Vec<u8>>) -> (n: u64)
    ensures
        n == match header {
            Option::Some(v) => spec_content_length(v@),
            Option::None => 0u64,
        },
{
    let v = match header {
        Option::Some(v) => v,
        Option::None => {
            return 0;
        },
    };
    let start: usize = if v.len() > 0 && v[0] == 43 {
        1
    } else {
        0
    };
    let ghost d = digits_of_header(v@);
    proof {
        assert(d =~= v@.subrange(start as int, v@.len() as int));
    }
    if start == v.len() {
        return 0;
    }
    let mut acc: u64 = 0;
    let mut i: usize = start;
    while i < v.len()
        invariant
            header == Option::Some(v),
            start <= i <= v@.len(),
            d == digits_of_header(v@),
            d == v@.subrange(start as int, v@.len() as int),
            d.len() > 0,
            all_digits(v@.subrange(start as int, i as int)),
            acc as int == dec_value(v@.subrange(start as int, i as int)),
        decreases v@.len() - i,
    {
        let b = v[i];
        let ghost pre = v@.subrange(start as int, i as int);
        proof {
            assert(v@.subrange(start as int, i as int + 1).drop_last() =~= pre);
            assert(v@.subrange(start as int, i as int + 1).last() == v@[i as int]);
            assert(d.take(i - start as int + 1) =~= v@.subrange(start as int, i as int + 1));
        }
        if b < 48 || b > 57 {
            proof {
                assert(d[i - start as int] == v@[i as int]);
                assert(!all_digits(d));
            }
            return 0;
        }
        let step = match acc.checked_mul(10) {
            Option::Some(m) => m.checked_add((b - 48) as u64),
            Option::None => Option::None,
        };
        match step {
            Option::Some(next) => {
                acc = next;
            },
            Option::None => {
                proof {
                    assert(dec_value(v@.subrange(start as int, i as int + 1)) > u64::MAX);
                    if all_digits(d) {
                        lemma_dec_value_grows(d, i - start as int + 1);
                    }
                }
                return 0;
            },
        }
        i = i + 1;
    }
    proof {
        assert(v@.subrange(start as int, i as int) =~= d);
    }
    acc
}

/// The token a server advertises when it honors byte ranges.
pub open spec fn is_bytes_token(s: Seq<u8>) -> bool {
    s == seq![98u8, 121u8, 116u8, 101u8, 115u8]
}

/// Whether the probe's ranges header advertises byte-range support: it must
/// hold exactly the bytes of the ranges token.
pub fn accepts_byte_ranges(header: Option<&Vec<u8>>) -> (r: bool)
    ensures
        r == match header {
            Option::Some(v) => is_bytes_token(v@),
            Option::None => false,
        },
{
    match header {
        Option::None => false,
        Option::Some(v) => {
            if v.len() != 5 {
                proof {
                    assert(!is_bytes_token(v@));
                }
                false
            } else {
                let r = v[0] == 98 && v[1] == 121 && v[2] == 116 && v[3] == 101 && v[4] == 115;
                proof {
                    if r {
                        assert(v@ =~= seq![98u8, 121u8, 116u8, 101u8, 115u8]);
                    }
                }
                r
            }
        },
    }
}

/// The decimal digit character for a value below ten.
pub open spec fn dec_digit_char(d: int) -> char {
    if d == 0 {
        '0'
    } else if d == 1 {
        '1'
    } else if d == 2 {
        '2'
    } else if d == 3 {
        '3'
    } else if d == 4 {
        '4'
    } else if d == 5 {
        '5'
    } else if d == 6 {
        '6'
    } else if d == 7 {
        '7'
    } else if d == 8 {
        '8'
    } else {
        '9'
    }
}

/// The decimal rendering of a non-negative number, most significant digit
/// first.
pub open spec fn dec_chars(n: int) -> Seq<char>
    decreases n,
{
    if n < 10 {
        seq![dec_digit_char(n)]
    } else {
        dec_chars(n / 10).push(dec_digit_char(n % 10))
    }
}

/// One decimal digit as text.
fn digit_str(d: u64) -> (r: &'static str)
    requires
        d < 10,
    ensures
        r@ == seq![dec_digit_char(d as int)],
{
    proof {
        reveal_strlit("0");
        reveal_strlit("1");
        reveal_strlit("2");
        reveal_strlit("3");
        reveal_strlit("4");
        reveal_strlit("5");
        reveal_strlit("6");
        reveal_strlit("7");
        reveal_strlit("8");
        reveal_strlit("9");
    }
    let r = match d {
        0 => "0",
        1 => "1",
        2 => "2",
        3 => "3",
        4 => "4",
        5 => "5",
        6 => "6",
        7 => "7",
        8 => "8",
        _ => "9",
    };
    proof {
        assert(r@ =~= seq![dec_digit_char(d as int)]);
    }
    r
}

/// Appends the decimal rendering of `n`.
fn push_decimal(s: &mut String, n: u64)
    ensures
        final(s)@ == old(s)@ + dec_chars(n as int),
    decreases n,
{
    if n >= 10 {
        push_decimal(s, n / 10);
        s.append(digit_str(n % 10));
        proof {
            assert(s@ =~= old(s)@ + dec_chars(n as int));
        }
    } else {
        s.append(digit_str(n));
        proof {
            assert(s@ =~= old(s)@ + dec_chars(n as int));
        }
    }
}

/// The value of the ranged-request header for one chunk, asking for the
/// bytes of `[start, end]` inclusively.
pub open spec fn spec_range_header(start: u64, end: u64) -> Seq<char> {
    "bytes="@ + dec_chars(start as int) + "-"@ + dec_chars(end as int)
}

/// Builds the ranged-request header value for one chunk. Only the
/// multi-stream path ever asks for one.
pub fn range_header_value(start: u64, end: u64) -> (r: String)
    ensures
        r@ == spec_range_header(start, end),
{
    let mut s = "bytes=".to_owned();
    push_decimal(&mut s, start);
    s.append("-");
    push_decimal(&mut s, end);
    proof {
        assert(s@ =~= spec_range_header(start, end));
    }
    s
}

} // verus!
