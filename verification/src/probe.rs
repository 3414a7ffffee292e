//! Interpretation of what a metadata probe learned about a resource: its
//! total size from the content-length header and whether the server supports
//! byte-range requests.

use vstd::prelude::*;

verus! {

/// What a metadata probe learned: the resource's byte count and whether the
/// server honours byte-range requests.
#[derive(Clone, Copy, Debug, PartialEq, Eq, Structural)]
pub struct ProbeResult {
    pub total_size: u64,
    pub supports_ranges: bool,
}

/// Whether `c` is an ASCII decimal digit.
pub open spec fn is_digit(c: char) -> bool {
    48 <= c as int <= 57
}

/// The numeric value of an ASCII decimal digit.
pub open spec fn digit_val(c: char) -> int {
    c as int - 48
}

/// Whether every character of `s` is an ASCII decimal digit.
pub open spec fn all_digits(s: Seq<char>) -> bool {
    forall|i: int| 0 <= i < s.len() ==> is_digit(#[trigger] s[i])
}

/// The value of `s` read as a decimal numeral.
pub open spec fn digits_val(s: Seq<char>) -> int
    decreases s.len(),
{
    if s.len() == 0 {
        0
    } else {
        digits_val(s.drop_last()) * 10 + digit_val(s.last())
    }
}

/// `s` with one leading `+` sign removed, if it has one: the digits of a
/// decimal numeral as `u64` reads them.
pub open spec fn numeral_body(s: Seq<char>) -> Seq<char> {
    if s.len() > 0 && s[0] == '+' {
        s.subrange(1, s.len() as int)
    } else {
        s
    }
}

/// Whether `s` is a decimal numeral a `u64` can hold: optionally signed with
/// `+`, then at least one digit, with value at most `u64::MAX`.
pub open spec fn parses_as_u64(s: Seq<char>) -> bool {
    let b = numeral_body(s);
    b.len() > 0 && all_digits(b) && digits_val(b) <= u64::MAX
}

/// The value `s` parses to.
pub open spec fn parsed_val(s: Seq<char>) -> int {
    digits_val(numeral_body(s))
}

/// A decimal numeral's value is never negative.
proof fn lemma_digits_val_nonneg(s: Seq<char>)
    requires
        all_digits(s),
    ensures
        digits_val(s) >= 0,
    decreases s.len(),
{
    if s.len() > 0 {
        assert(all_digits(s.drop_last()));
        lemma_digits_val_nonneg(s.drop_last());
    }
}

/// Reading one more digit multiplies the numeral's value by ten and adds the
/// digit.
proof fn lemma_digits_val_step(s: Seq<char>, i: int)
    requires
        0 <= i < s.len(),
    ensures
        digits_val(s.subrange(0, i + 1)) == digits_val(s.subrange(0, i)) * 10 + digit_val(s[i]),
{
    let p = s.subrange(0, i + 1);
    assert(p.drop_last() =~= s.subrange(0, i));
    assert(p.last() == s[i]);
}

/// A decimal numeral's value only grows as digits are appended.
proof fn lemma_digits_val_prefix_le(s: Seq<char>, i: int)
    requires
        all_digits(s),
        0 <= i <= s.len(),
    ensures
        digits_val(s.subrange(0, i)) <= digits_val(s),
    decreases s.len() - i,
{
    if i == s.len() {
        assert(s.subrange(0, i) =~= s);
    } else {
        lemma_digits_val_step(s, i);
        assert(all_digits(s.subrange(0, i)));
        lemma_digits_val_nonneg(s.subrange(0, i));
        lemma_digits_val_prefix_le(s, i + 1);
    }
}

/// Parses a content-length value as `str::parse::<u64>` reads it: an optional
/// leading `+`, then one or more decimal digits, rejecting values above
/// `u64::MAX`.
pub fn parse_content_length(s: &str) -> (r: Option<u64>)
    ensures
        r is Some <==> parses_as_u64(s@),
        r is Some ==> r->0 == parsed_val(s@),
{
    let len = s.unicode_len();
    let start: usize = if len > 0 && s.get_char(0) == '+' {
        1
    } else {
        0
    };
    let ghost body = numeral_body(s@);
    proof {
        assert(body =~= s@.subrange(start as int, s@.len() as int));
    }
    if len == start {
        return None;
    }
    let mut acc: u64 = 0;
    let mut i: usize = start;
    while i < len
        invariant
            start <= i <= len,
            len == s@.len(),
            body == numeral_body(s@),
            body == s@.subrange(start as int, s@.len() as int),
            len > start,
            all_digits(body.subrange(0, i - start)),
            acc == digits_val(body.subrange(0, i - start)),
        decreases len - i,
    {
        let c = s.get_char(i);
        let u = c as u32;
        if u < 48 || u > 57 {
            proof {
                assert(body[i - start] == s@[i as int]);
                assert(!is_digit(body[i - start]));
            }
            return None;
        }
        let d: u64 = ((u - 48) as u8) as u64;
        if acc > (u64::MAX - d) / 10 {
            proof {
                lemma_digits_val_step(body, i - start);
                assert(acc * 10 + d > u64::MAX) by (nonlinear_arith)
                    requires
                        acc > (u64::MAX - d) / 10,
                        0 <= d <= 9,
                        acc >= 0,
                ;
                if all_digits(body) {
                    lemma_digits_val_prefix_le(body, i - start + 1);
                }
            }
            return None;
        }
        proof {
            lemma_digits_val_step(body, i - start);
            assert(acc * 10 + d <= u64::MAX) by (nonlinear_arith)
                requires
                    acc <= (u64::MAX - d) / 10,
                    0 <= d <= 9,
                    acc >= 0,
            ;
            assert(body.subrange(0, i - start + 1) =~= body.subrange(0, i - start).push(
                body[i - start],
            ));
            assert(all_digits(body.subrange(0, i - start + 1)));
        }
        acc = acc * 10 + d;
        i = i + 1;
    }
    proof {
        assert(body.subrange(0, i - start) =~= body);
    }
    Some(acc)
}

/// Whether the accept-ranges header value is exactly the literal `bytes`, the
/// one value this engine treats as range support.
pub fn header_is_bytes(s: &str) -> (r: bool)
    ensures
        r <==> s@ == "bytes"@,
{
    proof {
        reveal_strlit("bytes");
    }
    let len = s.unicode_len();
    if len != 5 {
        proof {
            assert(s@ != "bytes"@);
        }
        return false;
    }
    let r = s.get_char(0) == 'b' && s.get_char(1) == 'y' && s.get_char(2) == 't' && s.get_char(3)
        == 'e' && s.get_char(4) == 's';
    proof {
        if r {
            assert(s@ =~= "bytes"@);
        }
    }
    r
}

/// Whether an optional accept-ranges header announces byte-range support:
/// present and exactly `bytes`.
pub open spec fn announces_ranges(h: Option<Seq<char>>) -> bool {
    match h {
        Option::Some(v) => v == "bytes"@,
        Option::None => false,
    }
}

/// Interprets the probe's two headers: the total size must be a parsable
/// content-length, and range support holds exactly when the accept-ranges
/// value is the literal `bytes`; absence or any other value is conservatively
/// treated as no support.
pub fn interpret_probe(content_length: Option<&str>, accept_ranges: Option<&str>) -> (r: Result<
    ProbeResult,
    crate::error::DownloadError,
>)
    ensures
        r is Ok <==> (content_length is Some && parses_as_u64(content_length->0@)),
        r is Ok ==> r->Ok_0.total_size == parsed_val(content_length->0@),
        r is Ok ==> r->Ok_0.supports_ranges == announces_ranges(
            match accept_ranges {
                Option::Some(v) => Option::Some(v@),
                Option::None => Option::None,
            },
        ),
        r is Err ==> r->Err_0 == crate::error::DownloadError::MissingContentLength,
{
    let total_size = match content_length {
        Option::Some(v) => match parse_content_length(v) {
            Option::Some(n) => n,
            Option::None => {
                return Result::Err(crate::error::DownloadError::MissingContentLength);
            },
        },
        Option::None => {
            return Result::Err(crate::error::DownloadError::MissingContentLength);
        },
    };
    let supports_ranges = match accept_ranges {
        Option::Some(v) => header_is_bytes(v),
        Option::None => false,
    };
    Result::Ok(ProbeResult { total_size, supports_ranges })
}

/// The size a bare size probe reports: the parsed content-length, or zero
/// when the header is absent or unparsable.
pub fn size_or_zero(content_length: Option<&str>) -> (r: u64)
    ensures
        content_length is Some && parses_as_u64(content_length->0@) ==> r == parsed_val(
            content_length->0@,
        ),
        !(content_length is Some && parses_as_u64(content_length->0@)) ==> r == 0,
{
    match content_length {
        Option::Some(v) => match parse_content_length(v) {
            Option::Some(n) => n,
            Option::None => 0,
        },
        Option::None => 0,
    }
}

} // verus!
