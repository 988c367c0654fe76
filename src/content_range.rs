//! Parsing and validation of `Content-Range: bytes <start>-<end>/<total>`.
use vstd::prelude::*;
use crate::header::{decimal, digit_char};

verus! {

/// Why one transfer attempt failed. Every kind is retried by its caller.
#[derive(Debug, Clone, Copy, PartialEq, Eq, Structural)]
pub enum TransferError {
    /// The request could not be sent or the connection broke.
    ConnectionError,
    /// The response advertises no content length.
    ContentLengthMissing,
    /// The response carries no `Content-Range` header.
    ContentRangeMissing,
    /// The `Content-Range` header is not of the form `unit start-end/total`.
    ContentRangeMalformed,
    /// The server confirmed a range that starts elsewhere than requested.
    ContentRangeMismatch,
    /// The body ended or stalled before a whole chunk was read.
    ReadTimeout,
}

pub open spec fn is_digit(c: char) -> bool {
    '0' <= c && c <= '9'
}

pub open spec fn digit_value(c: char) -> nat {
    (c as nat - '0' as nat) as nat
}

/// The number that a string of decimal digits denotes.
pub open spec fn digits_value(s: Seq<char>) -> nat
    decreases s.len(),
{
    if s.len() == 0 {
        0
    } else {
        digits_value(s.drop_last()) * 10 + digit_value(s.last())
    }
}

pub open spec fn all_digits(s: Seq<char>) -> bool {
    forall|i: int| 0 <= i < s.len() ==> is_digit(#[trigger] s[i])
}

/// The unsigned 64-bit integer written in decimal in `s`: at least one
/// digit, nothing else, with a value that fits.
pub open spec fn u64_of(s: Seq<char>) -> Option<u64> {
    if s.len() > 0 && all_digits(s) && digits_value(s) <= u64::MAX {
        Some(digits_value(s) as u64)
    } else {
        None
    }
}

/// The unit word of a byte range.
pub open spec fn bytes_unit() -> Seq<char> {
    seq!['b', 'y', 't', 'e', 's']
}

pub open spec fn is_first_index(s: Seq<char>, c: char, i: int) -> bool {
    0 <= i < s.len() && s[i] == c && forall|j: int| 0 <= j < i ==> s[j] != c
}

/// Position of the first `c` in `s`.
pub open spec fn index_of(s: Seq<char>, c: char) -> Option<int> {
    if exists|i: int| is_first_index(s, c, i) {
        Some(choose|i: int| is_first_index(s, c, i))
    } else {
        None
    }
}

/// The three numbers of a `Content-Range` value `bytes start-end/total`:
/// the text before the first space is the unit `bytes`; the text after it is
/// split at its first `/` and, before that, at the first `-`; each of the
/// three parts is a decimal number.
pub open spec fn content_range_fields(s: Seq<char>) -> Option<(u64, u64, u64)> {
    match index_of(s, ' ') {
        None => None,
        Some(sp) => if s.take(sp) != bytes_unit() {
            None
        } else {
            let content = s.skip(sp + 1);
            match index_of(content, '/') {
                None => None,
                Some(sl) => {
                    let se = content.take(sl);
                    let total = content.skip(sl + 1);
                    match index_of(se, '-') {
                        None => None,
                        Some(dash) => {
                            match (u64_of(se.take(dash)), u64_of(se.skip(dash + 1)), u64_of(total)) {
                                (Some(a), Some(b), Some(t)) => Some((a, b, t)),
                                _ => None,
                            }
                        },
                    }
                },
            }
        },
    }
}

proof fn lemma_first_index_unique(s: Seq<char>, c: char, i: int, k: int)
    requires
        is_first_index(s, c, i),
        is_first_index(s, c, k),
    ensures
        i == k,
{
    if i < k {
        assert(s[i] != c);
    } else if k < i {
        assert(s[k] != c);
    }
}

proof fn lemma_prefix_value_le(s: Seq<char>, k: int)
    requires
        0 <= k <= s.len(),
    ensures
        digits_value(s.take(k)) <= digits_value(s),
    decreases s.len(),
{
    if k < s.len() {
        assert(s.drop_last().take(k) =~= s.take(k));
        lemma_prefix_value_le(s.drop_last(), k);
    } else {
        assert(s.take(k) =~= s);
    }
}

/// First `c` in `s` between positions `from` (included) and `to` (excluded).
fn find_char(s: &str, from: usize, to: usize, c: char) -> (r: Option<usize>)
    requires
        from <= to <= s@.len(),
    ensures
        r matches Some(i) ==> from <= i < to && index_of(s@.subrange(from as int, to as int), c) == Some(i - from),
        r is None ==> index_of(s@.subrange(from as int, to as int), c) is None,
{
    let ghost t = s@.subrange(from as int, to as int);
    let mut i: usize = from;
    while i < to
        invariant
            from <= i <= to <= s@.len(),
            t == s@.subrange(from as int, to as int),
            forall|j: int| 0 <= j < i - from ==> t[j] != c,
        decreases to - i,
    {
        if s.get_char(i) == c {
            proof {
                let w = i - from;
                assert(is_first_index(t, c, w));
                let k = choose|k: int| is_first_index(t, c, k);
                lemma_first_index_unique(t, c, w, k);
            }
            return Some(i);
        }
        i = i + 1;
    }
    proof {
        assert(!exists|k: int| is_first_index(t, c, k));
    }
    None
}

/// The number written in decimal in `s` between `from` and `to`.
fn parse_u64(s: &str, from: usize, to: usize) -> (r: Option<u64>)
    requires
        from <= to <= s@.len(),
    ensures
        r == u64_of(s@.subrange(from as int, to as int)),
{
    let ghost d = s@.subrange(from as int, to as int);
    if from == to {
        return None;
    }
    let mut acc: u64 = 0;
    let mut i: usize = from;
    while i < to
        invariant
            from <= i <= to <= s@.len(),
            d == s@.subrange(from as int, to as int),
            all_digits(d.take(i - from)),
            acc as nat == digits_value(d.take(i - from)),
        decreases to - i,
    {
        let ch = s.get_char(i);
        let ghost k = i - from;
        assert(d.take(k + 1).drop_last() =~= d.take(k));
        if !('0' <= ch && ch <= '9') {
            assert(!is_digit(d[k]));
            assert(!all_digits(d));
            return None;
        }
        let dv: u64 = (ch as u32 - '0' as u32) as u64;
        assert(dv as nat == digit_value(d[k]));
        if acc > (u64::MAX - dv) / 10 {
            proof {
                assert(digits_value(d.take(k + 1)) > u64::MAX) by (nonlinear_arith)
                    requires
                        acc > (u64::MAX - dv) / 10,
                        digits_value(d.take(k + 1)) == acc * 10 + dv,
                ;
                lemma_prefix_value_le(d, k + 1);
            }
            return None;
        }
        acc = acc * 10 + dv;
        assert(all_digits(d.take(k + 1))) by {
            assert forall|j: int| 0 <= j < k + 1 implies is_digit(#[trigger] d.take(k + 1)[j]) by {
                if j < k {
                    assert(d.take(k + 1)[j] == d.take(k)[j]);
                }
            }
        }
        i = i + 1;
    }
    assert(d.take(i - from) =~= d);
    Some(acc)
}

/// Whether the characters of `s` before `end` spell `bytes`.
fn is_bytes_unit(s: &str, end: usize) -> (r: bool)
    requires
        end <= s@.len(),
    ensures
        r == (s@.take(end as int) == bytes_unit()),
{
    if end != 5 {
        assert(s@.take(end as int).len() != bytes_unit().len());
        return false;
    }
    let r = s.get_char(0) == 'b' && s.get_char(1) == 'y' && s.get_char(2) == 't' && s.get_char(3) == 'e'
        && s.get_char(4) == 's';
    if r {
        assert(s@.take(5) =~= bytes_unit());
    } else {
        assert(s@.take(5) != bytes_unit()) by {
            if s@.take(5) == bytes_unit() {
                assert(s@.take(5)[0] == 'b' && s@.take(5)[1] == 'y' && s@.take(5)[2] == 't');
                assert(s@.take(5)[3] == 'e' && s@.take(5)[4] == 's');
            }
        }
    }
    r
}

/// Reads the numbers of a `Content-Range` value such as
/// `"bytes 15439052-30878103/77195264"`; `None` where the unit is not
/// `bytes`, the text has another shape, or a number is not decimal or does
/// not fit.
pub fn parse_content_range_str(message: &str) -> (r: Option<(u64, u64, u64)>)
    ensures
        r == content_range_fields(message@),
{
    let n = message.unicode_len();
    let ghost s = message@;
    assert(s.subrange(0, n as int) =~= s);
    let sp = match find_char(message, 0, n, ' ') {
        None => return None,
        Some(i) => i,
    };
    if !is_bytes_unit(message, sp) {
        return None;
    }
    let ghost content = s.skip(sp + 1);
    assert(s.subrange(sp + 1, n as int) =~= content);
    let sl = match find_char(message, sp + 1, n, '/') {
        None => return None,
        Some(i) => i,
    };
    let ghost se = content.take(sl - (sp + 1));
    assert(s.subrange(sp + 1, sl as int) =~= se);
    assert(s.subrange(sl + 1, n as int) =~= content.skip(sl - (sp + 1) + 1));
    let dash = match find_char(message, sp + 1, sl, '-') {
        None => return None,
        Some(i) => i,
    };
    let ghost dl = dash - (sp + 1);
    assert(s.subrange(sp + 1, dash as int) =~= se.take(dl));
    assert(s.subrange(dash + 1, sl as int) =~= se.skip(dl + 1));
    let start = parse_u64(message, sp + 1, dash);
    let end = parse_u64(message, dash + 1, sl);
    let total = parse_u64(message, sl + 1, n);
    match (start, end, total) {
        (Some(a), Some(b), Some(t)) => Some((a, b, t)),
        _ => None,
    }
}

/// `parse_content_range_str` with the numbers as `usize`; `None` also where
/// one of them does not fit a `usize`.
pub fn parse_content_range(message: String) -> (r: Option<(usize, usize, usize)>)
    ensures
        r == match content_range_fields(message@) {
            Some((a, b, t)) => if a <= usize::MAX && b <= usize::MAX && t <= usize::MAX {
                Some((a as usize, b as usize, t as usize))
            } else {
                None
            },
            None => None,
        },
{
    match parse_content_range_str(message.as_str()) {
        None => None,
        Some((a, b, t)) => {
            if a <= usize::MAX as u64 && b <= usize::MAX as u64 && t <= usize::MAX as u64 {
                Some((a as usize, b as usize, t as usize))
            } else {
                None
            }
        },
    }
}

/// What the validator decides of a response to a ranged request that was to
/// start at `range_start`, given its advertised length and the text of its
/// `Content-Range` header.
pub open spec fn validation(
    content_length: Option<u64>,
    content_range: Option<Seq<char>>,
    range_start: u64,
) -> Result<(u64, u64, u64), TransferError> {
    if content_length is None {
        Err(TransferError::ContentLengthMissing)
    } else {
        match content_range {
            None => Err(TransferError::ContentRangeMissing),
            Some(text) => match content_range_fields(text) {
                None => Err(TransferError::ContentRangeMalformed),
                Some((start, end, total)) => if start == range_start {
                    Ok((start, end, total))
                } else {
                    Err(TransferError::ContentRangeMismatch)
                },
            },
        }
    }
}

pub open spec fn opt_view(s: Option<&str>) -> Option<Seq<char>> {
    match s {
        Some(t) => Some(t@),
        None => None,
    }
}

/// Checks a response to a ranged request before any of its bytes are used:
/// it must advertise a length and confirm, in `Content-Range`, a range that
/// starts at `range_start`. On success the confirmed start, end and total.
pub fn check_response_error(
    content_length: Option<u64>,
    content_range: Option<&str>,
    range_start: u64,
) -> (r: Result<(u64, u64, u64), TransferError>)
    ensures
        r == validation(content_length, opt_view(content_range), range_start),
{
    if content_length.is_none() {
        return Err(TransferError::ContentLengthMissing);
    }
    match content_range {
        None => Err(TransferError::ContentRangeMissing),
        Some(text) => match parse_content_range_str(text) {
            None => Err(TransferError::ContentRangeMalformed),
            Some((start, end, total)) => {
                if start == range_start {
                    Ok((start, end, total))
                } else {
                    Err(TransferError::ContentRangeMismatch)
                }
            },
        },
    }
}

/// A response whose confirmed range starts elsewhere than requested is
/// rejected with `ContentRangeMismatch`, whatever else it carries.
pub proof fn lemma_mismatched_start_rejected(
    content_length: u64,
    content_range: Seq<char>,
    range_start: u64,
)
    requires
        content_range_fields(content_range) matches Some((s, _, _)) && s != range_start,
    ensures
        validation(Some(content_length), Some(content_range), range_start)
            == Err::<(u64, u64, u64), TransferError>(TransferError::ContentRangeMismatch),
{
}

proof fn lemma_index_of_is(s: Seq<char>, c: char, i: int)
    requires
        is_first_index(s, c, i),
    ensures
        index_of(s, c) == Some(i),
{
    let k = choose|k: int| is_first_index(s, c, k);
    lemma_first_index_unique(s, c, i, k);
}

proof fn lemma_decimal_digits(n: nat)
    ensures
        decimal(n).len() > 0,
        all_digits(decimal(n)),
        digits_value(decimal(n)) == n,
    decreases n,
{
    if n >= 10 {
        lemma_decimal_digits(n / 10);
        let d = decimal(n);
        assert(d.drop_last() =~= decimal(n / 10));
        assert(d.last() == digit_char(n % 10));
        assert(digit_value(digit_char(n % 10)) == n % 10);
        assert((n / 10) * 10 + n % 10 == n);
        assert(digits_value(d) == digits_value(decimal(n / 10)) * 10 + digit_value(d.last()));
        assert forall|i: int| 0 <= i < d.len() implies is_digit(#[trigger] d[i]) by {
            if i < d.len() - 1 {
                assert(d[i] == decimal(n / 10)[i]);
            }
        }
    } else {
        assert(decimal(n).drop_last() =~= Seq::<char>::empty());
        assert(digit_value(digit_char(n)) == n);
        assert(digits_value(Seq::<char>::empty()) == 0);
        assert(digits_value(decimal(n)) == digits_value(decimal(n).drop_last()) * 10 + digit_value(
            decimal(n).last(),
        ));
    }
}

proof fn lemma_u64_of_decimal(n: u64)
    ensures
        u64_of(decimal(n as nat)) == Some(n),
{
    lemma_decimal_digits(n as nat);
    let d = decimal(n as nat);
}

/// Reading back a `Content-Range` value written as
/// `bytes <start>-<end>/<total>` in decimal gives the three numbers it was
/// written from.
pub proof fn lemma_content_range_round_trip(start: u64, end: u64, total: u64)
    ensures
        content_range_fields(
            seq!['b', 'y', 't', 'e', 's', ' '] + decimal(start as nat) + seq!['-'] + decimal(end as nat)
                + seq!['/'] + decimal(total as nat),
        ) == Some((start, end, total)),
{
    let (da, db, dt) = (decimal(start as nat), decimal(end as nat), decimal(total as nat));
    lemma_decimal_digits(start as nat);
    lemma_decimal_digits(end as nat);
    lemma_decimal_digits(total as nat);
    let s = seq!['b', 'y', 't', 'e', 's', ' '] + da + seq!['-'] + db + seq!['/'] + dt;
    lemma_index_of_is(s, ' ', 5);
    assert(s.take(5) =~= bytes_unit());
    let content = s.skip(6);
    assert(content =~= da + seq!['-'] + db + seq!['/'] + dt);
    let sl: int = (da.len() + 1 + db.len()) as int;
    assert(is_first_index(content, '/', sl)) by {
        assert forall|j: int| 0 <= j < sl implies content[j] != '/' by {
            if j < da.len() {
                assert(content[j] == da[j] && is_digit(da[j]));
            } else if j > da.len() {
                assert(content[j] == db[j - da.len() - 1] && is_digit(db[j - da.len() - 1]));
            }
        }
    }
    lemma_index_of_is(content, '/', sl);
    let se = content.take(sl);
    assert(se =~= da + seq!['-'] + db);
    assert(content.skip(sl + 1) =~= dt);
    assert(is_first_index(se, '-', da.len() as int)) by {
        assert forall|j: int| 0 <= j < da.len() implies se[j] != '-' by {
            assert(se[j] == da[j] && is_digit(da[j]));
        }
    }
    lemma_index_of_is(se, '-', da.len() as int);
    assert(se.take(da.len() as int) =~= da);
    assert(se.skip(da.len() as int + 1) =~= db);
    lemma_u64_of_decimal(start);
    lemma_u64_of_decimal(end);
    lemma_u64_of_decimal(total);
}

} // verus!
