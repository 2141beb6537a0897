//! Matrix descriptor parsing: reads the attribute text of a process-count
//! declaration and produces the declared process-count set.
//!
//! Two equivalent surface forms are accepted, a named array form
//! (`np = [2, 4]`) and a positional-list form (`np(2, 4)`), plus a degenerate
//! single-integer form for either (`np = 2`, `np(2)`).  A trailing comma
//! inside a list is allowed.  Elements must be decimal integer literals that
//! fit a `u32`; anything else is a syntax error naming the offending byte.
//! Zero counts are rejected at parse time (a launcher would reject them
//! anyway, and rejecting early keeps the count-set invariant: every count is
//! a positive integer).  An empty count set is a configuration error.

use vstd::prelude::*;

use crate::digits::{digits_value, is_digit, num_end};

verus! {

/// Errors of the generation phase (parsing a declaration and expanding it
/// into units).  Generation-time errors abort building one base test's unit
/// set; they carry the byte offset of the offending construct, or the
/// offending count, for a diagnostic message.
#[derive(Clone, Copy, Debug, PartialEq, Eq, Structural)]
pub enum GenError {
    /// A construct that is not an integer literal (or otherwise breaks the
    /// declaration grammar) at byte `pos`; also an integer literal too large
    /// for a `u32`.
    Syntax { pos: usize },
    /// The declaration yields an empty count set: it requires np values.
    Configuration,
    /// A zero process count at byte `pos`.  Zero counts are rejected while
    /// parsing, as a configuration error.
    ZeroCount { pos: usize },
    /// Two units derived from one base test would share a name: the count
    /// `np` appears twice in the declaration.
    NamingCollision { np: u32 },
}

/// Horizontal whitespace accepted between tokens: space and tab.
pub open spec fn is_ws(b: u8) -> bool {
    b == 32 || b == 9
}

/// The index of the first non-whitespace byte at or after `i`.
pub open spec fn ws_end(s: Seq<u8>, i: int) -> int
    decreases s.len() - i,
{
    if 0 <= i < s.len() && is_ws(s[i]) {
        ws_end(s, i + 1)
    } else {
        i
    }
}

pub proof fn lemma_ws_end(s: Seq<u8>, i: int)
    requires
        0 <= i <= s.len(),
    ensures
        i <= ws_end(s, i) <= s.len(),
        forall|k: int| i <= k < ws_end(s, i) ==> is_ws(#[trigger] s[k]),
        ws_end(s, i) == s.len() || !is_ws(s[ws_end(s, i)]),
    decreases s.len() - i,
{
    if i < s.len() && is_ws(s[i]) {
        lemma_ws_end(s, i + 1);
    }
}

/// Parses one integer element starting at `i` (which must hold a digit):
/// the parsed count and the index just past its digits, or the error the
/// element produces.
pub open spec fn spec_parse_one(s: Seq<u8>, i: int) -> Result<(u32, int), GenError> {
    let j = num_end(s, i);
    let v = digits_value(s.subrange(i, j));
    if v == 0 {
        Err(GenError::ZeroCount { pos: i as usize })
    } else if v > u32::MAX {
        Err(GenError::Syntax { pos: i as usize })
    } else {
        Ok((v as u32, j))
    }
}

/// Parses the elements of a list from `i` (at the start of the first
/// element, whitespace already skipped, known not to be at `close`) up to
/// and including the closing delimiter: the elements in order and the index
/// just past `close`.
pub open spec fn spec_parse_items(s: Seq<u8>, i: int, close: u8) -> Result<
    (Seq<u32>, int),
    GenError,
>
    decreases s.len() - i,
    when 0 <= i <= s.len()
    via spec_parse_items_decreases
{
    if !(i < s.len() && is_digit(s[i])) {
        Err(GenError::Syntax { pos: i as usize })
    } else {
        match spec_parse_one(s, i) {
            Err(e) => Err(e),
            Ok((v, j)) => {
                let k = ws_end(s, j);
                if k < s.len() && s[k] == close {
                    Ok((seq![v], k + 1))
                } else if k < s.len() && s[k] == 44 {
                    let m = ws_end(s, k + 1);
                    if m < s.len() && s[m] == close {
                        Ok((seq![v], m + 1))
                    } else {
                        match spec_parse_items(s, m, close) {
                            Err(e) => Err(e),
                            Ok((rest, end)) => Ok((seq![v] + rest, end)),
                        }
                    }
                } else {
                    Err(GenError::Syntax { pos: k as usize })
                }
            },
        }
    }
}

#[via_fn]
proof fn spec_parse_items_decreases(s: Seq<u8>, i: int, close: u8) {
    if i < s.len() && is_digit(s[i]) {
        crate::digits::lemma_num_end(s, i);
        let j = num_end(s, i);
        lemma_ws_end(s, j);
        let k = ws_end(s, j);
        if k < s.len() {
            lemma_ws_end(s, k + 1);
        }
    }
}

/// Parses a bracketed or parenthesised list whose opening delimiter stands
/// just before `i`, up to `close`, then requires only whitespace to the end
/// of the declaration.  An empty list is a configuration error.
pub open spec fn spec_parse_list(s: Seq<u8>, i: int, close: u8) -> Result<Seq<u32>, GenError> {
    let j = ws_end(s, i);
    if j < s.len() && s[j] == close {
        if ws_end(s, j + 1) == s.len() {
            Err(GenError::Configuration)
        } else {
            Err(GenError::Syntax { pos: ws_end(s, j + 1) as usize })
        }
    } else {
        match spec_parse_items(s, j, close) {
            Err(e) => Err(e),
            Ok((items, end)) => {
                if ws_end(s, end) == s.len() {
                    Ok(items)
                } else {
                    Err(GenError::Syntax { pos: ws_end(s, end) as usize })
                }
            },
        }
    }
}

/// Parses the right-hand side of the named form, starting at `i`: either a
/// bracketed array or a single bare integer, then only whitespace to the
/// end.
pub open spec fn spec_parse_value(s: Seq<u8>, i: int) -> Result<Seq<u32>, GenError> {
    if i < s.len() && s[i] == 91 {
        spec_parse_list(s, i + 1, 93)
    } else if i < s.len() && is_digit(s[i]) {
        match spec_parse_one(s, i) {
            Err(e) => Err(e),
            Ok((v, j)) => {
                if ws_end(s, j) == s.len() {
                    Ok(seq![v])
                } else {
                    Err(GenError::Syntax { pos: ws_end(s, j) as usize })
                }
            },
        }
    } else {
        Err(GenError::Syntax { pos: i as usize })
    }
}

/// Parses a whole declaration: optional whitespace, the key `np`, then
/// either `= <value>` or `( <list> )`.
pub open spec fn spec_parse_np(s: Seq<u8>) -> Result<Seq<u32>, GenError> {
    let i = ws_end(s, 0);
    if !(i + 2 <= s.len() && s[i] == 110 && s[i + 1] == 112) {
        Err(GenError::Syntax { pos: i as usize })
    } else {
        let j = ws_end(s, i + 2);
        if j < s.len() && s[j] == 61 {
            spec_parse_value(s, ws_end(s, j + 1))
        } else if j < s.len() && s[j] == 40 {
            spec_parse_list(s, j + 1, 41)
        } else {
            Err(GenError::Syntax { pos: j as usize })
        }
    }
}

/// Every count set a declaration parses to is non-empty and holds positive
/// integers only.
pub proof fn lemma_parse_items_positive(s: Seq<u8>, i: int, close: u8)
    requires
        0 <= i <= s.len(),
    ensures
        spec_parse_items(s, i, close) matches Ok((items, end)) ==> {
            &&& items.len() >= 1
            &&& forall|t: int| 0 <= t < items.len() ==> #[trigger] items[t] >= 1
            &&& i < end <= s.len()
        },
    decreases s.len() - i,
{
    if i < s.len() && is_digit(s[i]) {
        crate::digits::lemma_num_end(s, i);
        let j = num_end(s, i);
        lemma_ws_end(s, j);
        let k = ws_end(s, j);
        if k < s.len() && s[k] == close {
        } else if k < s.len() && s[k] == 44 {
            lemma_ws_end(s, k + 1);
            let m = ws_end(s, k + 1);
            if !(m < s.len() && s[m] == close) {
                lemma_parse_items_positive(s, m, close);
            }
        }
    }
}

/// The count-set invariant, at the level of the whole declaration: a parsed
/// declaration yields at least one count, and every count is positive.
pub proof fn lemma_parse_np_positive(s: Seq<u8>)
    ensures
        spec_parse_np(s) matches Ok(counts) ==> {
            &&& counts.len() >= 1
            &&& forall|t: int| 0 <= t < counts.len() ==> #[trigger] counts[t] >= 1
        },
{
    lemma_ws_end(s, 0);
    let i = ws_end(s, 0);
    if i + 2 <= s.len() && s[i] == 110 && s[i + 1] == 112 {
        lemma_ws_end(s, i + 2);
        let j = ws_end(s, i + 2);
        if j < s.len() && s[j] == 61 {
            lemma_ws_end(s, j + 1);
            let v = ws_end(s, j + 1);
            if v < s.len() && s[v] == 91 {
                lemma_ws_end(s, v + 1);
                lemma_parse_items_positive(s, ws_end(s, v + 1), 93);
            }
        } else if j < s.len() && s[j] == 40 {
            lemma_ws_end(s, j + 1);
            lemma_parse_items_positive(s, ws_end(s, j + 1), 41);
        }
    }
}

/// The attribute text `np = <n>`, with `n` rendered in decimal: the
/// degenerate single-integer form of the named declaration.
pub open spec fn single_integer_attr(n: u32) -> Seq<u8> {
    seq![110u8, 112u8, 32u8, 61u8, 32u8] + crate::digits::spec_decimal(n as nat)
}

/// A declaration of a single bare integer (no list) is accepted, for every
/// positive count, and yields exactly that one count.
pub proof fn lemma_single_integer_accepted(n: u32)
    requires
        n >= 1,
    ensures
        spec_parse_np(single_integer_attr(n)) == Ok::<Seq<u32>, GenError>(seq![n]),
{
    let d = crate::digits::spec_decimal(n as nat);
    let s = single_integer_attr(n);
    crate::digits::lemma_decimal_digits(n as nat);
    crate::digits::lemma_decimal_round_trip(n as nat);
    assert(s.len() == 5 + d.len());
    assert(s[0] == 110 && s[1] == 112 && s[2] == 32 && s[3] == 61 && s[4] == 32);
    assert(forall|k: int| 5 <= k < s.len() ==> #[trigger] s[k] == d[k - 5]);
    assert(ws_end(s, 0) == 0);
    assert(ws_end(s, 2) == 3) by {
        assert(ws_end(s, 3) == 3);
    }
    assert(ws_end(s, 4) == 5) by {
        assert(is_digit(s[5]) && !is_ws(s[5]));
        assert(ws_end(s, 5) == 5);
    }
    crate::digits::lemma_num_end_digits(s, 5);
    assert(s.subrange(5, s.len() as int) =~= d);
    assert(ws_end(s, s.len() as int) == s.len());
    assert(spec_parse_one(s, 5) == Ok::<(u32, int), GenError>((n, s.len() as int)));
}

/// Skips horizontal whitespace: the index of the first non-whitespace byte
/// at or after `i`.
fn skip_ws(s: &[u8], i: usize) -> (r: usize)
    requires
        i <= s@.len(),
    ensures
        r as int == ws_end(s@, i as int),
        i <= r <= s@.len(),
{
    let mut k = i;
    while k < s.len() && (s[k] == 32 || s[k] == 9)
        invariant
            i <= k <= s@.len(),
            ws_end(s@, i as int) == ws_end(s@, k as int),
        decreases s@.len() - k,
    {
        k = k + 1;
    }
    k
}

/// Scans the digit run starting at `i` and evaluates it: the value (`None`
/// when it exceeds `u32::MAX`) and the index just past the run.
fn scan_number(s: &[u8], i: usize) -> (r: (Option<u32>, usize))
    requires
        i < s@.len(),
        is_digit(s@[i as int]),
    ensures
        r.1 as int == num_end(s@, i as int),
        i < r.1 <= s@.len(),
        ({
            let v = digits_value(s@.subrange(i as int, r.1 as int));
            match r.0 {
                Some(x) => v == x && v <= u32::MAX,
                None => v > u32::MAX,
            }
        }),
{
    proof {
        crate::digits::lemma_num_end(s@, i as int);
    }
    let mut j = i;
    let mut acc: u64 = 0;
    let mut over = false;
    while j < s.len() && 48 <= s[j] && s[j] <= 57
        invariant
            i <= j <= s@.len(),
            num_end(s@, i as int) == num_end(s@, j as int),
            !over ==> acc == digits_value(s@.subrange(i as int, j as int)) && acc <= u32::MAX,
            over ==> digits_value(s@.subrange(i as int, j as int)) > u32::MAX,
        decreases s@.len() - j,
    {
        let d = (s[j] - 48) as u64;
        proof {
            assert(s@.subrange(i as int, j + 1 as int).drop_last() =~= s@.subrange(
                i as int,
                j as int,
            ));
            assert(s@.subrange(i as int, j + 1 as int).last() == s@[j as int]);
            assert(digits_value(s@.subrange(i as int, j + 1 as int)) == digits_value(
                s@.subrange(i as int, j as int),
            ) * 10 + crate::digits::digit_value(s@[j as int]));
        }
        if !over {
            let next = acc * 10 + d;
            if next > u32::MAX as u64 {
                over = true;
            } else {
                acc = next;
            }
        } else {
            proof {
                let prev = digits_value(s@.subrange(i as int, j as int));
                assert(prev * 10 >= prev) by (nonlinear_arith)
                    requires
                        prev >= 0,
                ;
            }
        }
        j = j + 1;
    }
    if over {
        (None, j)
    } else {
        (Some(acc as u32), j)
    }
}

/// Parses one integer element starting at `i`, which must hold a digit.
fn parse_one(s: &[u8], i: usize) -> (r: Result<(u32, usize), GenError>)
    requires
        i < s@.len(),
        is_digit(s@[i as int]),
    ensures
        match r {
            Ok((v, j)) => spec_parse_one(s@, i as int) == Ok::<(u32, int), GenError>((v, j as int))
                && i < j <= s@.len(),
            Err(e) => spec_parse_one(s@, i as int) == Err::<(u32, int), GenError>(e),
        },
{
    let (val, j) = scan_number(s, i);
    match val {
        None => Err(GenError::Syntax { pos: i }),
        Some(0) => Err(GenError::ZeroCount { pos: i }),
        Some(v) => Ok((v, j)),
    }
}

/// Parses list elements from `start` up to and including `close`, as
/// `spec_parse_items` describes.
fn parse_items(s: &[u8], start: usize, close: u8) -> (r: Result<(Vec<u32>, usize), GenError>)
    requires
        start <= s@.len(),
    ensures
        match r {
            Ok((items, end)) => spec_parse_items(s@, start as int, close) == Ok::<
                (Seq<u32>, int),
                GenError,
            >((items@, end as int)) && end <= s@.len(),
            Err(e) => spec_parse_items(s@, start as int, close) == Err::<(Seq<u32>, int), GenError>(
                e,
            ),
        },
{
    let mut items: Vec<u32> = Vec::new();
    let mut i = start;
    loop
        invariant
            i <= s@.len(),
            forall|rest: Seq<u32>, end: int|
                spec_parse_items(s@, i as int, close) == Ok::<(Seq<u32>, int), GenError>(
                    (rest, end),
                ) ==> spec_parse_items(s@, start as int, close) == Ok::<(Seq<u32>, int), GenError>(
                    (items@ + rest, end),
                ),
            forall|e: GenError|
                spec_parse_items(s@, i as int, close) == Err::<(Seq<u32>, int), GenError>(e)
                    ==> spec_parse_items(s@, start as int, close) == Err::<
                    (Seq<u32>, int),
                    GenError,
                >(e),
        decreases s@.len() - i,
    {
        proof {
            assert(items@ + Seq::<u32>::empty() =~= items@);
        }
        if !(i < s.len() && 48 <= s[i] && s[i] <= 57) {
            return Err(GenError::Syntax { pos: i });
        }
        let one = parse_one(s, i);
        match one {
            Err(e) => {
                return Err(e);
            },
            Ok((v, j)) => {
                let k = skip_ws(s, j);
                if k < s.len() && s[k] == close {
                    items.push(v);
                    proof {
                        assert(items@ =~= items@.drop_last() + seq![v]);
                    }
                    return Ok((items, k + 1));
                } else if k < s.len() && s[k] == 44 {
                    let m = skip_ws(s, k + 1);
                    if m < s.len() && s[m] == close {
                        items.push(v);
                        proof {
                            assert(items@ =~= items@.drop_last() + seq![v]);
                        }
                        return Ok((items, m + 1));
                    } else {
                        proof {
                            let old_items = items@;
                            assert forall|rest: Seq<u32>, end: int|
                                spec_parse_items(s@, m as int, close) == Ok::<
                                    (Seq<u32>, int),
                                    GenError,
                                >((rest, end)) implies spec_parse_items(s@, start as int, close)
                                == Ok::<(Seq<u32>, int), GenError>(
                                ((old_items + seq![v]) + rest, end),
                            ) by {
                                assert(old_items + (seq![v] + rest) =~= (old_items + seq![v])
                                    + rest);
                            }
                        }
                        items.push(v);
                        proof {
                            assert(items@ =~= items@.drop_last() + seq![v]);
                        }
                        i = m;
                    }
                } else {
                    return Err(GenError::Syntax { pos: k });
                }
            },
        }
    }
}

/// Parses a delimited list (opening delimiter just before `i`) and the
/// trailing whitespace after it, as `spec_parse_list` describes.
fn parse_list(s: &[u8], i: usize, close: u8) -> (r: Result<Vec<u32>, GenError>)
    requires
        i <= s@.len(),
    ensures
        match r {
            Ok(counts) => spec_parse_list(s@, i as int, close) == Ok::<Seq<u32>, GenError>(
                counts@,
            ),
            Err(e) => spec_parse_list(s@, i as int, close) == Err::<Seq<u32>, GenError>(e),
        },
{
    let j = skip_ws(s, i);
    if j < s.len() && s[j] == close {
        let t = skip_ws(s, j + 1);
        if t == s.len() {
            Err(GenError::Configuration)
        } else {
            Err(GenError::Syntax { pos: t })
        }
    } else {
        match parse_items(s, j, close) {
            Err(e) => Err(e),
            Ok((items, end)) => {
                let t = skip_ws(s, end);
                if t == s.len() {
                    Ok(items)
                } else {
                    Err(GenError::Syntax { pos: t })
                }
            },
        }
    }
}

/// Parses a process-count declaration into its count set.
///
/// Accepted forms: `np = [2, 4]`, `np(2, 4)`, `np = 2`, `np(2)`, with
/// arbitrary spaces or tabs between tokens and an optional trailing comma
/// inside a list.  On success the set is non-empty, in declaration order,
/// and every count is positive; every rejected declaration is mapped to the
/// exact error `spec_parse_np` gives it.
pub fn parse_np(s: &[u8]) -> (r: Result<Vec<u32>, GenError>)
    ensures
        match r {
            Ok(counts) => spec_parse_np(s@) == Ok::<Seq<u32>, GenError>(counts@),
            Err(e) => spec_parse_np(s@) == Err::<Seq<u32>, GenError>(e),
        },
        r matches Ok(counts) ==> counts@.len() >= 1 && forall|t: int|
            0 <= t < counts@.len() ==> #[trigger] counts@[t] >= 1,
{
    proof {
        lemma_parse_np_positive(s@);
    }
    let i = skip_ws(s, 0);
    if !(i < s.len() && i + 1 < s.len() && s[i] == 110 && s[i + 1] == 112) {
        return Err(GenError::Syntax { pos: i });
    }
    let j = skip_ws(s, i + 2);
    if j < s.len() && s[j] == 61 {
        let v = skip_ws(s, j + 1);
        if v < s.len() && s[v] == 91 {
            parse_list(s, v + 1, 93)
        } else if v < s.len() && 48 <= s[v] && s[v] <= 57 {
            match parse_one(s, v) {
                Err(e) => Err(e),
                Ok((value, end)) => {
                    let t = skip_ws(s, end);
                    if t == s.len() {
                        let mut counts: Vec<u32> = Vec::new();
                        counts.push(value);
                        proof {
                            assert(counts@ =~= seq![value]);
                        }
                        Ok(counts)
                    } else {
                        Err(GenError::Syntax { pos: t })
                    }
                },
            }
        } else {
            Err(GenError::Syntax { pos: v })
        }
    } else if j < s.len() && s[j] == 40 {
        parse_list(s, j + 1, 41)
    } else {
        Err(GenError::Syntax { pos: j })
    }
}

} // verus!
