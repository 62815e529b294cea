//! Parsing a player's free-text column selection: the line, stripped of
//! surrounding blanks, must be a decimal numeral naming a column between one
//! and the board width; anything else is an input error, which the turn
//! loop answers with a fresh prompt.

use vstd::prelude::*;
use vstd::string::*;

use crate::N_COLUMNS;

verus! {

/// A malformed or out-of-range column selection.
#[derive(Clone, Copy, Debug, PartialEq, Eq, Structural)]
pub struct InputParseError;

/// The whitespace characters stripped from either end of a line: the
/// Unicode White_Space set, as `char::is_whitespace` draws it.
pub open spec fn is_blank(c: char) -> bool {
    ||| c == ' '
    ||| ('\u{9}' as u32 <= c as u32 && c as u32 <= '\u{d}' as u32)
    ||| c == '\u{85}'
    ||| c == '\u{a0}'
    ||| c == '\u{1680}'
    ||| ('\u{2000}' as u32 <= c as u32 && c as u32 <= '\u{200a}' as u32)
    ||| c == '\u{2028}'
    ||| c == '\u{2029}'
    ||| c == '\u{202f}'
    ||| c == '\u{205f}'
    ||| c == '\u{3000}'
}

/// A decimal digit.
pub open spec fn is_digit(c: char) -> bool {
    48 <= c as u32 <= 57
}

/// `s` stripped of leading and trailing blanks.
pub open spec fn trim_spec(s: Seq<char>) -> Seq<char>
    decreases s.len(),
{
    if s.len() == 0 {
        s
    } else if is_blank(s[0]) {
        trim_spec(s.subrange(1, s.len() as int))
    } else if is_blank(s[s.len() - 1]) {
        trim_spec(s.subrange(0, s.len() - 1))
    } else {
        s
    }
}

/// Every character of `s` is a decimal digit.
pub open spec fn all_digits(s: Seq<char>) -> bool {
    forall|i: int| 0 <= i < s.len() ==> is_digit(#[trigger] s[i])
}

/// The number a sequence of decimal digits names, most significant first.
pub open spec fn digits_val(s: Seq<char>) -> int
    decreases s.len(),
{
    if s.len() == 0 {
        0
    } else {
        digits_val(s.drop_last()) * 10 + (s.last() as u32 - 48)
    }
}

/// The number a decimal numeral names: an optional leading plus sign
/// followed by at least one digit; `None` when `s` has any other shape.
pub open spec fn numeral_val(s: Seq<char>) -> Option<int> {
    let t = if s.len() > 0 && s[0] == '+' {
        s.subrange(1, s.len() as int)
    } else {
        s
    };
    if t.len() > 0 && all_digits(t) {
        Some(digits_val(t))
    } else {
        None
    }
}

/// The column selection a free-text line names: its trimmed text must be a
/// numeral between one and the board width, counted from one.
pub open spec fn selection_of_line(s: Seq<char>) -> Option<usize> {
    match numeral_val(trim_spec(s)) {
        Some(v) => if 1 <= v <= N_COLUMNS {
            Some(v as usize)
        } else {
            None
        },
        None => None,
    }
}

/// A numeral's value is never negative.
proof fn lemma_digits_val_nonneg(s: Seq<char>)
    requires
        all_digits(s),
    ensures
        digits_val(s) >= 0,
    decreases s.len(),
{
    if s.len() > 0 {
        assert(forall|i: int|
            0 <= i < s.drop_last().len() ==> #[trigger] s.drop_last()[i] == s[i]);
        lemma_digits_val_nonneg(s.drop_last());
    }
}

/// Reading more digits never shrinks the value: any prefix of a numeral
/// names at most the whole numeral's number.
proof fn lemma_digits_prefix_le(s: Seq<char>, k: int)
    requires
        all_digits(s),
        0 <= k <= s.len(),
    ensures
        digits_val(s.subrange(0, k)) <= digits_val(s),
    decreases s.len(),
{
    if k == s.len() {
        assert(s.subrange(0, k) =~= s);
    } else {
        let head = s.drop_last();
        assert(forall|i: int| 0 <= i < head.len() ==> #[trigger] head[i] == s[i]);
        assert(s.subrange(0, k) =~= head.subrange(0, k));
        lemma_digits_prefix_le(head, k);
        lemma_digits_val_nonneg(head);
    }
}

/// Whether `c` is stripped from the ends of a line.
fn is_blank_char(c: char) -> (r: bool)
    ensures
        r == is_blank(c),
{
    let u = c as u32;
    u == ' ' as u32 || ('\u{9}' as u32 <= u && u <= '\u{d}' as u32) || u == '\u{85}' as u32
        || u == '\u{a0}' as u32 || u == '\u{1680}' as u32
        || ('\u{2000}' as u32 <= u && u <= '\u{200a}' as u32) || u == '\u{2028}' as u32
        || u == '\u{2029}' as u32 || u == '\u{202f}' as u32 || u == '\u{205f}' as u32
        || u == '\u{3000}' as u32
}

/// Parse a free-text line as a column selection counted from one: the line,
/// stripped of surrounding blanks, must be a decimal numeral between one
/// and the board width; any parse failure, zero, or out-of-range value is
/// reported as an input error.
pub fn parse_positive_usize(s: &str) -> (r: Result<usize, InputParseError>)
    ensures
        r == (match selection_of_line(s@) {
            Some(v) => Ok::<usize, InputParseError>(v),
            None => Err::<usize, InputParseError>(InputParseError),
        }),
{
    let n = s.unicode_len();
    proof {
        assert(s@.subrange(0, n as int) =~= s@);
    }
    let mut lo: usize = 0;
    while lo < n && is_blank_char(s.get_char(lo))
        invariant
            s@.len() == n,
            lo <= n,
            trim_spec(s@) == trim_spec(s@.subrange(lo as int, n as int)),
        decreases n - lo,
    {
        proof {
            let cur = s@.subrange(lo as int, n as int);
            assert(cur[0] == s@[lo as int]);
            assert(cur.subrange(1, cur.len() as int) =~= s@.subrange(lo as int + 1, n as int));
        }
        lo = lo + 1;
    }
    let mut hi: usize = n;
    while hi > lo && is_blank_char(s.get_char(hi - 1))
        invariant
            s@.len() == n,
            lo <= hi <= n,
            lo < n ==> !is_blank(s@[lo as int]),
            trim_spec(s@) == trim_spec(s@.subrange(lo as int, hi as int)),
        decreases hi,
    {
        proof {
            let cur = s@.subrange(lo as int, hi as int);
            assert(cur[cur.len() - 1] == s@[hi as int - 1]);
            assert(cur[0] == s@[lo as int]);
            assert(cur.subrange(0, cur.len() - 1) =~= s@.subrange(lo as int, hi as int - 1));
        }
        hi = hi - 1;
    }
    let ghost trimmed = s@.subrange(lo as int, hi as int);
    proof {
        if trimmed.len() > 0 {
            assert(trimmed[0] == s@[lo as int]);
            assert(trimmed[trimmed.len() - 1] == s@[hi as int - 1]);
        }
        assert(trim_spec(trimmed) == trimmed);
    }
    let mut start = lo;
    if lo < hi && s.get_char(lo) == '+' {
        start = lo + 1;
    }
    let ghost t = s@.subrange(start as int, hi as int);
    proof {
        if trimmed.len() > 0 && trimmed[0] == '+' {
            assert(t =~= trimmed.subrange(1, trimmed.len() as int));
        } else {
            assert(t =~= trimmed);
        }
    }
    proof {
        assert(trim_spec(s@) == trimmed);
        assert(numeral_val(trimmed) == (if t.len() > 0 && all_digits(t) {
            Some(digits_val(t))
        } else {
            None::<int>
        }));
    }
    if start == hi {
        return Err(InputParseError);
    }
    let mut value: usize = 0;
    let mut i = start;
    while i < hi
        invariant
            s@.len() == n,
            start <= i <= hi <= n,
            t == s@.subrange(start as int, hi as int),
            t.len() == hi - start,
            all_digits(t.subrange(0, i as int - start as int)),
            value as int == digits_val(t.subrange(0, i as int - start as int)),
            value <= N_COLUMNS,
            selection_of_line(s@) == (if t.len() > 0 && all_digits(t) && 1 <= digits_val(t)
                <= N_COLUMNS {
                Some(digits_val(t) as usize)
            } else {
                None::<usize>
            }),
        decreases hi - i,
    {
        let c = s.get_char(i);
        let u = c as u32;
        proof {
            assert(t[i as int - start as int] == c);
        }
        if u < 48 || u > 57 {
            proof {
                assert(!is_digit(t[i as int - start as int]));
                assert(!all_digits(t));
            }
            return Err(InputParseError);
        }
        let d = (u - 48) as usize;
        let ghost prefix = t.subrange(0, i as int - start as int);
        let ghost prefix2 = t.subrange(0, i as int - start as int + 1);
        proof {
            assert(prefix2.drop_last() =~= prefix);
            assert(prefix2.last() == t[i as int - start as int]);
            assert(forall|k: int| 0 <= k < prefix2.len() ==> #[trigger] prefix2[k] == t[k]);
        }
        let newvalue = value * 10 + d;
        if newvalue > N_COLUMNS {
            proof {
                if all_digits(t) {
                    lemma_digits_prefix_le(t, i as int - start as int + 1);
                }
            }
            return Err(InputParseError);
        }
        value = newvalue;
        i = i + 1;
    }
    proof {
        assert(t.subrange(0, t.len() as int) =~= t);
    }
    if value == 0 {
        return Err(InputParseError);
    }
    Ok(value)
}

} // verus!
