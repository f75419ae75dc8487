use crate::errors::MlcError;
use vstd::prelude::*;
use vstd::string::StrSliceExecFns;

verus! {

/// Decimal digits.
pub open spec fn is_digit(c: char) -> bool {
    '0' <= c && c <= '9'
}

/// The numeric value of a decimal digit.
pub open spec fn digit_val(c: char) -> int {
    c as int - '0' as int
}

/// One left-to-right scan over the text between the brackets: `cur` is the
/// value of the digits of the current entry read so far, `has_digit` whether the
/// current entry has at least one digit, `acc` the finished entries.  The
/// scan fails on any character other than a digit or a separating comma, on
/// an entry without digits, and on an entry that exceeds `u64::MAX`.
pub open spec fn scan_weights(s: Seq<char>, i: int, cur: u64, has: bool, acc: Seq<u64>) -> Option<
    Seq<u64>,
>
    decreases s.len() - i,
{
    if i < 0 || i >= s.len() {
        if has {
            Some(acc.push(cur))
        } else {
            None
        }
    } else {
        let c = s[i];
        if is_digit(c) {
            let cur2 = cur * 10 + digit_val(c);
            if cur2 > u64::MAX {
                None
            } else {
                scan_weights(s, i + 1, cur2 as u64, true, acc)
            }
        } else if c == ',' {
            if has {
                scan_weights(s, i + 1, 0u64, false, acc.push(cur))
            } else {
                None
            }
        } else {
            None
        }
    }
}

/// What a textual weight field denotes: a bracketed comma-separated list of
/// non-negative integers, each fitting in a `u64`; anything else is
/// malformed and denotes nothing.
pub open spec fn parse_weights_spec(s: Seq<char>) -> Option<Seq<u64>> {
    if s.len() >= 2 && s[0] == '[' && s[s.len() - 1] == ']' {
        scan_weights(s.subrange(1, s.len() - 1), 0, 0u64, false, Seq::empty())
    } else {
        None
    }
}

/// Parses a textual weight field, for example `"[5,2]"`.
pub fn parse_weights(raw: &str) -> (r: Result<Vec<u64>, MlcError>)
    ensures
        r matches Ok(v) ==> parse_weights_spec(raw@) == Some(v@),
        r matches Err(e) ==> parse_weights_spec(raw@) is None && e == MlcError::MalformedWeight,
{
    let n = raw.unicode_len();
    if n < 2 {
        return Err(MlcError::MalformedWeight);
    }
    if raw.get_char(0) != '[' {
        return Err(MlcError::MalformedWeight);
    }
    if raw.get_char(n - 1) != ']' {
        return Err(MlcError::MalformedWeight);
    }
    let ghost inner = raw@.subrange(1, raw@.len() - 1);
    let mut acc: Vec<u64> = Vec::new();
    let mut cur: u64 = 0;
    let mut has_digit = false;
    let mut i: usize = 1;
    while i < n - 1
        invariant
            2 <= n,
            n == raw@.len(),
            1 <= i <= n - 1,
            inner == raw@.subrange(1, raw@.len() - 1),
            scan_weights(inner, i - 1, cur, has_digit, acc@) == scan_weights(
                inner,
                0,
                0u64,
                false,
                Seq::empty(),
            ),
        decreases n - 1 - i,
    {
        let c = raw.get_char(i);
        proof {
            assert(inner[i - 1] == raw@[i as int]);
        }
        let code = c as u32;
        if 48 <= code && code <= 57 {
            let d = (code - 48) as u64;
            proof {
                assert(is_digit(inner[i - 1]));
                assert(digit_val(inner[i - 1]) == d);
            }
            let step = match cur.checked_mul(10) {
                Some(x) => x.checked_add(d),
                None => None,
            };
            match step {
                Some(x) => {
                    cur = x;
                    has_digit = true;
                },
                None => {
                    return Err(MlcError::MalformedWeight);
                },
            }
        } else if c == ',' {
            proof {
                assert(!is_digit(inner[i - 1]));
            }
            if !has_digit {
                return Err(MlcError::MalformedWeight);
            }
            acc.push(cur);
            cur = 0;
            has_digit = false;
        } else {
            proof {
                assert(!is_digit(inner[i - 1]));
            }
            return Err(MlcError::MalformedWeight);
        }
        i += 1;
    }
    if !has_digit {
        return Err(MlcError::MalformedWeight);
    }
    acc.push(cur);
    Ok(acc)
}

/// A successful scan returns at least one more entry than it started with.
proof fn lemma_scan_len(s: Seq<char>, i: int, cur: u64, has: bool, acc: Seq<u64>)
    ensures
        scan_weights(s, i, cur, has, acc) matches Some(r) ==> r.len() > acc.len(),
    decreases s.len() - i,
{
    if i < 0 || i >= s.len() {
    } else {
        let c = s[i];
        if is_digit(c) {
            let cur2 = cur * 10 + digit_val(c);
            if cur2 <= u64::MAX {
                lemma_scan_len(s, i + 1, cur2 as u64, true, acc);
            }
        } else if c == ',' {
            if has {
                lemma_scan_len(s, i + 1, 0u64, false, acc.push(cur));
            }
        }
    }
}

/// A parsed weight list holds at least one entry.
pub proof fn lemma_parse_weights_nonempty(s: Seq<char>)
    ensures
        parse_weights_spec(s) matches Some(w) ==> w.len() >= 1,
{
    if s.len() >= 2 && s[0] == '[' && s[s.len() - 1] == ']' {
        lemma_scan_len(s.subrange(1, s.len() - 1), 0, 0u64, false, Seq::empty());
    }
}

} // verus!
