//! The plain shared-integer registers — the nullable counter and the
//! init-timestamp register — with the request-body integer parsing and the
//! little text they answer with.

use vstd::prelude::*;
use vstd::string::{StrSliceExecFns, StringExecFns};
use crate::numfmt::{append_i64, dec_val, digit_value, int_str, is_digit};

verus! {

/// The value of a digit run, most significant first.
pub open spec fn digits_val(s: Seq<char>) -> int
    decreases s.len(),
{
    if s.len() == 0 {
        0
    } else {
        digits_val(s.drop_last()) * 10 + dec_val(s.last())
    }
}

pub open spec fn all_digits(s: Seq<char>) -> bool {
    forall|i: int| 0 <= i < s.len() ==> is_digit(#[trigger] s[i])
}

/// What parsing decimal text as a signed machine word gives: an optional
/// sign, then at least one digit, and the value within the word's range.
pub open spec fn parse_i64_spec(s: Seq<char>) -> Option<i64> {
    let neg = s.len() > 0 && s[0] == '-';
    let ds = if s.len() > 0 && (s[0] == '-' || s[0] == '+') {
        s.drop_first()
    } else {
        s
    };
    if ds.len() == 0 || !all_digits(ds) {
        None
    } else {
        let v = if neg {
            -digits_val(ds)
        } else {
            digits_val(ds)
        };
        if i64::MIN <= v <= i64::MAX {
            Some(v as i64)
        } else {
            None
        }
    }
}

proof fn lemma_digits_val_nonneg(s: Seq<char>)
    ensures
        digits_val(s) >= 0,
    decreases s.len(),
{
    if s.len() > 0 {
        lemma_digits_val_nonneg(s.drop_last());
    }
}

/// A digit run is worth at least any of its prefixes.
proof fn lemma_digits_val_prefix(s: Seq<char>, k: int)
    requires
        0 <= k <= s.len(),
    ensures
        digits_val(s.subrange(0, k)) <= digits_val(s),
    decreases s.len() - k,
{
    if k == s.len() {
        assert(s.subrange(0, k) =~= s);
    } else {
        lemma_digits_val_prefix(s, k + 1);
        let longer = s.subrange(0, k + 1);
        assert(longer.drop_last() =~= s.subrange(0, k));
        lemma_digits_val_nonneg(s.subrange(0, k));
    }
}

/// Parses decimal text as a signed 64-bit value, exactly as `parse_i64_spec`
/// says: anything else, including overflow, is `None`.
#[verifier::loop_isolation(false)]
#[verifier::rlimit(60)]
pub fn parse_i64(s: &str) -> (r: Option<i64>)
    ensures
        r == parse_i64_spec(s@),
{
    let n = s.unicode_len();
    if n == 0 {
        return None;
    }
    let c0 = s.get_char(0);
    let neg = c0 == '-';
    let start: usize = if c0 == '-' || c0 == '+' {
        1
    } else {
        0
    };
    let ghost ds = if s@[0] == '-' || s@[0] == '+' {
        s@.drop_first()
    } else {
        s@
    };
    proof {
        assert(ds =~= s@.subrange(start as int, n as int));
    }
    if n == start {
        return None;
    }
    let mut acc: u64 = 0;
    let mut i: usize = start;
    while i < n
        invariant
            start <= i <= n,
            acc <= 9223372036854775808u64,
            acc == digits_val(s@.subrange(start as int, i as int)),
            forall|j: int| start <= j < i ==> is_digit(#[trigger] s@[j]),
        decreases n - i,
    {
        let d: u64 = match digit_value(s.get_char(i)) {
            Some(d) => d as u64,
            None => {
                proof {
                    assert(ds[i - start as int] == s@[i as int]);
                    assert(!all_digits(ds));
                }
                return None;
            },
        };
        proof {
            let cur = s@.subrange(start as int, i + 1 as int);
            assert(cur.drop_last() =~= s@.subrange(start as int, i as int));
            assert(cur.last() == s@[i as int]);
        }
        if acc > 922337203685477580u64 || (acc == 922337203685477580u64 && d > 8) {
            // The magnitude already exceeds what the word can hold; the rest
            // only decides between the two reasons to refuse.
            proof {
                assert(digits_val(s@.subrange(start as int, i + 1 as int)) > 9223372036854775808);
            }
            let mut j: usize = i + 1;
            while j < n
                invariant
                    i + 1 <= j <= n,
                    forall|k: int| start <= k < j ==> is_digit(#[trigger] s@[k]),
                decreases n - j,
            {
                if digit_value(s.get_char(j)).is_none() {
                    proof {
                        assert(ds[j - start as int] == s@[j as int]);
                        assert(!all_digits(ds));
                    }
                    return None;
                }
                j = j + 1;
            }
            proof {
                assert(all_digits(ds)) by {
                    assert forall|k: int| 0 <= k < ds.len() implies is_digit(
                        #[trigger] ds[k],
                    ) by {
                        assert(ds[k] == s@[start + k]);
                    }
                }
                assert(ds.subrange(0, i + 1 - start as int) =~= s@.subrange(
                    start as int,
                    i + 1 as int,
                ));
                lemma_digits_val_prefix(ds, i + 1 - start as int);
                assert(digits_val(ds) > 9223372036854775808);
            }
            return None;
        }
        acc = acc * 10 + d;
        i = i + 1;
    }
    proof {
        assert(s@.subrange(start as int, n as int) =~= ds);
        assert(acc == digits_val(ds));
        assert(all_digits(ds)) by {
            assert forall|k: int| 0 <= k < ds.len() implies is_digit(#[trigger] ds[k]) by {
                assert(ds[k] == s@[start + k]);
            }
        }
    }
    if neg {
        if acc == 9223372036854775808u64 {
            Some(i64::MIN)
        } else {
            Some(-(acc as i64))
        }
    } else {
        if acc > 9223372036854775807u64 {
            None
        } else {
            Some(acc as i64)
        }
    }
}

/// How an optional value renders: `Some(v)` or `None`.
pub open spec fn option_to_string_spec(x: Option<i64>) -> Seq<char> {
    match x {
        Some(v) => "Some("@ + int_str(v as int) + ")"@,
        None => "None"@,
    }
}

/// Renders an optional value the way the registers report it.
pub fn option_to_string(x: Option<i64>) -> (r: String)
    ensures
        r@ == option_to_string_spec(x),
{
    match x {
        Some(v) => {
            let mut out = String::new();
            out.append("Some(");
            append_i64(&mut out, v);
            out.append(")");
            proof {
                assert(out@ =~= option_to_string_spec(x));
            }
            out
        },
        None => {
            let mut out = String::new();
            out.append("None");
            out
        },
    }
}

/// One step of the nullable counter: an unset counter starts at zero, a set
/// one counts up.
pub fn counter_step(x: Option<i64>) -> (r: Option<i64>)
    requires
        match x {
            Some(v) => v < i64::MAX,
            None => true,
        },
    ensures
        r == match x {
            Some(v) => Some((v + 1) as i64),
            None => Some(0i64),
        },
{
    match x {
        Some(v) => Some(v + 1),
        None => Some(0),
    }
}

/// Setting the init-timestamp register: the first write wins, later writes
/// keep the stored value; returns the new state and the value it reports.
pub fn init_time_set(stored: Option<i64>, proposed: i64) -> (r: (Option<i64>, i64))
    ensures
        r.0 == Some(r.1),
        r.1 == match stored {
            Some(v) => v,
            None => proposed,
        },
{
    match stored {
        Some(v) => (Some(v), v),
        None => (Some(proposed), proposed),
    }
}

/// The greeting the hello endpoints answer with.
pub fn greeting(name: &str) -> (r: String)
    ensures
        r@ == "Hello, "@ + name@ + "!"@,
{
    let mut out = String::new();
    out.append("Hello, ");
    out.append(name);
    out.append("!");
    proof {
        assert(out@ =~= "Hello, "@ + name@ + "!"@);
    }
    out
}

} // verus!
