//! How an over-budget 64-awake kernel step is treated, resolved from an
//! optional flag and the build profile.
use vstd::prelude::*;

use crate::failure::chars_of;

verus! {

/// How an over-budget 64-awake step is treated.
#[derive(Copy, Clone, PartialEq, Eq, Structural, Hash, Debug)]
pub enum BudgetMode {
    /// Report and go on (local debug default).
    Warn,
    /// Stop the run (CI / release default).
    Fail,
}

/// Unicode white space, as `char::is_whitespace` defines it.
pub open spec fn is_ws(c: char) -> bool {
    ||| ('\u{9}' <= c && c <= '\u{d}')
    ||| c == ' '
    ||| c == '\u{85}'
    ||| c == '\u{a0}'
    ||| c == '\u{1680}'
    ||| ('\u{2000}' <= c && c <= '\u{200a}')
    ||| c == '\u{2028}'
    ||| c == '\u{2029}'
    ||| c == '\u{202f}'
    ||| c == '\u{205f}'
    ||| c == '\u{3000}'
}

/// `s` without leading white space.
pub open spec fn trim_start(s: Seq<char>) -> Seq<char>
    decreases s.len(),
{
    if s.len() > 0 && is_ws(s[0]) {
        trim_start(s.subrange(1, s.len() as int))
    } else {
        s
    }
}

/// `s` without trailing white space.
pub open spec fn trim_end(s: Seq<char>) -> Seq<char>
    decreases s.len(),
{
    if s.len() > 0 && is_ws(s.last()) {
        trim_end(s.drop_last())
    } else {
        s
    }
}

/// `s` without leading or trailing white space.
pub open spec fn trimmed(s: Seq<char>) -> Seq<char> {
    trim_end(trim_start(s))
}

/// Code point of `c` with ASCII letters folded to lower case.
pub open spec fn ascii_lower(c: char) -> int {
    if 'A' <= c && c <= 'Z' {
        (c as int) + 32
    } else {
        c as int
    }
}

/// Equal up to ASCII case.
pub open spec fn eq_ascii_ci(a: Seq<char>, b: Seq<char>) -> bool {
    a.len() == b.len() && forall|i: int| 0 <= i < a.len() ==> ascii_lower(#[trigger] a[i]) == ascii_lower(b[i])
}

/// The mode a flag and build profile resolve to: `1`/`true` fail and
/// `0`/`false` warn (trimmed, any ASCII case); otherwise debug builds warn
/// and release builds fail.
pub open spec fn spec_resolve(flag: Option<Seq<char>>, debug_assertions: bool) -> BudgetMode {
    match flag {
        Some(s) if eq_ascii_ci(trimmed(s), "1"@) || eq_ascii_ci(trimmed(s), "true"@) => BudgetMode::Fail,
        Some(s) if eq_ascii_ci(trimmed(s), "0"@) || eq_ascii_ci(trimmed(s), "false"@) => BudgetMode::Warn,
        _ => if debug_assertions {
            BudgetMode::Warn
        } else {
            BudgetMode::Fail
        },
    }
}

fn is_ws_exec(c: char) -> (r: bool)
    ensures
        r == is_ws(c),
{
    ('\u{9}' <= c && c <= '\u{d}') || c == ' ' || c == '\u{85}' || c == '\u{a0}' || c == '\u{1680}'
        || ('\u{2000}' <= c && c <= '\u{200a}') || c == '\u{2028}' || c == '\u{2029}' || c
        == '\u{202f}' || c == '\u{205f}' || c == '\u{3000}'
}

fn lower_exec(c: char) -> (r: u32)
    ensures
        r == ascii_lower(c),
{
    if 'A' <= c && c <= 'Z' {
        c as u32 + 32
    } else {
        c as u32
    }
}

/// The trimmed text of `s`.
pub(crate) fn trim_chars(s: &Vec<char>) -> (r: Vec<char>)
    ensures
        r@ == trimmed(s@),
{
    let n = s.len();
    let mut i: usize = 0;
    assert(s@.subrange(0, n as int) =~= s@);
    while i < n && is_ws_exec(s[i])
        invariant
            n == s@.len(),
            0 <= i <= n,
            trim_start(s@) == trim_start(s@.subrange(i as int, n as int)),
        decreases n - i,
    {
        proof {
            let t = s@.subrange(i as int, n as int);
            assert(t.subrange(1, t.len() as int) =~= s@.subrange(i + 1, n as int));
        }
        i = i + 1;
    }
    let mut j: usize = n;
    proof {
        assert(trim_start(s@.subrange(i as int, n as int)) == s@.subrange(i as int, n as int));
    }
    while j > i && is_ws_exec(s[j - 1])
        invariant
            n == s@.len(),
            0 <= i <= j <= n,
            trimmed(s@) == trim_end(s@.subrange(i as int, j as int)),
        decreases j,
    {
        proof {
            let t = s@.subrange(i as int, j as int);
            assert(t.drop_last() =~= s@.subrange(i as int, j - 1));
        }
        j = j - 1;
    }
    let mut out: Vec<char> = Vec::new();
    let mut k: usize = i;
    while k < j
        invariant
            n == s@.len(),
            0 <= i <= k <= j <= n,
            out@ == s@.subrange(i as int, k as int),
        decreases j - k,
    {
        out.push(s[k]);
        k = k + 1;
        assert(out@ =~= s@.subrange(i as int, k as int));
    }
    out
}

fn eq_ci_exec(a: &Vec<char>, b: &Vec<char>) -> (r: bool)
    ensures
        r == eq_ascii_ci(a@, b@),
{
    if a.len() != b.len() {
        return false;
    }
    let mut i: usize = 0;
    while i < a.len()
        invariant
            a@.len() == b@.len(),
            0 <= i <= a@.len(),
            forall|k: int| 0 <= k < i ==> ascii_lower(#[trigger] a@[k]) == ascii_lower(b@[k]),
        decreases a@.len() - i,
    {
        if lower_exec(a[i]) != lower_exec(b[i]) {
            return false;
        }
        i = i + 1;
    }
    true
}

/// The step cap of the 64-awake kernel gate, microseconds (4 ms).
pub const STEP_CAP_US: u128 = 4_000;

impl BudgetMode {
    /// What an over-budget step calls for: nothing under the cap, else the
    /// mode's own response (report or stop).
    pub fn step_verdict(self, elapsed_us: u128) -> (r: Option<BudgetMode>)
        ensures
            elapsed_us < STEP_CAP_US ==> r is None,
            elapsed_us >= STEP_CAP_US ==> r == Some(self),
    {
        if elapsed_us < STEP_CAP_US {
            return None;
        }
        Some(self)
    }

    /// `Some("1")`/`"true"` → Fail, `Some("0")`/`"false"` → Warn, trimmed
    /// and in any ASCII case. Otherwise warn under `debug_assertions`, else fail.
    pub fn resolve(flag: Option<&str>, debug_assertions: bool) -> (r: BudgetMode)
        ensures
            r == spec_resolve(
                match flag {
                    Some(s) => Some(s@),
                    None => None,
                },
                debug_assertions,
            ),
    {
        if let Some(s) = flag {
            let t = trim_chars(&chars_of(s));
            if eq_ci_exec(&t, &chars_of("1")) || eq_ci_exec(&t, &chars_of("true")) {
                return BudgetMode::Fail;
            }
            if eq_ci_exec(&t, &chars_of("0")) || eq_ci_exec(&t, &chars_of("false")) {
                return BudgetMode::Warn;
            }
        }
        if debug_assertions {
            BudgetMode::Warn
        } else {
            BudgetMode::Fail
        }
    }
}

} // verus!
