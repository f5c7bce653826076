//! Decisions of the benchmark runner: which scenarios run, and how core pinning is
//! reported.
use vstd::prelude::*;
use vstd::string::{StrSliceExecFns, StringExecFns};
use crate::bench::report::{decimal, push_decimal};

verus! {

/// Whether to measure per-op latency (setup before each op) or sustained
/// throughput (one state for all ops).
#[derive(Debug, Clone, Copy, PartialEq, Eq, Structural)]
pub enum RunMode {
    Latency,
    Throughput,
}

/// Environment variable that, when set, turns core pinning off.
pub const BENCH_TOOL_DISABLE_CORE_PINNING: &'static str = "BENCH_TOOL_DISABLE_CORE_PINNING";

/// What `str::to_lowercase` makes of `s`: Unicode lowercase mapping, which takes
/// tables to state.
pub uninterp spec fn lowercase(s: Seq<char>) -> Seq<char>;

/// `str::to_lowercase`. Stated: the result is the lowercase mapping of `s`, a
/// function of `s` alone.
#[verifier::external_body]
fn to_lower(s: &str) -> (r: String)
    ensures
        r@ == lowercase(s@),
{
    s.to_lowercase()
}

/// `needle` occurs in `hay` at some position.
pub open spec fn contains_text(hay: Seq<char>, needle: Seq<char>) -> bool {
    exists|i: int| 0 <= i <= hay.len() - needle.len() && #[trigger] hay.subrange(i, i + needle.len()) == needle
}

/// Whether `needle` occurs in `hay`.
pub fn text_contains(hay: &str, needle: &str) -> (r: bool)
    ensures
        r == contains_text(hay@, needle@),
{
    let n = hay.unicode_len();
    let m = needle.unicode_len();
    if m > n {
        assert(!contains_text(hay@, needle@));
        return false;
    }
    let mut i: usize = 0;
    while i <= n - m
        invariant
            n == hay@.len(),
            m == needle@.len(),
            m <= n,
            i <= n - m + 1,
            forall|k: int| 0 <= k < i ==> #[trigger] hay@.subrange(k, k + m) != needle@,
        decreases n - m + 1 - i,
    {
        let mut j: usize = 0;
        let mut same = true;
        while j < m
            invariant
                n == hay@.len(),
                m == needle@.len(),
                i + m <= n,
                j <= m,
                same == (forall|q: int| 0 <= q < j ==> hay@[i + q] == needle@[q]),
            decreases m - j,
        {
            if hay.get_char(i + j) != needle.get_char(j) {
                same = false;
            }
            j = j + 1;
        }
        if same {
            assert(hay@.subrange(i as int, i + m) =~= needle@);
            return true;
        }
        assert(hay@.subrange(i as int, i + m) != needle@) by {
            let q = choose|q: int| 0 <= q < m && hay@[i + q] != needle@[q];
            assert(hay@.subrange(i as int, i + m)[q] == hay@[i + q]);
        }
        i = i + 1;
    }
    false
}

/// Whether a scenario named `name` runs under `filter`: every scenario runs without
/// a filter; with one, those whose name contains it, ignoring case.
pub open spec fn selected(name: Seq<char>, filter: Option<Seq<char>>) -> bool {
    match filter {
        None => true,
        Some(f) => contains_text(lowercase(name), lowercase(f)),
    }
}

/// The text of an optional string.
pub open spec fn opt_string_view(s: Option<String>) -> Option<Seq<char>> {
    match s {
        Some(x) => Some(x@),
        None => None,
    }
}

pub fn scenario_selected(name: &str, filter: &Option<String>) -> (r: bool)
    ensures
        r == selected(name@, opt_string_view(*filter)),
{
    match filter {
        None => true,
        Some(f) => {
            let name_lower = to_lower(name);
            let filter_lower = to_lower(f.as_str());
            text_contains(name_lower.as_str(), filter_lower.as_str())
        },
    }
}

/// The pinning note when core pinning is turned off by the environment.
pub fn pinning_disabled_note() -> (r: String)
    ensures
        r@ == "Core pinning disabled (BENCH_TOOL_DISABLE_CORE_PINNING)"@,
{
    String::from_str("Core pinning disabled (BENCH_TOOL_DISABLE_CORE_PINNING)")
}

/// The pinning note after trying to pin the current thread to `pin_core`.
pub open spec fn pin_status_text(pin_core: u32, pinned: bool) -> Seq<char> {
    if pinned {
        "pin core "@ + decimal(pin_core as nat)
    } else {
        "Could not pin core "@ + decimal(pin_core as nat)
    }
}

pub fn pin_status(pin_core: u32, pinned: bool) -> (r: String)
    ensures
        r@ == pin_status_text(pin_core, pinned),
{
    let mut out = if pinned {
        String::from_str("pin core ")
    } else {
        String::from_str("Could not pin core ")
    };
    push_decimal(&mut out, pin_core as u64);
    out
}

} // verus!
