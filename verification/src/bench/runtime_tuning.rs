//! Snapshot of operating-system settings that affect benchmark latency, as
//! key/value rows of a report.
use vstd::prelude::*;
use vstd::laws_cmp::obeys_cmp;
use vstd::string::{StrSliceExecFns, StringExecFns};
use crate::bench::report::{decimal, push_decimal};
use std::collections::BTreeMap;

verus! {

/// Operating-system settings relevant to latency, each as a human-readable summary.
#[derive(Debug, Clone)]
pub struct RuntimeTuningInfo {
    /// Kernel `isolcpus` / `/sys/devices/system/cpu/isolated` (Linux only).
    pub isolated_cpus: String,
    /// CPU frequency governor.
    pub cpu_frequency_governor: String,
    /// Turbo / boost policy.
    pub turbo_boost: String,
    /// IRQ `smp_affinity_list` sample.
    pub irq_affinity: String,
    /// ASLR / VA randomization.
    pub aslr: String,
    /// Swap devices or usage summary.
    pub swap: String,
}

impl Default for RuntimeTuningInfo {
    fn default() -> (r: Self)
        ensures
            r.isolated_cpus@ == Seq::<char>::empty(),
            r.cpu_frequency_governor@ == Seq::<char>::empty(),
            r.turbo_boost@ == Seq::<char>::empty(),
            r.irq_affinity@ == Seq::<char>::empty(),
            r.aslr@ == Seq::<char>::empty(),
            r.swap@ == Seq::<char>::empty(),
    {
        RuntimeTuningInfo {
            isolated_cpus: String::new(),
            cpu_frequency_governor: String::new(),
            turbo_boost: String::new(),
            irq_affinity: String::new(),
            aslr: String::new(),
            swap: String::new(),
        }
    }
}

/// `m` maps a key whose text is `label` to a value whose text is `value`.
pub open spec fn has_row(m: Map<String, String>, label: Seq<char>, value: Seq<char>) -> bool {
    exists|k: String| k@ == label && #[trigger] m.contains_key(k) && m[k]@ == value
}

/// The report labels of the settings.
pub open spec fn tuning_labels() -> Seq<Seq<char>> {
    seq!["Isolated CPUs"@, "CPU governor"@, "Turbo / boost"@, "IRQ affinity (sample)"@, "ASLR"@, "Swap"@]
}

fn insert_row(params: &mut BTreeMap<String, String>, label: &str, value: &String)
    ensures
        obeys_cmp::<String>() ==> {
            &&& has_row(final(params)@, label@, value@)
            &&& forall|k: String| #[trigger] old(params)@.contains_key(k) && k@ != label@ ==> final(params)@.contains_key(k)
                && final(params)@[k] == old(params)@[k]
            &&& forall|k: String| #[trigger] final(params)@.contains_key(k) && k@ != label@ ==> old(params)@.contains_key(k)
        },
{
    let k = String::from_str(label);
    let v = value.clone();
    params.insert(k, v);
    proof {
        if obeys_cmp::<String>() {
            assert(final(params)@.contains_key(k) && final(params)@[k]@ == value@);
        }
    }
}

/// Insert the runtime-tuning rows, under the labels of the report's metadata table.
pub fn append_runtime_tuning_params(params: &mut BTreeMap<String, String>, tuning: &RuntimeTuningInfo)
    ensures
        obeys_cmp::<String>() ==> {
            &&& has_row(final(params)@, "Isolated CPUs"@, tuning.isolated_cpus@)
            &&& has_row(final(params)@, "CPU governor"@, tuning.cpu_frequency_governor@)
            &&& has_row(final(params)@, "Turbo / boost"@, tuning.turbo_boost@)
            &&& has_row(final(params)@, "IRQ affinity (sample)"@, tuning.irq_affinity@)
            &&& has_row(final(params)@, "ASLR"@, tuning.aslr@)
            &&& has_row(final(params)@, "Swap"@, tuning.swap@)
            &&& forall|k: String|
                #[trigger] old(params)@.contains_key(k) && !tuning_labels().contains(k@) ==> final(params)@.contains_key(k)
                    && final(params)@[k] == old(params)@[k]
            &&& forall|k: String|
                #[trigger] final(params)@.contains_key(k) && !tuning_labels().contains(k@) ==> old(params)@.contains_key(k)
        },
{
    let ghost m0 = params@;
    insert_row(params, "Isolated CPUs", &tuning.isolated_cpus);
    let ghost m1 = params@;
    insert_row(params, "CPU governor", &tuning.cpu_frequency_governor);
    let ghost m2 = params@;
    insert_row(params, "Turbo / boost", &tuning.turbo_boost);
    let ghost m3 = params@;
    insert_row(params, "IRQ affinity (sample)", &tuning.irq_affinity);
    let ghost m4 = params@;
    insert_row(params, "ASLR", &tuning.aslr);
    let ghost m5 = params@;
    insert_row(params, "Swap", &tuning.swap);
    proof {
        if obeys_cmp::<String>() {
            reveal_strlit("Isolated CPUs");
            reveal_strlit("CPU governor");
            reveal_strlit("Turbo / boost");
            reveal_strlit("IRQ affinity (sample)");
            reveal_strlit("ASLR");
            reveal_strlit("Swap");
            let l = tuning_labels();
            assert(l[0].len() != l[1].len());
            assert(l[0][0] != l[2][0]);
            assert(l[0].len() != l[3].len());
            assert(l[0].len() != l[4].len());
            assert(l[0].len() != l[5].len());
            assert(l[1].len() != l[2].len());
            assert(l[1].len() != l[3].len());
            assert(l[1].len() != l[4].len());
            assert(l[1].len() != l[5].len());
            assert(l[2].len() != l[3].len());
            assert(l[2].len() != l[4].len());
            assert(l[2].len() != l[5].len());
            assert(l[3].len() != l[4].len());
            assert(l[3].len() != l[5].len());
            assert(l[4][0] != l[5][0]);
            let m6 = params@;
            lemma_keep_row(m1, m2, l[0], tuning.isolated_cpus@, l[1]);
            lemma_keep_row(m2, m3, l[0], tuning.isolated_cpus@, l[2]);
            lemma_keep_row(m3, m4, l[0], tuning.isolated_cpus@, l[3]);
            lemma_keep_row(m4, m5, l[0], tuning.isolated_cpus@, l[4]);
            lemma_keep_row(m5, m6, l[0], tuning.isolated_cpus@, l[5]);
            lemma_keep_row(m2, m3, l[1], tuning.cpu_frequency_governor@, l[2]);
            lemma_keep_row(m3, m4, l[1], tuning.cpu_frequency_governor@, l[3]);
            lemma_keep_row(m4, m5, l[1], tuning.cpu_frequency_governor@, l[4]);
            lemma_keep_row(m5, m6, l[1], tuning.cpu_frequency_governor@, l[5]);
            lemma_keep_row(m3, m4, l[2], tuning.turbo_boost@, l[3]);
            lemma_keep_row(m4, m5, l[2], tuning.turbo_boost@, l[4]);
            lemma_keep_row(m5, m6, l[2], tuning.turbo_boost@, l[5]);
            lemma_keep_row(m4, m5, l[3], tuning.irq_affinity@, l[4]);
            lemma_keep_row(m5, m6, l[3], tuning.irq_affinity@, l[5]);
            lemma_keep_row(m5, m6, l[4], tuning.aslr@, l[5]);
            assert forall|k: String| #[trigger] m0.contains_key(k) && !l.contains(k@) implies m6.contains_key(k)
                && m6[k] == m0[k] by {
                assert(k@ != l[0] && k@ != l[1] && k@ != l[2] && k@ != l[3] && k@ != l[4] && k@ != l[5]);
            }
            assert forall|k: String| #[trigger] m6.contains_key(k) && !l.contains(k@) implies m0.contains_key(k) by {
                assert(k@ != l[0] && k@ != l[1] && k@ != l[2] && k@ != l[3] && k@ != l[4] && k@ != l[5]);
            }
        }
    }
}

proof fn lemma_keep_row(m0: Map<String, String>, m1: Map<String, String>, label: Seq<char>, value: Seq<char>, other: Seq<char>)
    requires
        has_row(m0, label, value),
        label != other,
        forall|k: String| #[trigger] m0.contains_key(k) && k@ != other ==> m1.contains_key(k) && m1[k] == m0[k],
    ensures
        has_row(m1, label, value),
{
    let k = choose|k: String| k@ == label && #[trigger] m0.contains_key(k) && m0[k]@ == value;
    assert(m1.contains_key(k));
}

// ---------------------------------------------------------------------------
//  Reading what the operating system reports
// ---------------------------------------------------------------------------

/// `c` has the Unicode `White_Space` property.
pub open spec fn is_white_space(c: char) -> bool {
    let u = c as u32;
    ||| (9 <= u && u <= 13)
    ||| u == 32
    ||| u == 0x85
    ||| u == 0xA0
    ||| u == 0x1680
    ||| (0x2000 <= u && u <= 0x200A)
    ||| u == 0x2028
    ||| u == 0x2029
    ||| u == 0x202F
    ||| u == 0x205F
    ||| u == 0x3000
}

/// `s` without its leading whitespace.
pub open spec fn trim_start_chars(s: Seq<char>) -> Seq<char>
    decreases s.len(),
{
    if s.len() > 0 && is_white_space(s[0]) {
        trim_start_chars(s.drop_first())
    } else {
        s
    }
}

/// `s` without its trailing whitespace.
pub open spec fn trim_end_chars(s: Seq<char>) -> Seq<char>
    decreases s.len(),
{
    if s.len() > 0 && is_white_space(s.last()) {
        trim_end_chars(s.drop_last())
    } else {
        s
    }
}

/// `s` without leading and trailing whitespace.
pub open spec fn trim_chars(s: Seq<char>) -> Seq<char> {
    trim_end_chars(trim_start_chars(s))
}

/// `s` without leading and trailing characters of the Unicode `White_Space`
/// property (what `str::trim` gives).
pub(crate) fn text_trim(s: &str) -> (r: &str)
    ensures
        r@ == trim_chars(s@),
{
    let n = s.unicode_len();
    let mut i: usize = 0;
    assert(s@.skip(0) =~= s@);
    while i < n && is_white_space_char(s.get_char(i))
        invariant
            n == s@.len(),
            i <= n,
            trim_start_chars(s@) == trim_start_chars(s@.skip(i as int)),
        decreases n - i,
    {
        assert(s@.skip(i as int).drop_first() =~= s@.skip(i + 1));
        i = i + 1;
    }
    let ghost front = s@.skip(i as int);
    assert(trim_start_chars(front) == front);
    assert(front =~= s@.subrange(i as int, n as int));
    let mut j: usize = n;
    while j > i && is_white_space_char(s.get_char(j - 1))
        invariant
            n == s@.len(),
            i <= j <= n,
            trim_end_chars(front) == trim_end_chars(s@.subrange(i as int, j as int)),
        decreases j - i,
    {
        assert(s@.subrange(i as int, j as int).drop_last() =~= s@.subrange(i as int, j - 1));
        j = j - 1;
    }
    let ghost mid = s@.subrange(i as int, j as int);
    assert(trim_end_chars(mid) == mid);
    s.substring_char(i, j)
}

/// Whether `s` reads `lit`.
fn same_text(s: &str, lit: &str) -> (r: bool)
    ensures
        r == (s@ == lit@),
{
    let n = s.unicode_len();
    if n != lit.unicode_len() {
        return false;
    }
    let mut i: usize = 0;
    while i < n
        invariant
            n == s@.len(),
            n == lit@.len(),
            i <= n,
            forall|j: int| 0 <= j < i ==> s@[j] == lit@[j],
        decreases n - i,
    {
        if s.get_char(i) != lit.get_char(i) {
            return false;
        }
        i = i + 1;
    }
    assert(s@ =~= lit@);
    true
}

/// `head` followed by `body`.
fn prefixed(head: &str, body: &str) -> (r: String)
    ensures
        r@ == head@ + body@,
{
    let mut out = String::from_str(head);
    out.append(body);
    out
}

/// `head`, the text `body`, then `tail`.
fn framed(head: &str, body: &str, tail: &str) -> (r: String)
    ensures
        r@ == head@ + body@ + tail@,
{
    let mut out = String::from_str(head);
    out.append(body);
    out.append(tail);
    out
}

/// Summary of the isolated-CPU list, from the contents of
/// `/sys/devices/system/cpu/isolated` or the text of the read error.
pub open spec fn isolated_cpus_text(read: Result<Seq<char>, Seq<char>>) -> Seq<char> {
    match read {
        Ok(s) => if trim_chars(s).len() == 0 {
            "none listed (empty /sys/.../isolated; add isolcpus=\u{2026} boot param for isolation)"@
        } else {
            trim_chars(s)
        },
        Err(e) => "unavailable ("@ + e + ")"@,
    }
}

/// The texts of a read result.
pub open spec fn read_view(read: Result<String, String>) -> Result<Seq<char>, Seq<char>> {
    match read {
        Ok(s) => Ok(s@),
        Err(e) => Err(e@),
    }
}

pub fn isolated_cpus_summary(read: &Result<String, String>) -> (r: String)
    ensures
        r@ == isolated_cpus_text(read_view(*read)),
{
    match read {
        Ok(s) => {
            let t = text_trim(s.as_str());
            if t.unicode_len() == 0 {
                String::from_str(
                    "none listed (empty /sys/.../isolated; add isolcpus=\u{2026} boot param for isolation)",
                )
            } else {
                String::from_str(t)
            }
        },
        Err(e) => framed("unavailable (", e.as_str(), ")"),
    }
}

/// Summary of the ASLR setting, from the contents of
/// `/proc/sys/kernel/randomize_va_space` or the text of the read error.
pub open spec fn aslr_text(read: Result<Seq<char>, Seq<char>>) -> Seq<char> {
    match read {
        Ok(s) => {
            let t = trim_chars(s);
            if t == "0"@ {
                "disabled (randomize_va_space=0)"@
            } else if t == "1"@ {
                "enabled partial (randomize_va_space=1)"@
            } else if t == "2"@ {
                "enabled full (randomize_va_space=2)"@
            } else {
                "randomize_va_space="@ + t
            }
        },
        Err(e) => "unavailable ("@ + e + ")"@,
    }
}

pub fn aslr_summary(read: &Result<String, String>) -> (r: String)
    ensures
        r@ == aslr_text(read_view(*read)),
{
    match read {
        Ok(s) => {
            let t = text_trim(s.as_str());
            if same_text(t, "0") {
                String::from_str("disabled (randomize_va_space=0)")
            } else if same_text(t, "1") {
                String::from_str("enabled partial (randomize_va_space=1)")
            } else if same_text(t, "2") {
                String::from_str("enabled full (randomize_va_space=2)")
            } else {
                prefixed("randomize_va_space=", t)
            }
        },
        Err(e) => framed("unavailable (", e.as_str(), ")"),
    }
}

/// Summary of the turbo policy, from the contents of
/// `/sys/devices/system/cpu/intel_pstate/no_turbo` and of
/// `/sys/devices/system/cpu/cpufreq/boost`, each where it could be read.
pub open spec fn turbo_text(intel: Option<Seq<char>>, amd: Option<Seq<char>>) -> Seq<char> {
    match intel {
        Some(s) => {
            let t = trim_chars(s);
            if t == "1"@ {
                "disabled (intel_pstate no_turbo=1)"@
            } else if t == "0"@ {
                "enabled (intel_pstate no_turbo=0)"@
            } else {
                "intel_pstate no_turbo="@ + t
            }
        },
        None => match amd {
            Some(s) => {
                let t = trim_chars(s);
                if t == "0"@ {
                    "disabled (AMD cpufreq boost=0)"@
                } else if t == "1"@ {
                    "enabled (AMD cpufreq boost=1)"@
                } else {
                    "AMD cpufreq boost="@ + t
                }
            },
            None => "unavailable (no intel_pstate/no_turbo or cpufreq/boost sysfs)"@,
        },
    }
}

/// The text of an optional string slice.
pub open spec fn opt_view(s: Option<&str>) -> Option<Seq<char>> {
    match s {
        Some(x) => Some(x@),
        None => None,
    }
}

pub fn turbo_summary(intel_no_turbo: Option<&str>, amd_boost: Option<&str>) -> (r: String)
    ensures
        r@ == turbo_text(opt_view(intel_no_turbo), opt_view(amd_boost)),
{
    match intel_no_turbo {
        Some(s) => {
            let t = text_trim(s);
            if same_text(t, "1") {
                String::from_str("disabled (intel_pstate no_turbo=1)")
            } else if same_text(t, "0") {
                String::from_str("enabled (intel_pstate no_turbo=0)")
            } else {
                prefixed("intel_pstate no_turbo=", t)
            }
        },
        None => match amd_boost {
            Some(s) => {
                let t = text_trim(s);
                if same_text(t, "0") {
                    String::from_str("disabled (AMD cpufreq boost=0)")
                } else if same_text(t, "1") {
                    String::from_str("enabled (AMD cpufreq boost=1)")
                } else {
                    prefixed("AMD cpufreq boost=", t)
                }
            },
            None => String::from_str("unavailable (no intel_pstate/no_turbo or cpufreq/boost sysfs)"),
        },
    }
}

/// At most this many IRQ affinities are sampled.
pub const IRQ_SAMPLE_CAP: usize = 64;

/// The IRQ affinity samples among the first `n` readings: each trimmed, empty ones
/// skipped, at most [`IRQ_SAMPLE_CAP`].
pub open spec fn irq_samples(readings: Seq<Seq<char>>, n: int) -> Seq<Seq<char>>
    decreases n,
{
    if n <= 0 {
        Seq::empty()
    } else {
        let prev = irq_samples(readings, n - 1);
        let t = trim_chars(readings[n - 1]);
        if prev.len() >= IRQ_SAMPLE_CAP || t.len() == 0 {
            prev
        } else {
            prev.push(t)
        }
    }
}

/// Summary of the sampled IRQ affinities.
pub open spec fn irq_affinity_text(samples: Seq<Seq<char>>) -> Seq<char> {
    if samples.len() == 0 {
        "no readable smp_affinity_list (permissions or kernel)"@
    } else if forall|i: int| 0 <= i < samples.len() ==> #[trigger] samples[i] == samples[0] {
        samples[0] + " (uniform across "@ + decimal(samples.len()) + " sampled IRQs)"@
    } else {
        "mixed ("@ + decimal(samples.len()) + " sampled IRQs; first="@ + samples[0] + ")"@
    }
}

/// Summary of IRQ affinities from the contents of the readable
/// `/proc/irq/*/smp_affinity_list` files, in directory order.
pub fn irq_affinity_summary(readings: &[String]) -> (r: String)
    ensures
        r@ == irq_affinity_text(irq_samples(strings_view_of(readings@), readings@.len() as int)),
{
    let ghost rv = strings_view_of(readings@);
    let mut samples: Vec<&str> = Vec::new();
    let mut i: usize = 0;
    while i < readings.len()
        invariant
            i <= readings@.len(),
            rv == strings_view_of(readings@),
            strs_of(samples@) == irq_samples(rv, i as int),
            samples@.len() <= IRQ_SAMPLE_CAP,
        decreases readings@.len() - i,
    {
        if samples.len() < IRQ_SAMPLE_CAP {
            let t = text_trim(readings[i].as_str());
            if t.unicode_len() > 0 {
                let ghost s0 = samples@;
                samples.push(t);
                proof {
                    assert(strs_of(samples@) =~= strs_of(s0).push(t@));
                }
            }
        }
        i = i + 1;
    }
    let ghost sv = irq_samples(rv, readings@.len() as int);
    if samples.len() == 0 {
        return String::from_str("no readable smp_affinity_list (permissions or kernel)");
    }
    let first = samples[0];
    let n = samples.len();
    let mut uniform = true;
    let mut j: usize = 0;
    while j < n
        invariant
            n == samples@.len(),
            strs_of(samples@) == sv,
            first@ == sv[0],
            j <= n,
            uniform == (forall|k: int| 0 <= k < j ==> #[trigger] sv[k] == sv[0]),
        decreases n - j,
    {
        let same = same_text(samples[j], first);
        assert(samples@[j as int]@ == sv[j as int]);
        uniform = uniform && same;
        j = j + 1;
    }
    let mut out = String::new();
    if uniform {
        out.append(first);
        out.append(" (uniform across ");
        push_decimal(&mut out, n as u64);
        out.append(" sampled IRQs)");
    } else {
        out.append("mixed (");
        push_decimal(&mut out, n as u64);
        out.append(" sampled IRQs; first=");
        out.append(first);
        out.append(")");
    }
    out
}

/// The texts of `s`.
pub open spec fn strings_view_of(s: Seq<String>) -> Seq<Seq<char>> {
    s.map_values(|x: String| x@)
}

/// The texts of `s`.
pub open spec fn strs_of(s: Seq<&str>) -> Seq<Seq<char>> {
    s.map_values(|x: &str| x@)
}

/// A directory entry name of the form `cpu` followed by one or more ASCII digits.
pub open spec fn is_cpu_dir_text(name: Seq<char>) -> bool {
    &&& name.len() > 3
    &&& name.take(3) == "cpu"@
    &&& forall|i: int| 3 <= i < name.len() ==> '0' <= #[trigger] name[i] && name[i] <= '9'
}

/// Whether `name` names a CPU directory under `/sys/devices/system/cpu`.
pub fn is_cpu_dir_name(name: &str) -> (r: bool)
    ensures
        r == is_cpu_dir_text(name@),
{
    proof {
        reveal_strlit("cpu");
    }
    let n = name.unicode_len();
    if n <= 3 {
        return false;
    }
    if name.get_char(0) != 'c' || name.get_char(1) != 'p' || name.get_char(2) != 'u' {
        assert(name@.take(3)[0] != "cpu"@[0] || name@.take(3)[1] != "cpu"@[1] || name@.take(3)[2] != "cpu"@[2]);
        return false;
    }
    assert(name@.take(3) =~= "cpu"@);
    let mut i: usize = 3;
    while i < n
        invariant
            n == name@.len(),
            3 <= i <= n,
            forall|k: int| 3 <= k < i ==> '0' <= #[trigger] name@[k] && name@[k] <= '9',
        decreases n - i,
    {
        let c = name.get_char(i);
        if !('0' <= c && c <= '9') {
            return false;
        }
        i = i + 1;
    }
    true
}

// ---------------------------------------------------------------------------
//  CPU frequency governors
// ---------------------------------------------------------------------------

/// `a` comes before `b` in lexicographic order of characters, which is the order of
/// `String`s: by bytes of UTF-8, which keeps the order of code points.
pub open spec fn text_lt(a: Seq<char>, b: Seq<char>) -> bool
    decreases a.len(),
{
    if a.len() == 0 {
        b.len() > 0
    } else if b.len() == 0 {
        false
    } else if a[0] != b[0] {
        a[0] < b[0]
    } else {
        text_lt(a.drop_first(), b.drop_first())
    }
}

proof fn lemma_text_lt_irreflexive(a: Seq<char>)
    ensures
        !text_lt(a, a),
    decreases a.len(),
{
    if a.len() > 0 {
        lemma_text_lt_irreflexive(a.drop_first());
    }
}

proof fn lemma_text_lt_total(a: Seq<char>, b: Seq<char>)
    requires
        a != b,
    ensures
        text_lt(a, b) || text_lt(b, a),
    decreases a.len(),
{
    if a.len() == 0 {
        if b.len() == 0 {
            assert(a =~= b);
        }
    } else if b.len() == 0 {
    } else if a[0] != b[0] {
    } else {
        if a.drop_first() == b.drop_first() {
            assert(a =~= seq![a[0]] + a.drop_first());
            assert(b =~= seq![b[0]] + b.drop_first());
        }
        lemma_text_lt_total(a.drop_first(), b.drop_first());
    }
}

proof fn lemma_text_lt_transitive(a: Seq<char>, b: Seq<char>, c: Seq<char>)
    requires
        text_lt(a, b),
        text_lt(b, c),
    ensures
        text_lt(a, c),
    decreases a.len(),
{
    if a.len() > 0 && b.len() > 0 && c.len() > 0 && a[0] == b[0] && b[0] == c[0] {
        lemma_text_lt_transitive(a.drop_first(), b.drop_first(), c.drop_first());
    }
}

/// Whether `a` comes before `b`.
fn text_less(a: &str, b: &str) -> (r: bool)
    ensures
        r == text_lt(a@, b@),
{
    let n = a.unicode_len();
    let m = b.unicode_len();
    let mut i: usize = 0;
    assert(a@.skip(0) =~= a@ && b@.skip(0) =~= b@);
    while i < n && i < m
        invariant
            n == a@.len(),
            m == b@.len(),
            i <= n,
            i <= m,
            text_lt(a@, b@) == text_lt(a@.skip(i as int), b@.skip(i as int)),
        decreases n - i,
    {
        let x = a.get_char(i);
        let y = b.get_char(i);
        assert(a@.skip(i as int)[0] == x && b@.skip(i as int)[0] == y);
        if x != y {
            return x < y;
        }
        assert(a@.skip(i as int).drop_first() =~= a@.skip(i + 1));
        assert(b@.skip(i as int).drop_first() =~= b@.skip(i + 1));
        i = i + 1;
    }
    assert(a@.skip(i as int).len() == n - i && b@.skip(i as int).len() == m - i);
    n < m
}

/// How many entries of `s` read `k`.
pub open spec fn occurrences(s: Seq<Seq<char>>, k: Seq<char>) -> nat
    decreases s.len(),
{
    if s.len() == 0 {
        0
    } else {
        occurrences(s.drop_last(), k) + (if s.last() == k { 1nat } else { 0nat })
    }
}

/// `keys` are the distinct entries of `s`, in increasing order.
pub open spec fn sorted_distinct(keys: Seq<Seq<char>>, s: Seq<Seq<char>>) -> bool {
    &&& forall|i: int, j: int| 0 <= i < j < keys.len() ==> text_lt(#[trigger] keys[i], #[trigger] keys[j])
    &&& forall|i: int| 0 <= i < keys.len() ==> s.contains(#[trigger] keys[i])
    &&& forall|i: int| 0 <= i < s.len() ==> keys.contains(#[trigger] s[i])
}

/// `key:count` for each of the first `n` keys, separated by `, `.
pub open spec fn count_list(keys: Seq<Seq<char>>, s: Seq<Seq<char>>, n: int) -> Seq<char>
    decreases n,
{
    if n <= 0 {
        Seq::empty()
    } else {
        let entry = keys[n - 1] + ":"@ + decimal(occurrences(s, keys[n - 1]));
        if n == 1 {
            entry
        } else {
            count_list(keys, s, n - 1) + ", "@ + entry
        }
    }
}

/// All entries of `s` read as its first.
pub open spec fn uniform(s: Seq<Seq<char>>) -> bool {
    forall|i: int| 0 <= i < s.len() ==> #[trigger] s[i] == s[0]
}

/// The governors as read, each trimmed.
pub open spec fn trimmed_all(readings: Seq<Seq<char>>) -> Seq<Seq<char>> {
    readings.map_values(|r: Seq<char>| trim_chars(r))
}

/// `out` summarises the governors `gov` of the CPUs: the one governor with the
/// number of CPUs, or each governor with its count, governors in increasing order.
pub open spec fn governor_text(gov: Seq<Seq<char>>, out: Seq<char>) -> bool {
    if gov.len() == 0 {
        out == "unavailable (no cpufreq scaling_governor sysfs entries)"@
    } else if uniform(gov) {
        out == gov[0] + " (all "@ + decimal(gov.len()) + " CPUs)"@
    } else {
        exists|keys: Seq<Seq<char>>|
            sorted_distinct(keys, gov) && out == "mixed ("@ + count_list(keys, gov, keys.len() as int) + ")"@
    }
}

/// Summary of the CPU frequency governors, from the contents of the readable
/// `cpu*/cpufreq/scaling_governor` files in path order.
pub fn governor_summary(readings: &[String]) -> (r: String)
    ensures
        governor_text(trimmed_all(strings_view_of(readings@)), r@),
{
    let ghost rv = strings_view_of(readings@);
    let ghost gv = trimmed_all(rv);
    let n = readings.len();
    let mut gov: Vec<&str> = Vec::new();
    let mut i: usize = 0;
    while i < n
        invariant
            n == readings@.len(),
            rv == strings_view_of(readings@),
            gv == trimmed_all(rv),
            i <= n,
            strs_of(gov@) == gv.take(i as int),
        decreases n - i,
    {
        let t = text_trim(readings[i].as_str());
        let ghost g0 = gov@;
        gov.push(t);
        proof {
            assert(gv.take(i + 1) =~= gv.take(i as int).push(t@));
            assert(strs_of(gov@) =~= strs_of(g0).push(t@));
        }
        i = i + 1;
    }
    assert(gv.take(n as int) =~= gv);
    if n == 0 {
        return String::from_str("unavailable (no cpufreq scaling_governor sysfs entries)");
    }
    let first = gov[0];
    let mut same = true;
    let mut j: usize = 0;
    while j < n
        invariant
            n == gov@.len(),
            strs_of(gov@) == gv,
            first@ == gv[0],
            j <= n,
            same == (forall|k: int| 0 <= k < j ==> #[trigger] gv[k] == gv[0]),
        decreases n - j,
    {
        let eq = same_text(gov[j], first);
        assert(gov@[j as int]@ == gv[j as int]);
        same = same && eq;
        j = j + 1;
    }
    if same {
        let mut out = String::from_str(first);
        out.append(" (all ");
        push_decimal(&mut out, n as u64);
        out.append(" CPUs)");
        return out;
    }
    let mut keys: Vec<&str> = Vec::new();
    let mut counts: Vec<u64> = Vec::new();
    let mut i: usize = 0;
    while i < n
        invariant
            n == gov@.len(),
            strs_of(gov@) == gv,
            i <= n,
            keys@.len() == counts@.len(),
            sorted_distinct(strs_of(keys@), gv.take(i as int)),
            forall|q: int| 0 <= q < counts@.len() ==> #[trigger] counts@[q] == occurrences(gv.take(i as int), strs_of(keys@)[q]),
            forall|q: int| 0 <= q < counts@.len() ==> #[trigger] counts@[q] <= i,
        decreases n - i,
    {
        let g = gov[i];
        assert(g@ == gv[i as int]);
        let ghost pre = gv.take(i as int);
        let ghost post = gv.take(i + 1);
        assert(post =~= pre.push(g@));
        assert(post.drop_last() =~= pre);
        let ghost ks = strs_of(keys@);
        let mut p: usize = 0;
        while p < keys.len() && text_less(keys[p], g)
            invariant
                p <= keys@.len(),
                ks == strs_of(keys@),
                forall|q: int| 0 <= q < p ==> text_lt(#[trigger] ks[q], g@),
            decreases keys@.len() - p,
        {
            p = p + 1;
        }
        if p < keys.len() && same_text(keys[p], g) {
            proof {
                assert(ks[p as int] == g@);
                assert forall|q: int| 0 <= q < counts@.len() && q != p implies ks[q] != g@ by {
                    lemma_text_lt_irreflexive(g@);
                    if q < p {
                        assert(text_lt(ks[q], g@));
                    } else {
                        assert(text_lt(ks[p as int], ks[q]));
                    }
                }
            }
            let c = counts[p];
            counts.set(p, c + 1);
            proof {
                assert forall|q: int| 0 <= q < counts@.len() implies #[trigger] counts@[q] == occurrences(post, strs_of(keys@)[q]) by {
                    assert(occurrences(post, ks[q]) == occurrences(pre, ks[q]) + (if g@ == ks[q] { 1nat } else { 0nat }));
                }
                assert forall|q: int| 0 <= q < strs_of(keys@).len() implies post.contains(#[trigger] strs_of(keys@)[q]) by {
                    assert(pre.contains(ks[q]));
                    let w = choose|w: int| 0 <= w < pre.len() && pre[w] == ks[q];
                    assert(post[w] == ks[q]);
                }
                assert forall|q: int| 0 <= q < post.len() implies strs_of(keys@).contains(#[trigger] post[q]) by {
                    if q < pre.len() {
                        assert(post[q] == pre[q]);
                    } else {
                        assert(post[q] == ks[p as int]);
                    }
                }
            }
        } else {
            proof {
                if p < keys@.len() {
                    lemma_text_lt_total(ks[p as int], g@);
                }
                assert(!pre.contains(g@)) by {
                    if pre.contains(g@) {
                        let w = choose|w: int| 0 <= w < pre.len() && pre[w] == g@;
                        assert(ks.contains(pre[w]));
                        let q = choose|q: int| 0 <= q < ks.len() && ks[q] == pre[w];
                        if q < p {
                            lemma_text_lt_irreflexive(g@);
                        } else if q == p {
                        } else {
                            lemma_text_lt_transitive(g@, ks[p as int], ks[q]);
                            lemma_text_lt_irreflexive(g@);
                        }
                    }
                }
                lemma_occurrences_absent(pre, g@);
            }
            keys.insert(p, g);
            counts.insert(p, 1);
            proof {
                let ks2 = strs_of(keys@);
                assert(ks2 =~= ks.insert(p as int, g@));
                assert forall|a: int, b: int| 0 <= a < b < ks2.len() implies text_lt(#[trigger] ks2[a], #[trigger] ks2[b]) by {
                    if b < p {
                    } else if b == p {
                    } else if a < p {
                        assert(ks2[b] == ks[b - 1]);
                        if p < ks.len() {
                            if b - 1 == p {
                            } else {
                                lemma_text_lt_transitive(g@, ks[p as int], ks[b - 1]);
                            }
                            lemma_text_lt_transitive(ks[a], g@, ks[b - 1]);
                        }
                    } else if a == p {
                        assert(ks2[b] == ks[b - 1]);
                        if b - 1 != p {
                            lemma_text_lt_transitive(g@, ks[p as int], ks[b - 1]);
                        }
                    } else {
                        assert(ks2[a] == ks[a - 1] && ks2[b] == ks[b - 1]);
                    }
                }
                assert forall|q: int| 0 <= q < ks2.len() implies post.contains(#[trigger] ks2[q]) by {
                    if q == p {
                        assert(post[pre.len() as int] == g@);
                    } else {
                        let k = if q < p { ks[q] } else { ks[q - 1] };
                        assert(ks2[q] == k);
                        assert(pre.contains(k));
                        let w = choose|w: int| 0 <= w < pre.len() && pre[w] == k;
                        assert(post[w] == k);
                    }
                }
                assert forall|q: int| 0 <= q < post.len() implies ks2.contains(#[trigger] post[q]) by {
                    if q < pre.len() {
                        assert(post[q] == pre[q]);
                        assert(ks.contains(pre[q]));
                        let w = choose|w: int| 0 <= w < ks.len() && ks[w] == pre[q];
                        if w < p {
                            assert(ks2[w] == ks[w]);
                        } else {
                            assert(ks2[w + 1] == ks[w]);
                        }
                    } else {
                        assert(ks2[p as int] == g@);
                    }
                }
                assert forall|q: int| 0 <= q < counts@.len() implies #[trigger] counts@[q] == occurrences(post, ks2[q]) by {
                    assert(occurrences(post, ks2[q]) == occurrences(pre, ks2[q]) + (if g@ == ks2[q] { 1nat } else { 0nat }));
                    if q < p {
                        assert(ks2[q] != g@) by {
                            lemma_text_lt_irreflexive(g@);
                        }
                    } else if q > p {
                        assert(ks2[q] == ks[q - 1]);
                        assert(ks2[q] != g@) by {
                            lemma_text_lt_irreflexive(g@);
                        }
                    }
                }
            }
        }
        i = i + 1;
    }
    assert(gv.take(n as int) =~= gv);
    let mut out = String::from_str("mixed (");
    let ghost start = out@;
    let ghost kv = strs_of(keys@);
    let m = keys.len();
    let mut q: usize = 0;
    while q < m
        invariant
            m == keys@.len(),
            m == counts@.len(),
            kv == strs_of(keys@),
            forall|w: int| 0 <= w < counts@.len() ==> #[trigger] counts@[w] == occurrences(gv, kv[w]),
            q <= m,
            out@ == start + count_list(kv, gv, q as int),
        decreases m - q,
    {
        if q > 0 {
            out.append(", ");
        }
        out.append(keys[q]);
        out.append(":");
        push_decimal(&mut out, counts[q]);
        proof {
            assert(out@ =~= start + count_list(kv, gv, (q + 1) as int));
        }
        q = q + 1;
    }
    out.append(")");
    proof {
        assert(!uniform(gv));
        assert(sorted_distinct(kv, gv));
        assert(out@ == "mixed ("@ + count_list(kv, gv, kv.len() as int) + ")"@);
    }
    out
}

proof fn lemma_occurrences_absent(s: Seq<Seq<char>>, k: Seq<char>)
    requires
        !s.contains(k),
    ensures
        occurrences(s, k) == 0,
    decreases s.len(),
{
    if s.len() > 0 {
        assert(s.last() != k) by {
            assert(s[s.len() - 1] == s.last());
        }
        assert forall|w: int| 0 <= w < s.drop_last().len() implies s.drop_last()[w] != k by {
            assert(s.drop_last()[w] == s[w]);
        }
        lemma_occurrences_absent(s.drop_last(), k);
    }
}

// ---------------------------------------------------------------------------
//  Swap devices
// ---------------------------------------------------------------------------

/// `line` without one trailing carriage return.
pub open spec fn strip_cr(line: Seq<char>) -> Seq<char> {
    if line.len() > 0 && line.last() == '\r' {
        line.drop_last()
    } else {
        line
    }
}

/// The lines of `s` from position `pos` on, the current line having read `cur` so
/// far: split at `\n`, a `\r` before the `\n` dropped, no empty line after a final
/// `\n` (as `str::lines` splits).
pub open spec fn lines_from(s: Seq<char>, pos: int, cur: Seq<char>) -> Seq<Seq<char>>
    decreases s.len() - pos,
{
    if pos >= s.len() {
        if cur.len() > 0 {
            seq![cur]
        } else {
            Seq::empty()
        }
    } else if s[pos] == '\n' {
        seq![strip_cr(cur)] + lines_from(s, pos + 1, Seq::empty())
    } else {
        lines_from(s, pos + 1, cur.push(s[pos]))
    }
}

/// The lines of `s`.
pub open spec fn lines_of(s: Seq<char>) -> Seq<Seq<char>> {
    lines_from(s, 0, Seq::empty())
}

/// The words of `s` from position `pos` on, the current word having read `cur`:
/// maximal runs of characters other than whitespace (as `str::split_whitespace`).
pub open spec fn words_from(s: Seq<char>, pos: int, cur: Seq<char>) -> Seq<Seq<char>>
    decreases s.len() - pos,
{
    if pos >= s.len() {
        if cur.len() > 0 {
            seq![cur]
        } else {
            Seq::empty()
        }
    } else if is_white_space(s[pos]) {
        (if cur.len() > 0 {
            seq![cur]
        } else {
            Seq::<Seq<char>>::empty()
        }) + words_from(s, pos + 1, Seq::empty())
    } else {
        words_from(s, pos + 1, cur.push(s[pos]))
    }
}

/// The words of `s`.
pub open spec fn words_of(s: Seq<char>) -> Seq<Seq<char>> {
    words_from(s, 0, Seq::empty())
}

/// Split `s` into lines.
fn split_lines<'a>(s: &'a str) -> (r: Vec<&'a str>)
    ensures
        strs_of(r@) == lines_of(s@),
{
    let n = s.unicode_len();
    let mut out: Vec<&str> = Vec::new();
    let mut start: usize = 0;
    let mut pos: usize = 0;
    proof {
        assert(s@.subrange(0, 0) =~= Seq::<char>::empty());
        assert(strs_of(out@) + lines_of(s@) =~= lines_of(s@));
    }
    while pos < n
        invariant
            n == s@.len(),
            start <= pos <= n,
            lines_of(s@) == strs_of(out@) + lines_from(s@, pos as int, s@.subrange(start as int, pos as int)),
        decreases n - pos,
    {
        let c = s.get_char(pos);
        let ghost before = strs_of(out@);
        let ghost cur = s@.subrange(start as int, pos as int);
        if c == '\n' {
            let mut end = pos;
            if end > start && s.get_char(end - 1) == '\r' {
                end = end - 1;
            }
            let line = s.substring_char(start, end);
            assert(line@ == strip_cr(cur)) by {
                if pos > start && s@[pos - 1] == '\r' {
                    assert(cur.drop_last() =~= s@.subrange(start as int, end as int));
                } else {
                    assert(cur =~= s@.subrange(start as int, end as int));
                }
            }
            out.push(line);
            proof {
                assert(strs_of(out@) =~= before.push(line@));
                assert(s@.subrange(pos + 1, pos + 1) =~= Seq::<char>::empty());
                assert(lines_from(s@, pos as int, cur) == seq![strip_cr(cur)] + lines_from(s@, pos + 1, Seq::empty()));
                assert(before + (seq![strip_cr(cur)] + lines_from(s@, pos + 1, Seq::empty())) =~= before.push(
                    line@,
                ) + lines_from(s@, pos + 1, Seq::empty()));
            }
            start = pos + 1;
        } else {
            proof {
                assert(s@.subrange(start as int, pos + 1) =~= cur.push(s@[pos as int]));
            }
        }
        pos = pos + 1;
    }
    let ghost before = strs_of(out@);
    let ghost cur = s@.subrange(start as int, n as int);
    if start < n {
        let line = s.substring_char(start, n);
        out.push(line);
        proof {
            assert(strs_of(out@) =~= before.push(line@));
            assert(before + seq![cur] =~= before.push(line@));
        }
    } else {
        proof {
            assert(before + Seq::<Seq<char>>::empty() =~= before);
        }
    }
    out
}

/// Split `s` into words.
fn split_words<'a>(s: &'a str) -> (r: Vec<&'a str>)
    ensures
        strs_of(r@) == words_of(s@),
{
    let n = s.unicode_len();
    let mut out: Vec<&str> = Vec::new();
    let mut start: usize = 0;
    let mut pos: usize = 0;
    proof {
        assert(s@.subrange(0, 0) =~= Seq::<char>::empty());
        assert(strs_of(out@) + words_of(s@) =~= words_of(s@));
    }
    while pos < n
        invariant
            n == s@.len(),
            start <= pos <= n,
            words_of(s@) == strs_of(out@) + words_from(s@, pos as int, s@.subrange(start as int, pos as int)),
        decreases n - pos,
    {
        let c = s.get_char(pos);
        let ghost before = strs_of(out@);
        let ghost cur = s@.subrange(start as int, pos as int);
        if is_white_space_char(c) {
            if start < pos {
                let w = s.substring_char(start, pos);
                out.push(w);
                proof {
                    assert(strs_of(out@) =~= before.push(w@));
                    assert(before + (seq![cur] + words_from(s@, pos + 1, Seq::empty())) =~= before.push(w@)
                        + words_from(s@, pos + 1, Seq::empty()));
                }
            } else {
                proof {
                    assert(before + (Seq::<Seq<char>>::empty() + words_from(s@, pos + 1, Seq::empty())) =~= before
                        + words_from(s@, pos + 1, Seq::empty()));
                }
            }
            proof {
                assert(s@.subrange(pos + 1, pos + 1) =~= Seq::<char>::empty());
            }
            start = pos + 1;
        } else {
            proof {
                assert(s@.subrange(start as int, pos + 1) =~= cur.push(s@[pos as int]));
            }
        }
        pos = pos + 1;
    }
    let ghost before = strs_of(out@);
    let ghost cur = s@.subrange(start as int, n as int);
    if start < n {
        let w = s.substring_char(start, n);
        out.push(w);
        proof {
            assert(strs_of(out@) =~= before.push(w@));
            assert(before + seq![cur] =~= before.push(w@));
        }
    } else {
        proof {
            assert(before + Seq::<Seq<char>>::empty() =~= before);
        }
    }
    out
}

/// Whether `c` has the Unicode `White_Space` property.
fn is_white_space_char(c: char) -> (r: bool)
    ensures
        r == is_white_space(c),
{
    let u = c as u32;
    (9 <= u && u <= 13) || u == 32 || u == 0x85 || u == 0xA0 || u == 0x1680 || (0x2000 <= u && u <= 0x200A)
        || u == 0x2028 || u == 0x2029 || u == 0x202F || u == 0x205F || u == 0x3000
}

/// The part of the swap summary for a line of `/proc/swaps`: device, type and
/// use, where the line has at least three words.
pub open spec fn swap_part(line: Seq<char>) -> Option<Seq<char>> {
    let w = words_of(line);
    if w.len() >= 3 {
        Some(w[0] + " type="@ + w[1] + " used="@ + w[2])
    } else {
        None
    }
}

/// The parts of the lines `1..n` of `lines` (the first is the header).
pub open spec fn swap_parts(lines: Seq<Seq<char>>, n: int) -> Seq<Seq<char>>
    decreases n,
{
    if n <= 1 {
        Seq::empty()
    } else {
        match swap_part(lines[n - 1]) {
            Some(p) => swap_parts(lines, n - 1).push(p),
            None => swap_parts(lines, n - 1),
        }
    }
}

/// The first `n` parts, separated by `; `.
pub open spec fn joined(parts: Seq<Seq<char>>, n: int) -> Seq<char>
    decreases n,
{
    if n <= 0 {
        Seq::empty()
    } else if n == 1 {
        parts[0]
    } else {
        joined(parts, n - 1) + "; "@ + parts[n - 1]
    }
}

/// Summary of the active swap devices, from the contents of `/proc/swaps` or the
/// text of the read error.
pub open spec fn swap_text(read: Result<Seq<char>, Seq<char>>) -> Seq<char> {
    match read {
        Ok(s) => {
            let ls = lines_of(s);
            if ls.len() <= 1 {
                "none active (/proc/swaps header only)"@
            } else {
                let parts = swap_parts(ls, ls.len() as int);
                if parts.len() == 0 {
                    trim_chars(s)
                } else {
                    joined(parts, parts.len() as int)
                }
            }
        },
        Err(e) => "unavailable ("@ + e + ")"@,
    }
}

pub fn swap_summary(read: &Result<String, String>) -> (r: String)
    ensures
        r@ == swap_text(read_view(*read)),
{
    match read {
        Err(e) => framed("unavailable (", e.as_str(), ")"),
        Ok(s) => {
            let lines = split_lines(s.as_str());
            let ghost ls = lines_of(s@);
            if lines.len() <= 1 {
                return String::from_str("none active (/proc/swaps header only)");
            }
            let mut parts: Vec<String> = Vec::new();
            let mut i: usize = 1;
            while i < lines.len()
                invariant
                    strs_of(lines@) == ls,
                    1 <= i <= lines@.len(),
                    strings_view_of(parts@) == swap_parts(ls, i as int),
                decreases lines@.len() - i,
            {
                let words = split_words(lines[i]);
                assert(lines@[i as int]@ == ls[i as int]);
                let ghost before = strings_view_of(parts@);
                if words.len() >= 3 {
                    let mut part = String::from_str(words[0]);
                    part.append(" type=");
                    part.append(words[1]);
                    part.append(" used=");
                    part.append(words[2]);
                    proof {
                        let w = words_of(ls[i as int]);
                        assert(w[0] == words@[0]@ && w[1] == words@[1]@ && w[2] == words@[2]@);
                    }
                    parts.push(part);
                    proof {
                        assert(strings_view_of(parts@) =~= before.push(part@));
                    }
                } else {
                    proof {
                        assert(words_of(ls[i as int]).len() == words@.len());
                    }
                }
                i = i + 1;
            }
            if parts.len() == 0 {
                return String::from_str(text_trim(s.as_str()));
            }
            let ghost pv = strings_view_of(parts@);
            let mut out = String::new();
            let mut j: usize = 0;
            while j < parts.len()
                invariant
                    pv == strings_view_of(parts@),
                    j <= parts@.len(),
                    out@ == joined(pv, j as int),
                decreases parts@.len() - j,
            {
                if j > 0 {
                    out.append("; ");
                }
                out.append(parts[j].as_str());
                proof {
                    assert(pv[j as int] == parts@[j as int]@);
                    if j == 0 {
                        assert(out@ =~= joined(pv, 1));
                    } else {
                        assert(out@ =~= joined(pv, (j + 1) as int));
                    }
                }
                j = j + 1;
            }
            out
        },
    }
}

} // verus!
