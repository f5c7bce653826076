use std::collections::BTreeMap;

use hft_demos::bench::runner::{RunMode, pin_status, pinning_disabled_note, scenario_selected, text_contains};
use hft_demos::bench::runtime_tuning::{
    RuntimeTuningInfo, append_runtime_tuning_params, aslr_summary, governor_summary, irq_affinity_summary, is_cpu_dir_name,
    isolated_cpus_summary, swap_summary, turbo_summary,
};

#[test]
fn runtime_tuning_rows_use_report_labels() {
    let tuning = RuntimeTuningInfo {
        isolated_cpus: "2-3".to_string(),
        cpu_frequency_governor: "performance (all 4 CPUs)".to_string(),
        turbo_boost: "disabled".to_string(),
        irq_affinity: "0-1".to_string(),
        aslr: "disabled".to_string(),
        swap: "none".to_string(),
    };
    let mut params = BTreeMap::new();
    params.insert("Other".to_string(), "kept".to_string());
    params.insert("ASLR".to_string(), "old".to_string());
    append_runtime_tuning_params(&mut params, &tuning);
    assert_eq!(params.len(), 7);
    assert_eq!(params["Isolated CPUs"], "2-3");
    assert_eq!(params["CPU governor"], "performance (all 4 CPUs)");
    assert_eq!(params["Turbo / boost"], "disabled");
    assert_eq!(params["IRQ affinity (sample)"], "0-1");
    assert_eq!(params["ASLR"], "disabled");
    assert_eq!(params["Swap"], "none");
    assert_eq!(params["Other"], "kept");
    let d = RuntimeTuningInfo::default();
    assert!(d.isolated_cpus.is_empty() && d.swap.is_empty());
}

#[test]
fn isolated_cpus_trims_and_reports_empty() {
    assert_eq!(isolated_cpus_summary(&Ok("  2-3\n".to_string())), "2-3");
    assert_eq!(
        isolated_cpus_summary(&Ok("\n".to_string())),
        "none listed (empty /sys/.../isolated; add isolcpus=\u{2026} boot param for isolation)"
    );
    assert_eq!(isolated_cpus_summary(&Err("No such file".to_string())), "unavailable (No such file)");
}

#[test]
fn aslr_values() {
    assert_eq!(aslr_summary(&Ok("0\n".to_string())), "disabled (randomize_va_space=0)");
    assert_eq!(aslr_summary(&Ok("1".to_string())), "enabled partial (randomize_va_space=1)");
    assert_eq!(aslr_summary(&Ok(" 2 \n".to_string())), "enabled full (randomize_va_space=2)");
    assert_eq!(aslr_summary(&Ok("7\n".to_string())), "randomize_va_space=7");
    assert_eq!(aslr_summary(&Err("denied".to_string())), "unavailable (denied)");
}

#[test]
fn turbo_prefers_intel_then_amd() {
    assert_eq!(turbo_summary(Some("1\n"), Some("1")), "disabled (intel_pstate no_turbo=1)");
    assert_eq!(turbo_summary(Some("0\n"), None), "enabled (intel_pstate no_turbo=0)");
    assert_eq!(turbo_summary(Some("x\n"), None), "intel_pstate no_turbo=x");
    assert_eq!(turbo_summary(None, Some("0\n")), "disabled (AMD cpufreq boost=0)");
    assert_eq!(turbo_summary(None, Some("1\n")), "enabled (AMD cpufreq boost=1)");
    assert_eq!(turbo_summary(None, Some("2\n")), "AMD cpufreq boost=2");
    assert_eq!(turbo_summary(None, None), "unavailable (no intel_pstate/no_turbo or cpufreq/boost sysfs)");
}

#[test]
fn irq_affinity_uniform_mixed_and_capped() {
    assert_eq!(irq_affinity_summary(&[]), "no readable smp_affinity_list (permissions or kernel)");
    assert_eq!(irq_affinity_summary(&["\n".to_string()]), "no readable smp_affinity_list (permissions or kernel)");
    let same: Vec<String> = vec!["0-3\n".to_string(), "\n".to_string(), "0-3".to_string()];
    assert_eq!(irq_affinity_summary(&same), "0-3 (uniform across 2 sampled IRQs)");
    let mixed: Vec<String> = vec!["0-3\n".to_string(), "1\n".to_string()];
    assert_eq!(irq_affinity_summary(&mixed), "mixed (2 sampled IRQs; first=0-3)");
    let many: Vec<String> = (0..100).map(|_| "5\n".to_string()).collect();
    assert_eq!(irq_affinity_summary(&many), "5 (uniform across 64 sampled IRQs)");
    let mut late: Vec<String> = (0..64).map(|_| "5\n".to_string()).collect();
    late.push("6\n".to_string());
    assert_eq!(irq_affinity_summary(&late), "5 (uniform across 64 sampled IRQs)");
}

#[test]
fn cpu_dir_names() {
    assert!(is_cpu_dir_name("cpu0"));
    assert!(is_cpu_dir_name("cpu17"));
    assert!(!is_cpu_dir_name("cpu"));
    assert!(!is_cpu_dir_name("cpufreq"));
    assert!(!is_cpu_dir_name("cpuidle"));
    assert!(!is_cpu_dir_name("xcpu1"));
}

#[test]
fn scenario_filter_ignores_case() {
    assert!(scenario_selected("Add Order", &None));
    assert!(scenario_selected("Add Order", &Some("ADD".to_string())));
    assert!(scenario_selected("add_limit_order", &Some("Limit".to_string())));
    assert!(!scenario_selected("cancel", &Some("add".to_string())));
    assert!(scenario_selected("cancel", &Some(String::new())));
    assert!(text_contains("abcabd", "abd"));
    assert!(!text_contains("ab", "abc"));
}

#[test]
fn pinning_notes() {
    assert_eq!(pin_status(2, true), "pin core 2");
    assert_eq!(pin_status(11, false), "Could not pin core 11");
    assert_eq!(pinning_disabled_note(), "Core pinning disabled (BENCH_TOOL_DISABLE_CORE_PINNING)");
    assert_ne!(RunMode::Latency, RunMode::Throughput);
}

fn strings(v: &[&str]) -> Vec<String> {
    v.iter().map(|s| s.to_string()).collect()
}

#[test]
fn governor_uniform_and_mixed() {
    assert_eq!(governor_summary(&[]), "unavailable (no cpufreq scaling_governor sysfs entries)");
    assert_eq!(governor_summary(&strings(&["performance\n", "performance\n"])), "performance (all 2 CPUs)");
    assert_eq!(
        governor_summary(&strings(&["powersave\n", "performance\n", "powersave\n", "ondemand\n", "powersave\n"])),
        "mixed (ondemand:1, performance:1, powersave:3)"
    );
    assert_eq!(governor_summary(&strings(&["b", "a", "", "a"])), "mixed (:1, a:2, b:1)");
    assert_eq!(governor_summary(&strings(&["perf", "performance"])), "mixed (perf:1, performance:1)");
}

/// `/proc/swaps` summarised as the operating-system probe has always done it.
fn swap_reference(s: &str) -> String {
    let lines: Vec<&str> = s.lines().collect();
    if lines.len() <= 1 {
        "none active (/proc/swaps header only)".into()
    } else {
        let mut parts = Vec::new();
        for line in lines.iter().skip(1) {
            let mut it = line.split_whitespace();
            if let (Some(dev), Some(t), Some(used)) = (it.next(), it.next(), it.next()) {
                parts.push(format!("{dev} type={t} used={used}"));
            }
        }
        if parts.is_empty() { s.trim().to_string() } else { parts.join("; ") }
    }
}

#[test]
fn swap_summary_cases() {
    let header = "Filename\t\t\t\tType\t\tSize\t\tUsed\t\tPriority\n";
    let samples = [
        String::new(),
        header.to_string(),
        format!("{header}/dev/sda2                               partition\t8388604\t\t0\t\t-2\n"),
        format!("{header}/swapfile file 1024 12 -1\n/dev/zram0 partition 4096 0 100\n"),
        format!("{header}/swapfile file 1024 12 -1\r\n/dev/zram0 partition 4096 0 100"),
        format!("{header}\n  \n"),
        format!("{header}short line\n"),
        format!("{header}\u{3000}dev\u{2003}type\u{a0}used extra\n"),
        "a\r".to_string(),
        "\n\n\n".to_string(),
    ];
    for s in samples.iter() {
        assert_eq!(swap_summary(&Ok(s.clone())), swap_reference(s), "input {s:?}");
    }
    assert_eq!(swap_summary(&Err("denied".to_string())), "unavailable (denied)");
    assert_eq!(
        swap_summary(&Ok(format!("{header}/swapfile file 1024 12 -1\n"))),
        "/swapfile type=file used=1024"
    );
}
