//! Memory readings.
use celld_store::memory::{
    allocator_slack_bytes, cgroup_limit_bytes, cgroup_memory, cgroup_memory_from_stat,
    memory_stat_value, page_size, resident_bytes, sample, slack_bytes, CgroupFiles, CgroupMemory,
    Sample,
};

#[test]
fn inactive_file_deduction_keeps_anonymous_and_kernel_charges() {
    let memory = cgroup_memory_from_stat(
        1_073_741_824,
        "anon 281075712\nfile 760799232\nkernel 25444352\ninactive_file 750202880\nactive_file 10588160\n",
        "inactive_file",
    );
    assert_eq!(memory.current_bytes, 1_073_741_824);
    assert_eq!(memory.working_set_bytes, 323_538_944);
}

#[test]
fn missing_invalid_or_racing_stats_keep_the_full_charge() {
    for stat in [
        "",
        "anon 900",
        "inactive_file invalid",
        "inactive_file 18446744073709551616",
        "inactive_file 1001",
    ] {
        let memory = cgroup_memory_from_stat(1000, stat, "inactive_file");
        assert_eq!(memory.working_set_bytes, 1000, "{stat:?}");
    }
}

#[test]
fn legacy_cgroup_uses_hierarchical_inactive_file_with_local_fallback() {
    assert_eq!(
        cgroup_memory_from_stat(
            1000,
            "total_inactive_file 400\ninactive_file 100",
            "total_inactive_file"
        )
        .working_set_bytes,
        600
    );
    assert_eq!(
        cgroup_memory_from_stat(1000, "inactive_file 100", "total_inactive_file").working_set_bytes,
        900
    );
}

#[test]
fn samples_deduct_slack_and_keep_the_cgroup_figures() {
    let cgroup = CgroupMemory {
        current_bytes: 900,
        working_set_bytes: 700,
    };
    let taken = sample(500, 120, Some(cgroup));
    assert_eq!(
        taken,
        Sample {
            rss_bytes: 500,
            in_use_bytes: 380,
            cgroup_working_set_bytes: Some(700),
            cgroup_current_bytes: Some(900),
        }
    );
    let alone = sample(100, 120, None);
    assert_eq!(alone.in_use_bytes, 0);
    assert_eq!(alone.cgroup_current_bytes, None);
    assert_eq!(slack_bytes(true, Some(10), Some(4)), 6);
    assert_eq!(slack_bytes(true, Some(4), Some(10)), 0);
    assert_eq!(slack_bytes(true, None, Some(10)), 0);
    assert_eq!(slack_bytes(true, Some(10), None), 0);
    assert_eq!(slack_bytes(false, Some(10), Some(4)), 0);
}

#[test]
fn the_allocator_answers() {
    // The figures are the machine's own; only that they can be asked is shown.
    let _slack = allocator_slack_bytes();
}

#[test]
fn the_unified_hierarchy_comes_before_the_older_one() {
    let files = |current: Option<&str>, stat: Option<&str>| CgroupFiles {
        current: current.map(str::to_string),
        stat: stat.map(str::to_string),
    };
    let unified = files(Some(" 1000\n"), Some("inactive_file 300\n"));
    let legacy = files(Some("2000"), Some("total_inactive_file 500"));
    assert_eq!(
        cgroup_memory(&unified, &legacy).unwrap().working_set_bytes,
        700
    );
    let unreadable = files(Some("max"), None);
    assert_eq!(
        cgroup_memory(&unreadable, &legacy).unwrap(),
        CgroupMemory {
            current_bytes: 2000,
            working_set_bytes: 1500
        }
    );
    assert_eq!(
        cgroup_memory(&files(Some("5"), None), &legacy)
            .unwrap()
            .working_set_bytes,
        5
    );
    assert!(cgroup_memory(&unreadable, &files(None, None)).is_none());
}

#[test]
fn limits_that_are_no_limits_are_passed_over() {
    let text = |t: &str| Some(t.to_string());
    assert_eq!(cgroup_limit_bytes(&text("1073741824\n"), &None), Some(1 << 30));
    assert_eq!(cgroup_limit_bytes(&text("max"), &text("4096")), Some(4096));
    assert_eq!(cgroup_limit_bytes(&text("9223372036854771712"), &None), None);
    assert_eq!(
        cgroup_limit_bytes(&None, &text("1125899906842624")),
        None
    );
    assert_eq!(
        cgroup_limit_bytes(&None, &text("1125899906842623")),
        Some((1 << 50) - 1)
    );
}

#[test]
fn resident_pages_are_bytes() {
    assert_eq!(resident_bytes(Some("100 25 3 1 0 4 0\n"), 4096), 102_400);
    assert_eq!(resident_bytes(Some("100"), 4096), 0);
    assert_eq!(resident_bytes(Some("100 x"), 4096), 0);
    assert_eq!(resident_bytes(None, 4096), 0);
    assert_eq!(
        resident_bytes(Some("1 18446744073709551615"), 4096),
        u64::MAX
    );
    assert_eq!(page_size(16_384), 16_384);
    assert_eq!(page_size(-1), 4096);
    assert_eq!(page_size(0), 4096);
}

#[test]
fn statistics_are_found_by_their_first_word() {
    let stat = "inactive_file_dirty 7\ninactive_file\ninactive_file x\n  inactive_file\t+12 9\n";
    assert_eq!(memory_stat_value(stat, "inactive_file"), Some(12));
    assert_eq!(memory_stat_value(stat, "active_file"), None);
    assert_eq!(memory_stat_value("a 1\r\nb 2\r\n", "b"), Some(2));
}
