use cpu_cache_info::model::{CacheInfo, ProcessorInfo, ProcessorLevel};
use cpu_cache_info::probe::{
    apple_tier_count, apple_tier_name, read_value, select_strategy, AppleReadings,
    CacheIndexReading, HostReadings, IntelMacReadings, Strategy, TierReadings, CACHE_INDEX_COUNT,
};

fn index(level: &str, cache_type: &str, size: &str) -> CacheIndexReading {
    CacheIndexReading {
        level: Some(level.to_string()),
        cache_type: Some(cache_type.to_string()),
        size: Some(size.to_string()),
    }
}

fn tier(l1i: &str, l1d: &str, l2: &str) -> TierReadings {
    TierReadings { l1_instruction: l1i.to_string(), l1_data: l1d.to_string(), l2: l2.to_string() }
}

fn no_intel() -> IntelMacReadings {
    IntelMacReadings { l1_unified: None, l1_instruction: None, l1_data: None, l2: None, l3: None }
}

fn no_readings() -> HostReadings {
    HostReadings {
        apple: AppleReadings { tiers: Vec::new(), l3: String::new() },
        intel: no_intel(),
        linux: Vec::new(),
        windows: None,
    }
}

fn some(t: &str) -> Option<String> {
    Some(t.to_string())
}

#[test]
fn linux_scan_of_three_indices() {
    let mut info = ProcessorInfo::new("x86_64");
    let readings = vec![index("1\n", "Data\n", "32K\n"), index("1\n", "Instruction\n", "32K\n"), index("2\n", "Unified\n", "1M\n")];
    info.collect_linux_cache_info(&readings);
    assert_eq!(info.performance_levels.len(), 1);
    let level = info.level("Default").unwrap();
    assert_eq!(level.level_name, "Default");
    assert_eq!(level.l1_cache.data_size, 32768);
    assert_eq!(level.l1_cache.instruction_size, 32768);
    assert_eq!(level.l1_cache.unified_size, 0);
    assert_eq!(level.l2_cache, 1048576);
    assert_eq!(level.l3_cache, 0);
}

#[test]
fn linux_scan_skips_unreadable_index_and_goes_on() {
    let mut info = ProcessorInfo::new("x86_64");
    let readings = vec![
        CacheIndexReading { level: None, cache_type: some("Data"), size: some("48K") },
        CacheIndexReading { level: some("1"), cache_type: None, size: some("48K") },
        CacheIndexReading { level: some("1"), cache_type: some("Data"), size: None },
        index("3", "Unified", "8M"),
    ];
    info.collect_linux_cache_info(&readings);
    let level = info.level("Default").unwrap();
    assert_eq!(level.l1_cache, CacheInfo { instruction_size: 0, data_size: 0, unified_size: 0 });
    assert_eq!(level.l2_cache, 0);
    assert_eq!(level.l3_cache, 8388608);
}

#[test]
fn linux_scan_last_write_wins() {
    let mut info = ProcessorInfo::new("x86_64");
    let readings = vec![index("2", "Unified", "256K"), index("1", "Unified", "64K"), index("2", "Unified", "512K")];
    info.collect_linux_cache_info(&readings);
    let level = info.level("Default").unwrap();
    assert_eq!(level.l2_cache, 524288);
    assert_eq!(level.l1_cache.unified_size, 65536);
}

#[test]
fn linux_scan_ignores_other_levels_and_types() {
    let mut info = ProcessorInfo::new("x86_64");
    let readings = vec![index("1", "Trace", "16K"), index("4", "Unified", "64M"), index("0", "Data", "1K"), index("x", "Data", "1K"), index("2", "anything", "2M")];
    info.collect_linux_cache_info(&readings);
    let level = info.level("Default").unwrap();
    assert_eq!(level.l1_cache, CacheInfo { instruction_size: 0, data_size: 0, unified_size: 0 });
    assert_eq!(level.l2_cache, 2097152);
    assert_eq!(level.l3_cache, 0);
}

#[test]
fn linux_scan_looks_at_ten_indices() {
    assert_eq!(CACHE_INDEX_COUNT, 10);
    let mut readings = Vec::new();
    for _ in 0..10 {
        readings.push(index("2", "Unified", "1M"));
    }
    readings.push(index("2", "Unified", "2M"));
    let mut info = ProcessorInfo::new("x86_64");
    info.collect_linux_cache_info(&readings);
    assert_eq!(info.level("Default").unwrap().l2_cache, 1048576);
}

#[test]
fn linux_malformed_size_degrades_to_zero() {
    let mut info = ProcessorInfo::new("x86_64");
    let readings = vec![index("1", "Data", "abc"), index("1", "Instruction", "32K"), index("2", "Unified", "1M"), index("3", "Unified", "")];
    info.collect_linux_cache_info(&readings);
    let level = info.level("Default").unwrap();
    assert_eq!(level.l1_cache.data_size, 0);
    assert_eq!(level.l1_cache.instruction_size, 32768);
    assert_eq!(level.l2_cache, 1048576);
    assert_eq!(level.l3_cache, 0);
}

#[test]
fn apple_two_tiers() {
    let mut info = ProcessorInfo::new("Apple Silicon");
    assert_eq!(apple_tier_count("2\n"), 2);
    let readings = AppleReadings {
        tiers: vec![tier("131072\n", "65536\n", "4194304\n"), tier("65536\n", "32768\n", "2097152\n")],
        l3: "8388608\n".to_string(),
    };
    info.collect_apple_silicon_cache_info(&readings);
    assert_eq!(info.performance_levels.len(), 2);
    let p = info.level("Performance Cores").unwrap();
    assert_eq!(p.l1_cache, CacheInfo { instruction_size: 131072, data_size: 65536, unified_size: 0 });
    assert_eq!(p.l2_cache, 4194304);
    assert_eq!(p.l3_cache, 8388608);
    let e = info.level("Efficiency Cores (Level 1)").unwrap();
    assert_eq!(e.l1_cache, CacheInfo { instruction_size: 65536, data_size: 32768, unified_size: 0 });
    assert_eq!(e.l2_cache, 2097152);
    assert_eq!(e.l3_cache, 0);
    assert_eq!(info.performance_levels[0].level_name, "Performance Cores");
    assert_eq!(info.performance_levels[1].level_name, "Efficiency Cores (Level 1)");
}

#[test]
fn apple_malformed_field_degrades_alone() {
    let mut info = ProcessorInfo::new("Apple Silicon");
    let readings = AppleReadings { tiers: vec![tier("abc", "65536", ""), tier("1", "x", "3")], l3: "none".to_string() };
    info.collect_apple_silicon_cache_info(&readings);
    let p = info.level("Performance Cores").unwrap();
    assert_eq!(p.l1_cache, CacheInfo { instruction_size: 0, data_size: 65536, unified_size: 0 });
    assert_eq!(p.l2_cache, 0);
    assert_eq!(p.l3_cache, 0);
    let e = info.level("Efficiency Cores (Level 1)").unwrap();
    assert_eq!(e.l1_cache, CacheInfo { instruction_size: 1, data_size: 0, unified_size: 0 });
    assert_eq!(e.l2_cache, 3);
}

#[test]
fn apple_tier_count_defaults_to_one() {
    assert_eq!(apple_tier_count(""), 1);
    assert_eq!(apple_tier_count("two"), 1);
    assert_eq!(apple_tier_count(" 3 "), 3);
    assert_eq!(apple_tier_count("0"), 0);
}

#[test]
fn apple_tier_names() {
    assert_eq!(apple_tier_name(0), "Performance Cores");
    assert_eq!(apple_tier_name(1), "Efficiency Cores (Level 1)");
    assert_eq!(apple_tier_name(12), "Efficiency Cores (Level 12)");
    assert_eq!(apple_tier_name(100), "Efficiency Cores (Level 100)");
}

#[test]
fn apple_without_tiers_stores_nothing() {
    let mut info = ProcessorInfo::new("Apple Silicon");
    info.collect_apple_silicon_cache_info(&AppleReadings { tiers: Vec::new(), l3: "8388608".to_string() });
    assert!(info.performance_levels.is_empty());
}

#[test]
fn intel_mac_unified_takes_precedence() {
    let mut info = ProcessorInfo::new("x86");
    let readings = IntelMacReadings { l1_unified: some("65536\n"), l1_instruction: some("32768\n"), l1_data: some("32768\n"), l2: some("262144\n"), l3: some("8388608\n") };
    info.collect_intel_mac_cache_info(&readings);
    let level = info.level("Default").unwrap();
    assert_eq!(level.l1_cache, CacheInfo { instruction_size: 0, data_size: 0, unified_size: 65536 });
    assert_eq!(level.l2_cache, 262144);
    assert_eq!(level.l3_cache, 8388608);
}

#[test]
fn intel_mac_falls_back_to_separate_sizes() {
    let mut info = ProcessorInfo::new("x86");
    let readings = IntelMacReadings { l1_unified: some(" \n"), l1_instruction: some("32768\n"), l1_data: some("49152\n"), l2: None, l3: some("junk") };
    info.collect_intel_mac_cache_info(&readings);
    let level = info.level("Default").unwrap();
    assert_eq!(level.l1_cache, CacheInfo { instruction_size: 32768, data_size: 49152, unified_size: 0 });
    assert_eq!(level.l2_cache, 0);
    assert_eq!(level.l3_cache, 0);
    let mut other = ProcessorInfo::new("x86");
    let readings = IntelMacReadings { l1_unified: None, l1_instruction: None, l1_data: some("1"), l2: some("2"), l3: None };
    other.collect_intel_mac_cache_info(&readings);
    let level = other.level("Default").unwrap();
    assert_eq!(level.l1_cache, CacheInfo { instruction_size: 0, data_size: 1, unified_size: 0 });
    assert_eq!(level.l2_cache, 2);
}

#[test]
fn intel_mac_unparsable_unified_is_zero_without_fallback() {
    let mut info = ProcessorInfo::new("x86");
    let readings = IntelMacReadings { l1_unified: some("n/a"), l1_instruction: some("32768"), l1_data: some("32768"), l2: None, l3: None };
    info.collect_intel_mac_cache_info(&readings);
    let level = info.level("Default").unwrap();
    assert_eq!(level.l1_cache, CacheInfo { instruction_size: 0, data_size: 0, unified_size: 0 });
}

#[test]
fn windows_sizes_are_kibibytes() {
    let mut info = ProcessorInfo::new("x86_64");
    let output = some("\r\r\n\r\r\nL1CacheSize=64\r\r\nL2CacheSize=512\r\r\nL3CacheSize=8192\r\r\n\r\r\n");
    info.collect_windows_cache_info(&output);
    let level = info.level("Default").unwrap();
    assert_eq!(level.l1_cache, CacheInfo { instruction_size: 0, data_size: 0, unified_size: 65536 });
    assert_eq!(level.l2_cache, 524288);
    assert_eq!(level.l3_cache, 8388608);
}

#[test]
fn windows_unparsed_field_stays() {
    let mut info = ProcessorInfo::new("x86_64");
    let output = some("L1CacheSize=\nL2CacheSize=abc\nL3CacheSize=L3CacheSize= 16 \nSomething=5\n L2CacheSize=4\nL2CacheSize=99999999999999999999");
    info.collect_windows_cache_info(&output);
    let level = info.level("Default").unwrap();
    assert_eq!(level.l1_cache.unified_size, 0);
    assert_eq!(level.l2_cache, 0);
    assert_eq!(level.l3_cache, 16384);
    let mut later = ProcessorInfo::new("x86_64");
    later.collect_windows_cache_info(&some("L2CacheSize=256\nL2CacheSize=x\nL2CacheSize=18014398509481984"));
    assert_eq!(later.level("Default").unwrap().l2_cache, 262144);
}

#[test]
fn windows_failed_query_leaves_default_level() {
    let mut info = ProcessorInfo::new("x86_64");
    info.collect_windows_cache_info(&None);
    let level = info.level("Default").unwrap();
    assert_eq!(level.l1_cache, CacheInfo { instruction_size: 0, data_size: 0, unified_size: 0 });
    assert_eq!(level.l2_cache, 0);
    assert_eq!(level.l3_cache, 0);
}

#[test]
fn unsupported_os_gives_notice_and_no_level() {
    let mut info = ProcessorInfo::new("x86_64");
    info.detect_architecture("freebsd", None);
    let notice = info.collect_cache_info("freebsd", &no_readings());
    assert_eq!(notice, Some("Unsupported operating system: freebsd".to_string()));
    assert!(info.performance_levels.is_empty());
    assert_eq!(info.architecture, "x86");
    assert_eq!(info.model_name, "");
}

#[test]
fn collect_dispatches_by_os_and_label() {
    let mut readings = no_readings();
    readings.apple = AppleReadings { tiers: vec![tier("1", "2", "3")], l3: "4".to_string() };
    readings.intel = IntelMacReadings { l1_unified: some("5"), l1_instruction: None, l1_data: None, l2: some("6"), l3: None };
    readings.linux = vec![index("2", "Unified", "7K")];
    readings.windows = some("L3CacheSize=8");

    let mut apple = ProcessorInfo::new("aarch64");
    apple.detect_architecture("macos", Some("Apple M2\n"));
    assert_eq!(apple.collect_cache_info("macos", &readings), None);
    assert_eq!(apple.level("Performance Cores").unwrap().l3_cache, 4);
    assert!(apple.level("Default").is_none());

    let mut intel = ProcessorInfo::new("x86_64");
    intel.detect_architecture("macos", Some("Intel(R) Core(TM) i9\n"));
    assert_eq!(intel.collect_cache_info("macos", &readings), None);
    assert_eq!(intel.level("Default").unwrap().l1_cache.unified_size, 5);

    let mut linux = ProcessorInfo::new("x86_64");
    assert_eq!(linux.collect_cache_info("linux", &readings), None);
    assert_eq!(linux.level("Default").unwrap().l2_cache, 7168);

    let mut windows = ProcessorInfo::new("x86_64");
    assert_eq!(windows.collect_cache_info("windows", &readings), None);
    assert_eq!(windows.level("Default").unwrap().l3_cache, 8192);
}

#[test]
fn strategy_is_chosen_from_os_and_label() {
    assert_eq!(select_strategy("macos", "Apple Silicon"), Strategy::AppleSilicon);
    assert_eq!(select_strategy("macos", "x86"), Strategy::IntelMac);
    assert_eq!(select_strategy("macos", "ARM"), Strategy::IntelMac);
    assert_eq!(select_strategy("linux", "Apple Silicon"), Strategy::Linux);
    assert_eq!(select_strategy("windows", "x86"), Strategy::Windows);
    assert_eq!(select_strategy("openbsd", "x86"), Strategy::Unsupported);
    assert_eq!(select_strategy("", ""), Strategy::Unsupported);
}

#[test]
fn architecture_labels() {
    for raw in ["x86", "x86_64"] {
        let mut info = ProcessorInfo::new(raw);
        info.detect_architecture("linux", None);
        assert_eq!(info.architecture, "x86");
    }
    for raw in ["aarch64", "arm", "arm64"] {
        let mut info = ProcessorInfo::new(raw);
        info.detect_architecture("linux", Some("model name : Apple\n"));
        assert_eq!(info.architecture, "ARM");
        let mut mac = ProcessorInfo::new(raw);
        mac.detect_architecture("macos", Some("Apple M1 Pro\n"));
        assert_eq!(mac.architecture, "Apple Silicon");
        assert_eq!(mac.model_name, "Apple M1 Pro");
        let mut other = ProcessorInfo::new(raw);
        other.detect_architecture("macos", Some("Some apple clone\n"));
        assert_eq!(other.architecture, "ARM");
        let mut failed = ProcessorInfo::new(raw);
        failed.detect_architecture("macos", None);
        assert_eq!(failed.architecture, "ARM");
        assert_eq!(failed.model_name, "");
    }
    let mut info = ProcessorInfo::new("riscv64");
    info.detect_architecture("linux", None);
    assert_eq!(info.architecture, "Unknown: riscv64");
    let mut x86_mac = ProcessorInfo::new("x86_64");
    x86_mac.detect_architecture("macos", Some("Apple\n"));
    assert_eq!(x86_mac.architecture, "x86");
}

#[test]
fn linux_model_name_is_first_match() {
    let table = "processor\t: 0\nvendor_id\t: GenuineIntel\nmodel\t\t: 158\nmodel name\t: Intel(R) Core(TM) i7-8700 CPU @ 3.20GHz\nstepping\t: 10\nmodel name\t: Second\n";
    let mut info = ProcessorInfo::new("x86_64");
    info.detect_model_name("linux", Some(table));
    assert_eq!(info.model_name, "Intel(R) Core(TM) i7-8700 CPU @ 3.20GHz");
}

#[test]
fn linux_model_name_stops_at_second_colon() {
    let mut info = ProcessorInfo::new("x86_64");
    info.detect_model_name("linux", Some("model name without colon\nmodel name : AMD: Ryzen\r\n"));
    assert_eq!(info.model_name, "AMD");
    let mut none = ProcessorInfo::new("x86_64");
    none.detect_model_name("linux", Some(" model name : indented\nModel name : cased\n"));
    assert_eq!(none.model_name, "");
    let mut empty = ProcessorInfo::new("x86_64");
    empty.detect_model_name("linux", Some("model name:\nmodel name: later"));
    assert_eq!(empty.model_name, "");
}

#[test]
fn windows_model_name_strips_prefix() {
    let mut info = ProcessorInfo::new("x86_64");
    info.detect_model_name("windows", Some("\r\r\n\r\r\nName=Intel(R) Xeon(R) CPU  \r\r\n\r\r\n"));
    assert_eq!(info.model_name, "Intel(R) Xeon(R) CPU");
    let mut twice = ProcessorInfo::new("x86_64");
    twice.detect_model_name("windows", Some("Name=Name=Name"));
    assert_eq!(twice.model_name, "Name");
}

#[test]
fn macos_model_name_is_trimmed_brand() {
    let mut info = ProcessorInfo::new("x86_64");
    info.detect_model_name("macos", Some("  Intel(R) Core(TM) i5\n"));
    assert_eq!(info.model_name, "Intel(R) Core(TM) i5");
}

#[test]
fn model_name_stays_without_source() {
    let mut info = ProcessorInfo::new("x86_64");
    info.model_name = "kept".to_string();
    info.detect_model_name("linux", None);
    assert_eq!(info.model_name, "kept");
    info.detect_model_name("linux", Some("flags : fpu\n"));
    assert_eq!(info.model_name, "kept");
    info.detect_model_name("plan9", Some("model name : x\nName=y\n"));
    assert_eq!(info.model_name, "kept");
}

#[test]
fn reading_values() {
    assert_eq!(read_value("131072\n"), 131072);
    assert_eq!(read_value(""), 0);
    assert_eq!(read_value("abc"), 0);
    assert_eq!(read_value("12 34"), 0);
}

#[test]
fn insert_level_replaces_same_name() {
    let mut info = ProcessorInfo::new("x86_64");
    let mut a = ProcessorLevel::new("A");
    a.l2_cache = 1;
    let mut b = ProcessorLevel::new("B");
    b.l2_cache = 2;
    let mut a2 = ProcessorLevel::new("A");
    a2.l2_cache = 3;
    info.insert_level(a);
    info.insert_level(b);
    info.insert_level(a2);
    assert_eq!(info.performance_levels.len(), 2);
    assert_eq!(info.performance_levels[0].level_name, "A");
    assert_eq!(info.performance_levels[0].l2_cache, 3);
    assert_eq!(info.performance_levels[1].level_name, "B");
    assert_eq!(info.level("B").unwrap().l2_cache, 2);
    assert!(info.level("C").is_none());
}

#[test]
fn new_level_is_undetected() {
    let level = ProcessorLevel::new("Default");
    assert_eq!(level.level_name, "Default");
    assert_eq!(level.l1_cache, CacheInfo::default());
    assert_eq!(level.l1_cache, CacheInfo { instruction_size: 0, data_size: 0, unified_size: 0 });
    assert_eq!(level.l2_cache, 0);
    assert_eq!(level.l3_cache, 0);
}
