use serylane::traffic::{aggregate_network_deltas, monitor_step, title_key, tray_key, InterfaceSample, MonitorStep};
use serylane::traffic::{display_key, format_rate, format_tray_rate, should_include_interface, tooltip};

#[test]
fn filters_virtual_interfaces_without_excluding_physical_names() {
    for name in ["en0", "en7", "eth0", "wlan0", "Ethernet", "Wi-Fi"] {
        assert!(should_include_interface(name), "{name}");
    }
    for name in [
        "lo0",
        "utun8",
        "tailscale0",
        "docker0",
        "veth1234",
        "bridge0",
        "awdl0",
        "VMware Virtual Ethernet Adapter",
    ] {
        assert!(!should_include_interface(name), "{name}");
    }
}

#[test]
fn formats_compact_tray_rates() {
    assert_eq!(format_tray_rate(0), "0B/s");
    assert_eq!(format_tray_rate(1_536), "1.5K/s");
    assert_eq!(format_tray_rate(1_258_291), "1.2M/s");
    assert_eq!(format_tray_rate(12 * 1024 * 1024), "12M/s");
}

#[test]
fn tray_rates_match_float_formatting() {
    for bytes in [
        0u64, 1, 999, 1000, 1023, 1024, 1280, 1331, 10189, 10240, 1022976, 1048575, 1048576,
        5 << 30, 998 << 30, 999 << 30, u64::MAX,
    ] {
        const KIB: f64 = 1024.0;
        const MIB: f64 = KIB * 1024.0;
        const GIB: f64 = MIB * 1024.0;
        let b = bytes as f64;
        let (value, unit) = if b >= GIB {
            (b / GIB, "G/s")
        } else if b >= MIB {
            (b / MIB, "M/s")
        } else if b >= KIB {
            (b / KIB, "K/s")
        } else {
            (b, "B/s")
        };
        let expected = if value < 10.0 && unit != "B/s" {
            format!("{value:.1}{unit}")
        } else {
            format!("{:.0}{unit}", value.min(999.0))
        };
        assert_eq!(format_tray_rate(bytes), expected, "{bytes}");
    }
}

#[test]
fn compact_rates_fit_fixed_columns_and_carry_unit_boundaries() {
    for (bytes, number, unit) in [
        (0, "0", "B"),
        (1023, "1023", "B"),
        (1024, "1.0", "K"),
        (1536, "1.5", "K"),
        (10189, "10", "K"),
        (1024 * 1024 - 1, "1.0", "M"),
        (12 * 1024 * 1024, "12", "M"),
        (1_u64 << 40, "1.0", "T"),
        (u64::MAX, "16", "E"),
    ] {
        let rate = format_rate(bytes);
        assert_eq!((rate.number.as_str(), rate.unit), (number, unit), "{bytes}");
        assert!(rate.number.len() <= 4);
    }
}

#[test]
fn tooltip_keeps_explicit_binary_units_and_dedupe_tracks_large_rates() {
    assert_eq!(tooltip(1536, 1024 * 1024), "Serylane\n↑ 1.5 KiB/s\n↓ 1.0 MiB/s");
    assert_ne!(display_key(1 << 40, 0), display_key(2 << 40, 0));
}

#[test]
fn rate_numbers_match_float_formatting() {
    const UNITS: [&str; 7] = ["B", "K", "M", "G", "T", "P", "E"];
    for bytes in [
        0u64, 1023, 1024, 1535, 1536, 10188, 10189, 1047552, 1048064, 1 << 53,
        (1 << 53) + 1, (1 << 60) - 1, 11_200_000_000_000_000, u64::MAX - 1024, u64::MAX,
    ] {
        let mut value = bytes as f64;
        let mut unit = 0;
        while value >= 1024.0 && unit + 1 < UNITS.len() {
            value /= 1024.0;
            unit += 1;
        }
        if value.round() >= 1024.0 && unit + 1 < UNITS.len() {
            value /= 1024.0;
            unit += 1;
        }
        let number = if unit > 0 && value < 9.95 {
            format!("{value:.1}")
        } else {
            format!("{value:.0}")
        };
        let rate = format_rate(bytes);
        assert_eq!((rate.number.as_str(), rate.unit), (number.as_str(), UNITS[unit]), "{bytes}");
    }
    assert_eq!(display_key(1536, 0), "1.5K:0B");
}

#[test]
fn global_deltas_count_physical_interfaces_only() {
    let sample = |name: &str, tx: u64, rx: u64, total: u64| InterfaceSample {
        name: name.into(),
        transmitted: tx,
        received: rx,
        total_transmitted: total,
        total_received: 0,
    };
    let samples = vec![
        sample("en0", 10, 20, 1),
        sample("utun3", 1000, 1000, 1),
        sample("eth1", u64::MAX, 5, 0),
        sample("awdl0", 7, 7, 7),
        sample("Wi-Fi", 1, 1, 9),
    ];
    let (up, down, names) = aggregate_network_deltas(&samples);
    assert_eq!(up, u64::MAX);
    assert_eq!(down, 26);
    assert_eq!(names, vec!["Wi-Fi".to_string(), "en0".to_string()]);
    assert_eq!(tray_key(true, 1536, 0), "true:1.5K/s:0B/s");
    assert_eq!(tray_key(false, 0, 0), "false:0B/s:0B/s");
    assert!(title_key(true, 1536, 0).starts_with("true:"));
}

#[test]
fn the_monitor_restarts_its_baseline_after_being_disabled() {
    assert_eq!(monitor_step(true, true, true), (MonitorStep::Stop, true));
    assert_eq!(monitor_step(false, false, true), (MonitorStep::Pause, false));
    assert_eq!(monitor_step(false, true, false), (MonitorStep::Start, true));
    assert_eq!(monitor_step(false, true, true), (MonitorStep::Sample, true));
}
