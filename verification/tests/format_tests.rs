use trackerdl::download::Rate;
use trackerdl::format::{format_bytes, format_bytes_speed, format_duration, format_seconds_tenths};
use trackerdl::text::decimal_string;

fn float_bytes(bytes: u64) -> String {
    const KB: u64 = 1024;
    const MB: u64 = KB * 1024;
    const GB: u64 = MB * 1024;
    if bytes >= GB {
        format!("{:.2} GB", bytes as f64 / GB as f64)
    } else if bytes >= MB {
        format!("{:.2} MB", bytes as f64 / MB as f64)
    } else if bytes >= KB {
        format!("{:.2} KB", bytes as f64 / KB as f64)
    } else {
        format!("{} B", bytes)
    }
}

#[test]
fn byte_counts_are_written_for_people() {
    assert_eq!(format_bytes(0), "0 B");
    assert_eq!(format_bytes(1023), "1023 B");
    assert_eq!(format_bytes(1024), "1.00 KB");
    assert_eq!(format_bytes(1536), "1.50 KB");
    assert_eq!(format_bytes(1048576), "1.00 MB");
    assert_eq!(format_bytes(5 * 1073741824), "5.00 GB");
}

#[test]
fn byte_counts_match_float_formatting() {
    // every value is an exact binary fraction here, so the float text is
    // the exact value rounded, ties to even
    let mut samples: Vec<u64> = vec![
        1024 + 5, 1024 + 10, 1024 + 15, 1024 + 51, 1024 + 1023, 2047, 2048, 10 * 1024 + 512,
        1048576 + 5243, 1048576 * 3 + 10485, 1073741824 + 5368709, 999_999_999_999,
        123_456_789, 4_294_967_296, 7_000_000,
    ];
    for k in 0..2000u64 {
        samples.push(1024 + k * 37);
        samples.push(1048576 + k * 524_287);
        samples.push(1073741824 + k * 53_687_091);
    }
    for b in samples {
        assert_eq!(format_bytes(b), float_bytes(b), "bytes {}", b);
    }
}

#[test]
fn durations_are_written_for_people() {
    let s = 1_000_000_000u128;
    assert_eq!(format_duration(0), "0s");
    assert_eq!(format_duration(59 * s + 999_999_999), "59s");
    assert_eq!(format_duration(60 * s), "1m 00s");
    assert_eq!(format_duration(125 * s), "2m 05s");
    assert_eq!(format_duration(3600 * s), "1h 00m 00s");
    assert_eq!(format_duration(3723 * s), "1h 02m 03s");
    assert_eq!(format_duration(100 * 3600 * s + 61 * s), "100h 01m 01s");
}

#[test]
fn rates_are_written_for_people() {
    assert_eq!(format_bytes_speed(Rate { bytes: 0, nanos: 0 }), "0 B/s");
    assert_eq!(format_bytes_speed(Rate { bytes: 100, nanos: 0 }), "0 B/s");
    assert_eq!(format_bytes_speed(Rate { bytes: 500, nanos: 1_000_000_000 }), "500 B/s");
    assert_eq!(format_bytes_speed(Rate { bytes: 2048, nanos: 1_000_000_000 }), "2.00 KB/s");
    assert_eq!(
        format_bytes_speed(Rate { bytes: 3 * 1048576, nanos: 2_000_000_000 }),
        "1.50 MB/s"
    );
    // 1 byte over 3 seconds is 0.33 B/s, written as 0
    assert_eq!(format_bytes_speed(Rate { bytes: 1, nanos: 3_000_000_000 }), "0 B/s");
}

#[test]
fn rates_match_float_formatting_on_exact_values() {
    for bytes in [0u64, 1, 512, 1023, 1024, 1536, 4096, 1048576, 1572864, 10 * 1048576] {
        let r = Rate { bytes, nanos: 1_000_000_000 };
        let v = bytes as f64;
        let expected = if v >= 1048576.0 {
            format!("{:.2} MB/s", v / 1048576.0)
        } else if v >= 1024.0 {
            format!("{:.2} KB/s", v / 1024.0)
        } else {
            format!("{:.0} B/s", v)
        };
        assert_eq!(format_bytes_speed(r), expected);
    }
}

#[test]
fn tenths_of_seconds() {
    assert_eq!(format_seconds_tenths(0), "0.0s");
    assert_eq!(format_seconds_tenths(1_250_000_000), "1.2s");
    assert_eq!(format_seconds_tenths(1_350_000_000), "1.4s");
    assert_eq!(format_seconds_tenths(12_340_000_000), "12.3s");
}

#[test]
fn decimals() {
    assert_eq!(decimal_string(0), "0");
    assert_eq!(decimal_string(7), "7");
    assert_eq!(decimal_string(1024), "1024");
    assert_eq!(decimal_string(u128::MAX), u128::MAX.to_string());
}
