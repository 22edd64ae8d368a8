use vidwatcher::config::Span;
use vidwatcher::report::{fmt_duration, human, report_sizes, size_delta, size_percent};
use vidwatcher::rounding::{double_of, quotient, rounded};
use vidwatcher::worker::Sizes;

/// Sizes of every magnitude, some of them next to a power of two.
fn sample_sizes() -> Vec<u64> {
    let mut out = vec![0, 1, 2, 3, 5, 7, 10, 99, 100, 1000, 1_500_000, 123_456_789_012];
    for k in 0..64u32 {
        let p = 1u64 << k;
        for n in [p - 1, p, p.wrapping_add(1), p.wrapping_add(p / 20), p.wrapping_add(p / 2)] {
            out.push(n);
        }
    }
    let mut x = 0x9e37_79b9_7f4a_7c15u64;
    for k in 0..600u32 {
        x = x.wrapping_mul(6364136223846793005).wrapping_add(1442695040888963407);
        out.push(x >> (k % 64));
    }
    out.push(u64::MAX);
    out
}

fn human_by_doubles(bytes: u64) -> String {
    let units = ["B", "KiB", "MiB", "GiB", "TiB"];
    let mut value = bytes as f64;
    let mut unit = 0;
    while value >= 1024.0 && unit < units.len() - 1 {
        value /= 1024.0;
        unit += 1;
    }
    format!("{value:.1} {}", units[unit])
}

#[test]
fn sizes_as_people_read_them() {
    assert_eq!(human(0), "0.0 B");
    assert_eq!(human(1023), "1023.0 B");
    assert_eq!(human(1024), "1.0 KiB");
    assert_eq!(human(1280), "1.2 KiB");
    assert_eq!(human(1792), "1.8 KiB");
    assert_eq!(human(1_048_575), "1024.0 KiB");
    assert_eq!(human(5 * 1024 * 1024 * 1024), "5.0 GiB");
    assert_eq!(human(u64::MAX), "16777216.0 TiB");
    for n in sample_sizes() {
        assert_eq!(human(n), human_by_doubles(n), "{n}");
    }
}

#[test]
fn percentages_are_those_of_doubles() {
    let sizes = sample_sizes();
    for (i, &source) in sizes.iter().enumerate() {
        if source == 0 {
            continue;
        }
        for &result in sizes.iter().skip(i % 7).step_by(7) {
            let expected = format!("{:.0}", 100.0 * result as f64 / source as f64);
            let got = size_percent(Sizes { source, result });
            assert_eq!(got.to_string(), expected, "{result} of {source}");
        }
    }
    for (source, result, expected) in [(200, 1, 0), (200, 3, 2), (200, 5, 2), (200, 7, 4), (3, 2, 67)] {
        assert_eq!(size_percent(Sizes { source, result }), expected);
        assert_eq!(format!("{:.0}", 100.0 * result as f64 / source as f64), expected.to_string());
    }
}

#[test]
fn size_changes() {
    let sizes = Some(Sizes { source: 2048, result: 1024 });
    assert_eq!(size_delta(sizes), " (2.0 KiB -> 1.0 KiB, 50% of original)");
    assert_eq!(report_sizes(sizes).unwrap(), "  2.0 KiB -> 1.0 KiB (50% of original)");
    let empty = Some(Sizes { source: 0, result: 10 });
    assert_eq!(size_delta(empty), "");
    assert_eq!(report_sizes(empty).unwrap(), "  0.0 B -> 10.0 B (0% of original)");
    assert_eq!(size_delta(None), "");
    assert_eq!(report_sizes(None), None);
}

#[test]
fn durations() {
    for (secs, expected) in [
        (0, "0s"), (1, "1s"), (59, "59s"), (60, "1m00s"), (61, "1m01s"), (69, "1m09s"),
        (70, "1m10s"), (3599, "59m59s"), (3600, "60m00s"),
    ] {
        assert_eq!(fmt_duration(Span { secs, nanos: 999_999_999 }), expected);
    }
}

#[test]
fn rounding_goes_to_even() {
    assert_eq!(rounded(1, 2), 0);
    assert_eq!(rounded(3, 2), 2);
    assert_eq!(rounded(5, 2), 2);
    assert_eq!(rounded(7, 3), 2);
    assert_eq!(rounded(8, 3), 3);
    assert_eq!(rounded(u128::MAX, 1), u128::MAX);
    for n in sample_sizes() {
        assert_eq!(double_of(n as u128), n as f64 as u128, "{n}");
    }
    assert_eq!(quotient(1 << 70, 3), ((1u128 << 70) as f64 / 3.0) as u128);
}
