//! Times, durations, sizes and the other texts that people read.

use smtpvoid::config::{fmt_bytes, fmt_duration, fmt_size, fmt_span, fmt_ts, now_unix, Config};
use smtpvoid::settings::{bytes_as_mib, mib_as_bytes};

#[test]
fn the_environment_gives_two_values_with_defaults() {
    let c = Config::from_env(None, None);
    assert_eq!(c.data_dir, "./data");
    assert_eq!(c.http_addr, "0.0.0.0:8080");
    let c = Config::from_env(Some("/var/lib/void".into()), Some("127.0.0.1:81".into()));
    assert_eq!(c.data_dir, "/var/lib/void");
    assert_eq!(c.http_addr, "127.0.0.1:81");
}

#[test]
fn the_clock_reads_a_time_after_this_was_written() {
    assert!(now_unix() > 1_700_000_000);
}

#[test]
fn times_are_shown_in_utc() {
    assert_eq!(fmt_ts(0), "1970-01-01 00:00:00 UTC");
    assert_eq!(fmt_ts(1_700_000_000), "2023-11-14 22:13:20 UTC");
    assert_eq!(fmt_ts(951_782_399), "2000-02-28 23:59:59 UTC");
    assert_eq!(fmt_ts(951_782_400), "2000-02-29 00:00:00 UTC");
    assert_eq!(fmt_ts(-1), "1969-12-31 23:59:59 UTC");
}

#[test]
fn times_that_no_calendar_shows_are_numbers() {
    assert_eq!(fmt_ts(i64::MAX), i64::MAX.to_string());
    assert_eq!(fmt_ts(i64::MIN), i64::MIN.to_string());
    // The year 0 can be shown, the year before it and the year 10000 cannot.
    assert_eq!(fmt_ts(-62_167_219_200), "0000-01-01 00:00:00 UTC");
    assert_eq!(fmt_ts(-62_167_219_201), "-62167219201");
    assert_eq!(fmt_ts(253_402_300_799), "9999-12-31 23:59:59 UTC");
    assert_eq!(fmt_ts(253_402_300_800), "253402300800");
}

#[test]
fn durations_show_their_two_largest_units() {
    assert_eq!(fmt_duration(-5), "0s");
    assert_eq!(fmt_duration(0), "0s");
    assert_eq!(fmt_duration(59), "59s");
    assert_eq!(fmt_duration(60), "1m 0s");
    assert_eq!(fmt_duration(2530), "42m 10s");
    assert_eq!(fmt_duration(3600), "1h 0m");
    assert_eq!(fmt_duration(86_399), "23h 59m");
    assert_eq!(fmt_duration(90_000), "1d 1h");
    assert_eq!(fmt_span(100, 160), "1m 0s");
    assert_eq!(fmt_span(160, 100), "0s");
    // The span is longer than a signed number of 64 bits counts.
    assert_eq!(fmt_span(i64::MIN, i64::MAX), "213503982334601d 7h");
}

/// Sizes as floating-point arithmetic shows them.
fn shown_by_floats(n: i64) -> String {
    const KB: f64 = 1024.0;
    let b = n as f64;
    if b >= KB * KB * KB {
        format!("{:.1} GiB", b / (KB * KB * KB))
    } else if b >= KB * KB {
        format!("{:.1} MiB", b / (KB * KB))
    } else if b >= KB {
        format!("{:.1} KiB", b / KB)
    } else {
        format!("{} B", b as i64)
    }
}

#[test]
fn sizes_round_as_floating_point_numbers_do() {
    assert_eq!(fmt_bytes(0), "0 B");
    assert_eq!(fmt_bytes(1023), "1023 B");
    assert_eq!(fmt_bytes(1024), "1.0 KiB");
    assert_eq!(fmt_bytes(1_572_864), "1.5 MiB");
    assert_eq!(fmt_bytes(-3000), "-3000 B");
    assert_eq!(fmt_size(u64::MAX), "17179869184.0 GiB");
    let mut n: i64 = 1;
    for step in 0..4000 {
        let near = [n - 1, n, n + 1, n + 51, n + n / 20, -n];
        for b in near {
            assert_eq!(fmt_bytes(b), shown_by_floats(b), "{b}");
        }
        n = (n / 1000).saturating_mul(1010) + (n % 1000) * 1010 / 1000 + 1 + step % 7;
        if n > i64::MAX / 4 {
            n = 1 + step;
        }
    }
    for b in [i64::MAX, i64::MAX - 511, i64::MAX - 512, i64::MIN, (1 << 53) + 1] {
        assert_eq!(fmt_bytes(b), shown_by_floats(b), "{b}");
    }
}

/// A number of bytes in mebibytes, as floating-point arithmetic shows it.
fn mib_by_floats(bytes: usize) -> String {
    let six = format!("{:.6}", bytes as f64 / 1_048_576.0);
    let six = six.trim_end_matches('0').trim_end_matches('.').to_string();
    let seven = format!("{:.7}", bytes as f64 / 1_048_576.0);
    let seven = seven.trim_end_matches('0').trim_end_matches('.').to_string();
    if bytes_by_floats(&six) != Some(bytes) && bytes_by_floats(&seven) == Some(bytes) {
        seven
    } else {
        six
    }
}

/// The bytes that a number of mebibytes stands for in floating-point arithmetic.
fn bytes_by_floats(raw: &str) -> Option<usize> {
    let mib = raw.trim().parse::<f64>().ok()?;
    if !mib.is_finite() || mib < 0.0 {
        return None;
    }
    let bytes = (mib * 1_048_576.0).round();
    if bytes > usize::MAX as f64 {
        return None;
    }
    Some(bytes as usize)
}

#[test]
fn mebibytes_are_shown_as_floating_point_numbers_are() {
    assert_eq!(bytes_as_mib(0), "0");
    assert_eq!(bytes_as_mib(1), "0.000001");
    assert_eq!(bytes_as_mib(8192), "0.0078125");
    assert_eq!(bytes_as_mib(1_000_000), "0.953674");
    assert_eq!(bytes_as_mib(1024), "0.000977");
    assert_eq!(bytes_as_mib(1025), "0.0009775");
    assert_eq!(bytes_as_mib(268_435_456), "256");
    let mut n: usize = 1;
    for step in 0..4000usize {
        for b in [n - 1, n, n + 1, n + 13, n.saturating_mul(3)] {
            assert_eq!(bytes_as_mib(b), mib_by_floats(b), "{b}");
        }
        n = n.saturating_add(n / 90 + 1 + step % 5);
        if n > usize::MAX / 4 {
            n = 1 + step;
        }
    }
    for b in [usize::MAX, usize::MAX - 1, (1 << 53) + 1, (1 << 60) + 12345] {
        assert_eq!(bytes_as_mib(b), mib_by_floats(b), "{b}");
    }
}

#[test]
fn mebibytes_are_read_as_floating_point_numbers_are() {
    for raw in [
        "0", "1", "1.5", ".5", "5.", "+2", "1e2", "1E-2", "2e+1", "0.0000004768371582031249",
        "0.0000004768371582031250", "0.0000004768371582031251", "17592186044415",
        "17592186044416", "17592186044417", "1e30", "1e400", "1e-400", "123456789.123456789",
        "0.1", "0.2", "0.3", "9007199254740993", "00012.5000", "1e0000000000000000000001",
        "", ".", "+", "-", "e5", "1e", "1e+", "1.2.3", "1 2", "0x10", "1_000", "nan", "inf",
        "infinity", "NaN", "half a meg", "-1", "-0", "-0.0", "٣",
    ] {
        assert_eq!(mib_as_bytes(raw), bytes_by_floats(raw), "{raw}");
    }
}

#[test]
fn a_negative_number_of_mebibytes_is_refused_however_small() {
    assert_eq!(mib_as_bytes("-0.5"), None);
    assert_eq!(mib_as_bytes("-1e-400"), None);
    assert_eq!(mib_as_bytes("-0"), Some(0));
}

#[test]
fn a_size_comes_back_from_its_form_field() {
    for b in [0usize, 1, 11, 1024, 1025, 4096, 8192, 1_048_577, 268_435_455, 268_435_456] {
        assert_eq!(mib_as_bytes(&bytes_as_mib(b)), Some(b), "{b}");
    }
    for b in (1024usize..268_435_456).step_by(4099) {
        assert_eq!(mib_as_bytes(&bytes_as_mib(b)), Some(b), "{b}");
    }
    let most = (1usize << 53) - 1;
    assert_eq!(mib_as_bytes(&bytes_as_mib(most)), Some(most));
}
