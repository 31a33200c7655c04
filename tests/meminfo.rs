use bfree::meminfo::{first_token_bounds, key_counter, parse_line, parse_meminfo, parse_u64, trim_bounds, Counter};
use bfree::snapshot::{App, MemorySnapshot};

fn chars(s: &str) -> Vec<char> {
    s.chars().collect()
}

const SAMPLE: &str = "MemTotal:       16384000 kB
MemFree:         8192000 kB
MemAvailable:   10000000 kB
Buffers:          200000 kB
Cached:          4000000 kB
SwapCached:            0 kB
Shmem:             12345 kB
SwapTotal:       2097148 kB
SwapFree:        2097000 kB
HugePages_Total:       0
";

#[test]
fn parses_a_full_meminfo_text() {
    let s = parse_meminfo(&chars(SAMPLE));
    assert_eq!(
        s,
        MemorySnapshot {
            total: 16384000,
            free: 8192000,
            available: 10000000,
            buffers: 200000,
            cached: 4000000,
            shared: 12345,
            swap_total: 2097148,
            swap_free: 2097000,
        }
    );
    assert_eq!(s.used_kib(), 3992000);
}

#[test]
fn missing_keys_default_to_zero() {
    let s = parse_meminfo(&chars("MemTotal: 100 kB\nMemFree: 40 kB\n"));
    assert_eq!(s.total, 100);
    assert_eq!(s.free, 40);
    assert_eq!(s.available, 0);
    assert_eq!(s.cached, 0);
    assert_eq!(s.swap_free, 0);
    assert_eq!(parse_meminfo(&chars("")), MemorySnapshot::zeroed());
}

#[test]
fn malformed_entries_are_skipped() {
    let text = "MemTotal: 100 kB\nMemFree: abc kB\nCached: -5 kB\nBuffers:\nShmem: 18446744073709551616 kB\nSwapFree 77\n";
    let s = parse_meminfo(&chars(text));
    assert_eq!(s.total, 100);
    assert_eq!(s.free, 0);
    assert_eq!(s.cached, 0);
    assert_eq!(s.buffers, 0);
    assert_eq!(s.shared, 0);
    assert_eq!(s.swap_free, 0);
}

#[test]
fn later_line_wins() {
    let s = parse_meminfo(&chars("MemFree: 1\nMemFree: bad\nMemFree: 2\n"));
    assert_eq!(s.free, 2);
}

#[test]
fn crlf_and_no_trailing_newline() {
    let s = parse_meminfo(&chars("MemTotal: 10 kB\r\nMemFree: 3"));
    assert_eq!(s.total, 10);
    assert_eq!(s.free, 3);
}

#[test]
fn line_with_two_colons_is_skipped() {
    assert_eq!(parse_line(&chars("MemTotal: 5: 6")), None);
    assert_eq!(parse_line(&chars("MemTotal 5")), None);
}

#[test]
fn line_key_and_value_are_trimmed() {
    assert_eq!(parse_line(&chars("  MemTotal\t:\t 42 kB ")), Some((Counter::MemTotal, 42)));
    assert_eq!(parse_line(&chars("\u{a0}SwapTotal: 7")), Some((Counter::SwapTotal, 7)));
    assert_eq!(parse_line(&chars("Unknown: 7")), None);
    assert_eq!(parse_line(&chars("memtotal: 7")), None);
}

#[test]
fn number_reading() {
    assert_eq!(parse_u64(&chars("0")), Some(0));
    assert_eq!(parse_u64(&chars("+17")), Some(17));
    assert_eq!(parse_u64(&chars("+")), None);
    assert_eq!(parse_u64(&chars("")), None);
    assert_eq!(parse_u64(&chars("-1")), None);
    assert_eq!(parse_u64(&chars("12a")), None);
    assert_eq!(parse_u64(&chars("18446744073709551615")), Some(u64::MAX));
    assert_eq!(parse_u64(&chars("18446744073709551616")), None);
    assert_eq!(parse_u64(&chars("000123")), Some(123));
}

#[test]
fn bounds_helpers() {
    assert_eq!(trim_bounds(&chars("  ab c \t")), (2, 6));
    assert_eq!(trim_bounds(&chars("   ")), (3, 3));
    assert_eq!(first_token_bounds(&chars("  12 kB")), (2, 4));
    assert_eq!(first_token_bounds(&chars("")), (0, 0));
}

#[test]
fn keys_name_their_counters() {
    assert_eq!(key_counter(&chars("MemAvailable")), Some(Counter::MemAvailable));
    assert_eq!(key_counter(&chars("Shmem")), Some(Counter::Shmem));
    assert_eq!(key_counter(&chars("Shmem ")), None);
    assert_eq!(Counter::Buffers.key(), chars("Buffers"));
}

#[test]
fn update_replaces_the_snapshot() {
    let mut app = App::new();
    app.update(&chars("MemTotal: 5\nMemFree: 2\n"));
    assert_eq!(app.snapshot.total, 5);
    app.update(&chars("MemFree: 1\n"));
    assert_eq!(app.snapshot.total, 0);
    assert_eq!(app.snapshot.free, 1);
}
