use prelockd::sizes::{bytes_to_size, size_to_bytes, GIB, KIB, MIB};

const MEM: u64 = 8 * 1024 * 1024 * 1024;

#[test]
fn resolve_kibibytes() {
    assert_eq!(size_to_bytes("10k", MEM), Some(10240));
}

#[test]
fn resolve_mebibytes() {
    assert_eq!(size_to_bytes("5m", MEM), Some(5 * 1024 * 1024));
}

#[test]
fn resolve_gibibytes() {
    assert_eq!(size_to_bytes("2g", MEM), Some(2 * 1024 * 1024 * 1024));
}

#[test]
fn resolve_zero() {
    assert_eq!(size_to_bytes("0", MEM), Some(0));
}

#[test]
fn resolve_percent_divides_total_memory() {
    // `50%` is total memory divided by fifty, not half of it.
    assert_eq!(size_to_bytes("50%", MEM), Some(MEM / 50));
    assert_eq!(size_to_bytes("4%", 1000), Some(250));
}

#[test]
fn resolve_plain_bytes() {
    assert_eq!(size_to_bytes("123456", MEM), Some(123456));
}

#[test]
fn resolve_empty_and_bare_unit_are_zero() {
    assert_eq!(size_to_bytes("", MEM), Some(0));
    assert_eq!(size_to_bytes("k", MEM), Some(0));
    assert_eq!(size_to_bytes("0m", MEM), Some(0));
}

#[test]
fn resolve_rejects_junk() {
    assert_eq!(size_to_bytes("abc", MEM), None);
    assert_eq!(size_to_bytes("10x", MEM), None);
    assert_eq!(size_to_bytes("10kx", MEM), None);
    assert_eq!(size_to_bytes("1 0k", MEM), None);
}

#[test]
fn resolve_huge_magnitude_is_zero() {
    // A magnitude that does not fit a machine word is unparseable and
    // resolves to zero.
    assert_eq!(size_to_bytes("99999999999999999999999", MEM), Some(0));
}

#[test]
fn resolve_scaled_overflow_is_unresolved() {
    // The magnitude parses, but scaling it overflows.
    assert_eq!(size_to_bytes("18446744073709551615g", MEM), None);
}

#[test]
fn render_plain_bytes() {
    assert_eq!(bytes_to_size(0), "0");
    assert_eq!(bytes_to_size(999), "999");
    assert_eq!(bytes_to_size(1023), "1023");
}

#[test]
fn render_kibibytes() {
    assert_eq!(bytes_to_size(KIB), "1.00k");
    assert_eq!(bytes_to_size(1536), "1.50k");
    assert_eq!(bytes_to_size(10240), "10.00k");
}

#[test]
fn render_mebibytes() {
    assert_eq!(bytes_to_size(MIB), "1.00m");
    assert_eq!(bytes_to_size(5 * MIB + MIB / 4), "5.25m");
}

#[test]
fn render_gibibytes() {
    assert_eq!(bytes_to_size(GIB), "1.00g");
    assert_eq!(bytes_to_size(2 * GIB + GIB / 2), "2.50g");
}

#[test]
fn render_truncates_to_two_places() {
    // 1.999... KiB renders with its third decimal truncated, not rounded.
    assert_eq!(bytes_to_size(2 * KIB - 1), "1.99k");
}
