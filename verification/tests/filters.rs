use clipboard_vault::filters::{asset, format_bytes, render};

#[test]
fn zero_is_zero_bytes() {
    assert_eq!(render(0), "0 B");
}

#[test]
fn stays_in_bytes_below_the_kib_boundary() {
    assert_eq!(render(1023), "1023 B");
}

#[test]
fn crosses_into_kib_at_the_boundary() {
    assert_eq!(render(1024), "1.0 KiB");
}

#[test]
fn matches_the_client_side_formatter() {
    assert_eq!(render(1536), "1.5 KiB");
}

#[test]
fn formats_gib_scale_values() {
    assert_eq!(render(21_474_836_480), "20.0 GiB");
}

#[test]
fn caps_at_tib() {
    assert_eq!(render(5 * 1024u64.pow(4)), "5.0 TiB");
}

#[test]
fn render_rounds_ties_to_the_even_digit() {
    assert_eq!(render(1280), "1.2 KiB");
    assert_eq!(render(2_621_440), "2.5 MiB");
    assert_eq!(render(1_331), "1.3 KiB");
}

#[test]
fn render_reaches_the_top_of_a_unit_before_switching() {
    assert_eq!(render(1_048_575), "1024.0 KiB");
    assert_eq!(render(1_048_576), "1.0 MiB");
}

#[test]
fn render_rounds_large_counts_as_doubles_do() {
    assert_eq!(render(u64::MAX), "16777216.0 TiB");
    assert_eq!(render((1u64 << 53) + 1), "8192.0 TiB");
}

#[test]
fn render_agrees_with_float_formatting() {
    let samples: [u64; 8] = [1, 999, 1025, 123_456, 987_654_321, 5_000_000_000_000, 1 << 50, 123_456_789_012_345_678];
    for bytes in samples {
        let value = bytes as f64;
        let index = (value.log(1024.0).floor() as usize).min(4);
        let scaled = value / 1024f64.powi(index as i32);
        let units = ["B", "KiB", "MiB", "GiB", "TiB"];
        let expected = if index == 0 {
            format!("{scaled:.0} {}", units[index])
        } else {
            format!("{scaled:.1} {}", units[index])
        };
        assert_eq!(render(bytes), expected);
    }
}

#[test]
fn format_bytes_clamps_negative_and_oversized_counts() {
    assert_eq!(format_bytes(-5), "0 B");
    assert_eq!(format_bytes(2048), "2.0 KiB");
    assert_eq!(format_bytes(i128::MAX), render(u64::MAX));
}

#[test]
fn asset_urls_carry_the_version() {
    assert_eq!(asset("/static/app.css", "0123456789ab"), "/static/app.css?v=0123456789ab");
}
