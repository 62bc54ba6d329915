use mmreg::{
    check_iomem, check_reg_bytes, parse_hex_argument, parse_hex_argument_u32, parse_hex_text, reg_bounds,
    region_contains, trimmed,
};

const IOMEM: &str = "00000000-00000fff : Reserved\n00001000-0009ffff : System RAM\n40000000-4000ffff : soc\n  40001000-400010ff : uart\n";

#[test]
fn iomem_range_contains_target() {
    assert!(check_iomem(IOMEM, 0x4000_0010));
    assert!(check_iomem(IOMEM, 0x4000_ffff));
    assert!(check_iomem(IOMEM, 0x0));
}

#[test]
fn iomem_range_misses_target() {
    assert!(!check_iomem(IOMEM, 0x5000_0000));
    assert!(!check_iomem(IOMEM, 0x4001_0000));
}

#[test]
fn iomem_indented_line_is_trimmed() {
    assert!(check_iomem("  40001000-400010ff : uart", 0x4000_1080));
}

#[test]
fn iomem_carriage_return_lines() {
    assert!(check_iomem("00000000-0000000f : a\r\n00000100-000001ff : b\r\n", 0x150));
}

#[test]
fn iomem_line_without_separator_is_ignored() {
    assert!(!check_iomem("00000000-ffffffff soc\n", 0x10));
    assert!(!check_iomem("00000000:ffffffff : soc\n", 0x10));
}

#[test]
fn iomem_unreadable_bound_counts_as_zero() {
    assert!(check_iomem("zz-100 : odd\n", 0x50));
    assert!(check_iomem("10-zz : odd\n", 0x0) == false);
}

#[test]
fn iomem_empty_content() {
    assert!(!check_iomem("", 0));
}

#[test]
fn reg_bytes_decode_big_endian() {
    let buf = [0, 0, 0, 0, 0x40, 0, 0, 0, 0, 0, 0, 0, 0, 0, 0x10, 0];
    assert_eq!(reg_bounds(&buf), (0x4000_0000, 0x1000));
}

#[test]
fn reg_bytes_match_inside_region() {
    let buf = [0, 0, 0, 0, 0x40, 0, 0, 0, 0, 0, 0, 0, 0, 0, 0x10, 0];
    assert_eq!(check_reg_bytes(&buf, 0x4000_0ffc), Some((0x4000_0000, 0x1000)));
    assert_eq!(check_reg_bytes(&buf, 0x4000_1000), None);
    assert_eq!(check_reg_bytes(&buf, 0x3fff_ffff), None);
}

#[test]
fn region_bounds_are_half_open() {
    assert!(region_contains(0x100, 0x10, 0x100));
    assert!(region_contains(0x100, 0x10, 0x10f));
    assert!(!region_contains(0x100, 0x10, 0x110));
    assert!(!region_contains(0x100, 0, 0x100));
    assert!(!region_contains(0x100, 0x10, 0xff));
}

#[test]
fn hex_text_is_trimmed_and_parsed() {
    assert_eq!(parse_hex_text(" 1A\n"), Some(0x1a));
    assert_eq!(parse_hex_text("0x10"), Some(0x10));
    assert_eq!(parse_hex_text("0x00000000a0000000\n"), Some(0xa000_0000));
    assert_eq!(parse_hex_text("0X1f"), Some(0x1f));
    assert_eq!(parse_hex_text("0x"), None);
    assert_eq!(parse_hex_text("0x0x1"), None);
    assert_eq!(parse_hex_text("+ff"), Some(0xff));
    assert_eq!(parse_hex_text("DeadBeef"), Some(0xdead_beef));
}

#[test]
fn hex_text_rejects_empty_and_signs() {
    assert_eq!(parse_hex_text(""), None);
    assert_eq!(parse_hex_text("   "), None);
    assert_eq!(parse_hex_text("+"), None);
    assert_eq!(parse_hex_text("-1"), None);
    assert_eq!(parse_hex_text("1 2"), None);
}

#[test]
fn hex_text_range_limits() {
    assert_eq!(parse_hex_text("ffffffffffffffff"), Some(u64::MAX));
    assert_eq!(parse_hex_text("10000000000000000"), None);
    assert_eq!(parse_hex_text("0000000000000000001"), Some(1));
}

#[test]
fn trimmed_removes_unicode_white_space() {
    assert_eq!(trimmed("  uio_dev \n"), "uio_dev");
    assert_eq!(trimmed("\u{a0}x y\u{3000}"), "x y");
    assert_eq!(trimmed(""), "");
}

#[test]
fn argument_prefixes_are_stripped() {
    assert_eq!(parse_hex_argument("0x10"), Some(0x10));
    assert_eq!(parse_hex_argument("0x0x10"), Some(0x10));
    assert_eq!(parse_hex_argument("40000000"), Some(0x4000_0000));
    assert_eq!(parse_hex_argument("0X10"), None);
}

#[test]
fn argument_with_underscores_is_read() {
    assert_eq!(parse_hex_argument("0x4000_0000"), Some(0x4000_0000));
    assert_eq!(parse_hex_argument("_"), None);
}

#[test]
fn argument_u32_range() {
    assert_eq!(parse_hex_argument_u32("0xDEADBEEF"), Some(0xDEAD_BEEF));
    assert_eq!(parse_hex_argument_u32("0x100000000"), None);
    assert_eq!(parse_hex_argument_u32("ffffffff"), Some(u32::MAX));
}
