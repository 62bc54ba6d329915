use mmreg::{Register, SubRegister};

#[test]
fn subregister_new_keeps_fields() {
    let sub = SubRegister::new("flag", 7, 0);
    assert_eq!(sub.name, "flag");
    assert_eq!(sub.msb, 7);
    assert_eq!(sub.lsb, 0);
}

#[test]
fn mask_of_low_byte() {
    assert_eq!(SubRegister::new("f", 7, 0).mask(), 0xFF);
}

#[test]
fn mask_of_middle_bits() {
    assert_eq!(SubRegister::new("f", 15, 8).mask(), 0xFF00);
    assert_eq!(SubRegister::new("f", 6, 4).mask(), 0x70);
}

#[test]
fn mask_of_single_bits() {
    assert_eq!(SubRegister::new("f", 0, 0).mask(), 0x1);
    assert_eq!(SubRegister::new("f", 31, 31).mask(), 0x8000_0000);
}

#[test]
fn mask_of_widest_computable_fields() {
    assert_eq!(SubRegister::new("f", 31, 1).mask(), 0xFFFF_FFFE);
    assert_eq!(SubRegister::new("f", 30, 0).mask(), 0x7FFF_FFFF);
}

#[test]
fn mask_of_reversed_range_is_zero() {
    assert_eq!(SubRegister::new("f", 3, 5).mask(), 0);
}

#[test]
fn mask_beyond_word_is_zero() {
    assert_eq!(SubRegister::new("f", 40, 0).mask(), 0);
    assert_eq!(SubRegister::new("f", 32, 32).mask(), 0);
}

#[test]
fn register_new_starts_at_zero() {
    let reg = Register::new("status", 0x10, vec![SubRegister::new("a", 3, 0)]);
    assert_eq!(reg.name, "status");
    assert_eq!(reg.offset, 0x10);
    assert_eq!(reg.raw, 0);
    assert_eq!(reg.children.len(), 1);
}

#[test]
fn register_read_and_write_record_value() {
    let mut reg = Register::new("r", 0, vec![]);
    assert_eq!(reg.read(0x1234), Ok(0x1234));
    assert_eq!(reg.raw, 0x1234);
    assert_eq!(reg.write(0xBEEF), Ok(()));
    assert_eq!(reg.raw, 0xBEEF);
}

#[test]
fn get_subregister_finds_first_of_name() {
    let reg = Register::new(
        "r",
        0,
        vec![SubRegister::new("a", 3, 0), SubRegister::new("b", 7, 4), SubRegister::new("b", 9, 8)],
    );
    let sub = reg.get_subregister("b").unwrap();
    assert_eq!((sub.msb, sub.lsb), (7, 4));
    assert_eq!(reg.find_subregister("b"), Some(1));
    assert!(reg.get_subregister("c").is_none());
    assert_eq!(reg.find_subregister("c"), None);
}

#[test]
fn read_subregister_refreshes_from_fetched_word() {
    let mut reg = Register::new("r", 0, vec![]);
    let sub = SubRegister::new("f", 7, 4);
    assert_eq!(reg.read_subregister(&sub, true, Some(0xABCD)), Ok(0xC));
    assert_eq!(reg.raw, 0xABCD);
}

#[test]
fn read_subregister_without_refresh_uses_last_value() {
    let mut reg = Register::new("r", 0, vec![]);
    reg.raw = 0x00F0;
    let sub = SubRegister::new("f", 7, 4);
    assert_eq!(reg.read_subregister(&sub, false, Some(0x1111)), Ok(0xF));
    assert_eq!(reg.raw, 0x00F0);
}

#[test]
fn read_subregister_refresh_without_mapping_fails() {
    let mut reg = Register::new("r", 0, vec![]);
    reg.raw = 7;
    let sub = SubRegister::new("f", 7, 4);
    assert_eq!(reg.read_subregister(&sub, true, None), Err("Mapped pointer not available".to_string()));
    assert_eq!(reg.raw, 7);
}

#[test]
fn write_subregister_read_modify_write() {
    let mut reg = Register::new("r", 0, vec![]);
    let sub = SubRegister::new("f", 7, 4);
    assert_eq!(reg.write_subregister(&sub, 0xA, true, Some(0xFFFF_0000)), Ok(0xFFFF_00A0));
    assert_eq!(reg.raw, 0xFFFF_00A0);
}

#[test]
fn write_subregister_truncates_value_to_field() {
    let mut reg = Register::new("r", 0, vec![]);
    let sub = SubRegister::new("f", 7, 4);
    assert_eq!(reg.write_subregister(&sub, 0x1A, true, Some(0)), Ok(0xA0));
}

#[test]
fn write_subregister_without_mapping_keeps_value() {
    let mut reg = Register::new("r", 0, vec![]);
    reg.raw = 0x1234_5678;
    let sub = SubRegister::new("f", 15, 8);
    assert_eq!(
        reg.write_subregister(&sub, 0xAB, false, None),
        Err("Mapped pointer not available".to_string())
    );
    assert_eq!(reg.raw, 0x1234_5678);
}

#[test]
fn refresh_without_mapping_fails_for_any_field() {
    let mut reg = Register::new("r", 0, vec![]);
    reg.raw = 9;
    let sub = SubRegister::new("f", 40, 35);
    assert_eq!(reg.read_subregister(&sub, true, None), Err("Mapped pointer not available".to_string()));
    assert_eq!(reg.write_subregister(&sub, 1, true, None), Err("Mapped pointer not available".to_string()));
    assert_eq!(reg.raw, 9);
}

#[test]
fn mask_of_full_word() {
    assert_eq!(SubRegister::new("f", 31, 0).mask(), 0xFFFF_FFFF);
}

#[test]
fn full_word_field_reads_and_writes_whole_register() {
    let mut reg = Register::new("r", 0, vec![]);
    let sub = SubRegister::new("all", 31, 0);
    assert_eq!(reg.read_subregister(&sub, true, Some(0xDEAD_BEEF)), Ok(0xDEAD_BEEF));
    assert_eq!(reg.write_subregister(&sub, 0x0123_4567, true, Some(0xDEAD_BEEF)), Ok(0x0123_4567));
    assert_eq!(reg.raw, 0x0123_4567);
}

#[test]
fn write_subregister_refresh_without_mapping_leaves_value() {
    let mut reg = Register::new("r", 0, vec![]);
    reg.raw = 0x0F;
    let sub = SubRegister::new("f", 7, 4);
    assert_eq!(
        reg.write_subregister(&sub, 0x3, true, None),
        Err("Mapped pointer not available".to_string())
    );
    assert_eq!(reg.raw, 0x0F);
}

#[test]
fn write_then_read_back_field_keeps_other_bits() {
    let mut reg = Register::new("r", 0, vec![]);
    let sub = SubRegister::new("f", 11, 8);
    let word = reg.write_subregister(&sub, 0x5, true, Some(0x1234_5678)).unwrap();
    assert_eq!(word & !sub.mask(), 0x1234_5678 & !sub.mask());
    assert_eq!(reg.read_subregister(&sub, false, None), Ok(0x5));
}

#[test]
fn accessible_field_check() {
    assert!(SubRegister::new("f", 7, 0).is_accessible());
    assert!(SubRegister::new("f", 31, 0).is_accessible());
    assert!(!SubRegister::new("f", 40, 32).is_accessible());
    assert!(SubRegister::new("f", 40, 31).is_accessible());
}

#[test]
fn second_field_write_overrides_first() {
    let mut reg = Register::new("r", 0, vec![]);
    let sub = SubRegister::new("f", 15, 8);
    let first = reg.write_subregister(&sub, 0x12, true, Some(0xAAAA_AAAA)).unwrap();
    let second = reg.write_subregister(&sub, 0x34, true, Some(first)).unwrap();
    let direct = Register::new("r", 0, vec![]).write_subregister(&sub, 0x34, true, Some(0xAAAA_AAAA)).unwrap();
    assert_eq!(second, direct);
    assert_eq!(second, 0xAAAA_34AA);
}

#[test]
fn writing_back_read_field_changes_nothing() {
    let mut reg = Register::new("r", 0, vec![]);
    let sub = SubRegister::new("f", 19, 12);
    let v = reg.read_subregister(&sub, true, Some(0x1357_9BDF)).unwrap();
    assert_eq!(v, 0x79);
    assert_eq!(reg.write_subregister(&sub, v, false, Some(0)), Ok(0x1357_9BDF));
}

#[test]
fn field_value_never_exceeds_field_width() {
    let mut reg = Register::new("r", 0, vec![]);
    let sub = SubRegister::new("f", 2, 1);
    assert_eq!(reg.read_subregister(&sub, true, Some(0xFFFF_FFFF)), Ok(0x3));
}
