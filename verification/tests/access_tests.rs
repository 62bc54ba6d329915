use mmreg::{Access, Action, Event, Interface, Op, Register, Stage, SubRegister};

fn sample_interface() -> Interface {
    Interface::new(
        "dev",
        0x4000_0000,
        0x1000,
        vec![
            Register::new("ctrl", 0x0, vec![SubRegister::new("mode", 7, 4), SubRegister::new("en", 0, 0)]),
            Register::new("status", 0x8, vec![]),
        ],
    )
}

#[test]
fn interface_new_is_unmapped() {
    let iface = sample_interface();
    assert_eq!(iface.name, "dev");
    assert_eq!(iface.base_address, 0x4000_0000);
    assert_eq!(iface.size, 0x1000);
    assert_eq!(iface.offset, 0);
    assert!(!iface.force_map);
    assert!(!iface.is_mapped());
    assert_eq!(iface.register_index("status"), Some(1));
    assert_eq!(iface.register_index("nope"), None);
}

#[test]
fn is_mapped_needs_mapping_and_lock() {
    let mut iface = sample_interface();
    iface.mapped = true;
    assert!(!iface.is_mapped());
    iface.locked = true;
    assert!(iface.is_mapped());
}

#[test]
fn parse_subregister_reads_last_value() {
    let mut iface = sample_interface();
    iface.registers[0].raw = 0x0000_00A1;
    assert_eq!(iface.parse_subregister("ctrl", "mode"), Ok(0xA));
    assert_eq!(iface.parse_subregister("ctrl", "en"), Ok(0x1));
}

#[test]
fn parse_subregister_missing_register() {
    let iface = sample_interface();
    assert_eq!(iface.parse_subregister("nope", "mode"), Err("Register 'nope' not found".to_string()));
}

#[test]
fn parse_subregister_missing_field() {
    let iface = sample_interface();
    assert_eq!(
        iface.parse_subregister("ctrl", "nope"),
        Err("SubRegister 'nope' not found in Register 'ctrl'".to_string())
    );
}

#[test]
fn read_register_maps_reads_and_unmaps() {
    let mut iface = sample_interface();
    let mut acc = Access::new(Op::ReadRegister("status".to_string()));
    assert!(acc.ready(&iface));
    assert_eq!(acc.step(&mut iface, Event::Start), Action::CheckAddress { address: 0x4000_0000 });
    assert_eq!(acc.step(&mut iface, Event::AddressChecked(true)), Action::Lock);
    assert!(iface.is_mapped() == false);
    assert_eq!(acc.step(&mut iface, Event::Locked(Ok(()))), Action::MapRegion { base: 0x4000_0000, size: 0x1000 });
    assert!(iface.locked);
    assert_eq!(acc.step(&mut iface, Event::Mapped(Ok(0x20))), Action::Read { offset: 0x20, reg_offset: 0x8 });
    assert!(iface.mapped);
    assert_eq!(iface.offset, 0x20);
    assert_eq!(acc.step(&mut iface, Event::Value(0xDEAD_BEEF)), Action::UnmapRegion { region: true, lock: true });
    assert_eq!(iface.registers[1].raw, 0xDEAD_BEEF);
    assert_eq!(acc.step(&mut iface, Event::Unmapped), Action::Finish(Ok(Some(0xDEAD_BEEF))));
    assert!(!iface.mapped && !iface.locked);
    assert_eq!(acc.stage, Stage::Done);
    assert_eq!(acc.step(&mut iface, Event::Start), Action::Finish(Ok(Some(0xDEAD_BEEF))));
}

#[test]
fn forced_mapping_skips_address_check() {
    let mut iface = sample_interface();
    iface.force_map = true;
    let mut acc = Access::new(Op::ReadRegister("ctrl".to_string()));
    assert_eq!(acc.step(&mut iface, Event::Start), Action::Lock);
}

#[test]
fn rejected_address_fails_before_locking() {
    let mut iface = sample_interface();
    let mut acc = Access::new(Op::ReadRegister("ctrl".to_string()));
    acc.step(&mut iface, Event::Start);
    assert_eq!(
        acc.step(&mut iface, Event::AddressChecked(false)),
        Action::Finish(Err(
            "Address validation failed: the address is not recognized by the system (use force to map it anyway)"
                .to_string()
        ))
    );
    assert!(!iface.locked && !iface.mapped);
}

#[test]
fn lock_failure_is_reported() {
    let mut iface = sample_interface();
    iface.force_map = true;
    let mut acc = Access::new(Op::WriteRegister("ctrl".to_string(), 1));
    acc.step(&mut iface, Event::Start);
    assert_eq!(
        acc.step(&mut iface, Event::Locked(Err("Failed to acquire exclusive lock: busy".to_string()))),
        Action::Finish(Err("Failed to acquire exclusive lock: busy".to_string()))
    );
    assert!(!iface.locked);
}

#[test]
fn map_failure_keeps_lock() {
    let mut iface = sample_interface();
    iface.force_map = true;
    let mut acc = Access::new(Op::ReadRegister("ctrl".to_string()));
    acc.step(&mut iface, Event::Start);
    acc.step(&mut iface, Event::Locked(Ok(())));
    assert_eq!(
        acc.step(&mut iface, Event::Mapped(Err("mmap failed: denied".to_string()))),
        Action::Finish(Err("mmap failed: denied".to_string()))
    );
    assert!(iface.locked && !iface.mapped);
    assert!(!iface.is_mapped());
}

#[test]
fn failed_map_operation_keeps_lock() {
    let mut iface = sample_interface();
    iface.force_map = true;
    let mut acc = Access::new(Op::MapRegion);
    assert_eq!(acc.step(&mut iface, Event::Start), Action::Lock);
    acc.step(&mut iface, Event::Locked(Ok(())));
    assert_eq!(acc.step(&mut iface, Event::Mapped(Err("mmap failed".to_string()))), Action::Finish(Err("mmap failed".to_string())));
    assert!(iface.locked && !iface.mapped);
}

#[test]
fn mapped_interface_is_used_as_is() {
    let mut iface = sample_interface();
    iface.mapped = true;
    iface.locked = true;
    iface.offset = 4;
    let mut acc = Access::new(Op::WriteRegister("status".to_string(), 0x55));
    assert_eq!(acc.step(&mut iface, Event::Start), Action::Write { offset: 4, reg_offset: 8, value: 0x55 });
    assert_eq!(acc.step(&mut iface, Event::Written), Action::Finish(Ok(None)));
    assert_eq!(iface.registers[1].raw, 0x55);
    assert!(iface.is_mapped());
}

#[test]
fn missing_register_unmaps_then_fails() {
    let mut iface = sample_interface();
    iface.force_map = true;
    let mut acc = Access::new(Op::ReadRegister("nope".to_string()));
    acc.step(&mut iface, Event::Start);
    acc.step(&mut iface, Event::Locked(Ok(())));
    assert_eq!(acc.step(&mut iface, Event::Mapped(Ok(0))), Action::UnmapRegion { region: true, lock: true });
    assert_eq!(
        acc.step(&mut iface, Event::Unmapped),
        Action::Finish(Err("Register 'nope' not found".to_string()))
    );
}

#[test]
fn missing_subregister_unmaps_then_fails() {
    let mut iface = sample_interface();
    iface.force_map = true;
    let mut acc = Access::new(Op::WriteSubregister("ctrl".to_string(), "nope".to_string(), 1));
    acc.step(&mut iface, Event::Start);
    acc.step(&mut iface, Event::Locked(Ok(())));
    assert_eq!(acc.step(&mut iface, Event::Mapped(Ok(0))), Action::UnmapRegion { region: true, lock: true });
    assert_eq!(
        acc.step(&mut iface, Event::Unmapped),
        Action::Finish(Err("SubRegister 'nope' not found in Register 'ctrl'".to_string()))
    );
    assert!(!iface.mapped && !iface.locked);
}

#[test]
fn missing_subregister_on_mapped_interface_keeps_mapping() {
    let mut iface = sample_interface();
    iface.mapped = true;
    iface.locked = true;
    let mut acc = Access::new(Op::ReadSubregister("ctrl".to_string(), "nope".to_string()));
    assert_eq!(
        acc.step(&mut iface, Event::Start),
        Action::Finish(Err("SubRegister 'nope' not found in Register 'ctrl'".to_string()))
    );
    assert!(iface.is_mapped());
}

#[test]
fn write_subregister_then_parse_gives_value() {
    let mut iface = sample_interface();
    iface.force_map = true;
    let mut acc = Access::new(Op::WriteSubregister("ctrl".to_string(), "mode".to_string(), 0x1C));
    acc.step(&mut iface, Event::Start);
    acc.step(&mut iface, Event::Locked(Ok(())));
    assert_eq!(acc.step(&mut iface, Event::Mapped(Ok(0))), Action::Read { offset: 0, reg_offset: 0 });
    assert_eq!(
        acc.step(&mut iface, Event::Value(0xFFFF_FF0F)),
        Action::Write { offset: 0, reg_offset: 0, value: 0xFFFF_FFCF }
    );
    assert_eq!(acc.step(&mut iface, Event::Written), Action::UnmapRegion { region: true, lock: true });
    assert_eq!(acc.step(&mut iface, Event::Unmapped), Action::Finish(Ok(None)));
    assert_eq!(iface.parse_subregister("ctrl", "mode"), Ok(0xC));
    assert_eq!(iface.registers[0].raw, 0xFFFF_FFCF);
}

#[test]
fn full_word_field_through_interface() {
    let mut iface = Interface::new("d", 0, 4, vec![Register::new("r", 0, vec![SubRegister::new("all", 31, 0)])]);
    iface.mapped = true;
    iface.locked = true;
    let mut acc = Access::new(Op::WriteSubregister("r".to_string(), "all".to_string(), 0xFEED_F00D));
    assert!(acc.ready(&iface));
    assert_eq!(acc.step(&mut iface, Event::Start), Action::Read { offset: 0, reg_offset: 0 });
    assert_eq!(acc.step(&mut iface, Event::Value(7)), Action::Write { offset: 0, reg_offset: 0, value: 0xFEED_F00D });
    assert_eq!(acc.step(&mut iface, Event::Written), Action::Finish(Ok(None)));
    assert_eq!(iface.parse_subregister("r", "all"), Ok(0xFEED_F00D));
}

#[test]
fn read_subregister_agrees_with_parse() {
    let mut iface = sample_interface();
    iface.mapped = true;
    iface.locked = true;
    let mut acc = Access::new(Op::ReadSubregister("ctrl".to_string(), "mode".to_string()));
    assert_eq!(acc.step(&mut iface, Event::Start), Action::Read { offset: 0, reg_offset: 0 });
    assert_eq!(acc.step(&mut iface, Event::Value(0x0000_0070)), Action::Finish(Ok(Some(0x7))));
    assert_eq!(iface.parse_subregister("ctrl", "mode"), Ok(0x7));
}

#[test]
fn unexpected_event_repeats_request() {
    let mut iface = sample_interface();
    iface.force_map = true;
    let mut acc = Access::new(Op::ReadRegister("ctrl".to_string()));
    assert_eq!(acc.step(&mut iface, Event::Start), Action::Lock);
    assert_eq!(acc.step(&mut iface, Event::Value(3)), Action::Lock);
    assert_eq!(acc.step(&mut iface, Event::Written), Action::Lock);
}

#[test]
fn map_and_unmap_operations() {
    let mut iface = sample_interface();
    let mut acc = Access::new(Op::MapRegion);
    assert_eq!(acc.step(&mut iface, Event::Start), Action::CheckAddress { address: 0x4000_0000 });
    acc.step(&mut iface, Event::AddressChecked(true));
    acc.step(&mut iface, Event::Locked(Ok(())));
    assert_eq!(acc.step(&mut iface, Event::Mapped(Ok(8))), Action::Finish(Ok(None)));
    assert!(iface.is_mapped());
    let mut acc = Access::new(Op::UnmapRegion);
    assert_eq!(acc.step(&mut iface, Event::Start), Action::UnmapRegion { region: true, lock: true });
    assert_eq!(acc.step(&mut iface, Event::Unmapped), Action::Finish(Ok(None)));
    assert!(!iface.mapped && !iface.locked);
}

#[test]
fn unmap_of_unmapped_interface_asks_for_nothing() {
    let mut iface = sample_interface();
    let mut acc = Access::new(Op::UnmapRegion);
    assert_eq!(acc.step(&mut iface, Event::Start), Action::UnmapRegion { region: false, lock: false });
}

#[test]
fn unusable_field_is_not_ready() {
    let mut iface = Interface::new("d", 0, 4, vec![Register::new("r", 0, vec![SubRegister::new("high", 40, 32)])]);
    let acc = Access::new(Op::ReadSubregister("r".to_string(), "high".to_string()));
    assert!(!acc.ready(&iface));
    assert!(!iface.field_usable("r", "high"));
    assert!(iface.field_usable("r", "other"));
    iface.registers[0].children[0].lsb = 31;
    assert!(acc.ready(&iface));
}

#[test]
fn read_register_at_builds_single_register_interface() {
    let (iface, acc) = mmreg::read_register_at(0x4000_0004, true);
    assert_eq!(iface.name, "devmem");
    assert_eq!(iface.base_address, 0x4000_0004);
    assert_eq!(iface.size, 4);
    assert!(iface.force_map);
    assert_eq!(iface.registers.len(), 1);
    assert_eq!(iface.registers[0].name, "reg");
    assert_eq!(iface.registers[0].offset, 0);
    assert_eq!(acc.op, Op::ReadRegister("reg".to_string()));
    assert_eq!(acc.stage, Stage::Start);
}

#[test]
fn write_register_at_runs_to_completion() {
    let (mut iface, mut acc) = mmreg::write_register_at(0x1000, 0xCAFE, false);
    assert!(!iface.force_map);
    assert_eq!(acc.step(&mut iface, Event::Start), Action::CheckAddress { address: 0x1000 });
    acc.step(&mut iface, Event::AddressChecked(true));
    acc.step(&mut iface, Event::Locked(Ok(())));
    assert_eq!(acc.step(&mut iface, Event::Mapped(Ok(0))), Action::Write { offset: 0, reg_offset: 0, value: 0xCAFE });
    assert_eq!(acc.step(&mut iface, Event::Written), Action::UnmapRegion { region: true, lock: true });
    assert_eq!(acc.step(&mut iface, Event::Unmapped), Action::Finish(Ok(None)));
    assert_eq!(iface.registers[0].raw, 0xCAFE);
}
