//! Access to 32-bit memory-mapped registers and their bitfields.
//!
//! The library decides; the caller performs the memory accesses. An [`Access`]
//! is stepped with the answer to each [`Action`] it asks for (check the address,
//! lock, map, read, write, unmap) until it finishes.

pub mod access;
pub mod cli;
pub mod interface;
pub mod mapping;
pub mod memcheck;
pub mod register;
pub mod text;

pub use access::{Access, Action, Event, Op, Stage};
pub use cli::{parse_command, Command};
pub use interface::Interface;
pub use mapping::{
    create_mapper, page_window, probe_verdict, uio_region_offset, Mapper, MapperType, ProbeVerdict,
};
pub use memcheck::{check_iomem, check_reg_bytes, parse_hex_text, reg_bounds, region_contains, trimmed};
pub use register::{Register, SubRegister};
pub use text::{parse_hex_argument, parse_hex_argument_u32};

use vstd::prelude::*;

verus! {

use crate::access::{AccessModel, ActionModel, EventModel, OpModel};
use crate::interface::InterfaceModel;
use crate::register::{position_of, RegisterModel};

/// The interface that the one-shot accesses use: named "devmem", 4 bytes at
/// `address`, with one register "reg" at offset 0 and no subregisters.
pub open spec fn single_register_interface(address: u64, force: bool) -> InterfaceModel {
    InterfaceModel {
        name: "devmem"@,
        base_address: address,
        size: 4,
        registers: seq![RegisterModel { name: "reg"@, offset: 0, raw: 0, children: Seq::empty() }],
        offset: 0,
        force_map: force,
        mapped: false,
        locked: false,
    }
}

fn single_register(address: u64, force: bool) -> (iface: Interface)
    ensures
        iface@ == single_register_interface(address, force),
{
    let mut iface = Interface::new("devmem", address, 4, vec![Register::new("reg", 0, vec![])]);
    iface.force_map = force;
    proof {
        assert(iface@.registers =~= single_register_interface(address, force).registers);
    }
    iface
}

/// Reads a 32-bit value from a physical address: the interface for that one
/// register and the access that reads it. With `force`, the address is not
/// validated before mapping.
pub fn read_register_at(address: u64, force: bool) -> (res: (Interface, Access))
    ensures
        res.0@ == single_register_interface(address, force),
        res.1@ == AccessModel::fresh(OpModel::ReadRegister("reg"@)),
{
    (single_register(address, force), Access::new(Op::ReadRegister("reg".to_string())))
}

/// Writes a 32-bit value to a physical address: the interface for that one
/// register and the access that writes it. With `force`, the address is not
/// validated before mapping.
pub fn write_register_at(address: u64, value: u32, force: bool) -> (res: (Interface, Access))
    ensures
        res.0@ == single_register_interface(address, force),
        res.1@ == AccessModel::fresh(OpModel::WriteRegister("reg"@, value)),
{
    (single_register(address, force), Access::new(Op::WriteRegister("reg".to_string(), value)))
}

/// Writing `value` to the physical address `address` without forcing: the access
/// asks to check the address, to lock, to map 4 bytes at `address`, then to write
/// `value` at the offset that the mapping reported, then to unmap and unlock, and
/// finishes successfully with the interface released.
pub proof fn law_write_register_at_steps(address: u64, value: u32, offset: isize)
    ensures
        ({
            let s0 = single_register_interface(address, false);
            let a0 = AccessModel::fresh(OpModel::WriteRegister("reg"@, value));
            let (a1, s1) = a0.transition(s0, EventModel::Start);
            let (a2, s2) = a1.transition(s1, EventModel::AddressChecked(true));
            let (a3, s3) = a2.transition(s2, EventModel::Locked(Ok(())));
            let (a4, s4) = a3.transition(s3, EventModel::Mapped(Ok(offset)));
            let (a5, s5) = a4.transition(s4, EventModel::Written);
            let (a6, s6) = a5.transition(s5, EventModel::Unmapped);
            &&& a1.request(s1) == (ActionModel::CheckAddress { address })
            &&& a2.request(s2) == ActionModel::Lock
            &&& a3.request(s3) == (ActionModel::MapRegion { base: address, size: 4 })
            &&& a4.request(s4) == (ActionModel::Write { offset, reg_offset: 0, value })
            &&& a5.request(s5) == (ActionModel::UnmapRegion { region: true, lock: true })
            &&& a6.request(s6) == ActionModel::Finish(Ok(None))
            &&& s6.registers[0].raw == value
            &&& !s6.mapped && !s6.locked
        }),
{
    reveal_with_fuel(position_of, 2);
}

/// Reading the physical address `address` without forcing: the access asks to
/// check the address, to lock, to map 4 bytes at `address`, then to read at the
/// offset that the mapping reported, then to unmap and unlock, and finishes with
/// exactly the word `word` that was read, with the interface released.
pub proof fn law_read_register_at_steps(address: u64, offset: isize, word: u32)
    ensures
        ({
            let s0 = single_register_interface(address, false);
            let a0 = AccessModel::fresh(OpModel::ReadRegister("reg"@));
            let (a1, s1) = a0.transition(s0, EventModel::Start);
            let (a2, s2) = a1.transition(s1, EventModel::AddressChecked(true));
            let (a3, s3) = a2.transition(s2, EventModel::Locked(Ok(())));
            let (a4, s4) = a3.transition(s3, EventModel::Mapped(Ok(offset)));
            let (a5, s5) = a4.transition(s4, EventModel::Value(word));
            let (a6, s6) = a5.transition(s5, EventModel::Unmapped);
            &&& a1.request(s1) == (ActionModel::CheckAddress { address })
            &&& a2.request(s2) == ActionModel::Lock
            &&& a3.request(s3) == (ActionModel::MapRegion { base: address, size: 4 })
            &&& a4.request(s4) == (ActionModel::Read { offset, reg_offset: 0 })
            &&& a5.request(s5) == (ActionModel::UnmapRegion { region: true, lock: true })
            &&& a6.request(s6) == ActionModel::Finish(Ok(Some(word)))
            &&& s6.registers[0].raw == word
            &&& !s6.mapped && !s6.locked
        }),
{
    reveal_with_fuel(position_of, 2);
}

} // verus!
