use vstd::prelude::*;

use crate::register::{
    field_names, lemma_position_of_first, lemma_position_of_none, position_of,
    Register, RegisterModel,
};

verus! {

/// A group of registers at a physical base address, with the state of its
/// mapping: whether the region is mapped and whether the exclusive lock is held.
/// The mapping itself (the pointer and the open files) is held by the caller that
/// performs the memory accesses.
pub struct Interface {
    /// Name of the interface (for identification)
    pub name: String,
    /// Physical base address of the mapped region
    pub base_address: u64,
    /// Size of the mapped region in bytes
    pub size: usize,
    /// List of registers managed by this interface
    pub registers: Vec<Register>,
    /// Offset from the mapped page start to the base address
    pub offset: isize,
    /// Map even when the address is not recognized by the system
    pub force_map: bool,
    /// The region is mapped
    pub mapped: bool,
    /// The exclusive lock is held
    pub locked: bool,
}

/// The abstract value of an interface.
pub struct InterfaceModel {
    pub name: Seq<char>,
    pub base_address: u64,
    pub size: usize,
    pub registers: Seq<RegisterModel>,
    pub offset: isize,
    pub force_map: bool,
    pub mapped: bool,
    pub locked: bool,
}

impl View for Interface {
    type V = InterfaceModel;

    open spec fn view(&self) -> InterfaceModel {
        InterfaceModel {
            name: self.name@,
            base_address: self.base_address,
            size: self.size,
            registers: self.registers@.map_values(|r: Register| r@),
            offset: self.offset,
            force_map: self.force_map,
            mapped: self.mapped,
            locked: self.locked,
        }
    }
}

/// The names of a list of registers, in order.
pub open spec fn register_names(regs: Seq<RegisterModel>) -> Seq<Seq<char>> {
    regs.map_values(|r: RegisterModel| r.name)
}

/// The error for a register name that the interface does not hold.
pub open spec fn register_missing(name: Seq<char>) -> Seq<char> {
    "Register '"@ + name + "' not found"@
}

/// The error for a subregister name that the register does not hold.
pub open spec fn field_missing(sub: Seq<char>, reg: Seq<char>) -> Seq<char> {
    "SubRegister '"@ + sub + "' not found in Register '"@ + reg + "'"@
}

/// The error for an address that the system does not recognize, when mapping is
/// not forced.
pub open spec fn address_rejected() -> Seq<char> {
    "Address validation failed: the address is not recognized by the system (use force to map it anyway)"@
}

/// The abstract value of a `Result` that carries a message on error.
pub open spec fn result_view<T>(r: Result<T, String>) -> Result<T, Seq<char>> {
    match r {
        Ok(v) => Ok(v),
        Err(e) => Err(e@),
    }
}

impl InterfaceModel {
    /// Mapped and locked.
    pub open spec fn is_mapped(self) -> bool {
        self.mapped && self.locked
    }

    /// The position of the first register named `name`.
    pub open spec fn register_position(self, name: Seq<char>) -> Option<int> {
        position_of(register_names(self.registers), name)
    }

    /// The position, within the first register named `reg`, of its first
    /// subregister named `sub`.
    pub open spec fn field_position(self, reg: Seq<char>, sub: Seq<char>) -> Option<(int, int)> {
        match self.register_position(reg) {
            Some(i) => match position_of(field_names(self.registers[i].children), sub) {
                Some(j) => Some((i, j)),
                None => None,
            },
            None => None,
        }
    }

    /// The subregister that `reg`/`sub` names, if any, can be read and written.
    pub open spec fn field_usable(self, reg: Seq<char>, sub: Seq<char>) -> bool {
        match self.field_position(reg, sub) {
            Some((i, j)) => self.registers[i].children[j].accessible(),
            None => true,
        }
    }

    /// The value of subregister `sub` of register `reg` in its last known value.
    pub open spec fn parse_subregister(self, reg: Seq<char>, sub: Seq<char>) -> Result<u32, Seq<char>> {
        match self.register_position(reg) {
            None => Err(register_missing(reg)),
            Some(i) => match position_of(field_names(self.registers[i].children), sub) {
                None => Err(field_missing(sub, reg)),
                Some(j) => Ok(self.registers[i].children[j].extract(self.registers[i].raw)),
            },
        }
    }

    /// The same interface with register `i`'s last known value set to `raw`.
    pub open spec fn with_raw(self, i: int, raw: u32) -> InterfaceModel {
        InterfaceModel {
            registers: self.registers.update(
                i,
                RegisterModel {
                    name: self.registers[i].name,
                    offset: self.registers[i].offset,
                    raw,
                    children: self.registers[i].children,
                },
            ),
            ..self
        }
    }
}

pub(crate) fn register_missing_error(name: &str) -> (e: String)
    ensures
        e@ == register_missing(name@),
{
    let mut e = "Register '".to_string();
    e.append(name);
    e.append("' not found");
    e
}

pub(crate) fn field_missing_error(sub: &str, reg: &str) -> (e: String)
    ensures
        e@ == field_missing(sub@, reg@),
{
    let mut e = "SubRegister '".to_string();
    e.append(sub);
    e.append("' not found in Register '");
    e.append(reg);
    e.append("'");
    e
}

pub(crate) fn address_rejected_error() -> (e: String)
    ensures
        e@ == address_rejected(),
{
    "Address validation failed: the address is not recognized by the system (use force to map it anyway)".to_string()
}

impl Interface {
    /// Creates a new, unmapped interface for a set of registers at a base address.
    /// Mapping is not forced (`force_map` is false): before the region is mapped,
    /// the system is asked whether it recognizes the base address, and mapping
    /// fails if it does not. Set `force_map` to map without that check.
    pub fn new(name: &str, base_address: u64, size: usize, registers: Vec<Register>) -> (r: Self)
        ensures
            r@ == (InterfaceModel {
                name: name@,
                base_address,
                size,
                registers: registers@.map_values(|reg: Register| reg@),
                offset: 0,
                force_map: false,
                mapped: false,
                locked: false,
            }),
    {
        Interface {
            name: name.to_string(),
            base_address,
            size,
            registers,
            offset: 0,
            force_map: false,
            mapped: false,
            locked: false,
        }
    }

    /// True if the interface is currently mapped and locked.
    pub fn is_mapped(&self) -> (b: bool)
        ensures
            b == self@.is_mapped(),
    {
        self.mapped && self.locked
    }

    /// The position of the first register named `name`.
    pub fn register_index(&self, name: &str) -> (res: Option<usize>)
        ensures
            res matches Some(i) ==> i < self.registers@.len() && self@.register_position(name@) == Some(i as int),
            res is None ==> self@.register_position(name@) is None,
    {
        let key = name.to_string();
        let n = self.registers.len();
        let ghost names = register_names(self@.registers);
        for i in 0..n
            invariant
                n == self.registers@.len(),
                names == register_names(self@.registers),
                names.len() == n,
                key@ == name@,
                forall|j: int| 0 <= j < i ==> names[j] != name@,
        {
            if self.registers[i].name == key {
                proof {
                    lemma_position_of_first(names, name@, i as int);
                }
                return Some(i);
            }
        }
        proof {
            lemma_position_of_none(names, name@);
        }
        None
    }

    /// True if the subregister that `reg`/`sub` names, if any, can be read and
    /// written without a shift overflow.
    pub fn field_usable(&self, reg: &str, sub: &str) -> (b: bool)
        ensures
            b == self@.field_usable(reg@, sub@),
    {
        match self.register_index(reg) {
            None => true,
            Some(i) => match self.registers[i].find_subregister(sub) {
                None => true,
                Some(j) => self.registers[i].children[j].is_accessible(),
            },
        }
    }

    /// Parses a subregister (bitfield) value from the register's last known value,
    /// without touching memory.
    pub fn parse_subregister(&self, reg_name: &str, sub_name: &str) -> (res: Result<u32, String>)
        requires
            self@.field_usable(reg_name@, sub_name@),
        ensures
            result_view(res) == self@.parse_subregister(reg_name@, sub_name@),
    {
        match self.register_index(reg_name) {
            Some(i) => {
                let reg = &self.registers[i];
                match reg.find_subregister(sub_name) {
                    Some(j) => {
                        let sub = &reg.children[j];
                        let mask = sub.mask();
                        Ok((reg.raw & mask) >> (sub.lsb as u32))
                    },
                    None => Err(field_missing_error(sub_name, reg_name)),
                }
            },
            None => Err(register_missing_error(reg_name)),
        }
    }
}

} // verus!
