use vstd::prelude::*;

use crate::interface::{
    address_rejected, address_rejected_error, field_missing, field_missing_error, register_missing,
    register_missing_error, register_names, result_view, Interface, InterfaceModel,
};
use crate::register::{
    field_names, law_extract_after_insert, law_insert_keeps_other_bits, lemma_position_of, no_mapping_error, no_mapping_message,
    position_of, SubRegister,
};

verus! {

/// An operation on an interface that needs the mapped region.
#[derive(Debug, PartialEq, Eq)]
pub enum Op {
    /// Acquire the lock and map the region.
    MapRegion,
    /// Unmap the region and release the lock.
    UnmapRegion,
    /// Read a register by name.
    ReadRegister(String),
    /// Write a value to a register by name.
    WriteRegister(String, u32),
    /// Read a subregister: register name, subregister name.
    ReadSubregister(String, String),
    /// Write a subregister: register name, subregister name, value.
    WriteSubregister(String, String, u32),
}

/// The abstract value of an operation.
pub enum OpModel {
    MapRegion,
    UnmapRegion,
    ReadRegister(Seq<char>),
    WriteRegister(Seq<char>, u32),
    ReadSubregister(Seq<char>, Seq<char>),
    WriteSubregister(Seq<char>, Seq<char>, u32),
}

impl View for Op {
    type V = OpModel;

    open spec fn view(&self) -> OpModel {
        match self {
            Op::MapRegion => OpModel::MapRegion,
            Op::UnmapRegion => OpModel::UnmapRegion,
            Op::ReadRegister(r) => OpModel::ReadRegister(r@),
            Op::WriteRegister(r, v) => OpModel::WriteRegister(r@, *v),
            Op::ReadSubregister(r, f) => OpModel::ReadSubregister(r@, f@),
            Op::WriteSubregister(r, f, v) => OpModel::WriteSubregister(r@, f@, *v),
        }
    }
}

impl OpModel {
    /// The operation reads or writes a register.
    pub open spec fn is_register_op(self) -> bool {
        !(self is MapRegion) && !(self is UnmapRegion)
    }

    /// The operation reads or writes a subregister.
    pub open spec fn is_field_op(self) -> bool {
        self is ReadSubregister || self is WriteSubregister
    }

    /// The register that the operation names.
    pub open spec fn register_name(self) -> Seq<char> {
        match self {
            OpModel::ReadRegister(r) => r,
            OpModel::WriteRegister(r, _) => r,
            OpModel::ReadSubregister(r, _) => r,
            OpModel::WriteSubregister(r, _, _) => r,
            _ => Seq::empty(),
        }
    }

    /// The subregister that the operation names.
    pub open spec fn field_name(self) -> Seq<char> {
        match self {
            OpModel::ReadSubregister(_, f) => f,
            OpModel::WriteSubregister(_, f, _) => f,
            _ => Seq::empty(),
        }
    }
}

/// Where an access stands.
#[derive(Clone, Copy, Debug, PartialEq, Eq)]
pub enum Stage {
    /// Not begun.
    Start,
    /// Waiting for the address check.
    Checking,
    /// Waiting for the lock.
    Locking,
    /// Waiting for the mapping.
    Mapping,
    /// Waiting for a register read.
    Reading,
    /// Waiting for a register write.
    Writing,
    /// Waiting for the unmapping.
    Unmapping,
    /// Finished.
    Done,
}

/// What the caller reports back after performing the requested action.
#[derive(Debug, PartialEq, Eq)]
pub enum Event {
    /// Begin the access.
    Start,
    /// Whether the system recognizes the base address.
    AddressChecked(bool),
    /// The result of acquiring the exclusive lock.
    Locked(Result<(), String>),
    /// The result of mapping: the offset of the base address within the mapped page.
    Mapped(Result<isize, String>),
    /// The word read from the register.
    Value(u32),
    /// The word was written.
    Written,
    /// The region was unmapped and the lock released.
    Unmapped,
}

/// The abstract value of an event.
pub enum EventModel {
    Start,
    AddressChecked(bool),
    Locked(Result<(), Seq<char>>),
    Mapped(Result<isize, Seq<char>>),
    Value(u32),
    Written,
    Unmapped,
}

impl View for Event {
    type V = EventModel;

    open spec fn view(&self) -> EventModel {
        match self {
            Event::Start => EventModel::Start,
            Event::AddressChecked(b) => EventModel::AddressChecked(*b),
            Event::Locked(r) => EventModel::Locked(result_view(*r)),
            Event::Mapped(r) => EventModel::Mapped(result_view(*r)),
            Event::Value(v) => EventModel::Value(*v),
            Event::Written => EventModel::Written,
            Event::Unmapped => EventModel::Unmapped,
        }
    }
}

/// What the caller is asked to do next.
#[derive(Debug, PartialEq, Eq)]
pub enum Action {
    /// Check whether the system recognizes `address`; answer with `AddressChecked`.
    CheckAddress { address: u64 },
    /// Acquire the exclusive lock; answer with `Locked`.
    Lock,
    /// Map `size` bytes of physical memory from `base`; answer with `Mapped`.
    MapRegion { base: u64, size: usize },
    /// Read the word at `offset + reg_offset` in the mapped region; answer with `Value`.
    Read { offset: isize, reg_offset: u32 },
    /// Write `value` at `offset + reg_offset` in the mapped region; answer with `Written`.
    Write { offset: isize, reg_offset: u32, value: u32 },
    /// Unmap the region (if `region`) and release the lock (if `lock`); answer with `Unmapped`.
    UnmapRegion { region: bool, lock: bool },
    /// The access is over, with this result (`Some` value for reads).
    Finish(Result<Option<u32>, String>),
}

/// The abstract value of an action.
pub enum ActionModel {
    CheckAddress { address: u64 },
    Lock,
    MapRegion { base: u64, size: usize },
    Read { offset: isize, reg_offset: u32 },
    Write { offset: isize, reg_offset: u32, value: u32 },
    UnmapRegion { region: bool, lock: bool },
    Finish(Result<Option<u32>, Seq<char>>),
}

impl View for Action {
    type V = ActionModel;

    open spec fn view(&self) -> ActionModel {
        match self {
            Action::CheckAddress { address } => ActionModel::CheckAddress { address: *address },
            Action::Lock => ActionModel::Lock,
            Action::MapRegion { base, size } => ActionModel::MapRegion { base: *base, size: *size },
            Action::Read { offset, reg_offset } => ActionModel::Read { offset: *offset, reg_offset: *reg_offset },
            Action::Write { offset, reg_offset, value } => ActionModel::Write {
                offset: *offset,
                reg_offset: *reg_offset,
                value: *value,
            },
            Action::UnmapRegion { region, lock } => ActionModel::UnmapRegion { region: *region, lock: *lock },
            Action::Finish(r) => ActionModel::Finish(result_view(*r)),
        }
    }
}

/// One operation on an interface in progress. Each call of `step` takes the
/// answer to the previous action and returns the next action, until `Finish`.
pub struct Access {
    pub op: Op,
    pub stage: Stage,
    /// The access mapped the region itself, and unmaps it when done.
    pub did_map: bool,
    /// The register being accessed.
    pub reg: usize,
    /// The subregister being accessed.
    pub sub: usize,
    /// The word to write.
    pub word: u32,
    /// The result, once known.
    pub outcome: Result<Option<u32>, String>,
}

/// The abstract value of an access.
pub struct AccessModel {
    pub op: OpModel,
    pub stage: Stage,
    pub did_map: bool,
    pub reg: int,
    pub sub: int,
    pub word: u32,
    pub outcome: Result<Option<u32>, Seq<char>>,
}

impl View for Access {
    type V = AccessModel;

    open spec fn view(&self) -> AccessModel {
        AccessModel {
            op: self.op@,
            stage: self.stage,
            did_map: self.did_map,
            reg: self.reg as int,
            sub: self.sub as int,
            word: self.word,
            outcome: result_view(self.outcome),
        }
    }
}

impl InterfaceModel {
    /// The same interface with the lock held.
    pub open spec fn with_lock(self) -> InterfaceModel {
        InterfaceModel { locked: true, ..self }
    }

    /// The same interface mapped, with the base address at `offset` in the mapped page.
    pub open spec fn with_mapping(self, offset: isize) -> InterfaceModel {
        InterfaceModel { mapped: true, offset, ..self }
    }

    /// The same interface unmapped and unlocked.
    pub open spec fn released(self) -> InterfaceModel {
        InterfaceModel { mapped: false, locked: false, ..self }
    }
}

impl AccessModel {
    /// A fresh access for `op`.
    pub open spec fn fresh(op: OpModel) -> AccessModel {
        AccessModel { op, stage: Stage::Start, did_map: false, reg: 0, sub: 0, word: 0, outcome: Ok(None) }
    }

    /// The same access at another stage.
    pub open spec fn at(self, stage: Stage) -> AccessModel {
        AccessModel { stage, ..self }
    }

    /// The same access, finished with `outcome`.
    pub open spec fn done(self, outcome: Result<Option<u32>, Seq<char>>) -> AccessModel {
        AccessModel { stage: Stage::Done, outcome, ..self }
    }

    /// The action that the access asks for at its stage.
    pub open spec fn request(self, s: InterfaceModel) -> ActionModel {
        match self.stage {
            Stage::Checking => ActionModel::CheckAddress { address: s.base_address },
            Stage::Locking => ActionModel::Lock,
            Stage::Mapping => ActionModel::MapRegion { base: s.base_address, size: s.size },
            Stage::Reading => ActionModel::Read { offset: s.offset, reg_offset: s.registers[self.reg].offset },
            Stage::Writing => ActionModel::Write {
                offset: s.offset,
                reg_offset: s.registers[self.reg].offset,
                value: self.word,
            },
            Stage::Unmapping => ActionModel::UnmapRegion { region: s.mapped, lock: s.locked },
            _ => ActionModel::Finish(self.outcome),
        }
    }

    /// Start mapping: check the address first unless mapping is forced.
    pub open spec fn start_mapping(self, s: InterfaceModel) -> (AccessModel, InterfaceModel) {
        if s.force_map {
            (self.at(Stage::Locking), s)
        } else {
            (self.at(Stage::Checking), s)
        }
    }

    /// Record `outcome`, then unmap if the access mapped the region itself.
    pub open spec fn conclude(self, s: InterfaceModel, outcome: Result<Option<u32>, Seq<char>>) -> (AccessModel, InterfaceModel) {
        if self.did_map {
            (AccessModel { stage: Stage::Unmapping, outcome, ..self }, s)
        } else {
            (self.done(outcome), s)
        }
    }

    /// With the region mapped, find the register (and subregister) to access.
    pub open spec fn lookup(self, s: InterfaceModel) -> (AccessModel, InterfaceModel) {
        let name = self.op.register_name();
        match s.register_position(name) {
            None => self.conclude(s, Err(register_missing(name))),
            Some(i) => if !s.mapped {
                self.conclude(s, Err(no_mapping_message()))
            } else {
                match self.op {
                    OpModel::WriteRegister(_, v) => (AccessModel { stage: Stage::Writing, reg: i, word: v, ..self }, s),
                    OpModel::ReadRegister(_) => (AccessModel { stage: Stage::Reading, reg: i, ..self }, s),
                    _ => {
                        let f = self.op.field_name();
                        match position_of(field_names(s.registers[i].children), f) {
                            None => self.conclude(s, Err(field_missing(f, name))),
                            Some(j) => (AccessModel { stage: Stage::Reading, reg: i, sub: j, ..self }, s),
                        }
                    },
                }
            },
        }
    }

    /// The register's word `v` has been read.
    pub open spec fn got_value(self, s: InterfaceModel, v: u32) -> (AccessModel, InterfaceModel) {
        let i = self.reg;
        let f = s.registers[i].children[self.sub];
        match self.op {
            OpModel::ReadRegister(_) => self.conclude(s.with_raw(i, v), Ok(Some(v))),
            OpModel::ReadSubregister(_, _) => self.conclude(s.with_raw(i, v), Ok(Some(f.extract(v)))),
            OpModel::WriteSubregister(_, _, value) => {
                let w = f.insert(v, value);
                (AccessModel { stage: Stage::Writing, word: w, ..self }, s.with_raw(i, w))
            },
            _ => (self, s),
        }
    }

    /// Begin the access.
    pub open spec fn begin(self, s: InterfaceModel) -> (AccessModel, InterfaceModel) {
        match self.op {
            OpModel::MapRegion => self.start_mapping(s),
            OpModel::UnmapRegion => (self.at(Stage::Unmapping), s),
            _ => if s.is_mapped() {
                self.lookup(s)
            } else {
                AccessModel { did_map: true, ..self }.start_mapping(s)
            },
        }
    }

    /// The access and interface after `ev`. An event that does not answer the
    /// pending action changes nothing. A rejected address, a failed lock or a
    /// failed mapping ends the access at once, with the lock as that step left
    /// it; once the region is mapped, an access that mapped it itself unmaps and
    /// unlocks before it reports its result, an error included.
    pub open spec fn transition(self, s: InterfaceModel, ev: EventModel) -> (AccessModel, InterfaceModel) {
        match self.stage {
            Stage::Start => self.begin(s),
            Stage::Checking => match ev {
                EventModel::AddressChecked(true) => (self.at(Stage::Locking), s),
                EventModel::AddressChecked(false) => (self.done(Err(address_rejected())), s),
                _ => (self, s),
            },
            Stage::Locking => match ev {
                EventModel::Locked(Ok(())) => (self.at(Stage::Mapping), s.with_lock()),
                EventModel::Locked(Err(e)) => (self.done(Err(e)), s),
                _ => (self, s),
            },
            Stage::Mapping => match ev {
                EventModel::Mapped(Ok(offset)) => if self.op is MapRegion {
                    (self.done(Ok(None)), s.with_mapping(offset))
                } else {
                    self.lookup(s.with_mapping(offset))
                },
                EventModel::Mapped(Err(e)) => (self.done(Err(e)), s),
                _ => (self, s),
            },
            Stage::Reading => match ev {
                EventModel::Value(v) => self.got_value(s, v),
                _ => (self, s),
            },
            Stage::Writing => match ev {
                EventModel::Written => self.conclude(s.with_raw(self.reg, self.word), Ok(None)),
                _ => (self, s),
            },
            Stage::Unmapping => match ev {
                EventModel::Unmapped => (self.done(self.outcome), s.released()),
                _ => (self, s),
            },
            Stage::Done => (self, s),
        }
    }

    /// The access's indices are valid in `s`, and the subregister it names can be
    /// read and written without a shift overflow.
    pub open spec fn wf(self, s: InterfaceModel) -> bool {
        &&& (self.stage is Checking || self.stage is Locking || self.stage is Mapping) ==> !(self.op is UnmapRegion)
        &&& (self.stage is Reading || self.stage is Writing) ==> {
            &&& self.op.is_register_op()
            &&& 0 <= self.reg < s.registers.len()
            &&& self.op.is_field_op() ==> 0 <= self.sub < s.registers[self.reg].children.len()
                && s.registers[self.reg].children[self.sub].accessible()
        }
        &&& (self.op.is_field_op() && (self.stage is Start || self.stage is Checking
            || self.stage is Locking || self.stage is Mapping)) ==> s.field_usable(
            self.op.register_name(),
            self.op.field_name(),
        )
    }
}


fn clone_outcome(o: &Result<Option<u32>, String>) -> (r: Result<Option<u32>, String>)
    ensures
        result_view(r) == result_view(*o),
{
    match o {
        Ok(v) => Ok(*v),
        Err(e) => Err(e.clone()),
    }
}

fn duplicate(sub: &SubRegister) -> (c: SubRegister)
    ensures
        c == *sub,
{
    SubRegister { name: sub.name.clone(), msb: sub.msb, lsb: sub.lsb }
}

impl Access {
    /// A fresh access for `op`.
    pub fn new(op: Op) -> (a: Self)
        ensures
            a@ == AccessModel::fresh(op@),
    {
        Access { op, stage: Stage::Start, did_map: false, reg: 0, sub: 0, word: 0, outcome: Ok(None) }
    }

    /// True if the access can take a step on `iface`: its indices are valid there
    /// and the subregister it names can be read and written.
    pub fn ready(&self, iface: &Interface) -> (b: bool)
        ensures
            b == self@.wf(iface@),
    {
        let (reading_or_writing, before_lookup, mapping_steps): (bool, bool, bool) = match self.stage {
            Stage::Start => (false, true, false),
            Stage::Checking => (false, true, true),
            Stage::Locking => (false, true, true),
            Stage::Mapping => (false, true, true),
            Stage::Reading => (true, false, false),
            Stage::Writing => (true, false, false),
            _ => (false, false, false),
        };
        let (is_unmap, is_register_op, is_field_op): (bool, bool, bool) = match &self.op {
            Op::MapRegion => (false, false, false),
            Op::UnmapRegion => (true, false, false),
            Op::ReadRegister(_) => (false, true, false),
            Op::WriteRegister(_, _) => (false, true, false),
            _ => (false, true, true),
        };
        if mapping_steps && is_unmap {
            return false;
        }
        if reading_or_writing {
            if !is_register_op || self.reg >= iface.registers.len() {
                return false;
            }
            if is_field_op {
                let r = &iface.registers[self.reg];
                if self.sub >= r.children.len() || !r.children[self.sub].is_accessible() {
                    return false;
                }
            }
        }
        if is_field_op && before_lookup {
            let name = self.register_name();
            let field = self.field_name();
            return iface.field_usable(name.as_str(), field.as_str());
        }
        true
    }

    /// The name of the register that the operation names.
    fn register_name(&self) -> (name: String)
        ensures
            name@ == self@.op.register_name(),
    {
        match &self.op {
            Op::ReadRegister(r) => r.clone(),
            Op::WriteRegister(r, _) => r.clone(),
            Op::ReadSubregister(r, _) => r.clone(),
            Op::WriteSubregister(r, _, _) => r.clone(),
            _ => String::new(),
        }
    }

    /// The name of the subregister that the operation names.
    fn field_name(&self) -> (name: String)
        ensures
            name@ == self@.op.field_name(),
    {
        match &self.op {
            Op::ReadSubregister(_, f) => f.clone(),
            Op::WriteSubregister(_, f, _) => f.clone(),
            _ => String::new(),
        }
    }

    /// The action that the access asks for at its stage.
    pub fn request(&self, iface: &Interface) -> (act: Action)
        requires
            self@.wf(iface@),
        ensures
            act@ == self@.request(iface@),
    {
        match self.stage {
            Stage::Checking => Action::CheckAddress { address: iface.base_address },
            Stage::Locking => Action::Lock,
            Stage::Mapping => Action::MapRegion { base: iface.base_address, size: iface.size },
            Stage::Reading => Action::Read { offset: iface.offset, reg_offset: iface.registers[self.reg].offset },
            Stage::Writing => Action::Write {
                offset: iface.offset,
                reg_offset: iface.registers[self.reg].offset,
                value: self.word,
            },
            Stage::Unmapping => Action::UnmapRegion { region: iface.mapped, lock: iface.locked },
            _ => Action::Finish(clone_outcome(&self.outcome)),
        }
    }

    fn finish_with(&mut self, outcome: Result<Option<u32>, String>)
        ensures
            final(self)@ == old(self)@.done(result_view(outcome)),
    {
        self.stage = Stage::Done;
        self.outcome = outcome;
    }

    fn start_mapping(&mut self, iface: &Interface)
        ensures
            (final(self)@, iface@) == old(self)@.start_mapping(iface@),
    {
        if iface.force_map {
            self.stage = Stage::Locking;
        } else {
            self.stage = Stage::Checking;
        }
    }

    fn conclude(&mut self, iface: &Interface, outcome: Result<Option<u32>, String>)
        ensures
            (final(self)@, iface@) == old(self)@.conclude(iface@, result_view(outcome)),
    {
        self.outcome = outcome;
        if self.did_map {
            self.stage = Stage::Unmapping;
        } else {
            self.stage = Stage::Done;
        }
    }

    fn lookup(&mut self, iface: &Interface)
        requires
            old(self)@.op.is_register_op(),
            old(self)@.op.is_field_op() ==> iface@.field_usable(
                old(self)@.op.register_name(),
                old(self)@.op.field_name(),
            ),
        ensures
            (final(self)@, iface@) == old(self)@.lookup(iface@),
            final(self)@.wf(iface@),
    {
        let name = self.register_name();
        match iface.register_index(name.as_str()) {
            None => {
                let e = register_missing_error(name.as_str());
                self.conclude(iface, Err(e));
            },
            Some(i) => {
                if !iface.mapped {
                    self.conclude(iface, Err(no_mapping_error()));
                } else {
                    let (write_value, is_read): (Option<u32>, bool) = match &self.op {
                        Op::WriteRegister(_, v) => (Some(*v), false),
                        Op::ReadRegister(_) => (None, true),
                        _ => (None, false),
                    };
                    match write_value {
                        Some(v) => {
                            self.stage = Stage::Writing;
                            self.reg = i;
                            self.word = v;
                        },
                        None => {
                            if is_read {
                                self.stage = Stage::Reading;
                                self.reg = i;
                            } else {
                                let f = self.field_name();
                                match iface.registers[i].find_subregister(f.as_str()) {
                                    None => {
                                        let e = field_missing_error(f.as_str(), name.as_str());
                                        self.conclude(iface, Err(e));
                                    },
                                    Some(j) => {
                                        self.stage = Stage::Reading;
                                        self.reg = i;
                                        self.sub = j;
                                    },
                                }
                            }
                        },
                    }
                }
            },
        }
    }

    fn got_value(&mut self, iface: &mut Interface, v: u32)
        requires
            old(self)@.stage is Reading,
            old(self)@.wf(old(iface)@),
        ensures
            (final(self)@, final(iface)@) == old(self)@.got_value(old(iface)@, v),
            final(self)@.wf(final(iface)@),
    {
        let i = self.reg;
        let ghost s0 = iface@;
        let (read_whole, write_value): (bool, Option<u32>) = match &self.op {
            Op::ReadRegister(_) => (true, None),
            Op::WriteSubregister(_, _, value) => (false, Some(*value)),
            _ => (false, None),
        };
        if read_whole {
            let _ = iface.registers[i].read(v);
            proof {
                assert(iface@.registers =~= s0.with_raw(i as int, v).registers);
            }
            self.conclude(iface, Ok(Some(v)));
        } else if self.op.is_read_subregister() {
            let sub = duplicate(&iface.registers[i].children[self.sub]);
            let r = iface.registers[i].read_subregister(&sub, true, Some(v));
            proof {
                assert(iface@.registers =~= s0.with_raw(i as int, v).registers);
            }
            match r {
                Ok(x) => self.conclude(iface, Ok(Some(x))),
                Err(e) => self.conclude(iface, Err(e)),
            }
        } else {
            match write_value {
                Some(value) => {
                    let sub = duplicate(&iface.registers[i].children[self.sub]);
                    let r = iface.registers[i].write_subregister(&sub, value, true, Some(v));
                    proof {
                        assert(iface@.registers =~= s0.with_raw(i as int, sub.insert(v, value)).registers);
                    }
                    match r {
                        Ok(w) => {
                            self.word = w;
                            self.stage = Stage::Writing;
                        },
                        Err(e) => {
                            self.finish_with(Err(e));
                        },
                    }
                },
                None => {},
            }
        }
    }

    fn got_written(&mut self, iface: &mut Interface)
        requires
            old(self)@.stage is Writing,
            old(self)@.wf(old(iface)@),
        ensures
            (final(self)@, final(iface)@) == old(self)@.conclude(old(iface)@.with_raw(old(self)@.reg, old(self)@.word), Ok(None)),
            final(self)@.wf(final(iface)@),
    {
        let i = self.reg;
        let ghost s0 = iface@;
        let _ = iface.registers[i].write(self.word);
        proof {
            assert(iface@.registers =~= s0.with_raw(i as int, self.word).registers);
        }
        self.conclude(iface, Ok(None));
    }

    fn begin(&mut self, iface: &Interface)
        requires
            old(self)@.stage is Start,
            old(self)@.wf(iface@),
        ensures
            (final(self)@, iface@) == old(self)@.begin(iface@),
            final(self)@.wf(iface@),
    {
        match &self.op {
            Op::MapRegion => self.start_mapping(iface),
            Op::UnmapRegion => {
                self.stage = Stage::Unmapping;
            },
            _ => {
                if iface.is_mapped() {
                    self.lookup(iface);
                } else {
                    self.did_map = true;
                    self.start_mapping(iface);
                }
            },
        }
    }

    /// Takes the answer to the previous action (or `Event::Start`) and returns the
    /// next action. An event that does not answer the pending action changes
    /// nothing, and the pending action is asked for again.
    pub fn step(&mut self, iface: &mut Interface, event: Event) -> (act: Action)
        requires
            old(self)@.wf(old(iface)@),
        ensures
            (final(self)@, final(iface)@) == old(self)@.transition(old(iface)@, event@),
            act@ == final(self)@.request(final(iface)@),
            final(self)@.wf(final(iface)@),
    {
        match self.stage {
            Stage::Start => self.begin(iface),
            Stage::Checking => match event {
                Event::AddressChecked(ok) => {
                    if ok {
                        self.stage = Stage::Locking;
                    } else {
                        self.finish_with(Err(address_rejected_error()));
                    }
                },
                _ => {},
            },
            Stage::Locking => match event {
                Event::Locked(Ok(())) => {
                    iface.locked = true;
                    self.stage = Stage::Mapping;
                },
                Event::Locked(Err(e)) => self.finish_with(Err(e)),
                _ => {},
            },
            Stage::Mapping => match event {
                Event::Mapped(Ok(offset)) => {
                    iface.mapped = true;
                    iface.offset = offset;
                    if self.op.is_map_region() {
                        self.finish_with(Ok(None));
                    } else {
                        self.lookup(iface);
                    }
                },
                Event::Mapped(Err(e)) => self.finish_with(Err(e)),
                _ => {},
            },
            Stage::Reading => match event {
                Event::Value(v) => self.got_value(iface, v),
                _ => {},
            },
            Stage::Writing => match event {
                Event::Written => self.got_written(iface),
                _ => {},
            },
            Stage::Unmapping => match event {
                Event::Unmapped => {
                    iface.mapped = false;
                    iface.locked = false;
                    self.stage = Stage::Done;
                },
                _ => {},
            },
            Stage::Done => {},
        }
        self.request(iface)
    }
}

/// The access and interface after each event of `evs` in turn.
pub open spec fn run(a: AccessModel, s: InterfaceModel, evs: Seq<EventModel>) -> (AccessModel, InterfaceModel)
    decreases evs.len(),
{
    if evs.len() == 0 {
        (a, s)
    } else {
        let (a1, s1) = a.transition(s, evs[0]);
        run(a1, s1, evs.drop_first())
    }
}

impl AccessModel {
    /// What a register access has established so far about the interface.
    pub open spec fn tracks(self, s: InterfaceModel) -> bool {
        let r = self.op.register_name();
        let f = self.op.field_name();
        &&& self.op.is_register_op()
        &&& self.op.is_field_op() ==> s.field_usable(r, f)
        &&& (self.stage is Reading || self.stage is Writing) ==> {
            &&& s.register_position(r) == Some(self.reg)
            &&& 0 <= self.reg < s.registers.len()
            &&& self.op.is_field_op() ==> s.field_position(r, f) == Some((self.reg, self.sub))
        }
        &&& (self.stage is Writing && self.op is WriteSubregister) ==> {
            &&& s.registers[self.reg].raw == self.word
            &&& s.parse_subregister(r, f) == Ok::<u32, Seq<char>>(
                self.op->WriteSubregister_2 & (s.registers[self.reg].children[self.sub].field_bits()
                    >> (s.registers[self.reg].children[self.sub].lsb as u32)),
            )
        }
        &&& self.stage is Writing ==> (self.op is WriteRegister || self.op is WriteSubregister)
        &&& self.stage is Reading ==> !(self.op is WriteRegister)
        &&& (self.stage is Writing && self.op is WriteRegister) ==> self.word == self.op->WriteRegister_1
        &&& ((self.stage is Unmapping || self.stage is Done) && self.outcome is Ok) ==> self.finished_ok(s)
        &&& (self.stage is Done && self.did_map && self.outcome is Ok) ==> !s.mapped && !s.locked
    }

    /// What a successful register access leaves behind.
    pub open spec fn finished_ok(self, s: InterfaceModel) -> bool {
        let r = self.op.register_name();
        let f = self.op.field_name();
        match self.op {
            OpModel::ReadRegister(_) => match s.register_position(r) {
                Some(i) => self.outcome == Ok::<Option<u32>, Seq<char>>(Some(s.registers[i].raw)),
                None => false,
            },
            OpModel::WriteRegister(_, v) => self.outcome == Ok::<Option<u32>, Seq<char>>(None) && match s.register_position(r) {
                Some(i) => s.registers[i].raw == v,
                None => false,
            },
            OpModel::ReadSubregister(_, _) => match s.parse_subregister(r, f) {
                Ok(x) => self.outcome == Ok::<Option<u32>, Seq<char>>(Some(x)),
                Err(_) => false,
            },
            OpModel::WriteSubregister(_, _, value) => self.outcome == Ok::<Option<u32>, Seq<char>>(None) && match s.field_position(r, f) {
                Some((i, j)) => s.parse_subregister(r, f) == Ok::<u32, Seq<char>>(
                    value & (s.registers[i].children[j].field_bits() >> (s.registers[i].children[j].lsb as u32)),
                ),
                None => false,
            },
            _ => false,
        }
    }
}

/// Setting a register's last known value keeps every name and field in place.
proof fn lemma_with_raw_keeps_layout(s: InterfaceModel, i: int, x: u32)
    requires
        0 <= i < s.registers.len(),
    ensures
        register_names(s.with_raw(i, x).registers) == register_names(s.registers),
        s.with_raw(i, x).registers.len() == s.registers.len(),
        forall|k: int| 0 <= k < s.registers.len() ==> #[trigger] s.with_raw(i, x).registers[k].children
            == s.registers[k].children,
        forall|r: Seq<char>| #[trigger] s.with_raw(i, x).register_position(r) == s.register_position(r),
        forall|r: Seq<char>, f: Seq<char>| #[trigger] s.with_raw(i, x).field_position(r, f) == s.field_position(r, f),
        forall|r: Seq<char>, f: Seq<char>| #[trigger] s.with_raw(i, x).field_usable(r, f) == s.field_usable(r, f),
{
    assert(register_names(s.with_raw(i, x).registers) =~= register_names(s.registers));
    assert forall|r: Seq<char>| #[trigger] s.with_raw(i, x).register_position(r) == s.register_position(r) by {}
    assert forall|r: Seq<char>, f: Seq<char>| #[trigger] s.with_raw(i, x).field_position(r, f) == s.field_position(r, f) by {
        lemma_position_of(register_names(s.registers), r);
    }
    assert forall|r: Seq<char>, f: Seq<char>| #[trigger] s.with_raw(i, x).field_usable(r, f) == s.field_usable(r, f) by {
        lemma_position_of(register_names(s.registers), r);
    }
}

/// Looking up the register and subregister establishes what `tracks` asks of the
/// reading and writing stages.
proof fn lemma_tracks_lookup(a: AccessModel, s: InterfaceModel)
    requires
        a.tracks(s),
        a.stage is Start || a.stage is Mapping,
    ensures
        a.lookup(s).0.tracks(a.lookup(s).1),
{
    let r = a.op.register_name();
    let f = a.op.field_name();
    lemma_position_of(register_names(s.registers), r);
    if let Some(i) = s.register_position(r) {
        lemma_position_of(field_names(s.registers[i].children), f);
    }
}

/// Every step keeps what a register access has established.
pub proof fn lemma_tracks_step(a: AccessModel, s: InterfaceModel, ev: EventModel)
    requires
        a.tracks(s),
    ensures
        a.transition(s, ev).0.tracks(a.transition(s, ev).1),
{
    let r = a.op.register_name();
    let f = a.op.field_name();
    match a.stage {
        Stage::Start => {
            if s.is_mapped() {
                lemma_tracks_lookup(a, s);
            }
        },
        Stage::Mapping => {
            if let EventModel::Mapped(Ok(offset)) = ev {
                lemma_tracks_lookup(a, s.with_mapping(offset));
            }
        },
        Stage::Reading => {
            if let EventModel::Value(v) = ev {
                let i = a.reg;
                lemma_with_raw_keeps_layout(s, i, v);
                match a.op {
                    OpModel::ReadRegister(_) => {},
                    OpModel::ReadSubregister(_, _) => {
                        lemma_position_of(register_names(s.registers), r);
                        lemma_position_of(field_names(s.registers[i].children), f);
                    },
                    OpModel::WriteSubregister(_, _, value) => {
                        let j = a.sub;
                        lemma_position_of(register_names(s.registers), r);
                        lemma_position_of(field_names(s.registers[i].children), f);
                        let sub = s.registers[i].children[j];
                        let w = sub.insert(v, value);
                        lemma_with_raw_keeps_layout(s, i, w);
                        law_extract_after_insert(sub, v, value);
                    },
                    _ => {},
                }
            }
        },
        Stage::Writing => {
            if let EventModel::Written = ev {
                let i = a.reg;
                lemma_with_raw_keeps_layout(s, i, a.word);
                match a.op {
                    OpModel::WriteSubregister(_, _, value) => {
                        lemma_position_of(register_names(s.registers), r);
                        lemma_position_of(field_names(s.registers[i].children), f);
                    },
                    _ => {},
                }
            }
        },
        _ => {},
    }
}

/// Every run keeps what a register access has established.
proof fn lemma_tracks_run(a: AccessModel, s: InterfaceModel, evs: Seq<EventModel>)
    requires
        a.tracks(s),
    ensures
        run(a, s, evs).0.tracks(run(a, s, evs).1),
        run(a, s, evs).0.op == a.op,
    decreases evs.len(),
{
    if evs.len() > 0 {
        lemma_tracks_step(a, s, evs[0]);
        let (a1, s1) = a.transition(s, evs[0]);
        lemma_tracks_run(a1, s1, evs.drop_first());
    }
}

/// An access begun on an unmapped interface maps it itself, and no region is
/// mapped while it checks, locks or maps, nor once it is done.
proof fn lemma_maps_itself_run(a: AccessModel, s: InterfaceModel, evs: Seq<EventModel>)
    requires
        a.op.is_register_op(),
        a.stage is Start ==> !s.is_mapped() && (s.mapped ==> s.locked),
        !(a.stage is Start) ==> a.did_map,
        (a.stage is Checking || a.stage is Locking || a.stage is Mapping || a.stage is Done) ==> !s.mapped,
    ensures
        !(run(a, s, evs).0.stage is Start) ==> run(a, s, evs).0.did_map,
        run(a, s, evs).0.stage is Done ==> !run(a, s, evs).1.mapped,
    decreases evs.len(),
{
    if evs.len() > 0 {
        let (a1, s1) = a.transition(s, evs[0]);
        lemma_maps_itself_run(a1, s1, evs.drop_first());
    }
}

/// An access begun on a mapped interface never maps, unmaps or locks.
proof fn lemma_keeps_mapping_run(a: AccessModel, s: InterfaceModel, evs: Seq<EventModel>)
    requires
        a.op.is_register_op(),
        !a.did_map,
        s.is_mapped(),
        !(a.stage is Checking || a.stage is Locking || a.stage is Mapping || a.stage is Unmapping),
    ensures
        ({
            let (b, t) = run(a, s, evs);
            &&& !b.did_map
            &&& t.is_mapped()
            &&& t.offset == s.offset
            &&& !(b.stage is Checking || b.stage is Locking || b.stage is Mapping || b.stage is Unmapping)
        }),
    decreases evs.len(),
{
    if evs.len() > 0 {
        let (a1, s1) = a.transition(s, evs[0]);
        lemma_keeps_mapping_run(a1, s1, evs.drop_first());
    }
}

/// A register access that has to map the interface for itself leaves no region
/// mapped when it finishes, whatever the events on the way; when it succeeds it
/// has released the lock as well. (When taking the lock or mapping fails, the
/// access stops there and the lock stays as that step left it.)
pub proof fn law_access_releases_own_mapping(op: OpModel, s: InterfaceModel, evs: Seq<EventModel>)
    requires
        op.is_register_op(),
        op.is_field_op() ==> s.field_usable(op.register_name(), op.field_name()),
        !s.is_mapped(),
        s.mapped ==> s.locked,
    ensures
        ({
            let (b, t) = run(AccessModel::fresh(op), s, evs);
            &&& b.stage is Done ==> !t.mapped
            &&& (b.stage is Done && b.outcome is Ok) ==> !t.locked
        }),
{
    let a = AccessModel::fresh(op);
    lemma_tracks_run(a, s, evs);
    lemma_maps_itself_run(a, s, evs);
}

/// A finished register access leaves the interface mapped (mapped and locked)
/// exactly when it was before, successfully or not, for an interface whose
/// region is mapped only while the lock is held.
pub proof fn law_access_restores_mapping_state(op: OpModel, s: InterfaceModel, evs: Seq<EventModel>)
    requires
        op.is_register_op(),
        op.is_field_op() ==> s.field_usable(op.register_name(), op.field_name()),
        s.mapped ==> s.locked,
    ensures
        ({
            let (b, t) = run(AccessModel::fresh(op), s, evs);
            b.stage is Done ==> t.is_mapped() == s.is_mapped()
        }),
{
    if s.is_mapped() {
        lemma_keeps_mapping_run(AccessModel::fresh(op), s, evs);
    } else {
        law_access_releases_own_mapping(op, s, evs);
    }
}

/// A register access that mapped the interface itself and then finds no
/// register of that name reports the missing register only after asking to
/// unmap the region and release the lock; once that is done the interface is
/// unmapped and unlocked.
pub proof fn law_missing_register_unmaps(a: AccessModel, s: InterfaceModel, offset: isize)
    requires
        a.op.is_register_op(),
        a.stage is Mapping,
        a.did_map,
        s.register_position(a.op.register_name()) is None,
    ensures
        ({
            let (b, t) = a.transition(s, EventModel::Mapped(Ok(offset)));
            let (c, u) = b.transition(t, EventModel::Unmapped);
            &&& b.request(t) == (ActionModel::UnmapRegion { region: true, lock: s.locked })
            &&& c.request(u) == ActionModel::Finish(Err(register_missing(a.op.register_name())))
            &&& !u.mapped && !u.locked
        }),
{
}

/// A subregister access that mapped the interface itself and then finds the
/// register but no subregister of that name reports the missing subregister
/// only after asking to unmap the region and release the lock; once that is
/// done the interface is unmapped and unlocked.
pub proof fn law_missing_field_unmaps(a: AccessModel, s: InterfaceModel, offset: isize)
    requires
        a.op.is_field_op(),
        a.stage is Mapping,
        a.did_map,
        s.field_position(a.op.register_name(), a.op.field_name()) is None,
        s.register_position(a.op.register_name()) is Some,
    ensures
        ({
            let (b, t) = a.transition(s, EventModel::Mapped(Ok(offset)));
            let (c, u) = b.transition(t, EventModel::Unmapped);
            &&& b.request(t) == (ActionModel::UnmapRegion { region: true, lock: s.locked })
            &&& c.request(u) == ActionModel::Finish(
                Err(field_missing(a.op.field_name(), a.op.register_name())),
            )
            &&& !u.mapped && !u.locked
        }),
{
}

/// A register access on an interface that is already mapped and locked never
/// asks to check the address, lock, map or unmap, and leaves the interface mapped
/// and locked.
pub proof fn law_access_keeps_existing_mapping(op: OpModel, s: InterfaceModel, evs: Seq<EventModel>)
    requires
        op.is_register_op(),
        s.is_mapped(),
    ensures
        ({
            let (b, t) = run(AccessModel::fresh(op), s, evs);
            &&& t.is_mapped()
            &&& !(b.request(t) is CheckAddress || b.request(t) is Lock || b.request(t) is MapRegion
                || b.request(t) is UnmapRegion)
        }),
{
    lemma_keeps_mapping_run(AccessModel::fresh(op), s, evs);
}

/// After a successful subregister write of `value`, parsing that subregister from
/// the interface gives `value` cut down to the subregister's width.
pub proof fn law_write_subregister_then_parse(
    reg: Seq<char>,
    sub: Seq<char>,
    value: u32,
    s: InterfaceModel,
    evs: Seq<EventModel>,
)
    requires
        s.field_usable(reg, sub),
    ensures
        ({
            let (b, t) = run(AccessModel::fresh(OpModel::WriteSubregister(reg, sub, value)), s, evs);
            (b.stage is Done && b.outcome is Ok) ==> match t.field_position(reg, sub) {
                Some((i, j)) => t.parse_subregister(reg, sub) == Ok::<u32, Seq<char>>(
                    value & (t.registers[i].children[j].field_bits() >> (t.registers[i].children[j].lsb as u32)),
                ),
                None => false,
            }
        }),
{
    lemma_tracks_run(AccessModel::fresh(OpModel::WriteSubregister(reg, sub, value)), s, evs);
}

/// A successful subregister read returns what parsing that subregister from the
/// interface afterwards gives.
pub proof fn law_read_subregister_then_parse(reg: Seq<char>, sub: Seq<char>, s: InterfaceModel, evs: Seq<EventModel>)
    requires
        s.field_usable(reg, sub),
    ensures
        ({
            let (b, t) = run(AccessModel::fresh(OpModel::ReadSubregister(reg, sub)), s, evs);
            (b.stage is Done && b.outcome is Ok) ==> match t.parse_subregister(reg, sub) {
                Ok(x) => b.outcome == Ok::<Option<u32>, Seq<char>>(Some(x)),
                Err(_) => false,
            }
        }),
{
    lemma_tracks_run(AccessModel::fresh(OpModel::ReadSubregister(reg, sub)), s, evs);
}

/// A successful register read returns the register's last known value afterwards.
pub proof fn law_read_register_records_value(reg: Seq<char>, s: InterfaceModel, evs: Seq<EventModel>)
    ensures
        ({
            let (b, t) = run(AccessModel::fresh(OpModel::ReadRegister(reg)), s, evs);
            (b.stage is Done && b.outcome is Ok) ==> match t.register_position(reg) {
                Some(i) => b.outcome == Ok::<Option<u32>, Seq<char>>(Some(t.registers[i].raw)),
                None => false,
            }
        }),
{
    lemma_tracks_run(AccessModel::fresh(OpModel::ReadRegister(reg)), s, evs);
}

/// After a successful register write of `value`, the register's last known value
/// is `value`.
pub proof fn law_write_register_records_value(reg: Seq<char>, value: u32, s: InterfaceModel, evs: Seq<EventModel>)
    ensures
        ({
            let (b, t) = run(AccessModel::fresh(OpModel::WriteRegister(reg, value)), s, evs);
            (b.stage is Done && b.outcome is Ok) ==> match t.register_position(reg) {
                Some(i) => t.registers[i].raw == value,
                None => false,
            }
        }),
{
    lemma_tracks_run(AccessModel::fresh(OpModel::WriteRegister(reg, value)), s, evs);
}

/// Once the region is mapped with the base address at `offset` in the page, the
/// interface records `offset`, and the register read or write that the access asks
/// for next addresses the word at `offset` plus the offset of the register that
/// the operation names; a register write asks to write the operation's value.
pub proof fn law_mapping_offset_addresses_register(a: AccessModel, s: InterfaceModel, offset: isize)
    requires
        a.stage is Mapping,
    ensures
        ({
            let (b, t) = a.transition(s, EventModel::Mapped(Ok(offset)));
            &&& t.offset == offset
            &&& t.mapped
            &&& b.stage is Reading ==> (t.register_position(a.op.register_name()) matches Some(i)
                && b.request(t) == (ActionModel::Read { offset, reg_offset: t.registers[i].offset }))
            &&& b.stage is Writing ==> (a.op matches OpModel::WriteRegister(_, value)
                && t.register_position(a.op.register_name()) matches Some(i)
                && b.request(t) == (ActionModel::Write { offset, reg_offset: t.registers[i].offset, value }))
        }),
{
}

/// Every register read or write that an access asks for addresses the register
/// that the operation names, at the mapping offset that the interface records
/// (for an interface that was already mapped, the offset it held before); a
/// register write asks to write the operation's value.
pub proof fn law_access_targets_named_register(op: OpModel, s: InterfaceModel, evs: Seq<EventModel>)
    requires
        op.is_register_op(),
        op.is_field_op() ==> s.field_usable(op.register_name(), op.field_name()),
    ensures
        ({
            let (b, t) = run(AccessModel::fresh(op), s, evs);
            &&& s.is_mapped() ==> t.offset == s.offset
            &&& b.stage is Reading ==> (t.register_position(op.register_name()) matches Some(i)
                && b.request(t) == (ActionModel::Read { offset: t.offset, reg_offset: t.registers[i].offset }))
            &&& b.stage is Writing ==> (t.register_position(op.register_name()) matches Some(i)
                && b.request(t) matches ActionModel::Write { offset: o, reg_offset: r, value: x }
                && o == t.offset && r == t.registers[i].offset
                && (op matches OpModel::WriteRegister(_, v) ==> x == v))
        }),
{
    let a = AccessModel::fresh(op);
    lemma_tracks_run(a, s, evs);
    if s.is_mapped() {
        lemma_keeps_mapping_run(a, s, evs);
    }
}

/// A register read that has asked for its word finishes with exactly the word
/// read back, and records it as the register's last known value, whether it
/// found the region mapped (it finishes at once) or mapped it itself (it reports
/// the word once the region is unmapped).
pub proof fn law_read_register_returns_word(reg: Seq<char>, s: InterfaceModel, evs: Seq<EventModel>, v: u32)
    ensures
        ({
            let (b, t) = run(AccessModel::fresh(OpModel::ReadRegister(reg)), s, evs);
            let (c, u) = b.transition(t, EventModel::Value(v));
            let (d, w) = c.transition(u, EventModel::Unmapped);
            b.stage is Reading ==> {
                &&& c.outcome == Ok::<Option<u32>, Seq<char>>(Some(v))
                &&& c.stage is Done || c.stage is Unmapping
                &&& d.request(w) == ActionModel::Finish(Ok(Some(v)))
                &&& u.register_position(reg) matches Some(i)
                &&& u.registers[i].raw == v
                &&& w.registers[i].raw == v
            }
        }),
{
    let a = AccessModel::fresh(OpModel::ReadRegister(reg));
    lemma_tracks_run(a, s, evs);
    let (b, t) = run(a, s, evs);
    if b.stage is Reading {
        lemma_with_raw_keeps_layout(t, b.reg, v);
    }
}

/// A subregister read that has asked for its register's word finishes with the
/// subregister's bits of exactly that word, shifted down to bit 0, and records the
/// word as the register's last known value, whether it found the region mapped or
/// mapped it itself.
pub proof fn law_read_subregister_returns_field(
    reg: Seq<char>,
    sub: Seq<char>,
    s: InterfaceModel,
    evs: Seq<EventModel>,
    v: u32,
)
    requires
        s.field_usable(reg, sub),
    ensures
        ({
            let (b, t) = run(AccessModel::fresh(OpModel::ReadSubregister(reg, sub)), s, evs);
            let (c, u) = b.transition(t, EventModel::Value(v));
            let (d, w) = c.transition(u, EventModel::Unmapped);
            b.stage is Reading ==> {
                &&& u.field_position(reg, sub) matches Some((i, j))
                &&& c.outcome == Ok::<Option<u32>, Seq<char>>(Some(
                    (v & u.registers[i].children[j].field_bits()) >> (u.registers[i].children[j].lsb as u32),
                ))
                &&& c.stage is Done || c.stage is Unmapping
                &&& d.request(w) == ActionModel::Finish(c.outcome)
                &&& u.registers[i].raw == v
            }
        }),
{
    let a = AccessModel::fresh(OpModel::ReadSubregister(reg, sub));
    lemma_tracks_run(a, s, evs);
    let (b, t) = run(a, s, evs);
    if b.stage is Reading {
        lemma_with_raw_keeps_layout(t, b.reg, v);
        lemma_position_of(register_names(t.registers), reg);
        lemma_position_of(field_names(t.registers[b.reg].children), sub);
    }
}

/// A subregister write that has asked for its register's word then asks to write
/// back that very word with only the subregister's bits replaced: every bit outside
/// the subregister's mask as read, and the bits inside it from `value` shifted up
/// to the subregister's place, at the register's address in the mapped region;
/// whether it found the region mapped or mapped it itself.
pub proof fn law_write_subregister_merges_word(
    reg: Seq<char>,
    sub: Seq<char>,
    value: u32,
    s: InterfaceModel,
    evs: Seq<EventModel>,
    v: u32,
)
    requires
        s.field_usable(reg, sub),
    ensures
        ({
            let (b, t) = run(AccessModel::fresh(OpModel::WriteSubregister(reg, sub, value)), s, evs);
            let (c, u) = b.transition(t, EventModel::Value(v));
            b.stage is Reading ==> {
                &&& u.field_position(reg, sub) matches Some((i, j))
                &&& c.stage is Writing
                &&& c.request(u) matches ActionModel::Write { offset: o, reg_offset: r, value: x }
                &&& o == u.offset
                &&& r == u.registers[i].offset
                &&& x & !u.registers[i].children[j].field_bits() == v & !u.registers[i].children[j].field_bits()
                &&& x & u.registers[i].children[j].field_bits() == (value << (u.registers[i].children[j].lsb as u32))
                    & u.registers[i].children[j].field_bits()
            }
        }),
{
    let a = AccessModel::fresh(OpModel::WriteSubregister(reg, sub, value));
    lemma_tracks_run(a, s, evs);
    let (b, t) = run(a, s, evs);
    if b.stage is Reading {
        let i = b.reg;
        let j = b.sub;
        lemma_position_of(register_names(t.registers), reg);
        lemma_position_of(field_names(t.registers[i].children), sub);
        let f = t.registers[i].children[j];
        let w = f.insert(v, value);
        lemma_with_raw_keeps_layout(t, i, w);
        law_insert_keeps_other_bits(f, v, value);
        let m = f.field_bits();
        let l = f.lsb as u32;
        assert((((v & !m) | ((value << l) & m)) & m) == (value << l) & m) by (bit_vector);
    }
}

/// An access that has to map the region first asks to check the base address,
/// or, when mapping is forced, goes straight to taking the lock; an address the
/// system does not recognize ends the access with that error, the interface
/// untouched.
pub proof fn law_mapping_starts_with_check(op: OpModel, s: InterfaceModel)
    requires
        op is MapRegion || (op.is_register_op() && !s.is_mapped()),
    ensures
        ({
            let (a1, s1) = AccessModel::fresh(op).transition(s, EventModel::Start);
            let (a2, s2) = a1.transition(s1, EventModel::AddressChecked(false));
            &&& s1 == s
            &&& a1.request(s1) == if s.force_map {
                ActionModel::Lock
            } else {
                ActionModel::CheckAddress { address: s.base_address }
            }
            &&& !s.force_map ==> a2.request(s2) == ActionModel::Finish(Err(address_rejected())) && s2 == s
        }),
{
}

/// A failure to take the lock or to map the region ends the access with that
/// failure's message, the interface as it was.
pub proof fn law_lock_or_map_failure_reported(a: AccessModel, s: InterfaceModel, e: Seq<char>)
    ensures
        a.stage is Locking ==> ({
            let (b, t) = a.transition(s, EventModel::Locked(Err(e)));
            b.request(t) == ActionModel::Finish(Err(e)) && t == s
        }),
        a.stage is Mapping ==> ({
            let (b, t) = a.transition(s, EventModel::Mapped(Err(e)));
            b.request(t) == ActionModel::Finish(Err(e)) && t == s
        }),
{
}

/// Mapping an unmapped interface (forced, or at a recognized address) locks it and
/// maps it with the reported offset; unmapping it afterwards releases both, each
/// operation succeeding.
pub proof fn law_unmap_undoes_map(s: InterfaceModel, offset: isize)
    requires
        !s.mapped,
        !s.locked,
    ensures
        ({
            let (a1, s1) = AccessModel::fresh(OpModel::MapRegion).transition(s, EventModel::Start);
            let (a2, s2) = if s.force_map {
                (a1, s1)
            } else {
                a1.transition(s1, EventModel::AddressChecked(true))
            };
            let (a3, s3) = a2.transition(s2, EventModel::Locked(Ok(())));
            let (a4, s4) = a3.transition(s3, EventModel::Mapped(Ok(offset)));
            let (b1, t1) = AccessModel::fresh(OpModel::UnmapRegion).transition(s4, EventModel::Start);
            let (b2, t2) = b1.transition(t1, EventModel::Unmapped);
            &&& a2.request(s2) == ActionModel::Lock
            &&& a3.request(s3) == (ActionModel::MapRegion { base: s.base_address, size: s.size })
            &&& a4.request(s4) == ActionModel::Finish(Ok(None))
            &&& s4.is_mapped() && s4.offset == offset
            &&& b1.request(t1) == (ActionModel::UnmapRegion { region: true, lock: true })
            &&& b2.request(t2) == ActionModel::Finish(Ok(None))
            &&& !t2.mapped && !t2.locked
            &&& t2.registers == s.registers
        }),
{
}

impl Op {
    fn is_map_region(&self) -> (b: bool)
        ensures
            b == (self@ is MapRegion),
    {
        match self {
            Op::MapRegion => true,
            _ => false,
        }
    }

    fn is_read_subregister(&self) -> (b: bool)
        ensures
            b == (self@ is ReadSubregister),
    {
        match self {
            Op::ReadSubregister(_, _) => true,
            _ => false,
        }
    }
}

} // verus!
