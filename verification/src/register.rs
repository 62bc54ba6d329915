use vstd::prelude::*;

verus! {

/// A subregister (bitfield) within a 32-bit register: bits `lsb..=msb`.
#[derive(Clone)]
pub struct SubRegister {
    /// Name of the subregister (bitfield)
    pub name: String,
    /// Most significant bit of the subregister
    pub msb: u8,
    /// Least significant bit of the subregister
    pub lsb: u8,
}

/// The mask of the bit range `lsb..=msb` of a 32-bit word, as an integer:
/// `2^(msb+1) - 2^lsb` for a well-ordered range within the word, 0 otherwise.
pub open spec fn range_mask(msb: u8, lsb: u8) -> int {
    if msb < lsb || msb > 31 {
        0
    } else {
        (1u64 << (msb + 1) as u64) - (1u64 << lsb as u64)
    }
}

/// A 32-bit memory-mapped register with optional subregisters (bitfields).
pub struct Register {
    /// Name of the register
    pub name: String,
    /// Offset from the base address (in bytes)
    pub offset: u32,
    /// Last read or written value of the register
    pub raw: u32,
    /// List of subregisters (bitfields) in this register
    pub children: Vec<SubRegister>,
}

/// The abstract value of a register: its name, offset, last known value and fields.
pub struct RegisterModel {
    pub name: Seq<char>,
    pub offset: u32,
    pub raw: u32,
    pub children: Seq<SubRegister>,
}

impl View for Register {
    type V = RegisterModel;

    open spec fn view(&self) -> RegisterModel {
        RegisterModel { name: self.name@, offset: self.offset, raw: self.raw, children: self.children@ }
    }
}

/// The error reported when an access needs the mapped region and none is mapped.
pub open spec fn no_mapping_message() -> Seq<char> {
    "Mapped pointer not available"@
}

pub(crate) fn no_mapping_error() -> (e: String)
    ensures
        e@ == no_mapping_message(),
{
    "Mapped pointer not available".to_string()
}

/// `res` is the error reported when nothing is mapped.
pub open spec fn is_no_mapping_error<T>(res: Result<T, String>) -> bool {
    match res {
        Ok(_) => false,
        Err(e) => e@ == no_mapping_message(),
    }
}

/// The position of the first entry of `names` equal to `name`, if any.
pub open spec fn position_of(names: Seq<Seq<char>>, name: Seq<char>) -> Option<int>
    decreases names.len(),
{
    if names.len() == 0 {
        None
    } else {
        match position_of(names.drop_last(), name) {
            Some(i) => Some(i),
            None => if names.last() == name {
                Some(names.len() - 1)
            } else {
                None
            },
        }
    }
}

/// `position_of` gives the first matching position, or `None` when nothing matches.
pub proof fn lemma_position_of(names: Seq<Seq<char>>, name: Seq<char>)
    ensures
        match position_of(names, name) {
            Some(i) => 0 <= i < names.len() && names[i] == name && forall|j: int|
                0 <= j < i ==> names[j] != name,
            None => forall|j: int| 0 <= j < names.len() ==> names[j] != name,
        },
    decreases names.len(),
{
    if names.len() > 0 {
        lemma_position_of(names.drop_last(), name);
        assert forall|j: int| 0 <= j < names.len() - 1 implies names.drop_last()[j] == names[j] by {}
    }
}

/// `i` is the position of the first entry of `names` equal to `name`.
pub proof fn lemma_position_of_first(names: Seq<Seq<char>>, name: Seq<char>, i: int)
    requires
        0 <= i < names.len(),
        names[i] == name,
        forall|j: int| 0 <= j < i ==> names[j] != name,
    ensures
        position_of(names, name) == Some(i),
{
    lemma_position_of(names, name);
    match position_of(names, name) {
        Some(c) => {
            if c < i {
                assert(names[c] != name);
            }
            if i < c {
                assert(names[i] != name);
            }
        },
        None => {
            assert(names[i] != name);
        },
    }
}

/// No entry of `names` equals `name`.
pub proof fn lemma_position_of_none(names: Seq<Seq<char>>, name: Seq<char>)
    requires
        forall|j: int| 0 <= j < names.len() ==> names[j] != name,
    ensures
        position_of(names, name) == None::<int>,
{
    lemma_position_of(names, name);
    if let Some(c) = position_of(names, name) {
        assert(names[c] == name);
    }
}

/// The names of a list of subregisters, in order.
pub open spec fn field_names(children: Seq<SubRegister>) -> Seq<Seq<char>> {
    children.map_values(|s: SubRegister| s.name@)
}

impl Register {
    /// Creates a new 32-bit register whose last known value is 0.
    pub fn new(name: &str, offset: u32, children: Vec<SubRegister>) -> (r: Self)
        ensures
            r.name@ == name@,
            r.offset == offset,
            r.raw == 0,
            r.children@ == children@,
    {
        Register { name: name.to_string(), offset, raw: 0, children }
    }

    /// Records `value`, just read from the register in mapped memory, as its last
    /// known value, and returns it.
    pub fn read(&mut self, value: u32) -> (res: Result<u32, String>)
        ensures
            res == Ok::<u32, String>(value),
            final(self).raw == value,
            final(self).name == old(self).name,
            final(self).offset == old(self).offset,
            final(self).children == old(self).children,
    {
        self.raw = value;
        Ok(value)
    }

    /// Records `value`, just written to the register in mapped memory, as its last
    /// known value.
    pub fn write(&mut self, value: u32) -> (res: Result<(), String>)
        ensures
            res == Ok::<(), String>(()),
            final(self).raw == value,
            final(self).name == old(self).name,
            final(self).offset == old(self).offset,
            final(self).children == old(self).children,
    {
        self.raw = value;
        Ok(())
    }

    /// The position of the first subregister named `name`.
    pub fn find_subregister(&self, name: &str) -> (res: Option<usize>)
        ensures
            res matches Some(i) ==> i < self.children@.len() && position_of(field_names(self.children@), name@) == Some(i as int),
            res is None ==> position_of(field_names(self.children@), name@) is None,
    {
        let key = name.to_string();
        let n = self.children.len();
        let ghost names = field_names(self.children@);
        for i in 0..n
            invariant
                n == self.children@.len(),
                names == field_names(self.children@),
                key@ == name@,
                forall|j: int| 0 <= j < i ==> names[j] != name@,
        {
            if self.children[i].name == key {
                proof {
                    lemma_position_of_first(names, name@, i as int);
                }
                return Some(i);
            }
        }
        proof {
            lemma_position_of_none(names, name@);
        }
        None
    }

    /// The first subregister named `name`, if any.
    pub fn get_subregister(&self, name: &str) -> (res: Option<&SubRegister>)
        ensures
            res matches Some(s) ==> exists|i: int|
                position_of(field_names(self.children@), name@) == Some(i) && *s == self.children@[i],
            res is None ==> position_of(field_names(self.children@), name@) is None,
    {
        match self.find_subregister(name) {
            Some(i) => Some(&self.children[i]),
            None => None,
        }
    }

    /// Reads the subregister `sub` from this register's last known value.
    /// With `refresh`, the last known value is first replaced by `fetched`, the
    /// word read from the register in mapped memory (`None`: nothing is mapped,
    /// which is an error).
    pub fn read_subregister(&mut self, sub: &SubRegister, refresh: bool, fetched: Option<u32>) -> (res: Result<u32, String>)
        requires
            (refresh && fetched is None) || sub.accessible(),
        ensures
            final(self).name == old(self).name,
            final(self).offset == old(self).offset,
            final(self).children == old(self).children,
            !refresh ==> final(self).raw == old(self).raw && res == Ok::<u32, String>(sub.extract(old(self).raw)),
            refresh ==> match fetched {
                Some(v) => final(self).raw == v && res == Ok::<u32, String>(sub.extract(v)),
                None => final(self).raw == old(self).raw && is_no_mapping_error(res),
            },
    {
        if refresh {
            match fetched {
                Some(v) => {
                    let _ = self.read(v);
                },
                None => {
                    return Err(no_mapping_error());
                },
            }
        }
        let mask = sub.mask();
        Ok((self.raw & mask) >> (sub.lsb as u32))
    }

    /// Writes `value` into the subregister `sub` of this register's last known
    /// value and returns the resulting word, to be written back to the register in
    /// mapped memory. With `refresh`, the last known value is first replaced by
    /// `fetched`, the word read from the register. Without a mapping (`fetched`
    /// is `None`) nothing is written, the call fails and the last known value
    /// stays as it was.
    pub fn write_subregister(
        &mut self,
        sub: &SubRegister,
        value: u32,
        refresh: bool,
        fetched: Option<u32>,
    ) -> (res: Result<u32, String>)
        requires
            fetched is None || sub.accessible(),
        ensures
            final(self).name == old(self).name,
            final(self).offset == old(self).offset,
            final(self).children == old(self).children,
            match fetched {
                Some(v) => {
                    let base = if refresh { v } else { old(self).raw };
                    final(self).raw == sub.insert(base, value) && res == Ok::<u32, String>(sub.insert(base, value))
                },
                None => final(self).raw == old(self).raw && is_no_mapping_error(res),
            },
    {
        match fetched {
            Some(v) => {
                if refresh {
                    let _ = self.read(v);
                }
                let mask = sub.mask();
                let word = (self.raw & !mask) | ((value << (sub.lsb as u32)) & mask);
                let _ = self.write(word);
                Ok(word)
            },
            None => Err(no_mapping_error()),
        }
    }
}

impl SubRegister {
    /// The subregister's mask as a 32-bit word.
    pub open spec fn field_bits(self) -> u32 {
        range_mask(self.msb, self.lsb) as u32
    }

    /// The field's shift by `lsb` stays within the 32-bit word.
    pub open spec fn accessible(self) -> bool {
        self.lsb < 32
    }

    /// The value of this field in the word `raw`, shifted down to bit 0.
    pub open spec fn extract(self, raw: u32) -> u32 {
        (raw & self.field_bits()) >> (self.lsb as u32)
    }

    /// The word `raw` with this field replaced by the low bits of `value`.
    pub open spec fn insert(self, raw: u32, value: u32) -> u32 {
        (raw & !self.field_bits()) | ((value << (self.lsb as u32)) & self.field_bits())
    }

    /// True if the field can be read and written without a shift overflow.
    pub fn is_accessible(&self) -> (b: bool)
        ensures
            b == self.accessible(),
    {
        self.lsb < 32
    }

    /// Creates a new subregister (bitfield) over bits `lsb..=msb`.
    pub fn new(name: &str, msb: u8, lsb: u8) -> (s: Self)
        ensures
            s.name@ == name@,
            s.msb == msb,
            s.lsb == lsb,
    {
        SubRegister { name: name.to_string(), msb, lsb }
    }

    /// The mask with the bits `lsb..=msb` set, or 0 when `msb < lsb` or `msb > 31`.
    pub fn mask(&self) -> (m: u32)
        ensures
            m == range_mask(self.msb, self.lsb),
    {
        if self.msb < self.lsb || self.msb > 31 {
            0
        } else {
            let msb: u64 = self.msb as u64;
            let lsb: u64 = self.lsb as u64;
            let above: u64 = 1u64 << (msb + 1);
            let below: u64 = 1u64 << lsb;
            assert(below <= above && above - below <= 0xffff_ffffu64) by (bit_vector)
                requires
                    above == 1u64 << (msb + 1),
                    below == 1u64 << lsb,
                    lsb <= msb <= 31;
            (above - below) as u32
        }
    }
}

/// The mask of a well-ordered range within the word is `2^(msb+1) - 2^lsb`, which
/// fits in 32 bits and has no bit below `lsb`; any other range has mask 0.
proof fn lemma_field_bits_shape(sub: SubRegister)
    ensures
        sub.field_bits() as int == range_mask(sub.msb, sub.lsb),
        sub.lsb <= sub.msb <= 31 ==> sub.field_bits() as u64 == (1u64 << (sub.msb + 1) as u64) - (1u64 << sub.lsb as u64),
        !(sub.lsb <= sub.msb <= 31) ==> sub.field_bits() == 0,
        sub.lsb < 32 ==> (sub.field_bits() >> (sub.lsb as u32)) << (sub.lsb as u32) == sub.field_bits(),
{
    let msb = sub.msb as u64;
    let lsb = sub.lsb as u64;
    if sub.lsb <= sub.msb <= 31 {
        assert((1u64 << (msb + 1)) - (1u64 << lsb) <= 0xffff_ffffu64) by (bit_vector)
            requires
                lsb <= msb <= 31;
        assert((1u64 << (msb + 1)) >= (1u64 << lsb)) by (bit_vector)
            requires
                lsb <= msb <= 31;
        let m = sub.field_bits();
        let l = sub.lsb as u32;
        assert((m >> l) << l == m) by (bit_vector)
            requires
                m as u64 == (1u64 << (msb + 1)) - (1u64 << lsb),
                lsb <= msb <= 31,
                l as u64 == lsb;
    } else {
        let l = sub.lsb as u32;
        assert(sub.field_bits() == 0);
        assert((0u32 >> l) << l == 0u32) by (bit_vector);
    }
}

/// Bit `i` of a subregister's mask is set exactly when `lsb <= i <= msb` and the
/// range lies within the 32-bit word.
pub proof fn law_mask_bits(sub: SubRegister, i: u32)
    requires
        i < 32,
    ensures
        ((sub.field_bits() >> i) & 1 == 1) <==> (sub.lsb <= i && i <= sub.msb && sub.msb <= 31),
{
    lemma_field_bits_shape(sub);
    let m = sub.field_bits();
    let msb = sub.msb as u64;
    let lsb = sub.lsb as u64;
    if sub.lsb <= sub.msb <= 31 {
        assert(((m >> i) & 1 == 1) <==> (lsb <= i && i <= msb)) by (bit_vector)
            requires
                m as u64 == (1u64 << (msb + 1)) - (1u64 << lsb),
                lsb <= msb <= 31,
                i < 32;
    } else {
        assert((0u32 >> i) & 1 == 0) by (bit_vector);
    }
}

/// Reading a field back after writing `value` into it gives `value` cut down to
/// the field's width.
pub proof fn law_extract_after_insert(sub: SubRegister, raw: u32, value: u32)
    requires
        sub.lsb < 32,
    ensures
        sub.extract(sub.insert(raw, value)) == value & (sub.field_bits() >> (sub.lsb as u32)),
{
    let m = sub.field_bits();
    let l = sub.lsb as u32;
    assert(((((raw & !m) | ((value << l) & m)) & m) >> l) == value & (m >> l)) by (bit_vector)
        requires
            l < 32;
}

/// Writing a field leaves every bit outside the field's mask unchanged.
pub proof fn law_insert_keeps_other_bits(sub: SubRegister, raw: u32, value: u32)
    ensures
        sub.insert(raw, value) & !sub.field_bits() == raw & !sub.field_bits(),
{
    let m = sub.field_bits();
    let l = sub.lsb as u32;
    assert((((raw & !m) | ((value << l) & m)) & !m) == raw & !m) by (bit_vector);
}

/// Writing back the value just read from a field leaves the word unchanged.
pub proof fn law_insert_extracted_is_identity(sub: SubRegister, raw: u32)
    requires
        sub.lsb < 32,
    ensures
        sub.insert(raw, sub.extract(raw)) == raw,
{
    lemma_field_bits_shape(sub);
    let m = sub.field_bits();
    let l = sub.lsb as u32;
    assert(((raw & !m) | ((((raw & m) >> l) << l) & m)) == raw) by (bit_vector)
        requires
            l < 32,
            (m >> l) << l == m;
}

/// A second write to the same field overrides the first.
pub proof fn law_insert_overrides(sub: SubRegister, raw: u32, a: u32, b: u32)
    ensures
        sub.insert(sub.insert(raw, a), b) == sub.insert(raw, b),
{
    let m = sub.field_bits();
    let l = sub.lsb as u32;
    assert(((((raw & !m) | ((a << l) & m)) & !m) | ((b << l) & m)) == ((raw & !m) | ((b << l) & m))) by (bit_vector);
}

/// A field's value never exceeds the field's all-ones value.
pub proof fn law_extract_bounded(sub: SubRegister, raw: u32)
    requires
        sub.lsb < 32,
    ensures
        sub.extract(raw) & !(sub.field_bits() >> (sub.lsb as u32)) == 0,
        sub.extract(raw) <= sub.field_bits() >> (sub.lsb as u32),
{
    let m = sub.field_bits();
    let l = sub.lsb as u32;
    assert(((raw & m) >> l) & !(m >> l) == 0) by (bit_vector)
        requires
            l < 32;
    assert(((raw & m) >> l) <= (m >> l)) by (bit_vector)
        requires
            l < 32;
}

} // verus!
