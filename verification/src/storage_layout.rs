//! Storage layout of contract state: where each state variable and struct member is placed, and
//! how many bytes each storage type occupies.

use vstd::prelude::*;

use crate::word::{
    decimal, word_add, word_div, word_modulus, word_mul, word_rem, word_to_decimal, word_value,
    wrapping_add, wrapping_mul, Word,
};

verus! {

/// An elementary Solidity type, with the size in bytes of the sized ones.
#[derive(Clone, Copy, Debug, PartialEq, Eq, Hash, Structural)]
pub enum ElementaryType {
    /// `address` or `address payable`.
    Address,
    /// `bool`
    Bool,
    /// `string`
    String,
    /// `bytes`
    Bytes,
    /// `fixedMxN`, by its size in bytes.
    Fixed(u8),
    /// `ufixedMxN`, by its size in bytes.
    UFixed(u8),
    /// `intN`, by its size in bytes.
    Int(u8),
    /// `uintN`, by its size in bytes.
    UInt(u8),
    /// `bytesN`, by its size in bytes.
    FixedBytes(u8),
}

/// A type that can be held in storage.
#[derive(Debug)]
pub enum StorageType {
    /// A reference to a value of the inner type in some data location.
    Ref(Box<StorageType>),
    /// An elementary type.
    Elementary(ElementaryType),
    /// A fixed-size array of the given length.
    Array(Box<StorageType>, Word),
    /// A dynamically-sized array.
    DynArray(Box<StorageType>),
    /// A mapping from keys to values.
    Mapping(Box<StorageType>, Box<StorageType>),
    /// A struct with the given members.
    Struct(Vec<StorageField>),
    /// A contract.
    Contract,
    /// An enum.
    Enum,
    /// A user-defined value type over the inner type.
    Udvt(Box<StorageType>),
    /// A function type.
    Function {
        /// Whether the function is external.
        external: bool,
    },
}

/// A state variable or struct member placed in storage.
#[derive(Debug)]
pub struct StorageField {
    /// The global AST identifier of the declaration.
    pub ast_id: u64,
    /// The declared name.
    pub label: String,
    /// The identifier of the declared type in the layout's type table.
    pub type_key: String,
    /// The declared type.
    pub ty: StorageType,
}

/// A state variable of a contract, with the properties that decide whether it has storage.
#[derive(Debug)]
pub struct StorageVariable {
    /// The variable as a placed field.
    pub field: StorageField,
    /// Whether the variable is constant.
    pub is_constant: bool,
    /// Whether the variable is immutable.
    pub is_immutable: bool,
    /// Whether the variable is in transient storage.
    pub is_transient: bool,
}

/// One entry of a storage layout.
#[derive(Debug)]
pub struct StorageLayoutEntry {
    /// The global AST identifier of the declaration.
    pub ast_id: u64,
    /// The fully qualified name of the contract.
    pub contract: String,
    /// The declared name.
    pub label: String,
    /// The byte offset within the slot.
    pub offset: u64,
    /// The slot, in decimal.
    pub slot: String,
    /// The identifier of the declared type in the layout's type table.
    pub type_key: String,
}

/// How a storage type is encoded.
#[derive(Clone, Copy, Debug, PartialEq, Eq, Structural)]
pub enum StorageEncoding {
    /// The value is stored in place.
    Inplace,
    /// A mapping.
    Mapping,
    /// A dynamically-sized array.
    DynamicArray,
    /// A byte array or string.
    Bytes,
}

impl Default for StorageEncoding {
    fn default() -> (encoding: Self)
        ensures
            encoding == StorageEncoding::Inplace,
    {
        StorageEncoding::Inplace
    }
}

/// One entry of the type table of a storage layout.
#[derive(Debug)]
pub struct StorageLayoutType {
    /// How the type is encoded.
    pub encoding: StorageEncoding,
    /// The type as written in source.
    pub label: String,
    /// The number of bytes the type occupies, in decimal.
    pub number_of_bytes: String,
    /// The element type of an array.
    pub base: Option<String>,
    /// The key type of a mapping.
    pub key: Option<String>,
    /// The value type of a mapping.
    pub value: Option<String>,
    /// The members of a struct.
    pub members: Vec<StorageLayoutEntry>,
}

/// The number of bytes a value of an elementary type occupies.
pub open spec fn elementary_bytes(ty: ElementaryType) -> nat {
    match ty {
        ElementaryType::Address => 20,
        ElementaryType::Bool => 1,
        ElementaryType::String => 32,
        ElementaryType::Bytes => 32,
        ElementaryType::Fixed(size) => size as nat,
        ElementaryType::UFixed(size) => size as nat,
        ElementaryType::Int(size) => size as nat,
        ElementaryType::UInt(size) => size as nat,
        ElementaryType::FixedBytes(size) => size as nat,
    }
}

/// Whether values of a type can share a slot with other values: value types, but not byte
/// arrays, strings, arrays, mappings or structs.
pub open spec fn packable(ty: StorageType) -> bool
    decreases ty,
{
    match ty {
        StorageType::Ref(inner) => packable(*inner),
        StorageType::Elementary(elementary) => !(elementary is String || elementary is Bytes),
        StorageType::Contract => true,
        StorageType::Enum => true,
        StorageType::Udvt(_) => true,
        StorageType::Function { .. } => true,
        _ => false,
    }
}

/// The number of slots needed for `bytes` bytes.
pub open spec fn spec_slots_for(bytes: nat) -> nat {
    bytes / 32 + if bytes % 32 != 0 { 1nat } else { 0nat }
}

/// The cursor moved to the start of the next slot unless it is at the start of one.
pub open spec fn align(cursor: (nat, nat)) -> (nat, nat) {
    if cursor.1 != 0 {
        (wrapping_add(cursor.0, 1), 0)
    } else {
        cursor
    }
}

/// Where a value of `bytes` bytes is placed at `cursor`, and the cursor after it.
///
/// A value that cannot be packed starts at a new slot and the cursor moves past all of its slots.
/// A packable value is placed at the cursor unless it would cross the end of the slot, in which
/// case it starts at a new slot; a slot that becomes full moves the cursor to the next one.
pub open spec fn place(cursor: (nat, nat), bytes: nat, packs: bool) -> ((nat, nat), (nat, nat)) {
    if !packs {
        let aligned = align(cursor);
        ((wrapping_add(aligned.0, spec_slots_for(bytes)), 0), (aligned.0, 0))
    } else {
        let start = if cursor.1 + bytes > 32 { align(cursor) } else { cursor };
        let end = start.1 + bytes;
        if end == 32 {
            ((wrapping_add(start.0, 1), 0), start)
        } else {
            ((start.0, end), start)
        }
    }
}

/// The number of bytes up to the end of the slot the cursor is in, or up to the cursor's slot when
/// the cursor is at the start of one.
pub open spec fn layout_size(cursor: (nat, nat)) -> nat {
    wrapping_mul(wrapping_add(cursor.0, if cursor.1 != 0 { 1nat } else { 0nat }), 32)
}

/// The number of bytes a value of `ty` occupies in storage.
pub open spec fn spec_storage_bytes(ty: StorageType) -> nat
    decreases ty, 0nat,
{
    match ty {
        StorageType::Ref(inner) => spec_storage_bytes(*inner),
        StorageType::Elementary(elementary) => elementary_bytes(elementary),
        StorageType::Array(base, length) => {
            let base_bytes = spec_storage_bytes(*base);
            let length = word_value(length);
            let slots = if packable(*base) {
                let per_slot: nat = 32nat / base_bytes;
                wrapping_add(length / per_slot, if length % per_slot != 0 { 1nat } else { 0nat })
            } else {
                wrapping_mul(spec_slots_for(base_bytes), length)
            };
            wrapping_mul(if slots >= 1 { slots } else { 1nat }, 32)
        },
        StorageType::DynArray(_) => 32,
        StorageType::Mapping(_, _) => 32,
        StorageType::Struct(fields) => layout_size(placements(fields@, fields@.len(), (0nat, 0nat)).0),
        StorageType::Contract => 20,
        StorageType::Enum => 1,
        StorageType::Udvt(inner) => spec_storage_bytes(*inner),
        StorageType::Function { external } => if external {
            24
        } else {
            8
        },
    }
}

/// The cursor after placing the first `count` of `fields` one after the other from `start`, and
/// where each of them was placed.
pub open spec fn placements(fields: Seq<StorageField>, count: nat, start: (nat, nat)) -> ((nat, nat), Seq<(nat, nat)>)
    decreases fields, count,
{
    if count == 0 || count > fields.len() {
        (start, Seq::empty())
    } else {
        let (cursor, placed) = placements(fields, (count - 1) as nat, start);
        let ty = fields[count - 1].ty;
        let (next, position) = place(cursor, spec_storage_bytes(ty), packable(ty));
        (next, placed.push(position))
    }
}

/// Whether a storage type is well formed: elementary types have a size from 1 to 32 bytes, and
/// user-defined value types are defined over a value type.
pub open spec fn valid_type(ty: StorageType) -> bool
    decreases ty, 0nat,
{
    match ty {
        StorageType::Ref(inner) => valid_type(*inner),
        StorageType::Elementary(elementary) => 1 <= elementary_bytes(elementary) <= 32,
        StorageType::Array(base, _) => valid_type(*base),
        StorageType::DynArray(base) => valid_type(*base),
        StorageType::Mapping(key, value) => valid_type(*key) && valid_type(*value),
        StorageType::Struct(fields) => valid_fields(fields@, fields@.len()),
        StorageType::Udvt(inner) => match *inner {
            StorageType::Elementary(elementary) => 1 <= elementary_bytes(elementary) <= 32 && !(
            elementary is String || elementary is Bytes),
            _ => false,
        },
        _ => true,
    }
}

/// Whether the types of the first `count` of `fields` are well formed.
pub open spec fn valid_fields(fields: Seq<StorageField>, count: nat) -> bool
    decreases fields, count,
{
    if count == 0 || count > fields.len() {
        true
    } else {
        valid_fields(fields, (count - 1) as nat) && valid_type(fields[count - 1].ty)
    }
}

/// A packable value occupies from 1 to 32 bytes.
pub proof fn lemma_packable_bytes(ty: StorageType)
    requires
        valid_type(ty),
        packable(ty),
    ensures
        1 <= spec_storage_bytes(ty) <= 32,
    decreases ty,
{
    match ty {
        StorageType::Ref(inner) => lemma_packable_bytes(*inner),
        StorageType::Udvt(inner) => match *inner {
            StorageType::Elementary(elementary) => {
                assert(spec_storage_bytes(*inner) == elementary_bytes(elementary));
            },
            _ => {},
        },
        _ => {},
    }
}

proof fn lemma_valid_fields(fields: Seq<StorageField>, count: nat, i: int)
    requires
        valid_fields(fields, count),
        count <= fields.len(),
        0 <= i < count,
    ensures
        valid_type(fields[i].ty),
    decreases count,
{
    if i < count - 1 {
        lemma_valid_fields(fields, (count - 1) as nat, i);
    }
}

/// The cursor of a layout: the current slot and the byte offset within it, below 32.
#[derive(Clone, Copy, Debug)]
pub struct StorageCursor {
    slot: Word,
    offset: u64,
}

impl View for StorageCursor {
    type V = (nat, nat);

    closed spec fn view(&self) -> (nat, nat) {
        (word_value(self.slot), self.offset as nat)
    }
}

impl StorageCursor {
    #[verifier::type_invariant]
    closed spec fn within_slot(self) -> bool {
        self.offset < 32
    }

    /// The offset of a cursor is within its slot.
    pub fn offset(&self) -> (offset: u64)
        ensures
            offset == self@.1,
            offset < 32,
    {
        proof {
            use_type_invariant(self);
        }
        self.offset
    }

    /// The slot of a cursor.
    pub fn slot(&self) -> (slot: Word)
        ensures
            word_value(slot) == self@.0,
    {
        self.slot
    }

    /// A cursor at the start of `slot`.
    pub fn new(slot: Word) -> (cursor: Self)
        ensures
            cursor@ == (word_value(slot), 0nat),
    {
        StorageCursor { slot, offset: 0 }
    }

    /// Moves to the start of the next slot unless at the start of one.
    pub fn align(&mut self)
        ensures
            final(self)@ == align(old(self)@),
    {
        proof {
            use_type_invariant(&*self);
        }
        if self.offset != 0 {
            self.slot = word_add(self.slot, Word::from_u64(1));
            self.offset = 0;
        }
    }

    /// Moves to the start of the slot `slots` slots further on.
    pub fn advance(&mut self, slots: Word)
        ensures
            final(self)@ == (wrapping_add(old(self)@.0, word_value(slots)), 0nat),
    {
        proof {
            use_type_invariant(&*self);
        }
        self.slot = word_add(self.slot, slots);
        self.offset = 0;
    }

    /// The number of bytes up to the end of the cursor's slot, or up to the cursor when it is at
    /// the start of a slot.
    pub fn size(self) -> (size: Word)
        ensures
            word_value(size) == layout_size(self@),
    {
        let partial = Word::from_u64(if self.offset != 0 { 1 } else { 0 });
        word_mul(word_add(self.slot, partial), Word::from_u64(32))
    }
}

/// The number of slots needed for `bytes` bytes.
pub fn slots_for(bytes: Word) -> (slots: Word)
    ensures
        word_value(slots) == spec_slots_for(word_value(bytes)),
{
    let thirty_two = Word::from_u64(32);
    let whole = word_div(bytes, thirty_two);
    let partial = Word::from_u64(if word_rem(bytes, thirty_two).is_zero() { 0 } else { 1 });
    let slots = word_add(whole, partial);
    proof {
        let b = word_value(bytes);
        assert(b / 32 + 1 < word_modulus()) by {
            crate::word::lemma_word_value_bounds(bytes);
        }
    }
    slots
}

/// Returns whether values of `ty` can share a slot with other values.
pub fn is_packable(ty: &StorageType) -> (packs: bool)
    ensures
        packs == packable(*ty),
    decreases ty,
{
    match ty {
        StorageType::Ref(inner) => is_packable(inner),
        StorageType::Elementary(elementary) => match elementary {
            ElementaryType::String | ElementaryType::Bytes => false,
            _ => true,
        },
        StorageType::Contract | StorageType::Enum | StorageType::Udvt(_) | StorageType::Function { .. } => true,
        _ => false,
    }
}

/// Two field lists that agree on their first `count` fields place them alike.
proof fn lemma_placements_prefix(fields: Seq<StorageField>, other: Seq<StorageField>, count: nat, start: (nat, nat))
    requires
        count <= fields.len(),
        count <= other.len(),
        fields.subrange(0, count as int) == other.subrange(0, count as int),
    ensures
        placements(fields, count, start) == placements(other, count, start),
    decreases count,
{
    if count > 0 {
        assert(fields.subrange(0, count - 1) =~= fields.subrange(0, count as int).subrange(0, count - 1));
        assert(other.subrange(0, count - 1) =~= other.subrange(0, count as int).subrange(0, count - 1));
        lemma_placements_prefix(fields, other, (count - 1) as nat, start);
        assert(fields[count - 1] == fields.subrange(0, count as int)[count - 1]);
        assert(other[count - 1] == other.subrange(0, count as int)[count - 1]);
    }
}

/// Placing `count` fields places each of them once.
proof fn lemma_placements_len(fields: Seq<StorageField>, count: nat, start: (nat, nat))
    requires
        count <= fields.len(),
    ensures
        placements(fields, count, start).1.len() == count,
    decreases count,
{
    if count > 0 {
        lemma_placements_len(fields, (count - 1) as nat, start);
    }
}

/// Placing one more field places it at the cursor left by the earlier ones.
proof fn lemma_placements_push(fields: Seq<StorageField>, field: StorageField, start: (nat, nat))
    ensures
        placements(fields.push(field), fields.len() + 1, start) == ({
            let (cursor, placed) = placements(fields, fields.len(), start);
            let (next, position) = place(cursor, spec_storage_bytes(field.ty), packable(field.ty));
            (next, placed.push(position))
        }),
{
    let pushed = fields.push(field);
    assert(pushed.subrange(0, fields.len() as int) =~= fields.subrange(0, fields.len() as int));
    lemma_placements_prefix(pushed, fields, fields.len(), start);
}

/// The number of bytes a value of `ty` occupies in storage.
pub fn storage_bytes(ty: &StorageType) -> (bytes: Word)
    requires
        valid_type(*ty),
    ensures
        word_value(bytes) == spec_storage_bytes(*ty),
    decreases ty, 1nat,
{
    match ty {
        StorageType::Ref(inner) => storage_bytes(inner),
        StorageType::Elementary(elementary) => Word::from_u64(
            match elementary {
                ElementaryType::Address => 20,
                ElementaryType::Bool => 1,
                ElementaryType::String | ElementaryType::Bytes => 32,
                ElementaryType::Fixed(size) | ElementaryType::UFixed(size) | ElementaryType::Int(size)
                | ElementaryType::UInt(size) | ElementaryType::FixedBytes(size) => *size as u64,
            },
        ),
        StorageType::Array(base, length) => {
            let base_bytes = storage_bytes(base);
            let slots = if is_packable(base) {
                proof {
                    lemma_packable_bytes(**base);
                    let b = word_value(base_bytes);
                    assert(32nat / b >= 1) by (nonlinear_arith)
                        requires
                            1 <= b <= 32,
                    ;
                }
                let per_slot = word_div(Word::from_u64(32), base_bytes);
                let whole = word_div(*length, per_slot);
                let partial = Word::from_u64(if word_rem(*length, per_slot).is_zero() { 0 } else { 1 });
                word_add(whole, partial)
            } else {
                word_mul(slots_for(base_bytes), *length)
            };
            word_mul(slots.max(Word::from_u64(1)), Word::from_u64(32))
        },
        StorageType::DynArray(_) | StorageType::Mapping(..) => Word::from_u64(32),
        StorageType::Struct(fields) => {
            let mut cursor = StorageCursor::new(Word::zero());
            let _ = place_fields(fields.as_slice(), &mut cursor);
            cursor.size()
        },
        StorageType::Contract => Word::from_u64(20),
        StorageType::Enum => Word::from_u64(1),
        StorageType::Udvt(inner) => storage_bytes(inner),
        StorageType::Function { external } => Word::from_u64(if *external { 24 } else { 8 }),
    }
}

/// Places a value of `ty` at `cursor` and returns its slot and byte offset.
///
/// A packed value never crosses the end of its slot.
pub fn place_type(ty: &StorageType, cursor: &mut StorageCursor) -> (position: (Word, u64))
    requires
        valid_type(*ty),
    ensures
        (final(cursor)@, (word_value(position.0), position.1 as nat)) == place(
            old(cursor)@,
            spec_storage_bytes(*ty),
            packable(*ty),
        ),
        packable(*ty) ==> position.1 + spec_storage_bytes(*ty) <= 32,
    decreases ty, 2nat,
{
    let bytes = storage_bytes(ty);
    if !is_packable(ty) {
        cursor.align();
        let slot = cursor.slot();
        cursor.advance(slots_for(bytes));
        return (slot, 0);
    }
    proof {
        lemma_packable_bytes(*ty);
    }
    let bytes = bytes.to_u64();
    if cursor.offset() + bytes > 32 {
        cursor.align();
    }
    let slot = cursor.slot();
    let offset = cursor.offset();
    let end = offset + bytes;
    if end == 32 {
        cursor.advance(Word::from_u64(1));
    } else {
        proof {
            use_type_invariant(&*cursor);
        }
        cursor.offset = end;
    }
    (slot, offset)
}

/// Places `fields` one after the other from `cursor` and returns where each was placed.
fn place_fields(fields: &[StorageField], cursor: &mut StorageCursor) -> (positions: Vec<(Word, u64)>)
    requires
        valid_fields(fields@, fields@.len()),
    ensures
        final(cursor)@ == placements(fields@, fields@.len(), old(cursor)@).0,
        positions@.len() == fields@.len(),
        forall|i: int|
            0 <= i < fields@.len() ==> (word_value((#[trigger] positions@[i]).0), positions@[i].1 as nat) == placements(
                fields@,
                fields@.len(),
                old(cursor)@,
            ).1[i],
    decreases fields@, 3nat,
{
    let ghost start = cursor@;
    let mut positions: Vec<(Word, u64)> = Vec::new();
    let mut i: usize = 0;
    while i < fields.len()
        invariant
            0 <= i <= fields@.len(),
            valid_fields(fields@, fields@.len()),
            cursor@ == placements(fields@, i as nat, start).0,
            positions@.len() == i,
            placements(fields@, i as nat, start).1.len() == i,
            forall|k: int|
                0 <= k < i ==> (word_value((#[trigger] positions@[k]).0), positions@[k].1 as nat) == placements(
                    fields@,
                    i as nat,
                    start,
                ).1[k],
        decreases fields@.len() - i,
    {
        proof {
            lemma_valid_fields(fields@, fields@.len(), i as int);
            assert(decreases_to!(fields@ => fields@[i as int].ty));
        }
        let position = place_type(&fields[i].ty, cursor);
        positions.push(position);
        i += 1;
    }
    positions
}

/// Whether `entry` describes `field` of `contract` placed at `position`.
pub open spec fn describes(entry: StorageLayoutEntry, field: StorageField, contract: Seq<char>, position: (nat, nat)) -> bool {
    &&& entry.ast_id == field.ast_id
    &&& entry.contract@ == contract
    &&& entry.label@ == field.label@
    &&& entry.offset == position.1
    &&& entry.slot@ == decimal(position.0)
    &&& entry.type_key@ == field.type_key@
}

/// The layout entry of `field` of `contract` placed at `slot` and `offset`.
pub fn storage_entry(field: &StorageField, contract: &str, slot: Word, offset: u64) -> (entry: StorageLayoutEntry)
    ensures
        describes(entry, *field, contract@, (word_value(slot), offset as nat)),
{
    StorageLayoutEntry {
        ast_id: field.ast_id,
        contract: String::from_str(contract),
        label: field.label.clone(),
        offset,
        slot: word_to_decimal(slot),
        type_key: field.type_key.clone(),
    }
}

/// Lays out the members of a struct from slot zero: the entry of each member, and the number of
/// bytes the struct occupies.
pub fn layout_members(fields: &[StorageField], contract: &str) -> (layout: (Vec<StorageLayoutEntry>, Word))
    requires
        valid_fields(fields@, fields@.len()),
    ensures
        layout.0@.len() == fields@.len(),
        forall|i: int|
            0 <= i < fields@.len() ==> describes(
                #[trigger] layout.0@[i],
                fields@[i],
                contract@,
                placements(fields@, fields@.len(), (0nat, 0nat)).1[i],
            ),
        word_value(layout.1) == layout_size(placements(fields@, fields@.len(), (0nat, 0nat)).0),
{
    let mut cursor = StorageCursor::new(Word::zero());
    let positions = place_fields(fields, &mut cursor);
    let ghost placed = placements(fields@, fields@.len(), (0nat, 0nat)).1;
    let mut members: Vec<StorageLayoutEntry> = Vec::new();
    let mut i: usize = 0;
    while i < fields.len()
        invariant
            0 <= i <= fields@.len(),
            positions@.len() == fields@.len(),
            members@.len() == i,
            forall|k: int|
                0 <= k < fields@.len() ==> (word_value((#[trigger] positions@[k]).0), positions@[k].1 as nat) == placed[k],
            forall|k: int| 0 <= k < i ==> describes(#[trigger] members@[k], fields@[k], contract@, placed[k]),
        decreases fields@.len() - i,
    {
        let (slot, offset) = positions[i];
        members.push(storage_entry(&fields[i], contract, slot, offset));
        i += 1;
    }
    (members, cursor.size())
}

/// Whether a state variable has a place in the storage area that is laid out: constants and
/// immutables have none, and transient variables are laid out apart from the others.
pub open spec fn has_storage(variable: StorageVariable, transient: bool) -> bool {
    !variable.is_constant && !variable.is_immutable && variable.is_transient == transient
}

/// The fields of the variables of one contract that have storage, in declaration order.
pub open spec fn stored_fields(variables: Seq<StorageVariable>, transient: bool) -> Seq<StorageField>
    decreases variables.len(),
{
    if variables.len() == 0 {
        Seq::empty()
    } else {
        stored_fields(variables.drop_last(), transient) + if has_storage(variables.last(), transient) {
            seq![variables.last().field]
        } else {
            Seq::empty()
        }
    }
}

/// The fields laid out for a contract whose linearized bases, most derived first, declare
/// `bases`: the most basic contract's variables come first.
pub open spec fn layout_fields(bases: Seq<Seq<StorageVariable>>, transient: bool) -> Seq<StorageField>
    decreases bases.len(),
{
    if bases.len() == 0 {
        Seq::empty()
    } else {
        layout_fields(bases.drop_first(), transient) + stored_fields(bases[0], transient)
    }
}

/// The variables declared by each base, as sequences.
pub open spec fn base_variables(bases: Seq<Vec<StorageVariable>>) -> Seq<Seq<StorageVariable>> {
    bases.map_values(|variables: Vec<StorageVariable>| variables@)
}

/// Lays out the state variables of a contract from `base_slot`.
///
/// `bases` holds the state variables declared by each linearized base of the contract, most
/// derived first. Variables of the most basic contract are placed first; constants, immutables
/// and variables of the other storage area (transient or persistent) are skipped.
#[verifier::rlimit(40)]
pub fn storage_layout(base_slot: Word, bases: &[Vec<StorageVariable>], contract: &str, transient: bool) -> (storage: Vec<StorageLayoutEntry>)
    requires
        forall|b: int, v: int|
            0 <= b < bases@.len() && 0 <= v < bases@[b]@.len() ==> valid_type(#[trigger] bases@[b]@[v].field.ty),
    ensures
        ({
            let fields = layout_fields(base_variables(bases@), transient);
            let placed = placements(fields, fields.len(), (word_value(base_slot), 0nat)).1;
            &&& storage@.len() == fields.len()
            &&& forall|i: int| 0 <= i < fields.len() ==> describes(#[trigger] storage@[i], fields[i], contract@, placed[i])
        }),
{
    let ghost all = base_variables(bases@);
    let ghost start = (word_value(base_slot), 0nat);
    let mut cursor = StorageCursor::new(base_slot);
    let mut storage: Vec<StorageLayoutEntry> = Vec::new();
    let ghost mut done: Seq<StorageField> = Seq::empty();
    let mut b: usize = bases.len();
    proof {
        assert(all.subrange(b as int, all.len() as int) =~= Seq::<Seq<StorageVariable>>::empty());
    }
    while b > 0
        invariant
            0 <= b <= bases@.len(),
            all == base_variables(bases@),
            all.len() == bases@.len(),
            start == (word_value(base_slot), 0nat),
            forall|x: int, v: int|
                0 <= x < bases@.len() && 0 <= v < bases@[x]@.len() ==> valid_type(#[trigger] bases@[x]@[v].field.ty),
            done == layout_fields(all.subrange(b as int, all.len() as int), transient),
            cursor@ == placements(done, done.len(), start).0,
            storage@.len() == done.len(),
            forall|i: int|
                0 <= i < done.len() ==> describes(
                    #[trigger] storage@[i],
                    done[i],
                    contract@,
                    placements(done, done.len(), start).1[i],
                ),
        decreases b,
    {
        b -= 1;
        let variables = &bases[b];
        let ghost outer = done;
        proof {
            assert(all[b as int] == variables@);
        }
        let mut v: usize = 0;
        while v < variables.len()
            invariant
                0 <= v <= variables@.len(),
                b < bases@.len(),
                variables@ == bases@[b as int]@,
                start == (word_value(base_slot), 0nat),
                forall|x: int, w: int|
                    0 <= x < bases@.len() && 0 <= w < bases@[x]@.len() ==> valid_type(#[trigger] bases@[x]@[w].field.ty),
                done == outer + stored_fields(variables@.subrange(0, v as int), transient),
                cursor@ == placements(done, done.len(), start).0,
                storage@.len() == done.len(),
                forall|i: int|
                    0 <= i < done.len() ==> describes(
                        #[trigger] storage@[i],
                        done[i],
                        contract@,
                        placements(done, done.len(), start).1[i],
                    ),
            decreases variables@.len() - v,
        {
            let variable = &variables[v];
            let ghost before = done;
            proof {
                assert(variables@.subrange(0, v + 1).drop_last() =~= variables@.subrange(0, v as int));
                assert(variables@.subrange(0, v + 1).last() == variables@[v as int]);
            }
            if !variable.is_constant && !variable.is_immutable && variable.is_transient == transient {
                proof {
                    assert(valid_type(bases@[b as int]@[v as int].field.ty));
                    lemma_placements_push(before, variable.field, start);
                    lemma_placements_len(before, before.len(), start);
                    done = before.push(variable.field);
                    assert(done =~= outer + stored_fields(variables@.subrange(0, v + 1), transient));
                }
                let ghost previous = storage@;
                let ghost placed_before = placements(before, before.len(), start);
                let (slot, offset) = place_type(&variable.field.ty, &mut cursor);
                let entry = storage_entry(&variable.field, contract, slot, offset);
                storage.push(entry);
                proof {
                    let placed_after = placements(done, done.len(), start);
                    assert(placed_after.1 == placed_before.1.push((word_value(slot), offset as nat)));
                    assert forall|i: int| 0 <= i < done.len() implies describes(
                        #[trigger] storage@[i],
                        done[i],
                        contract@,
                        placements(done, done.len(), start).1[i],
                    ) by {
                        if i < before.len() {
                            assert(storage@[i] == previous[i]);
                            assert(done[i] == before[i]);
                            assert(placed_after.1[i] == placed_before.1[i]);
                        } else {
                            assert(storage@[i] == entry);
                            assert(done[i] == variable.field);
                        }
                    }
                }
            } else {
                proof {
                    assert(done =~= outer + stored_fields(variables@.subrange(0, v + 1), transient));
                }
            }
            v += 1;
        }
        proof {
            assert(variables@.subrange(0, variables@.len() as int) =~= variables@);
            assert(all.subrange(b as int, all.len() as int).drop_first() =~= all.subrange(b + 1, all.len() as int));
            assert(all.subrange(b as int, all.len() as int)[0] == all[b as int]);
        }
    }
    proof {
        assert(all.subrange(0, all.len() as int) =~= all);
    }
    storage
}

/// The slots counted for a number of bytes are just enough to hold them.
pub proof fn lemma_slots_hold_bytes(bytes: nat)
    ensures
        spec_slots_for(bytes) * 32 >= bytes,
        bytes > 0 ==> (spec_slots_for(bytes) - 1) * 32 < bytes,
{
    vstd::arithmetic::div_mod::lemma_fundamental_div_mod(bytes as int, 32);
}

/// A packed value that fits in the rest of the current slot is placed right at the cursor, and a
/// value that cannot be packed always starts a fresh slot after every byte used so far.
pub proof fn lemma_placement_order(cursor: (nat, nat), bytes: nat, packs: bool)
    requires
        cursor.1 < 32,
    ensures
        packs && cursor.1 + bytes <= 32 ==> place(cursor, bytes, packs).1 == cursor,
        !packs ==> place(cursor, bytes, packs).1.1 == 0,
        !packs && cursor.1 == 0 ==> place(cursor, bytes, packs).1.0 == cursor.0,
        !packs && cursor.1 != 0 ==> place(cursor, bytes, packs).1.0 == wrapping_add(cursor.0, 1),
{
}

/// The type behind any references.
pub open spec fn peeled(ty: StorageType) -> StorageType
    decreases ty,
{
    match ty {
        StorageType::Ref(inner) => peeled(*inner),
        _ => ty,
    }
}

/// How values of a type are encoded in storage: mappings, dynamic arrays, and byte arrays and
/// strings have their own encodings, and every other type is stored in place.
pub open spec fn encoding_of(ty: StorageType) -> StorageEncoding {
    match peeled(ty) {
        StorageType::Mapping(..) => StorageEncoding::Mapping,
        StorageType::DynArray(_) => StorageEncoding::DynamicArray,
        StorageType::Elementary(ElementaryType::Bytes) => StorageEncoding::Bytes,
        StorageType::Elementary(ElementaryType::String) => StorageEncoding::Bytes,
        _ => StorageEncoding::Inplace,
    }
}

/// The type behind any references.
pub fn peel_refs(ty: &StorageType) -> (inner: &StorageType)
    ensures
        *inner == peeled(*ty),
    decreases ty,
{
    match ty {
        StorageType::Ref(inner) => peel_refs(inner),
        _ => ty,
    }
}

/// Returns how values of `ty` are encoded in storage.
pub fn storage_encoding(ty: &StorageType) -> (encoding: StorageEncoding)
    ensures
        encoding == encoding_of(*ty),
{
    match peel_refs(ty) {
        StorageType::Mapping(..) => StorageEncoding::Mapping,
        StorageType::DynArray(_) => StorageEncoding::DynamicArray,
        StorageType::Elementary(ElementaryType::Bytes) | StorageType::Elementary(ElementaryType::String) => {
            StorageEncoding::Bytes
        },
        _ => StorageEncoding::Inplace,
    }
}

/// The type-table entry of `ty`: its encoding, its size, and, for a struct, the layout of its
/// members. `label` is the type as written in source; `base`, `key` and `value` are the
/// type-table identifiers of an array's element type and of a mapping's key and value types.
pub fn storage_layout_type(
    ty: &StorageType,
    label: String,
    base: Option<String>,
    key: Option<String>,
    value: Option<String>,
    contract: &str,
) -> (info: StorageLayoutType)
    requires
        valid_type(*ty),
    ensures
        info.encoding == encoding_of(*ty),
        info.label == label,
        info.number_of_bytes@ == decimal(spec_storage_bytes(peeled(*ty))),
        info.base == base,
        info.key == key,
        info.value == value,
        match peeled(*ty) {
            StorageType::Struct(fields) => {
                &&& info.members@.len() == fields@.len()
                &&& forall|i: int|
                    0 <= i < fields@.len() ==> describes(
                        #[trigger] info.members@[i],
                        fields@[i],
                        contract@,
                        placements(fields@, fields@.len(), (0nat, 0nat)).1[i],
                    )
            },
            _ => info.members@.len() == 0,
        },
{
    let inner = peel_refs(ty);
    proof {
        lemma_peeled_valid(*ty);
    }
    let number_of_bytes = word_to_decimal(storage_bytes(inner));
    let members = match inner {
        StorageType::Struct(fields) => {
            let (members, _) = layout_members(fields.as_slice(), contract);
            members
        },
        _ => Vec::new(),
    };
    StorageLayoutType { encoding: storage_encoding(ty), label, number_of_bytes, base, key, value, members }
}

proof fn lemma_peeled_valid(ty: StorageType)
    requires
        valid_type(ty),
    ensures
        valid_type(peeled(ty)),
    decreases ty,
{
    match ty {
        StorageType::Ref(inner) => lemma_peeled_valid(*inner),
        _ => {},
    }
}

} // verus!
