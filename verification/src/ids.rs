//! Dense identifiers of HIR nodes.

use vstd::prelude::*;

verus! {

/// The largest index an identifier can hold.
pub const MAX_INDEX: usize = 0xFFFF_FF00;

/// The identifier of an HIR expression.
#[derive(Clone, Copy, Debug, PartialEq, Eq, PartialOrd, Ord, Hash, Structural)]
pub struct ExprId(pub u32);

/// The identifier of an HIR variable declaration.
#[derive(Clone, Copy, Debug, PartialEq, Eq, PartialOrd, Ord, Hash, Structural)]
pub struct VariableId(pub u32);

/// The identifier of an HIR function.
#[derive(Clone, Copy, Debug, PartialEq, Eq, PartialOrd, Ord, Hash, Structural)]
pub struct FunctionId(pub u32);

/// The identifier of an HIR contract.
#[derive(Clone, Copy, Debug, PartialEq, Eq, PartialOrd, Ord, Hash, Structural)]
pub struct ContractId(pub u32);

/// An interned identifier or string.
#[derive(Clone, Copy, Debug, PartialEq, Eq, PartialOrd, Ord, Hash, Structural)]
pub struct Symbol(pub u32);

/// A byte range in the source.
#[derive(Clone, Copy, Debug, PartialEq, Eq, Hash, Structural)]
pub struct Span {
    /// The first byte.
    pub lo: u32,
    /// One past the last byte.
    pub hi: u32,
}

/// The identifier of an HIR item of any kind.
#[derive(Clone, Copy, Debug, PartialEq, Eq, Hash, Structural)]
pub enum ItemId {
    /// A contract, interface or library.
    Contract(ContractId),
    /// A function, modifier, constructor, fallback or receive function.
    Function(FunctionId),
    /// A state variable, parameter or local variable.
    Variable(VariableId),
    /// A struct, by the index of its declaration.
    Struct(u32),
    /// An enum, by the index of its declaration.
    Enum(u32),
    /// A user-defined value type, by the index of its declaration.
    Udvt(u32),
    /// An error, by the index of its declaration.
    Error(u32),
    /// An event, by the index of its declaration.
    Event(u32),
}

/// The kind of an item, by the variant of its identifier.
pub open spec fn item_kind(id: ItemId) -> nat {
    match id {
        ItemId::Contract(_) => 0,
        ItemId::Function(_) => 1,
        ItemId::Variable(_) => 2,
        ItemId::Struct(_) => 3,
        ItemId::Enum(_) => 4,
        ItemId::Udvt(_) => 5,
        ItemId::Error(_) => 6,
        ItemId::Event(_) => 7,
    }
}

/// The description of an item of the kind of `id`.
pub open spec fn item_description(id: ItemId) -> Seq<char> {
    match id {
        ItemId::Contract(_) => "contract"@,
        ItemId::Function(_) => "function"@,
        ItemId::Variable(_) => "variable"@,
        ItemId::Struct(_) => "struct"@,
        ItemId::Enum(_) => "enum"@,
        ItemId::Udvt(_) => "UDVT"@,
        ItemId::Error(_) => "error"@,
        ItemId::Event(_) => "event"@,
    }
}

impl ItemId {
    /// Returns the description of the item.
    pub fn description(&self) -> (description: &'static str)
        ensures
            description@ == item_description(*self),
    {
        match self {
            ItemId::Contract(_) => "contract",
            ItemId::Function(_) => "function",
            ItemId::Variable(_) => "variable",
            ItemId::Struct(_) => "struct",
            ItemId::Enum(_) => "enum",
            ItemId::Udvt(_) => "UDVT",
            ItemId::Error(_) => "error",
            ItemId::Event(_) => "event",
        }
    }

    /// Returns whether the two items are of the same kind.
    pub fn matches(&self, other: &Self) -> (same_kind: bool)
        ensures
            same_kind == (item_kind(*self) == item_kind(*other)),
    {
        match (self, other) {
            (ItemId::Contract(_), ItemId::Contract(_)) => true,
            (ItemId::Function(_), ItemId::Function(_)) => true,
            (ItemId::Variable(_), ItemId::Variable(_)) => true,
            (ItemId::Struct(_), ItemId::Struct(_)) => true,
            (ItemId::Enum(_), ItemId::Enum(_)) => true,
            (ItemId::Udvt(_), ItemId::Udvt(_)) => true,
            (ItemId::Error(_), ItemId::Error(_)) => true,
            (ItemId::Event(_), ItemId::Event(_)) => true,
            _ => false,
        }
    }

    /// Returns the contract identifier if this is a contract.
    pub fn as_contract(&self) -> (contract: Option<ContractId>)
        ensures
            contract == (match *self {
                ItemId::Contract(id) => Some(id),
                _ => None,
            }),
    {
        match self {
            ItemId::Contract(id) => Some(*id),
            _ => None,
        }
    }

    /// Returns the function identifier if this is a function.
    pub fn as_function(&self) -> (function: Option<FunctionId>)
        ensures
            function == (match *self {
                ItemId::Function(id) => Some(id),
                _ => None,
            }),
    {
        match self {
            ItemId::Function(id) => Some(*id),
            _ => None,
        }
    }

    /// Returns the variable identifier if this is a variable.
    pub fn as_variable(&self) -> (variable: Option<VariableId>)
        ensures
            variable == (match *self {
                ItemId::Variable(id) => Some(id),
                _ => None,
            }),
    {
        match self {
            ItemId::Variable(id) => Some(*id),
            _ => None,
        }
    }
}

/// The identifier of the item of the `kind`-th kind, in the order of [`ItemId`]'s variants, with
/// index `index`.
pub open spec fn item_id_of_kind(kind: nat, index: u32) -> ItemId {
    if kind == 0 {
        ItemId::Contract(ContractId(index))
    } else if kind == 1 {
        ItemId::Function(FunctionId(index))
    } else if kind == 2 {
        ItemId::Variable(VariableId(index))
    } else if kind == 3 {
        ItemId::Struct(index)
    } else if kind == 4 {
        ItemId::Enum(index)
    } else if kind == 5 {
        ItemId::Udvt(index)
    } else if kind == 6 {
        ItemId::Error(index)
    } else {
        ItemId::Event(index)
    }
}

/// The identifiers of the first `count` items of the `kind`-th kind, by index.
pub open spec fn kind_item_ids(kind: nat, count: u32) -> Seq<ItemId> {
    Seq::new(count as nat, |index: int| item_id_of_kind(kind, index as u32))
}

/// The number of items of each kind in an HIR.
#[derive(Clone, Copy, Debug, PartialEq, Eq, Structural)]
pub struct ItemCounts {
    /// Contracts.
    pub contracts: u32,
    /// Functions.
    pub functions: u32,
    /// Variables.
    pub variables: u32,
    /// Structs.
    pub structs: u32,
    /// Enums.
    pub enums: u32,
    /// User-defined value types.
    pub udvts: u32,
    /// Errors.
    pub errors: u32,
    /// Events.
    pub events: u32,
}

/// Every item identifier, kind by kind in the order of [`ItemId`]'s variants, and by index within
/// a kind.
pub open spec fn all_item_ids(counts: ItemCounts) -> Seq<ItemId> {
    kind_item_ids(0, counts.contracts) + kind_item_ids(1, counts.functions) + kind_item_ids(2, counts.variables)
        + kind_item_ids(3, counts.structs) + kind_item_ids(4, counts.enums) + kind_item_ids(5, counts.udvts)
        + kind_item_ids(6, counts.errors) + kind_item_ids(7, counts.events)
}

/// Returns the identifier of the item of the `kind`-th kind with index `index`.
fn make_item_id(kind: u8, index: u32) -> (id: ItemId)
    ensures
        id == item_id_of_kind(kind as nat, index),
{
    match kind {
        0 => ItemId::Contract(ContractId(index)),
        1 => ItemId::Function(FunctionId(index)),
        2 => ItemId::Variable(VariableId(index)),
        3 => ItemId::Struct(index),
        4 => ItemId::Enum(index),
        5 => ItemId::Udvt(index),
        6 => ItemId::Error(index),
        _ => ItemId::Event(index),
    }
}

/// Appends the identifiers of the first `count` items of the `kind`-th kind.
fn push_kind_item_ids(ids: &mut Vec<ItemId>, kind: u8, count: u32)
    ensures
        final(ids)@ == old(ids)@ + kind_item_ids(kind as nat, count),
{
    let ghost start = ids@;
    let mut index: u32 = 0;
    while index < count
        invariant
            index <= count,
            ids@ == start + kind_item_ids(kind as nat, index),
        decreases count - index,
    {
        ids.push(make_item_id(kind, index));
        proof {
            assert(ids@ =~= start + kind_item_ids(kind as nat, (index + 1) as u32));
        }
        index += 1;
    }
}

/// Returns every item identifier, kind by kind in the order of [`ItemId`]'s variants, and by
/// index within a kind.
pub fn item_ids_vec(counts: &ItemCounts) -> (ids: Vec<ItemId>)
    ensures
        ids@ == all_item_ids(*counts),
{
    let mut ids: Vec<ItemId> = Vec::new();
    push_kind_item_ids(&mut ids, 0, counts.contracts);
    push_kind_item_ids(&mut ids, 1, counts.functions);
    push_kind_item_ids(&mut ids, 2, counts.variables);
    push_kind_item_ids(&mut ids, 3, counts.structs);
    push_kind_item_ids(&mut ids, 4, counts.enums);
    push_kind_item_ids(&mut ids, 5, counts.udvts);
    push_kind_item_ids(&mut ids, 6, counts.errors);
    push_kind_item_ids(&mut ids, 7, counts.events);
    proof {
        assert(ids@ =~= all_item_ids(*counts));
    }
    ids
}

/// An identifier whose equality can be decided by executable code.
pub trait KeyId: Copy {
    /// Returns whether the two identifiers are equal.
    fn same_key(&self, other: &Self) -> (same: bool)
        ensures
            same == (*self == *other),
    ;
}

impl KeyId for ExprId {
    fn same_key(&self, other: &Self) -> (same: bool) {
        self.0 == other.0
    }
}

impl KeyId for VariableId {
    fn same_key(&self, other: &Self) -> (same: bool) {
        self.0 == other.0
    }
}

impl ExprId {
    /// Creates the identifier with the given index.
    pub fn new(index: usize) -> (id: Self)
        requires
            index <= MAX_INDEX,
        ensures
            id.0 == index,
    {
        ExprId(index as u32)
    }

    /// Returns the index of this identifier.
    pub fn index(self) -> (index: usize)
        ensures
            index == self.0,
    {
        self.0 as usize
    }
}

impl VariableId {
    /// Creates the identifier with the given index.
    pub fn new(index: usize) -> (id: Self)
        requires
            index <= MAX_INDEX,
        ensures
            id.0 == index,
    {
        VariableId(index as u32)
    }

    /// Returns the index of this identifier.
    pub fn index(self) -> (index: usize)
        ensures
            index == self.0,
    {
        self.0 as usize
    }
}

impl FunctionId {
    /// Creates the identifier with the given index.
    pub fn new(index: usize) -> (id: Self)
        requires
            index <= MAX_INDEX,
        ensures
            id.0 == index,
    {
        FunctionId(index as u32)
    }

    /// Returns the index of this identifier.
    pub fn index(self) -> (index: usize)
        ensures
            index == self.0,
    {
        self.0 as usize
    }
}

impl ContractId {
    /// Creates the identifier with the given index.
    pub fn new(index: usize) -> (id: Self)
        requires
            index <= MAX_INDEX,
        ensures
            id.0 == index,
    {
        ContractId(index as u32)
    }

    /// Returns the index of this identifier.
    pub fn index(self) -> (index: usize)
        ensures
            index == self.0,
    {
        self.0 as usize
    }
}

} // verus!
