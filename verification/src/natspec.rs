//! Validated NatSpec documentation: the tags an item documents locally, the tags allowed on each
//! kind of item, inheritance of documentation, and documentation aligned with the parameters and
//! return values of the documented item.

use vstd::prelude::*;

use crate::ids::{ItemId, Span, Symbol};
use crate::word::{append_decimal, decimal, push_char};

verus! {

/// The tag of a NatSpec item.
#[derive(Clone, Copy, Debug, PartialEq, Eq, Hash, Structural)]
pub enum NatSpecKind {
    /// `@title`
    Title,
    /// `@author`
    Author,
    /// `@notice`, or an untagged comment.
    Notice,
    /// `@dev`
    Dev,
    /// `@param name`
    Param {
        /// The documented parameter.
        name: Symbol,
    },
    /// `@return`, with the documented return value when it is named.
    Return {
        /// The documented return value.
        name: Option<Symbol>,
    },
    /// `@inheritdoc Contract`
    Inheritdoc {
        /// The contract documentation is inherited from.
        contract: Symbol,
    },
    /// `@custom:name`
    Custom {
        /// The custom tag's name.
        name: Symbol,
    },
    /// A tag reserved for the compiler, `@solidity`.
    Internal {
        /// The tag's name.
        tag: Symbol,
    },
}

/// One NatSpec tag with its content.
#[derive(Debug)]
pub struct NatSpecItem {
    /// The tag identifier of the item.
    pub kind: NatSpecKind,
    /// Span of the tag. '@' is not included.
    pub span: Span,
    /// The text content of the tag.
    pub content: String,
}

impl Clone for NatSpecItem {
    fn clone(&self) -> (copy: Self)
        ensures
            copy == *self,
    {
        NatSpecItem { kind: self.kind, span: self.span, content: self.content.clone() }
    }
}

/// Copies every item of `items`.
fn copy_items(items: &[NatSpecItem]) -> (copy: Vec<NatSpecItem>)
    ensures
        copy@ == items@,
{
    let mut copy: Vec<NatSpecItem> = Vec::new();
    let mut i: usize = 0;
    while i < items.len()
        invariant
            0 <= i <= items@.len(),
            copy@ == items@.subrange(0, i as int),
        decreases items@.len() - i,
    {
        copy.push(items[i].clone());
        proof {
            assert(copy@ =~= items@.subrange(0, i + 1));
        }
        i += 1;
    }
    proof {
        assert(items@.subrange(0, items@.len() as int) =~= items@);
    }
    copy
}

/// `@notice` is documented locally.
pub const NOTICE: u8 = 1;

/// `@dev` is documented locally.
pub const DEV: u8 = 2;

/// `@title` is documented locally.
pub const TITLE: u8 = 4;

/// `@author` is documented locally.
pub const AUTHOR: u8 = 8;

/// Some `@param` is documented locally.
pub const PARAM: u8 = 16;

/// Some `@return` is documented locally.
pub const RETURN: u8 = 32;

/// The local-tag flag a NatSpec kind sets, or zero for kinds that set none.
pub open spec fn local_flag(kind: NatSpecKind) -> u8 {
    match kind {
        NatSpecKind::Notice => NOTICE,
        NatSpecKind::Dev => DEV,
        NatSpecKind::Title => TITLE,
        NatSpecKind::Author => AUTHOR,
        NatSpecKind::Param { .. } => PARAM,
        NatSpecKind::Return { .. } => RETURN,
        _ => 0,
    }
}

/// Whether `flag` is one of the single-bit local-tag flags.
pub open spec fn is_local_flag(flag: u8) -> bool {
    flag == NOTICE || flag == DEV || flag == TITLE || flag == AUTHOR || flag == PARAM || flag == RETURN
}

/// Whether the flag set `bits` holds every flag of `flags`.
pub open spec fn has_flags(bits: u8, flags: u8) -> bool {
    bits & flags == flags
}

proof fn lemma_insert_local_flag(bits: u8, flag: u8, probe: u8)
    requires
        is_local_flag(probe),
        flag == 0 || is_local_flag(flag),
    ensures
        has_flags(bits | flag, probe) == (probe == flag || has_flags(bits, probe)),
{
    assert(has_flags(bits | flag, probe) == (probe == flag || has_flags(bits, probe))) by (bit_vector)
        requires
            probe == 1u8 || probe == 2u8 || probe == 4u8 || probe == 8u8 || probe == 16u8 || probe == 32u8,
            flag == 0u8 || flag == 1u8 || flag == 2u8 || flag == 4u8 || flag == 8u8 || flag == 16u8 || flag == 32u8,
    ;
}

/// Tracks which documentation tags are locally defined.
#[derive(Clone, Copy, Debug, PartialEq, Eq, Structural)]
pub struct LocalTags {
    /// The set flags: [`NOTICE`], [`DEV`], [`TITLE`], [`AUTHOR`], [`PARAM`] and [`RETURN`].
    pub bits: u8,
}

impl LocalTags {
    /// The tags locally defined by `items`: a flag is set exactly when some item has a kind
    /// that sets it.
    pub fn from_items(items: &[NatSpecItem]) -> (tags: Self)
        ensures
            forall|flag: u8| #[trigger] is_local_flag(flag) ==> (has_flags(tags.bits, flag) <==> exists|i: int|
                0 <= i < items@.len() && #[trigger] local_flag(items@[i].kind) == flag),
    {
        let mut bits: u8 = 0;
        let mut i: usize = 0;
        proof {
            assert forall|probe: u8| #[trigger] is_local_flag(probe) implies !has_flags(0u8, probe) by {
                assert(0u8 & probe == 0u8) by (bit_vector);
            }
        }
        while i < items.len()
            invariant
                0 <= i <= items@.len(),
                forall|flag: u8| #[trigger] is_local_flag(flag) ==> (has_flags(bits, flag) <==> exists|k: int|
                    0 <= k < i && #[trigger] local_flag(items@[k].kind) == flag),
            decreases items@.len() - i,
        {
            let flag: u8 = match items[i].kind {
                NatSpecKind::Notice => NOTICE,
                NatSpecKind::Dev => DEV,
                NatSpecKind::Title => TITLE,
                NatSpecKind::Author => AUTHOR,
                NatSpecKind::Param { .. } => PARAM,
                NatSpecKind::Return { .. } => RETURN,
                NatSpecKind::Custom { .. } | NatSpecKind::Internal { .. } | NatSpecKind::Inheritdoc { .. } => 0,
            };
            proof {
                assert(flag == local_flag(items@[i as int].kind));
                assert forall|probe: u8| #[trigger] is_local_flag(probe) implies (has_flags(bits | flag, probe) <==> exists|k: int|
                    0 <= k < i + 1 && #[trigger] local_flag(items@[k].kind) == probe) by {
                    lemma_insert_local_flag(bits, flag, probe);
                    if probe == flag {
                        assert(local_flag(items@[i as int].kind) == probe);
                    }
                    if exists|k: int| 0 <= k < i + 1 && #[trigger] local_flag(items@[k].kind) == probe {
                        let k = choose|k: int| 0 <= k < i + 1 && #[trigger] local_flag(items@[k].kind) == probe;
                        if k < i {
                            assert(exists|j: int| 0 <= j < i && #[trigger] local_flag(items@[j].kind) == probe);
                        }
                    }
                }
            }
            bits = bits | flag;
            i += 1;
        }
        LocalTags { bits }
    }

    /// Returns whether every flag of `flags` is set.
    pub fn contains(self, flags: u8) -> (contains: bool)
        ensures
            contains == has_flags(self.bits, flags),
    {
        self.bits & flags == flags
    }
}

/// Titles and authors may be documented.
pub const TITLE_AUTHOR: u8 = 1;

/// Documentation may be inherited with `@inheritdoc`.
pub const INHERITDOC: u8 = 2;

/// Parameters may be documented.
pub const PARAM_PERMITTED: u8 = 4;

/// Return values may be documented.
pub const RETURN_PERMITTED: u8 = 8;

/// Tag permissions for different item types in NatSpec validation.
#[derive(Clone, Copy, Debug, PartialEq, Eq, Structural)]
pub struct TagPermissions {
    /// The set flags: [`TITLE_AUTHOR`], [`INHERITDOC`], [`PARAM_PERMITTED`] and [`RETURN_PERMITTED`].
    pub bits: u8,
}

/// The tags permitted on an item of the kind of `item_id`.
pub open spec fn permissions_of(item_id: ItemId) -> u8 {
    match item_id {
        ItemId::Contract(_) | ItemId::Enum(_) => TITLE_AUTHOR | RETURN_PERMITTED,
        ItemId::Struct(_) => TITLE_AUTHOR | PARAM_PERMITTED | RETURN_PERMITTED,
        ItemId::Function(_) => PARAM_PERMITTED | INHERITDOC | RETURN_PERMITTED,
        ItemId::Variable(_) => INHERITDOC | RETURN_PERMITTED,
        ItemId::Event(_) => PARAM_PERMITTED,
        ItemId::Error(_) => PARAM_PERMITTED,
        ItemId::Udvt(_) => PARAM_PERMITTED,
    }
}

impl TagPermissions {
    /// The tags permitted on an item of the kind of `item_id`.
    pub fn from_item_id(item_id: ItemId) -> (permissions: Self)
        ensures
            permissions.bits == permissions_of(item_id),
    {
        let bits = match item_id {
            ItemId::Contract(_) | ItemId::Enum(_) => TITLE_AUTHOR | RETURN_PERMITTED,
            ItemId::Struct(_) => TITLE_AUTHOR | PARAM_PERMITTED | RETURN_PERMITTED,
            ItemId::Function(_) => PARAM_PERMITTED | INHERITDOC | RETURN_PERMITTED,
            ItemId::Variable(_) => INHERITDOC | RETURN_PERMITTED,
            ItemId::Event(_) => PARAM_PERMITTED,
            ItemId::Error(_) => PARAM_PERMITTED,
            ItemId::Udvt(_) => PARAM_PERMITTED,
        };
        TagPermissions { bits }
    }

    /// Returns whether every flag of `flags` is set.
    pub fn contains(self, flags: u8) -> (contains: bool)
        ensures
            contains == has_flags(self.bits, flags),
    {
        self.bits & flags == flags
    }
}

/// Which tags each kind of item permits: contracts and enums take a title, an author and return
/// documentation; structs also take parameters; functions take parameters, returns and
/// `@inheritdoc`; state variables take returns and `@inheritdoc`; events, errors and
/// user-defined value types take parameters only.
pub proof fn lemma_permissions(item_id: ItemId)
    ensures
        has_flags(permissions_of(item_id), TITLE_AUTHOR) <==> (item_id is Contract || item_id is Enum
            || item_id is Struct),
        has_flags(permissions_of(item_id), INHERITDOC) <==> (item_id is Function || item_id is Variable),
        has_flags(permissions_of(item_id), PARAM_PERMITTED) <==> !(item_id is Contract || item_id is Enum
            || item_id is Variable),
        has_flags(permissions_of(item_id), RETURN_PERMITTED) <==> (item_id is Contract || item_id is Enum
            || item_id is Struct || item_id is Function || item_id is Variable),
{
    assert(9u8 & 1u8 == 1u8 && 9u8 & 2u8 == 0u8 && 9u8 & 4u8 == 0u8 && 9u8 & 8u8 == 8u8) by (bit_vector);
    assert(13u8 & 1u8 == 1u8 && 13u8 & 2u8 == 0u8 && 13u8 & 4u8 == 4u8 && 13u8 & 8u8 == 8u8) by (bit_vector);
    assert(14u8 & 1u8 == 0u8 && 14u8 & 2u8 == 2u8 && 14u8 & 4u8 == 4u8 && 14u8 & 8u8 == 8u8) by (bit_vector);
    assert(10u8 & 1u8 == 0u8 && 10u8 & 2u8 == 2u8 && 10u8 & 4u8 == 0u8 && 10u8 & 8u8 == 8u8) by (bit_vector);
    assert(4u8 & 1u8 == 0u8 && 4u8 & 2u8 == 0u8 && 4u8 & 4u8 == 4u8 && 4u8 & 8u8 == 0u8) by (bit_vector);
    assert((1u8 | 8u8) == 9u8 && (1u8 | 4u8 | 8u8) == 13u8 && (4u8 | 2u8 | 8u8) == 14u8 && (2u8 | 8u8) == 10u8) by (bit_vector);
}

/// Whether an inherited item of kind `kind` is kept beside the local items with tags `local`:
/// notices, details, titles and authors are kept unless documented locally, parameter and return
/// documentation unless any is documented locally, and custom, internal and `@inheritdoc` tags are
/// never inherited.
pub open spec fn should_inherit(local: u8, kind: NatSpecKind) -> bool {
    match kind {
        NatSpecKind::Notice => !has_flags(local, NOTICE),
        NatSpecKind::Dev => !has_flags(local, DEV),
        NatSpecKind::Title => !has_flags(local, TITLE),
        NatSpecKind::Author => !has_flags(local, AUTHOR),
        NatSpecKind::Param { .. } => !has_flags(local, PARAM),
        NatSpecKind::Return { .. } => !has_flags(local, RETURN),
        _ => false,
    }
}

/// Merges local and inherited NatSpec tags.
///
/// Rules:
/// - `@notice`, `@dev`, `@title`, `@author`: local overrides inherited.
/// - `@param`, `@return`: local section overrides inherited section.
/// - `@custom`: not inherited.
pub fn merge_natspec_tags(items: &[NatSpecItem], local_tags: LocalTags, inherited: &[NatSpecItem]) -> (merged: Vec<NatSpecItem>)
    ensures
        merged@ == items@ + inherited@.filter(|item: NatSpecItem| should_inherit(local_tags.bits, item.kind)),
{
    let mut merged = copy_items(items);
    let mut i: usize = 0;
    while i < inherited.len()
        invariant
            0 <= i <= inherited@.len(),
            merged@ == items@ + inherited@.subrange(0, i as int).filter(
                |item: NatSpecItem| should_inherit(local_tags.bits, item.kind),
            ),
        decreases inherited@.len() - i,
    {
        let item = &inherited[i];
        let keep = match item.kind {
            NatSpecKind::Notice => !local_tags.contains(NOTICE),
            NatSpecKind::Dev => !local_tags.contains(DEV),
            NatSpecKind::Title => !local_tags.contains(TITLE),
            NatSpecKind::Author => !local_tags.contains(AUTHOR),
            NatSpecKind::Param { .. } => !local_tags.contains(PARAM),
            NatSpecKind::Return { .. } => !local_tags.contains(RETURN),
            NatSpecKind::Custom { .. } | NatSpecKind::Internal { .. } => false,
            NatSpecKind::Inheritdoc { .. } => false,
        };
        proof {
            let pred = |item: NatSpecItem| should_inherit(local_tags.bits, item.kind);
            assert(inherited@.subrange(0, i + 1).drop_last() =~= inherited@.subrange(0, i as int));
            reveal(Seq::filter);
            assert(keep == pred(inherited@[i as int]));
        }
        if keep {
            merged.push(item.clone());
        }
        proof {
            assert(merged@ =~= items@ + inherited@.subrange(0, i + 1).filter(
                |item: NatSpecItem| should_inherit(local_tags.bits, item.kind),
            ));
        }
        i += 1;
    }
    proof {
        assert(inherited@.subrange(0, inherited@.len() as int) =~= inherited@);
    }
    merged
}

/// Whether an inherited item of kind `kind` survives beside the local items `items`: a notice,
/// detail, title or author when no local item has that tag, a parameter or return documentation
/// when no local item documents any parameter or return value; never any other tag.
pub open spec fn survives_local(items: Seq<NatSpecItem>, kind: NatSpecKind) -> bool {
    match kind {
        NatSpecKind::Notice | NatSpecKind::Dev | NatSpecKind::Title | NatSpecKind::Author => !exists|i: int|
            0 <= i < items.len() && #[trigger] items[i].kind == kind,
        NatSpecKind::Param { .. } => !exists|i: int| 0 <= i < items.len() && (#[trigger] items[i].kind) is Param,
        NatSpecKind::Return { .. } => !exists|i: int| 0 <= i < items.len() && (#[trigger] items[i].kind) is Return,
        _ => false,
    }
}

/// Local documentation overrides inherited documentation tag by tag: the merge of `items` (with
/// their local tags) and `inherited` starts with the local items, and an inherited item follows
/// them exactly when it survives the local items; an inherited `@author` is dropped exactly
/// when some local item is an `@author`, whatever other tags are local.
pub proof fn lemma_merge_overrides_by_tag(
    items: Seq<NatSpecItem>,
    local_tags: LocalTags,
    inherited: Seq<NatSpecItem>,
    merged: Seq<NatSpecItem>,
)
    requires
        local_tags_of(local_tags, items),
        merged == items + inherited.filter(|item: NatSpecItem| should_inherit(local_tags.bits, item.kind)),
    ensures
        merged.len() >= items.len(),
        merged.subrange(0, items.len() as int) == items,
        forall|j: int|
            0 <= j < inherited.len() ==> (merged.skip(items.len() as int).contains(#[trigger] inherited[j])
                <==> survives_local(items, inherited[j].kind)),
{
    let pred = |item: NatSpecItem| should_inherit(local_tags.bits, item.kind);
    let tail = inherited.filter(pred);
    assert(merged.subrange(0, items.len() as int) =~= items);
    assert(merged.skip(items.len() as int) =~= tail);
    assert forall|kind: NatSpecKind| #[trigger] should_inherit(local_tags.bits, kind) == survives_local(items, kind) by {
        let flag = local_flag(kind);
        if flag != 0 {
            assert(is_local_flag(flag));
            if exists|i: int| 0 <= i < items.len() && #[trigger] local_flag(items[i].kind) == flag {
                let i = choose|i: int| 0 <= i < items.len() && #[trigger] local_flag(items[i].kind) == flag;
                assert(items[i].kind is Param ==> flag == PARAM);
            }
            if exists|i: int| 0 <= i < items.len() && #[trigger] items[i].kind == kind {
                let i = choose|i: int| 0 <= i < items.len() && #[trigger] items[i].kind == kind;
                assert(local_flag(items[i].kind) == flag);
            }
            if exists|i: int| 0 <= i < items.len() && (#[trigger] items[i].kind) is Param {
                let i = choose|i: int| 0 <= i < items.len() && (#[trigger] items[i].kind) is Param;
                assert(local_flag(items[i].kind) == PARAM);
            }
            if exists|i: int| 0 <= i < items.len() && (#[trigger] items[i].kind) is Return {
                let i = choose|i: int| 0 <= i < items.len() && (#[trigger] items[i].kind) is Return;
                assert(local_flag(items[i].kind) == RETURN);
            }
        }
    }
    assert forall|j: int| 0 <= j < inherited.len() implies (tail.contains(#[trigger] inherited[j])
        <==> survives_local(items, inherited[j].kind)) by {
        if pred(inherited[j]) {
            inherited.lemma_filter_contains(pred, j);
        }
        if tail.contains(inherited[j]) {
            let k = choose|k: int| 0 <= k < tail.len() && tail[k] == inherited[j];
            inherited.lemma_filter_pred(pred, k);
        }
    }
}

/// The section at `index`, or an empty one when `index` is out of bounds.
pub open spec fn section_at(sections: Seq<Seq<NatSpecItem>>, index: int) -> Seq<NatSpecItem> {
    if 0 <= index < sections.len() {
        sections[index]
    } else {
        Seq::empty()
    }
}

/// Whether `ranges` are consecutive sections of a list of `len` items, starting at the front.
pub open spec fn consecutive_ranges(ranges: Seq<(usize, usize)>, len: nat) -> bool {
    &&& forall|i: int| 0 <= i < ranges.len() ==> (#[trigger] ranges[i]).0 <= ranges[i].1
    &&& forall|i: int| 0 < i < ranges.len() ==> (#[trigger] ranges[i]).0 == ranges[i - 1].1
    &&& ranges.len() > 0 ==> ranges[0].0 == 0
    &&& if ranges.len() > 0 { ranges.last().1 == len } else { len == 0 }
}

/// The sections that `ranges` select from `items`.
pub open spec fn sections_of(items: Seq<NatSpecItem>, ranges: Seq<(usize, usize)>) -> Seq<Seq<NatSpecItem>> {
    Seq::new(ranges.len(), |i: int| items.subrange(ranges[i].0 as int, ranges[i].1 as int))
}

proof fn lemma_range_bounds(ranges: Seq<(usize, usize)>, len: nat, i: int)
    requires
        consecutive_ranges(ranges, len),
        0 <= i < ranges.len(),
    ensures
        ranges[i].1 <= len,
    decreases ranges.len() - i,
{
    if i + 1 < ranges.len() {
        lemma_range_bounds(ranges, len, i + 1);
        assert(ranges[i + 1].0 == ranges[i].1);
    }
}

/// NatSpec sections aligned with positions of the documented item.
///
/// The view is the sequence of sections; each section is the list of items documenting one
/// position.
#[derive(Debug)]
pub struct PositionalNatSpec {
    items: Vec<NatSpecItem>,
    ranges: Vec<(usize, usize)>,
}

impl View for PositionalNatSpec {
    type V = Seq<Seq<NatSpecItem>>;

    closed spec fn view(&self) -> Seq<Seq<NatSpecItem>> {
        sections_of(self.items@, self.ranges@)
    }
}

impl PositionalNatSpec {
    #[verifier::type_invariant]
    closed spec fn ranges_in_bounds(self) -> bool {
        forall|i: int|
            0 <= i < self.ranges@.len() ==> (#[trigger] self.ranges@[i]).0 <= self.ranges@[i].1 <= self.items@.len()
    }

    /// Creates sections for no position.
    pub fn new() -> (sections: Self)
        ensures
            sections@ == Seq::<Seq<NatSpecItem>>::empty(),
    {
        let sections = PositionalNatSpec { items: Vec::new(), ranges: Vec::new() };
        assert(sections@ =~= Seq::<Seq<NatSpecItem>>::empty());
        sections
    }

    /// Returns the items of the section at `index`, or no items when `index` is out of bounds.
    pub fn get(&self, index: usize) -> (items: &[NatSpecItem])
        ensures
            items@ == section_at(self@, index as int),
    {
        proof {
            use_type_invariant(self);
        }
        if index < self.ranges.len() {
            let (start, end) = self.ranges[index];
            &self.items.as_slice()[start..end]
        } else {
            let none = &self.items.as_slice()[0..0];
            assert(none@ =~= Seq::<NatSpecItem>::empty());
            none
        }
    }

    /// Returns a copy of these sections.
    pub fn duplicate(&self) -> (copy: Self)
        ensures
            copy@ == self@,
    {
        proof {
            use_type_invariant(self);
        }
        let items = copy_items(self.items.as_slice());
        let mut ranges: Vec<(usize, usize)> = Vec::new();
        let mut i: usize = 0;
        while i < self.ranges.len()
            invariant
                0 <= i <= self.ranges@.len(),
                ranges@ == self.ranges@.subrange(0, i as int),
            decreases self.ranges@.len() - i,
        {
            ranges.push(self.ranges[i]);
            proof {
                assert(ranges@ =~= self.ranges@.subrange(0, i + 1));
            }
            i += 1;
        }
        proof {
            assert(ranges@ =~= self.ranges@);
        }
        PositionalNatSpec { items, ranges }
    }
}

impl Default for PositionalNatSpec {
    fn default() -> (sections: Self)
        ensures
            sections@ == Seq::<Seq<NatSpecItem>>::empty(),
    {
        PositionalNatSpec::new()
    }
}

/// Collects the sections of a [`PositionalNatSpec`] one position at a time.
#[derive(Debug)]
pub struct PositionalNatSpecBuilder {
    items: Vec<NatSpecItem>,
    ranges: Vec<(usize, usize)>,
}

impl View for PositionalNatSpecBuilder {
    type V = Seq<Seq<NatSpecItem>>;

    closed spec fn view(&self) -> Seq<Seq<NatSpecItem>> {
        sections_of(self.items@, self.ranges@)
    }
}

impl PositionalNatSpecBuilder {
    /// Whether the collected sections are consecutive ranges of the collected items.
    pub closed spec fn wf(&self) -> bool {
        consecutive_ranges(self.ranges@, self.items@.len())
    }

    /// Whether no item has been collected.
    pub closed spec fn is_blank(&self) -> bool {
        self.items@.len() == 0
    }

    /// Creates a builder with no section.
    pub fn new() -> (builder: Self)
        ensures
            builder.wf(),
            builder@ == Seq::<Seq<NatSpecItem>>::empty(),
            builder.is_blank(),
    {
        let builder = PositionalNatSpecBuilder { items: Vec::new(), ranges: Vec::new() };
        assert(builder@ =~= Seq::<Seq<NatSpecItem>>::empty());
        builder
    }

    /// Appends the section of the next position.
    pub fn push(&mut self, section: &[NatSpecItem])
        requires
            old(self).wf(),
        ensures
            final(self).wf(),
            final(self)@ == old(self)@.push(section@),
            final(self).is_blank() == (old(self).is_blank() && section@.len() == 0),
    {
        let ghost before = self@;
        let ghost old_items = self.items@;
        let start = self.items.len();
        let mut items = Vec::new();
        std::mem::swap(&mut items, &mut self.items);
        let mut i: usize = 0;
        while i < section.len()
            invariant
                0 <= i <= section@.len(),
                items@ == old_items + section@.subrange(0, i as int),
            decreases section@.len() - i,
        {
            items.push(section[i].clone());
            proof {
                assert(items@ =~= old_items + section@.subrange(0, i + 1));
            }
            i += 1;
        }
        proof {
            assert(section@.subrange(0, section@.len() as int) =~= section@);
        }
        let end = items.len();
        let mut ranges = Vec::new();
        std::mem::swap(&mut ranges, &mut self.ranges);
        let ghost old_ranges = ranges@;
        ranges.push((start, end));
        proof {
            assert forall|k: int| 0 <= k < old_ranges.len() implies old_ranges[k].1 <= old_items.len() by {
                lemma_range_bounds(old_ranges, old_items.len(), k);
            }
            assert(consecutive_ranges(ranges@, items@.len()));
            assert(sections_of(items@, ranges@) =~= before.push(section@)) by {
                assert forall|k: int| 0 <= k < old_ranges.len() implies items@.subrange(
                    old_ranges[k].0 as int,
                    old_ranges[k].1 as int,
                ) =~= old_items.subrange(old_ranges[k].0 as int, old_ranges[k].1 as int) by {
                }
                assert(items@.subrange(start as int, end as int) =~= section@);
            }
        }
        self.items = items;
        self.ranges = ranges;
    }

    /// Returns the collected sections; when no item was collected, sections for no position.
    pub fn finish(self) -> (sections: PositionalNatSpec)
        requires
            self.wf(),
        ensures
            sections@ == (if self.is_blank() { Seq::<Seq<NatSpecItem>>::empty() } else { self@ }),
    {
        if self.items.len() == 0 {
            return PositionalNatSpec::new();
        }
        proof {
            assert forall|k: int| 0 <= k < self.ranges@.len() implies (#[trigger] self.ranges@[k]).0 <= self.ranges@[k].1
                <= self.items@.len() by {
                lemma_range_bounds(self.ranges@, self.items@.len(), k);
            }
        }
        PositionalNatSpec { items: self.items, ranges: self.ranges }
    }
}

/// Validated and resolved NatSpec for an HIR item.
///
/// [`Self::items`] preserves the flat resolved representation, including the names used by
/// inherited declarations. [`Self::parameter`] and [`Self::return_`] instead align each NatSpec
/// section with the corresponding position in the current item. This keeps inherited
/// documentation correct when an override renames parameters or return values.
///
/// A local `@param` or `@return` tag replaces its entire inherited section. Each position contains
/// a slice because some item kinds permit more than one tag for the same name.
///
/// The view is the flat items, the parameter sections and the return sections.
#[derive(Debug)]
pub struct NatSpecView {
    items: Vec<NatSpecItem>,
    parameters: PositionalNatSpec,
    returns: PositionalNatSpec,
}

impl View for NatSpecView {
    type V = (Seq<NatSpecItem>, Seq<Seq<NatSpecItem>>, Seq<Seq<NatSpecItem>>);

    closed spec fn view(&self) -> (Seq<NatSpecItem>, Seq<Seq<NatSpecItem>>, Seq<Seq<NatSpecItem>>) {
        (self.items@, self.parameters@, self.returns@)
    }
}

impl NatSpecView {
    /// Creates a view from its flat items and its positional sections.
    pub fn new(items: Vec<NatSpecItem>, parameters: PositionalNatSpec, returns: PositionalNatSpec) -> (view: Self)
        ensures
            view@ == (items@, parameters@, returns@),
    {
        NatSpecView { items, parameters, returns }
    }

    /// Returns all validated and resolved NatSpec items in their flat representation.
    pub fn items(&self) -> (items: &[NatSpecItem])
        ensures
            items@ == self@.0,
    {
        self.items.as_slice()
    }

    /// Returns the NatSpec items for the parameter at `index` in the current item.
    ///
    /// Returns an empty slice when the parameter has no documentation or `index` is out of bounds.
    pub fn parameter(&self, index: usize) -> (items: &[NatSpecItem])
        ensures
            items@ == section_at(self@.1, index as int),
    {
        self.parameters.get(index)
    }

    /// Returns the NatSpec items for the return value at `index` in the current item.
    ///
    /// Returns an empty slice when the return value has no documentation or `index` is out of
    /// bounds.
    pub fn return_(&self, index: usize) -> (items: &[NatSpecItem])
        ensures
            items@ == section_at(self@.2, index as int),
    {
        self.returns.get(index)
    }
}

impl Default for NatSpecView {
    fn default() -> (view: Self)
        ensures
            view@ == (Seq::<NatSpecItem>::empty(), Seq::<Seq<NatSpecItem>>::empty(), Seq::<Seq<NatSpecItem>>::empty()),
    {
        NatSpecView { items: Vec::new(), parameters: PositionalNatSpec::new(), returns: PositionalNatSpec::new() }
    }
}

/// A selection of NatSpec items by kind.
#[derive(Clone, Copy, Debug, PartialEq, Eq, Structural)]
pub enum ItemFilter {
    /// `@param` items documenting the parameter with this name.
    Parameter(Option<Symbol>),
    /// `@return` items.
    Return,
    /// `@return` items naming this return value.
    NamedReturn(Symbol),
    /// `@return` items naming no return value.
    UnnamedReturn,
}

/// Whether `filter` selects `item`.
pub open spec fn selects(filter: ItemFilter, item: NatSpecItem) -> bool {
    match filter {
        ItemFilter::Parameter(name) => match item.kind {
            NatSpecKind::Param { name: documented } => Some(documented) == name,
            _ => false,
        },
        ItemFilter::Return => item.kind is Return,
        ItemFilter::NamedReturn(name) => item.kind == (NatSpecKind::Return { name: Some(name) }),
        ItemFilter::UnnamedReturn => item.kind == (NatSpecKind::Return { name: None }),
    }
}

/// The items that `filter` selects, in order.
pub open spec fn selected(items: Seq<NatSpecItem>, filter: ItemFilter) -> Seq<NatSpecItem> {
    items.filter(|item: NatSpecItem| selects(filter, item))
}

/// Returns copies of the items that `filter` selects, in order.
pub fn select_items(items: &[NatSpecItem], filter: ItemFilter) -> (chosen: Vec<NatSpecItem>)
    ensures
        chosen@ == selected(items@, filter),
{
    let mut chosen: Vec<NatSpecItem> = Vec::new();
    let mut i: usize = 0;
    while i < items.len()
        invariant
            0 <= i <= items@.len(),
            chosen@ == selected(items@.subrange(0, i as int), filter),
        decreases items@.len() - i,
    {
        let item = &items[i];
        let keep = match filter {
            ItemFilter::Parameter(name) => match item.kind {
                NatSpecKind::Param { name: documented } => match name {
                    Some(name) => documented == name,
                    None => false,
                },
                _ => false,
            },
            ItemFilter::Return => match item.kind {
                NatSpecKind::Return { .. } => true,
                _ => false,
            },
            ItemFilter::NamedReturn(name) => match item.kind {
                NatSpecKind::Return { name: Some(documented) } => documented == name,
                _ => false,
            },
            ItemFilter::UnnamedReturn => match item.kind {
                NatSpecKind::Return { name: None } => true,
                _ => false,
            },
        };
        proof {
            assert(keep == selects(filter, items@[i as int]));
            assert(items@.subrange(0, i + 1).drop_last() =~= items@.subrange(0, i as int));
            reveal(Seq::filter);
        }
        if keep {
            chosen.push(item.clone());
        }
        proof {
            assert(chosen@ =~= selected(items@.subrange(0, i + 1), filter));
        }
        i += 1;
    }
    proof {
        assert(items@.subrange(0, items@.len() as int) =~= items@);
    }
    chosen
}

/// The number of unnamed positions before `index`.
pub open spec fn unnamed_before(names: Seq<Option<Symbol>>, index: int) -> nat {
    names.subrange(0, index).filter(|name: Option<Symbol>| name is None).len()
}

/// The documentation of the parameter at `index`: the local `@param` items naming it when any
/// parameter is documented locally, otherwise the inherited section.
pub open spec fn parameter_section(
    local_items: Seq<NatSpecItem>,
    local: u8,
    inherited: Option<Seq<Seq<NatSpecItem>>>,
    names: Seq<Option<Symbol>>,
    index: int,
) -> Seq<NatSpecItem> {
    if has_flags(local, PARAM) {
        selected(local_items, ItemFilter::Parameter(names[index]))
    } else {
        match inherited {
            Some(sections) => section_at(sections, index),
            None => Seq::empty(),
        }
    }
}

/// The documentation of the return value at `index` when some return value is documented
/// locally.
///
/// When some return value is named, a named return value takes the `@return` items naming it and
/// the unnamed ones take the `@return` items naming no return value, one each, in order. Otherwise
/// the `@return` items are taken by position.
pub open spec fn local_return_section(local_items: Seq<NatSpecItem>, names: Seq<Option<Symbol>>, index: int) -> Seq<NatSpecItem> {
    let return_docs = selected(local_items, ItemFilter::Return);
    if exists|j: int| 0 <= j < names.len() && (#[trigger] names[j]) is Some {
        match names[index] {
            Some(name) => selected(return_docs, ItemFilter::NamedReturn(name)),
            None => {
                let unnamed = selected(return_docs, ItemFilter::UnnamedReturn);
                let k = unnamed_before(names, index);
                if k < unnamed.len() {
                    seq![unnamed[k as int]]
                } else {
                    Seq::empty()
                }
            },
        }
    } else if index < return_docs.len() {
        seq![return_docs[index]]
    } else {
        Seq::empty()
    }
}

/// The documentation of the return value at `index`: the local section when any return value is
/// documented locally, otherwise the inherited section.
pub open spec fn return_section(
    local_items: Seq<NatSpecItem>,
    local: u8,
    inherited: Option<Seq<Seq<NatSpecItem>>>,
    names: Seq<Option<Symbol>>,
    index: int,
) -> Seq<NatSpecItem> {
    if has_flags(local, RETURN) {
        local_return_section(local_items, names, index)
    } else {
        match inherited {
            Some(sections) => section_at(sections, index),
            None => Seq::empty(),
        }
    }
}

/// Sections as stored: sections for no position when every section is empty.
pub open spec fn stored_sections(sections: Seq<Seq<NatSpecItem>>) -> Seq<Seq<NatSpecItem>> {
    if forall|i: int| 0 <= i < sections.len() ==> (#[trigger] sections[i]).len() == 0 {
        Seq::empty()
    } else {
        sections
    }
}

/// The parameter sections of an inherited view, if any.
pub open spec fn inherited_parameters(inherited: Option<&NatSpecView>) -> Option<Seq<Seq<NatSpecItem>>> {
    match inherited {
        Some(view) => Some(view@.1),
        None => None,
    }
}

/// The return sections of an inherited view, if any.
pub open spec fn inherited_returns(inherited: Option<&NatSpecView>) -> Option<Seq<Seq<NatSpecItem>>> {
    match inherited {
        Some(view) => Some(view@.2),
        None => None,
    }
}

proof fn lemma_unnamed_before_step(names: Seq<Option<Symbol>>, index: int)
    requires
        0 <= index < names.len(),
    ensures
        unnamed_before(names, index + 1) == unnamed_before(names, index) + (if names[index] is None { 1int } else { 0int }),
{
    assert(names.subrange(0, index + 1).drop_last() =~= names.subrange(0, index));
    reveal(Seq::filter);
}

/// Aligns NatSpec sections with the parameters and return values of the documented item, whose
/// parameters and return values have the names `parameter_names` and `return_names`.
pub fn positional_sections(
    parameter_names: &[Option<Symbol>],
    return_names: &[Option<Symbol>],
    local_items: &[NatSpecItem],
    local_tags: LocalTags,
    inherited: Option<&NatSpecView>,
) -> (sections: (PositionalNatSpec, PositionalNatSpec))
    ensures
        sections.0@ == stored_sections(
            Seq::new(
                parameter_names@.len(),
                |i: int|
                    parameter_section(
                        local_items@,
                        local_tags.bits,
                        inherited_parameters(inherited),
                        parameter_names@,
                        i,
                    ),
            ),
        ),
        sections.1@ == stored_sections(
            Seq::new(
                return_names@.len(),
                |i: int| return_section(local_items@, local_tags.bits, inherited_returns(inherited), return_names@, i),
            ),
        ),
{
    let ghost parameter_target = Seq::new(
        parameter_names@.len(),
        |i: int| parameter_section(local_items@, local_tags.bits, inherited_parameters(inherited), parameter_names@, i),
    );
    let mut parameters = PositionalNatSpecBuilder::new();
    let local_parameters = local_tags.contains(PARAM);
    let mut index: usize = 0;
    while index < parameter_names.len()
        invariant
            0 <= index <= parameter_names@.len(),
            local_parameters == has_flags(local_tags.bits, PARAM),
            parameters.wf(),
            parameters@ == parameter_target.subrange(0, index as int),
            parameters.is_blank() == forall|k: int| 0 <= k < index ==> (#[trigger] parameter_target[k]).len() == 0,
            parameter_target == Seq::new(
                parameter_names@.len(),
                |i: int| parameter_section(local_items@, local_tags.bits, inherited_parameters(inherited), parameter_names@, i),
            ),
        decreases parameter_names@.len() - index,
    {
        if local_parameters {
            let section = select_items(local_items, ItemFilter::Parameter(parameter_names[index]));
            parameters.push(section.as_slice());
        } else {
            match inherited {
                Some(view) => {
                    parameters.push(view.parameter(index));
                },
                None => {
                    let none: Vec<NatSpecItem> = Vec::new();
                    parameters.push(none.as_slice());
                },
            }
        }
        proof {
            assert(parameters@ =~= parameter_target.subrange(0, index + 1));
            assert(parameters@.last() == parameter_target[index as int]);
            assert((forall|k: int| 0 <= k < index + 1 ==> (#[trigger] parameter_target[k]).len() == 0) == ((forall|k: int|
                0 <= k < index ==> (#[trigger] parameter_target[k]).len() == 0) && parameter_target[index as int].len() == 0));
        }
        index += 1;
    }
    proof {
        assert(parameter_target.subrange(0, parameter_names@.len() as int) =~= parameter_target);
    }
    let parameter_sections = parameters.finish();

    let ghost return_target = Seq::new(
        return_names@.len(),
        |i: int| return_section(local_items@, local_tags.bits, inherited_returns(inherited), return_names@, i),
    );
    let local_returns = local_tags.contains(RETURN);
    let return_items = select_items(local_items, ItemFilter::Return);
    let mut named_returns = false;
    let mut j: usize = 0;
    while j < return_names.len()
        invariant
            0 <= j <= return_names@.len(),
            named_returns == exists|k: int| 0 <= k < j && (#[trigger] return_names@[k]) is Some,
        decreases return_names@.len() - j,
    {
        if return_names[j].is_some() {
            named_returns = true;
        }
        j += 1;
    }
    let unnamed_items = select_items(return_items.as_slice(), ItemFilter::UnnamedReturn);
    let mut unnamed_next: usize = 0;
    let mut return_docs = PositionalNatSpecBuilder::new();
    let mut index: usize = 0;
    while index < return_names.len()
        invariant
            0 <= index <= return_names@.len(),
            local_returns == has_flags(local_tags.bits, RETURN),
            return_items@ == selected(local_items@, ItemFilter::Return),
            unnamed_items@ == selected(return_items@, ItemFilter::UnnamedReturn),
            named_returns == exists|k: int| 0 <= k < return_names@.len() && (#[trigger] return_names@[k]) is Some,
            unnamed_next == unnamed_before(return_names@, index as int),
            return_docs.wf(),
            return_docs@ == return_target.subrange(0, index as int),
            return_docs.is_blank() == forall|k: int| 0 <= k < index ==> (#[trigger] return_target[k]).len() == 0,
            return_target == Seq::new(
                return_names@.len(),
                |i: int| return_section(local_items@, local_tags.bits, inherited_returns(inherited), return_names@, i),
            ),
        decreases return_names@.len() - index,
    {
        proof {
            lemma_unnamed_before_step(return_names@, index as int);
            assert(unnamed_before(return_names@, index as int) <= index) by {
                assert(return_names@.subrange(0, index as int).filter(|name: Option<Symbol>| name is None).len()
                    <= return_names@.subrange(0, index as int).len()) by {
                    return_names@.subrange(0, index as int).lemma_filter_len(|name: Option<Symbol>| name is None);
                }
            }
        }
        if local_returns {
            if named_returns {
                match return_names[index] {
                    Some(name) => {
                        let section = select_items(return_items.as_slice(), ItemFilter::NamedReturn(name));
                        return_docs.push(section.as_slice());
                    },
                    None => {
                        let mut section: Vec<NatSpecItem> = Vec::new();
                        if unnamed_next < unnamed_items.len() {
                            section.push(unnamed_items[unnamed_next].clone());
                        }
                        proof {
                            assert(section@ =~= return_target[index as int]);
                        }
                        return_docs.push(section.as_slice());
                    },
                }
            } else {
                let mut section: Vec<NatSpecItem> = Vec::new();
                if index < return_items.len() {
                    section.push(return_items[index].clone());
                }
                proof {
                    assert(section@ =~= return_target[index as int]);
                }
                return_docs.push(section.as_slice());
            }
        } else {
            match inherited {
                Some(view) => {
                    return_docs.push(view.return_(index));
                },
                None => {
                    let none: Vec<NatSpecItem> = Vec::new();
                    return_docs.push(none.as_slice());
                },
            }
        }
        if return_names[index].is_none() {
            unnamed_next += 1;
        }
        proof {
            assert(return_docs@ =~= return_target.subrange(0, index + 1));
            assert(return_docs@.last() == return_target[index as int]);
            assert((forall|k: int| 0 <= k < index + 1 ==> (#[trigger] return_target[k]).len() == 0) == ((forall|k: int|
                0 <= k < index ==> (#[trigger] return_target[k]).len() == 0) && return_target[index as int].len() == 0));
        }
        index += 1;
    }
    proof {
        assert(return_target.subrange(0, return_names@.len() as int) =~= return_target);
    }
    (parameter_sections, return_docs.finish())
}

/// The resolved view of an item: its flat `items`, of which the first `local_len` are the item's
/// own, with sections aligned with the item's parameters and return values.
pub fn resolve_view(
    items: Vec<NatSpecItem>,
    local_len: usize,
    local_tags: LocalTags,
    inherited: Option<&NatSpecView>,
    parameter_names: &[Option<Symbol>],
    return_names: &[Option<Symbol>],
) -> (view: NatSpecView)
    requires
        local_len <= items@.len(),
    ensures
        view@.0 == items@,
        view@.1 == stored_sections(
            Seq::new(
                parameter_names@.len(),
                |i: int|
                    parameter_section(
                        items@.subrange(0, local_len as int),
                        local_tags.bits,
                        inherited_parameters(inherited),
                        parameter_names@,
                        i,
                    ),
            ),
        ),
        view@.2 == stored_sections(
            Seq::new(
                return_names@.len(),
                |i: int|
                    return_section(
                        items@.subrange(0, local_len as int),
                        local_tags.bits,
                        inherited_returns(inherited),
                        return_names@,
                        i,
                    ),
            ),
        ),
{
    let (parameters, return_sections) = positional_sections(
        parameter_names,
        return_names,
        &items.as_slice()[0..local_len],
        local_tags,
        inherited,
    );
    NatSpecView { items, parameters, returns: return_sections }
}

/// The audience of a documentation output.
#[derive(Clone, Copy, Debug, PartialEq, Eq, Structural)]
pub enum DocumentationKind {
    /// User documentation, from `@notice` tags.
    User,
    /// Developer documentation, from `@dev`, `@param`, `@return` and similar tags.
    Dev,
}

/// The concatenated contents of the items marked in `chosen`.
pub open spec fn concat_chosen(items: Seq<NatSpecItem>, chosen: Seq<bool>) -> Seq<char>
    decreases items.len(),
{
    if items.len() == 0 {
        Seq::empty()
    } else {
        concat_chosen(items.drop_last(), chosen.drop_last()) + if chosen.last() {
            items.last().content@
        } else {
            Seq::empty()
        }
    }
}

/// Whether `matches` may answer `chosen` for the kind of each item.
pub open spec fn chosen_kinds<F: Fn(NatSpecKind) -> bool>(items: Seq<NatSpecItem>, chosen: Seq<bool>, matches: F) -> bool {
    &&& chosen.len() == items.len()
    &&& forall|i: int| 0 <= i < items.len() ==> #[trigger] matches.ensures((items[i].kind,), chosen[i])
}

/// The concatenated contents of the items whose kind `matches` accepts, or `None` when that text
/// is empty.
pub fn natspec_text<F: Fn(NatSpecKind) -> bool>(items: &[NatSpecItem], matches: F) -> (text: Option<String>)
    requires
        forall|kind: NatSpecKind| matches.requires((kind,)),
    ensures
        exists|chosen: Seq<bool>|
            #[trigger] chosen_kinds(items@, chosen, matches) && match text {
                Some(text) => text@ == concat_chosen(items@, chosen) && text@.len() > 0,
                None => concat_chosen(items@, chosen).len() == 0,
            },
{
    let mut text = String::new();
    let ghost mut chosen: Seq<bool> = Seq::empty();
    let mut i: usize = 0;
    while i < items.len()
        invariant
            0 <= i <= items@.len(),
            forall|kind: NatSpecKind| matches.requires((kind,)),
            chosen_kinds(items@.subrange(0, i as int), chosen, matches),
            text@ == concat_chosen(items@.subrange(0, i as int), chosen),
        decreases items@.len() - i,
    {
        let take = matches(items[i].kind);
        if take {
            text.append(items[i].content.as_str());
        }
        proof {
            let prev = chosen;
            chosen = chosen.push(take);
            let next = items@.subrange(0, i + 1);
            assert(next.drop_last() =~= items@.subrange(0, i as int));
            assert(chosen.drop_last() =~= prev);
            assert forall|k: int| 0 <= k < next.len() implies #[trigger] matches.ensures((next[k].kind,), chosen[k]) by {
                if k < i {
                    assert(next[k] == items@.subrange(0, i as int)[k]);
                }
            }
        }
        i += 1;
    }
    proof {
        assert(items@.subrange(0, items@.len() as int) =~= items@);
    }
    if text.as_str().is_empty() {
        None
    } else {
        Some(text)
    }
}

/// Appends `content` to the text in `target`, starting from empty text when there is none.
pub fn append_doc(target: &mut Option<String>, content: &str)
    ensures
        match *final(target) {
            Some(text) => text@ == (match *old(target) {
                Some(previous) => previous@,
                None => Seq::<char>::empty(),
            }) + content@,
            None => false,
        },
{
    match target {
        Some(text) => {
            text.append(content);
        },
        None => {
            let mut text = String::new();
            text.append(content);
            *target = Some(text);
        },
    }
}

/// Whether `tags` are the local tags of `items`.
pub open spec fn local_tags_of(tags: LocalTags, items: Seq<NatSpecItem>) -> bool {
    forall|flag: u8| #[trigger] is_local_flag(flag) ==> (has_flags(tags.bits, flag) <==> exists|i: int|
        0 <= i < items.len() && #[trigger] local_flag(items[i].kind) == flag)
}

/// The NatSpec of an item after `@inheritdoc` expansion: the item's own validated items followed
/// by the inherited ones it does not override.
#[derive(Debug)]
pub struct ResolvedNatSpec {
    items: Vec<NatSpecItem>,
    local_len: usize,
    local_tags: LocalTags,
    inheritdoc_target: Option<(Span, ItemId)>,
}

impl ResolvedNatSpec {
    #[verifier::type_invariant]
    closed spec fn local_prefix(self) -> bool {
        self.local_len <= self.items@.len()
    }

    /// The resolved items.
    pub closed spec fn spec_items(&self) -> Seq<NatSpecItem> {
        self.items@
    }

    /// The number of leading items that are the item's own.
    pub closed spec fn spec_local_len(&self) -> nat {
        self.local_len as nat
    }

    /// The tags the item documents itself.
    pub closed spec fn spec_local_tags(&self) -> LocalTags {
        self.local_tags
    }

    /// The `@inheritdoc` tag's span and the item it inherits from.
    pub closed spec fn spec_inheritdoc_target(&self) -> Option<(Span, ItemId)> {
        self.inheritdoc_target
    }

    /// Resolves the NatSpec of an item from its validated `local_items`, its `@inheritdoc`
    /// target, and the resolved items of that target.
    pub fn resolve_item(
        local_items: Vec<NatSpecItem>,
        inheritdoc_target: Option<(Span, ItemId)>,
        inherited: Option<&[NatSpecItem]>,
    ) -> (resolved: Self)
        ensures
            resolved.spec_local_len() == local_items@.len(),
            local_tags_of(resolved.spec_local_tags(), local_items@),
            resolved.spec_inheritdoc_target() == inheritdoc_target,
            resolved.spec_items() == (match inherited {
                Some(inherited) => local_items@ + inherited@.filter(
                    |item: NatSpecItem| should_inherit(resolved.spec_local_tags().bits, item.kind),
                ),
                None => local_items@,
            }),
    {
        let local_tags = LocalTags::from_items(local_items.as_slice());
        let local_len = local_items.len();
        let items = match inherited {
            Some(inherited) => merge_natspec_tags(local_items.as_slice(), local_tags, inherited),
            None => local_items,
        };
        ResolvedNatSpec { items, local_len, local_tags, inheritdoc_target }
    }

    /// Returns the resolved items.
    pub fn items(&self) -> (items: &[NatSpecItem])
        ensures
            items@ == self.spec_items(),
    {
        self.items.as_slice()
    }

    /// Returns the `@inheritdoc` tag's span and the item it inherits from.
    pub fn inheritdoc_target(&self) -> (target: Option<(Span, ItemId)>)
        ensures
            target == self.spec_inheritdoc_target(),
    {
        self.inheritdoc_target
    }

    /// The resolved view of the item, whose parameters and return values have the names
    /// `parameter_names` and `return_names`, given the view of the item it inherits from.
    pub fn view(
        &self,
        inherited: Option<&NatSpecView>,
        parameter_names: &[Option<Symbol>],
        return_names: &[Option<Symbol>],
    ) -> (view: NatSpecView)
        ensures
            view@.0 == self.spec_items(),
            view@.1 == stored_sections(
                Seq::new(
                    parameter_names@.len(),
                    |i: int|
                        parameter_section(
                            self.spec_items().subrange(0, self.spec_local_len() as int),
                            self.spec_local_tags().bits,
                            inherited_parameters(inherited),
                            parameter_names@,
                            i,
                        ),
                ),
            ),
            view@.2 == stored_sections(
                Seq::new(
                    return_names@.len(),
                    |i: int|
                        return_section(
                            self.spec_items().subrange(0, self.spec_local_len() as int),
                            self.spec_local_tags().bits,
                            inherited_returns(inherited),
                            return_names@,
                            i,
                        ),
                ),
            ),
    {
        proof {
            use_type_invariant(self);
        }
        resolve_view(
            copy_items(self.items.as_slice()),
            self.local_len,
            self.local_tags,
            inherited,
            parameter_names,
            return_names,
        )
    }
}

/// The text of `symbol`, where `symbols[i]` is the text of the symbol with index `i`.
pub open spec fn symbol_text(symbols: Seq<String>, symbol: Symbol) -> Seq<char> {
    symbols[symbol.0 as int]@
}

/// Whether every symbol that names a parameter, a custom tag or a return value of `items` has a
/// text in `symbols`.
pub open spec fn symbols_known(items: Seq<NatSpecItem>, symbols: Seq<String>) -> bool {
    forall|i: int|
        0 <= i < items.len() ==> match #[trigger] items[i].kind {
            NatSpecKind::Param { name } => name.0 < symbols.len(),
            NatSpecKind::Custom { name } => name.0 < symbols.len(),
            _ => true,
        }
}

/// An ordered map from keys to texts, as key and text views.
pub open spec fn entry_views(entries: Seq<(String, String)>) -> Seq<(Seq<char>, Seq<char>)> {
    entries.map_values(|entry: (String, String)| (entry.0@, entry.1@))
}

/// Whether `position` is the first entry with `key`.
pub open spec fn first_with_key(entries: Seq<(Seq<char>, Seq<char>)>, key: Seq<char>, position: int) -> bool {
    &&& 0 <= position < entries.len()
    &&& entries[position].0 == key
    &&& forall|j: int| 0 <= j < position ==> (#[trigger] entries[j]).0 != key
}

/// The entries with `content` appended to the text of `key`, which is added with that content at
/// the end when absent.
pub open spec fn append_entry(entries: Seq<(Seq<char>, Seq<char>)>, key: Seq<char>, content: Seq<char>) -> Seq<(Seq<char>, Seq<char>)> {
    if exists|position: int| first_with_key(entries, key, position) {
        let position = choose|position: int| first_with_key(entries, key, position);
        entries.update(position, (key, entries[position].1 + content))
    } else {
        entries.push((key, content))
    }
}

/// The entries with the text of `key` replaced by `text`, which is added at the end when absent.
pub open spec fn insert_entry(entries: Seq<(Seq<char>, Seq<char>)>, key: Seq<char>, text: Seq<char>) -> Seq<(Seq<char>, Seq<char>)> {
    if exists|position: int| first_with_key(entries, key, position) {
        let position = choose|position: int| first_with_key(entries, key, position);
        entries.update(position, (key, text))
    } else {
        entries.push((key, text))
    }
}

proof fn lemma_first_with_key_unique(entries: Seq<(Seq<char>, Seq<char>)>, key: Seq<char>, p: int, q: int)
    requires
        first_with_key(entries, key, p),
        first_with_key(entries, key, q),
    ensures
        p == q,
{
    if p < q {
        assert(entries[p].0 != key);
    } else if q < p {
        assert(entries[q].0 != key);
    }
}

/// Returns the position of the first entry with `key`, if any.
fn find_entry(entries: &Vec<(String, String)>, key: &String) -> (position: Option<usize>)
    ensures
        match position {
            Some(p) => first_with_key(entry_views(entries@), key@, p as int),
            None => !exists|p: int| first_with_key(entry_views(entries@), key@, p),
        },
{
    let mut i: usize = 0;
    while i < entries.len()
        invariant
            0 <= i <= entries@.len(),
            forall|j: int| 0 <= j < i ==> (#[trigger] entry_views(entries@)[j]).0 != key@,
        decreases entries@.len() - i,
    {
        if entries[i].0 == *key {
            proof {
                assert(entry_views(entries@)[i as int].0 == key@);
            }
            return Some(i);
        }
        proof {
            assert(entry_views(entries@)[i as int].0 != key@);
        }
        i += 1;
    }
    proof {
        if exists|p: int| first_with_key(entry_views(entries@), key@, p) {
            let p = choose|p: int| first_with_key(entry_views(entries@), key@, p);
            assert(entry_views(entries@)[p].0 != key@);
        }
    }
    None
}

/// Appends `content` to the text of `key` in `entries`, adding the key at the end when absent.
fn append_to_entry(entries: &mut Vec<(String, String)>, key: String, content: &str)
    ensures
        entry_views(final(entries)@) == append_entry(entry_views(old(entries)@), key@, content@),
{
    let ghost before = entry_views(entries@);
    match find_entry(entries, &key) {
        Some(p) => {
            let mut text = entries[p].1.clone();
            text.append(content);
            proof {
                lemma_first_with_key_unique_choice(before, key@, p as int);
            }
            entries.set(p, (key, text));
            proof {
                assert(entry_views(entries@) =~= before.update(p as int, (key@, before[p as int].1 + content@)));
            }
        },
        None => {
            let mut text = String::new();
            text.append(content);
            entries.push((key, text));
            proof {
                assert(entry_views(entries@) =~= before.push((key@, content@)));
            }
        },
    }
}

/// Sets the text of `key` in `entries` to `text`, adding the key at the end when absent.
fn insert_into_entries(entries: &mut Vec<(String, String)>, key: String, text: String)
    ensures
        entry_views(final(entries)@) == insert_entry(entry_views(old(entries)@), key@, text@),
{
    let ghost before = entry_views(entries@);
    match find_entry(entries, &key) {
        Some(p) => {
            proof {
                lemma_first_with_key_unique_choice(before, key@, p as int);
            }
            let ghost text_view = text@;
            entries.set(p, (key, text));
            proof {
                assert(entry_views(entries@) =~= before.update(p as int, (key@, text_view)));
            }
        },
        None => {
            let ghost text_view = text@;
            entries.push((key, text));
            proof {
                assert(entry_views(entries@) =~= before.push((key@, text_view)));
            }
        },
    }
}

proof fn lemma_first_with_key_unique_choice(entries: Seq<(Seq<char>, Seq<char>)>, key: Seq<char>, p: int)
    requires
        first_with_key(entries, key, p),
    ensures
        (choose|position: int| first_with_key(entries, key, position)) == p,
{
    let q = choose|position: int| first_with_key(entries, key, position);
    lemma_first_with_key_unique(entries, key, p, q);
}

/// Documentation of one item in solc's `userdoc` and `devdoc` output fields.
#[derive(Debug)]
pub struct DocumentationItem {
    /// The `@notice` text.
    pub notice: Option<String>,
    /// The `@author` text.
    pub author: Option<String>,
    /// The `@dev` text.
    pub details: Option<String>,
    /// The `@param` texts by parameter name.
    pub params: Option<Vec<(String, String)>>,
    /// The `@return` text of a state variable.
    pub return_: Option<String>,
    /// The `@return` texts by return value name.
    pub returns: Option<Vec<(String, String)>>,
    /// The `@custom:` texts by tag.
    pub custom: Option<Vec<(String, String)>>,
}

/// The text of an optional text, empty when absent.
pub open spec fn text_or_empty(text: Option<String>) -> Seq<char> {
    match text {
        Some(text) => text@,
        None => Seq::empty(),
    }
}

/// The entries of an optional map, empty when absent.
pub open spec fn entries_or_empty(entries: Option<Vec<(String, String)>>) -> Seq<(Seq<char>, Seq<char>)> {
    match entries {
        Some(entries) => entry_views(entries@),
        None => Seq::empty(),
    }
}

/// The developer documentation gathered from `items`: the concatenated `@author` and `@dev`
/// texts, and the `@param` and `@custom:` texts by name, each `None` when no item contributed.
pub open spec fn dev_doc_of(items: Seq<NatSpecItem>, symbols: Seq<String>) -> (
    Option<Seq<char>>,
    Option<Seq<char>>,
    Option<Seq<(Seq<char>, Seq<char>)>>,
    Option<Seq<(Seq<char>, Seq<char>)>>,
)
    decreases items.len(),
{
    if items.len() == 0 {
        (None, None, None, None)
    } else {
        let (author, details, params, custom) = dev_doc_of(items.drop_last(), symbols);
        let item = items.last();
        let text = |previous: Option<Seq<char>>|
            match previous {
                Some(previous) => previous,
                None => Seq::<char>::empty(),
            };
        let entries = |previous: Option<Seq<(Seq<char>, Seq<char>)>>|
            match previous {
                Some(previous) => previous,
                None => Seq::<(Seq<char>, Seq<char>)>::empty(),
            };
        match item.kind {
            NatSpecKind::Author => (Some(text(author) + item.content@), details, params, custom),
            NatSpecKind::Dev => (author, Some(text(details) + item.content@), params, custom),
            NatSpecKind::Param { name } => (
                author,
                details,
                Some(append_entry(entries(params), symbol_text(symbols, name), item.content@)),
                custom,
            ),
            NatSpecKind::Custom { name } => (
                author,
                details,
                params,
                Some(append_entry(entries(custom), "custom:"@ + symbol_text(symbols, name), item.content@)),
            ),
            _ => (author, details, params, custom),
        }
    }
}

/// The text view of an optional text.
pub open spec fn text_view(text: Option<String>) -> Option<Seq<char>> {
    match text {
        Some(text) => Some(text@),
        None => None,
    }
}

/// The entry views of an optional map.
pub open spec fn entries_view(entries: Option<Vec<(String, String)>>) -> Option<Seq<(Seq<char>, Seq<char>)>> {
    match entries {
        Some(entries) => Some(entry_views(entries@)),
        None => None,
    }
}

impl DocumentationItem {
    /// Documentation with no text.
    pub fn new() -> (item: Self)
        ensures
            item.notice is None && item.author is None && item.details is None && item.params is None
                && item.return_ is None && item.returns is None && item.custom is None,
    {
        DocumentationItem {
            notice: None,
            author: None,
            details: None,
            params: None,
            return_: None,
            returns: None,
            custom: None,
        }
    }

    /// Returns whether the documentation has no text at all.
    pub fn is_empty(&self) -> (empty: bool)
        ensures
            empty == (self.notice is None && self.author is None && self.details is None && self.params is None
                && self.return_ is None && self.returns is None && self.custom is None),
    {
        self.notice.is_none() && self.author.is_none() && self.details.is_none() && self.params.is_none()
            && self.return_.is_none() && self.returns.is_none() && self.custom.is_none()
    }
}

/// Appends `content` under `key` in the optional map `target`, creating the map when absent.
fn append_to_map(target: &mut Option<Vec<(String, String)>>, key: String, content: &str)
    ensures
        entries_view(*final(target)) == Some(append_entry(entries_or_empty(*old(target)), key@, content@)),
{
    let mut entries = match target.take() {
        Some(entries) => entries,
        None => Vec::new(),
    };
    proof {
        assert(entry_views(Seq::<(String, String)>::empty()) =~= Seq::<(Seq<char>, Seq<char>)>::empty());
    }
    append_to_entry(&mut entries, key, content);
    *target = Some(entries);
}

/// The developer documentation of one item: the `@author`, `@dev`, `@param` and `@custom:`
/// texts of `items`, where `symbols[i]` is the text of the symbol with index `i`.
pub fn dev_doc_item(items: &[NatSpecItem], symbols: &[String]) -> (documentation: DocumentationItem)
    requires
        symbols_known(items@, symbols@),
    ensures
        (
            text_view(documentation.author),
            text_view(documentation.details),
            entries_view(documentation.params),
            entries_view(documentation.custom),
        ) == dev_doc_of(items@, symbols@),
        documentation.notice is None,
        documentation.return_ is None,
        documentation.returns is None,
{
    let mut documentation = DocumentationItem::new();
    let mut i: usize = 0;
    while i < items.len()
        invariant
            0 <= i <= items@.len(),
            symbols_known(items@, symbols@),
            documentation.notice is None,
            documentation.return_ is None,
            documentation.returns is None,
            (
                text_view(documentation.author),
                text_view(documentation.details),
                entries_view(documentation.params),
                entries_view(documentation.custom),
            ) == dev_doc_of(items@.subrange(0, i as int), symbols@),
        decreases items@.len() - i,
    {
        let item = &items[i];
        proof {
            let prefix = items@.subrange(0, i + 1);
            assert(prefix.drop_last() =~= items@.subrange(0, i as int));
            assert(prefix.last() == items@[i as int]);
        }
        match item.kind {
            NatSpecKind::Author => {
                append_doc(&mut documentation.author, item.content.as_str());
            },
            NatSpecKind::Dev => {
                append_doc(&mut documentation.details, item.content.as_str());
            },
            NatSpecKind::Param { name } => {
                proof {
                    assert(name.0 < symbols@.len());
                }
                let key = symbols[name.0 as usize].clone();
                append_to_map(&mut documentation.params, key, item.content.as_str());
            },
            NatSpecKind::Custom { name } => {
                proof {
                    assert(name.0 < symbols@.len());
                }
                let mut key = String::from_str("custom:");
                key.append(symbols[name.0 as usize].as_str());
                append_to_map(&mut documentation.custom, key, item.content.as_str());
            },
            _ => {},
        }
        i += 1;
    }
    proof {
        assert(items@.subrange(0, items@.len() as int) =~= items@);
    }
    documentation
}

/// The name under which the return value at `index` is documented: its declared name, or an
/// underscore followed by its position.
pub open spec fn return_name(names: Seq<Option<Symbol>>, symbols: Seq<String>, index: nat) -> Seq<char> {
    match names[index as int] {
        Some(name) => symbol_text(symbols, name),
        None => seq!['_'] + decimal(index),
    }
}

/// The documentation of return values from the first `count` `@return` items `return_items`:
/// the item at each position documents the return value there, when there is one and the item
/// has text.
pub open spec fn return_docs_of(
    return_items: Seq<NatSpecItem>,
    names: Seq<Option<Symbol>>,
    symbols: Seq<String>,
    count: nat,
) -> Seq<(Seq<char>, Seq<char>)>
    decreases count,
{
    if count == 0 || count > return_items.len() {
        Seq::empty()
    } else {
        let previous = return_docs_of(return_items, names, symbols, (count - 1) as nat);
        let index = (count - 1) as nat;
        let item = return_items[index as int];
        if index < names.len() && item.content@.len() > 0 {
            insert_entry(previous, return_name(names, symbols, index), item.content@)
        } else {
            previous
        }
    }
}

/// The documentation of the return values named `return_names` from the `@return` items of
/// `items`, or `None` when no return value is documented.
pub fn return_docs(items: &[NatSpecItem], return_names: &[Option<Symbol>], symbols: &[String]) -> (docs: Option<Vec<(String, String)>>)
    requires
        forall|i: int|
            0 <= i < return_names@.len() ==> match #[trigger] return_names@[i] {
                Some(name) => name.0 < symbols@.len(),
                None => true,
            },
    ensures
        ({
            let return_items = selected(items@, ItemFilter::Return);
            let expected = return_docs_of(return_items, return_names@, symbols@, return_items.len());
            match docs {
                Some(docs) => entry_views(docs@) == expected && expected.len() > 0,
                None => expected.len() == 0,
            }
        }),
{
    let return_items = select_items(items, ItemFilter::Return);
    let mut docs: Vec<(String, String)> = Vec::new();
    let mut index: usize = 0;
    proof {
        assert(entry_views(docs@) =~= Seq::<(Seq<char>, Seq<char>)>::empty());
    }
    while index < return_items.len()
        invariant
            0 <= index <= return_items@.len(),
            forall|i: int|
                0 <= i < return_names@.len() ==> match #[trigger] return_names@[i] {
                    Some(name) => name.0 < symbols@.len(),
                    None => true,
                },
            entry_views(docs@) == return_docs_of(return_items@, return_names@, symbols@, index as nat),
        decreases return_items@.len() - index,
    {
        let item = &return_items[index];
        if index < return_names.len() && !item.content.as_str().is_empty() {
            let name = match return_names[index] {
                Some(name) => symbols[name.0 as usize].clone(),
                None => {
                    let mut name = String::new();
                    push_char(&mut name, '_');
                    append_decimal(&mut name, index);
                    name
                },
            };
            proof {
                assert(name@ == return_name(return_names@, symbols@, index as nat)) by {
                    if return_names@[index as int] is None {
                        assert(name@ =~= seq!['_'] + decimal(index as nat));
                    }
                }
            }
            insert_into_entries(&mut docs, name, item.content.clone());
        }
        index += 1;
    }
    if docs.len() == 0 {
        None
    } else {
        Some(docs)
    }
}

/// A tag named in a NatSpec diagnostic.
#[derive(Clone, Copy, Debug, PartialEq, Eq, Structural)]
pub enum NatSpecTag {
    /// `@title`
    Title,
    /// `@author`
    Author,
    /// `@inheritdoc`
    Inheritdoc,
    /// `@param`
    Param,
    /// `@return`
    Return,
}

/// Why the contract named by `@inheritdoc` cannot be inherited from.
#[derive(Clone, Copy, Debug, PartialEq, Eq, Structural)]
pub enum InheritdocError {
    /// No contract of that name is visible in the source.
    UnknownContract,
    /// The contract is not a base of the item's contract.
    NotABase,
    /// The contract has no item that the documented item overrides.
    NoMatchingItem,
}

/// A problem found while validating the NatSpec of an item.
#[derive(Clone, Copy, Debug, PartialEq, Eq, Structural)]
pub enum NatSpecError {
    /// The tag is not valid for this kind of item.
    ForbiddenTag {
        /// The tag.
        tag: NatSpecTag,
        /// Where the tag is.
        span: Span,
    },
    /// The tag can only be given once.
    DuplicateTag {
        /// The tag.
        tag: NatSpecTag,
        /// Where the repeated tag is.
        span: Span,
    },
    /// The parameter is documented twice.
    DuplicateParam {
        /// The parameter.
        name: Symbol,
        /// Where the repeated tag is.
        span: Span,
        /// Where the parameter was documented first.
        previous: Span,
    },
    /// The parameter does not exist.
    UnknownParam {
        /// The documented name.
        name: Symbol,
        /// Where the tag is.
        span: Span,
    },
    /// There are more `@return` tags than return values.
    TooManyReturns {
        /// The number of return values.
        expected: usize,
        /// The number of `@return` tags so far.
        found: usize,
        /// Where the extra tag is.
        span: Span,
    },
    /// The `@return` tag does not name its return value.
    ReturnWithoutName {
        /// Where the tag is.
        span: Span,
    },
    /// The `@return` tag names a return value that does not exist.
    UnknownReturn {
        /// The documented name.
        name: Symbol,
        /// Where the tag is.
        span: Span,
    },
    /// The `@inheritdoc` tag names a contract that cannot be inherited from.
    Inheritdoc {
        /// Why.
        error: InheritdocError,
        /// The named contract.
        contract: Symbol,
        /// Where the tag is.
        span: Span,
    },
}

/// What validation knows about the documented item beyond its kind.
#[derive(Debug)]
pub struct ItemFacts {
    /// The names of the item's named parameters.
    pub parameter_names: Vec<Symbol>,
    /// The number of the item's return values.
    pub return_count: usize,
    /// Whether the item is a state variable that is not public.
    pub private_variable: bool,
    /// The resolution of each contract that an `@inheritdoc` tag may name.
    pub inheritdoc: Vec<(Symbol, Result<ItemId, InheritdocError>)>,
    /// The lowering of the `@return` tag for each return position: the tag with the return value's
    /// name, or why it does not document that value.
    pub lowered_returns: Vec<Result<NatSpecItem, NatSpecError>>,
}

/// The state of NatSpec validation after some tags.
pub struct ValidationState {
    /// Whether `@title` was accepted.
    pub seen_title: bool,
    /// Whether `@inheritdoc` was accepted.
    pub seen_inheritdoc: bool,
    /// The documented parameters, with their first tags' spans.
    pub seen_params: Seq<(Symbol, Span)>,
    /// The number of `@return` tags counted.
    pub return_count: nat,
    /// The accepted tags.
    pub local: Seq<NatSpecItem>,
    /// The `@inheritdoc` tag's span and the item it inherits from.
    pub inheritdoc: Option<(Span, ItemId)>,
    /// The problems found.
    pub errors: Seq<NatSpecError>,
}

/// The resolution recorded for `contract`, the first one when there are several.
pub open spec fn resolution_of(table: Seq<(Symbol, Result<ItemId, InheritdocError>)>, contract: Symbol) -> Result<ItemId, InheritdocError> {
    let i = choose|i: int| 0 <= i < table.len() && table[i].0 == contract && forall|j: int| 0 <= j < i ==> (#[trigger] table[j]).0 != contract;
    table[i].1
}

/// Whether `table` resolves `contract`.
pub open spec fn resolves(table: Seq<(Symbol, Result<ItemId, InheritdocError>)>, contract: Symbol) -> bool {
    exists|i: int| 0 <= i < table.len() && #[trigger] table[i].0 == contract
}

/// The span of the first tag documenting `name`, if any.
pub open spec fn first_param_span(seen: Seq<(Symbol, Span)>, name: Symbol) -> Option<Span>
    decreases seen.len(),
{
    if seen.len() == 0 {
        None
    } else if seen[0].0 == name {
        Some(seen[0].1)
    } else {
        first_param_span(seen.drop_first(), name)
    }
}

/// The validation state after one more tag `item` of an item of kind `item_id`.
pub open spec fn validation_step(
    state: ValidationState,
    item: NatSpecItem,
    item_id: ItemId,
    facts_params: Seq<Symbol>,
    facts_returns: nat,
    private_variable: bool,
    inheritdoc: Seq<(Symbol, Result<ItemId, InheritdocError>)>,
    lowered: Seq<Result<NatSpecItem, NatSpecError>>,
) -> ValidationState {
    let permissions = permissions_of(item_id);
    let span = item.span;
    match item.kind {
        NatSpecKind::Title => if !has_flags(permissions, TITLE_AUTHOR) {
            ValidationState { errors: state.errors.push(NatSpecError::ForbiddenTag { tag: NatSpecTag::Title, span }), ..state }
        } else if state.seen_title {
            ValidationState { errors: state.errors.push(NatSpecError::DuplicateTag { tag: NatSpecTag::Title, span }), ..state }
        } else {
            ValidationState { seen_title: true, local: state.local.push(item), ..state }
        },
        NatSpecKind::Author => if !has_flags(permissions, TITLE_AUTHOR) {
            ValidationState { errors: state.errors.push(NatSpecError::ForbiddenTag { tag: NatSpecTag::Author, span }), ..state }
        } else {
            ValidationState { local: state.local.push(item), ..state }
        },
        NatSpecKind::Inheritdoc { contract } => if !has_flags(permissions, INHERITDOC) {
            ValidationState {
                errors: state.errors.push(NatSpecError::ForbiddenTag { tag: NatSpecTag::Inheritdoc, span }),
                ..state
            }
        } else if state.seen_inheritdoc {
            ValidationState {
                errors: state.errors.push(NatSpecError::DuplicateTag { tag: NatSpecTag::Inheritdoc, span }),
                ..state
            }
        } else {
            match resolution_of(inheritdoc, contract) {
                Ok(target) => ValidationState {
                    seen_inheritdoc: true,
                    local: state.local.push(item),
                    inheritdoc: Some((span, target)),
                    ..state
                },
                Err(error) => ValidationState {
                    seen_inheritdoc: true,
                    errors: state.errors.push(NatSpecError::Inheritdoc { error, contract, span }),
                    ..state
                },
            }
        },
        NatSpecKind::Param { name } => if !has_flags(permissions, PARAM_PERMITTED) {
            ValidationState { errors: state.errors.push(NatSpecError::ForbiddenTag { tag: NatSpecTag::Param, span }), ..state }
        } else if item_id is Struct {
            ValidationState { local: state.local.push(item), ..state }
        } else {
            match first_param_span(state.seen_params, name) {
                Some(previous) => ValidationState {
                    errors: state.errors.push(NatSpecError::DuplicateParam { name, span, previous }),
                    ..state
                },
                None => {
                    let seen_params = state.seen_params.push((name, span));
                    if facts_params.contains(name) {
                        ValidationState { seen_params, local: state.local.push(item), ..state }
                    } else {
                        ValidationState {
                            seen_params,
                            errors: state.errors.push(NatSpecError::UnknownParam { name, span }),
                            ..state
                        }
                    }
                },
            }
        },
        NatSpecKind::Return { .. } => if !has_flags(permissions, RETURN_PERMITTED) || private_variable {
            ValidationState { errors: state.errors.push(NatSpecError::ForbiddenTag { tag: NatSpecTag::Return, span }), ..state }
        } else {
            let count = state.return_count + 1;
            if count > facts_returns {
                ValidationState {
                    return_count: count,
                    errors: state.errors.push(NatSpecError::TooManyReturns { expected: facts_returns as usize, found: count as usize, span }),
                    ..state
                }
            } else {
                match lowered[count - 1] {
                    Ok(lowered_item) => ValidationState { return_count: count, local: state.local.push(lowered_item), ..state },
                    Err(error) => ValidationState { return_count: count, errors: state.errors.push(error), ..state },
                }
            }
        },
        _ => ValidationState { local: state.local.push(item), ..state },
    }
}

/// The validation state before any tag.
pub open spec fn initial_validation() -> ValidationState {
    ValidationState {
        seen_title: false,
        seen_inheritdoc: false,
        seen_params: Seq::empty(),
        return_count: 0,
        local: Seq::empty(),
        inheritdoc: None,
        errors: Seq::empty(),
    }
}

/// The validation state after the first `count` tags of `docs` of an item of kind `item_id`.
pub open spec fn validation_of(
    docs: Seq<NatSpecItem>,
    count: nat,
    item_id: ItemId,
    facts_params: Seq<Symbol>,
    facts_returns: nat,
    private_variable: bool,
    inheritdoc: Seq<(Symbol, Result<ItemId, InheritdocError>)>,
    lowered: Seq<Result<NatSpecItem, NatSpecError>>,
) -> ValidationState
    decreases count,
{
    if count == 0 || count > docs.len() {
        initial_validation()
    } else {
        validation_step(
            validation_of(docs, (count - 1) as nat, item_id, facts_params, facts_returns, private_variable, inheritdoc, lowered),
            docs[count - 1],
            item_id,
            facts_params,
            facts_returns,
            private_variable,
            inheritdoc,
            lowered,
        )
    }
}

fn find_param_span(seen: &Vec<(Symbol, Span)>, name: Symbol) -> (span: Option<Span>)
    ensures
        span == first_param_span(seen@, name),
{
    let mut i: usize = 0;
    proof {
        assert(seen@.subrange(0, seen@.len() as int) =~= seen@);
    }
    while i < seen.len()
        invariant
            0 <= i <= seen@.len(),
            first_param_span(seen@, name) == first_param_span(seen@.subrange(i as int, seen@.len() as int), name),
        decreases seen@.len() - i,
    {
        proof {
            let rest = seen@.subrange(i as int, seen@.len() as int);
            assert(rest.drop_first() =~= seen@.subrange(i + 1, seen@.len() as int));
            assert(rest[0] == seen@[i as int]);
        }
        if seen[i].0 == name {
            return Some(seen[i].1);
        }
        i += 1;
    }
    proof {
        assert(seen@.subrange(i as int, seen@.len() as int) =~= Seq::<(Symbol, Span)>::empty());
    }
    None
}

fn contains_symbol(names: &Vec<Symbol>, name: Symbol) -> (found: bool)
    ensures
        found == names@.contains(name),
{
    let mut i: usize = 0;
    while i < names.len()
        invariant
            0 <= i <= names@.len(),
            forall|k: int| 0 <= k < i ==> names@[k] != name,
        decreases names@.len() - i,
    {
        if names[i] == name {
            proof {
                assert(names@[i as int] == name);
            }
            return true;
        }
        i += 1;
    }
    false
}

fn lookup_resolution(table: &Vec<(Symbol, Result<ItemId, InheritdocError>)>, contract: Symbol) -> (resolution: Result<ItemId, InheritdocError>)
    requires
        resolves(table@, contract),
    ensures
        resolution == resolution_of(table@, contract),
{
    let mut i: usize = 0;
    while i < table.len()
        invariant
            0 <= i <= table@.len(),
            resolves(table@, contract),
            forall|k: int| 0 <= k < i ==> (#[trigger] table@[k]).0 != contract,
        decreases table@.len() - i,
    {
        if table[i].0 == contract {
            proof {
                let chosen = choose|j: int|
                    0 <= j < table@.len() && table@[j].0 == contract && forall|m: int| 0 <= m < j ==> (#[trigger] table@[m]).0 != contract;
                assert(0 <= i < table@.len() && table@[i as int].0 == contract && forall|m: int| 0 <= m < i ==> (#[trigger] table@[m]).0 != contract);
                if chosen < i {
                    assert(table@[chosen].0 != contract);
                } else if chosen > i {
                    assert(table@[i as int].0 != contract);
                }
            }
            return table[i].1;
        }
        i += 1;
    }
    proof {
        let k = choose|k: int| 0 <= k < table@.len() && #[trigger] table@[k].0 == contract;
        assert(table@[k].0 != contract);
    }
    Err(InheritdocError::UnknownContract)
}

/// Whether every `@inheritdoc` tag of `docs` names a contract that `table` resolves.
pub open spec fn inheritdoc_resolved(docs: Seq<NatSpecItem>, table: Seq<(Symbol, Result<ItemId, InheritdocError>)>) -> bool {
    forall|i: int|
        0 <= i < docs.len() ==> match #[trigger] docs[i].kind {
            NatSpecKind::Inheritdoc { contract } => resolves(table, contract),
            _ => true,
        }
}

/// Validates the NatSpec tags `docs` of the item `item_id`.
///
/// Checks that each tag applies to the kind of item, that `@title` and `@inheritdoc` are given
/// once, that parameters are documented once and exist, and that there are no more `@return` tags
/// than return values. Returns the accepted tags, the `@inheritdoc` target, and the problems
/// found.
pub fn validate_item_natspec(docs: &[NatSpecItem], item_id: ItemId, facts: &ItemFacts) -> (validated: (
    Vec<NatSpecItem>,
    Option<(Span, ItemId)>,
    Vec<NatSpecError>,
))
    requires
        inheritdoc_resolved(docs@, facts.inheritdoc@),
        facts.lowered_returns@.len() >= facts.return_count,
    ensures
        ({
            let state = validation_of(
                docs@,
                docs@.len(),
                item_id,
                facts.parameter_names@,
                facts.return_count as nat,
                facts.private_variable,
                facts.inheritdoc@,
                facts.lowered_returns@,
            );
            &&& validated.0@ == state.local
            &&& validated.1 == state.inheritdoc
            &&& validated.2@ == state.errors
        }),
{
    let permissions = TagPermissions::from_item_id(item_id);
    let is_struct = match item_id {
        ItemId::Struct(_) => true,
        _ => false,
    };
    let mut seen_title = false;
    let mut seen_inheritdoc = false;
    let mut seen_params: Vec<(Symbol, Span)> = Vec::new();
    let mut return_count: usize = 0;
    let mut local: Vec<NatSpecItem> = Vec::new();
    let mut inheritdoc: Option<(Span, ItemId)> = None;
    let mut errors: Vec<NatSpecError> = Vec::new();
    let mut i: usize = 0;
    while i < docs.len()
        invariant
            0 <= i <= docs@.len(),
            permissions.bits == permissions_of(item_id),
            is_struct == (item_id is Struct),
            return_count <= i,
            inheritdoc_resolved(docs@, facts.inheritdoc@),
            facts.lowered_returns@.len() >= facts.return_count,
            ({
                let state = validation_of(
                    docs@,
                    i as nat,
                    item_id,
                    facts.parameter_names@,
                    facts.return_count as nat,
                    facts.private_variable,
                    facts.inheritdoc@,
                    facts.lowered_returns@,
                );
                &&& seen_title == state.seen_title
                &&& seen_inheritdoc == state.seen_inheritdoc
                &&& seen_params@ == state.seen_params
                &&& return_count == state.return_count
                &&& local@ == state.local
                &&& inheritdoc == state.inheritdoc
                &&& errors@ == state.errors
            }),
        decreases docs@.len() - i,
    {
        let natspec = &docs[i];
        let span = natspec.span;
        match natspec.kind {
            NatSpecKind::Title => {
                if !permissions.contains(TITLE_AUTHOR) {
                    errors.push(NatSpecError::ForbiddenTag { tag: NatSpecTag::Title, span });
                } else if seen_title {
                    errors.push(NatSpecError::DuplicateTag { tag: NatSpecTag::Title, span });
                } else {
                    seen_title = true;
                    local.push(natspec.clone());
                }
            },
            NatSpecKind::Author => {
                if !permissions.contains(TITLE_AUTHOR) {
                    errors.push(NatSpecError::ForbiddenTag { tag: NatSpecTag::Author, span });
                } else {
                    local.push(natspec.clone());
                }
            },
            NatSpecKind::Inheritdoc { contract } => {
                if !permissions.contains(INHERITDOC) {
                    errors.push(NatSpecError::ForbiddenTag { tag: NatSpecTag::Inheritdoc, span });
                } else if seen_inheritdoc {
                    errors.push(NatSpecError::DuplicateTag { tag: NatSpecTag::Inheritdoc, span });
                } else {
                    seen_inheritdoc = true;
                    proof {
                        assert(resolves(facts.inheritdoc@, contract));
                    }
                    match lookup_resolution(&facts.inheritdoc, contract) {
                        Ok(target) => {
                            local.push(natspec.clone());
                            inheritdoc = Some((span, target));
                        },
                        Err(error) => {
                            errors.push(NatSpecError::Inheritdoc { error, contract, span });
                        },
                    }
                }
            },
            NatSpecKind::Param { name } => {
                if !permissions.contains(PARAM_PERMITTED) {
                    errors.push(NatSpecError::ForbiddenTag { tag: NatSpecTag::Param, span });
                } else if is_struct {
                    local.push(natspec.clone());
                } else {
                    match find_param_span(&seen_params, name) {
                        Some(previous) => {
                            errors.push(NatSpecError::DuplicateParam { name, span, previous });
                        },
                        None => {
                            seen_params.push((name, span));
                            if contains_symbol(&facts.parameter_names, name) {
                                local.push(natspec.clone());
                            } else {
                                errors.push(NatSpecError::UnknownParam { name, span });
                            }
                        },
                    }
                }
            },
            NatSpecKind::Return { .. } => {
                if !permissions.contains(RETURN_PERMITTED) || facts.private_variable {
                    errors.push(NatSpecError::ForbiddenTag { tag: NatSpecTag::Return, span });
                } else {
                    return_count += 1;
                    if return_count > facts.return_count {
                        errors.push(
                            NatSpecError::TooManyReturns { expected: facts.return_count, found: return_count, span },
                        );
                    } else {
                        match &facts.lowered_returns[return_count - 1] {
                            Ok(lowered) => {
                                local.push(lowered.clone());
                            },
                            Err(error) => {
                                errors.push(*error);
                            },
                        }
                    }
                }
            },
            _ => {
                local.push(natspec.clone());
            },
        }
        i += 1;
    }
    (local, inheritdoc, errors)
}

/// The accepted `@title` tags.
pub open spec fn titles(items: Seq<NatSpecItem>) -> Seq<NatSpecItem> {
    items.filter(|item: NatSpecItem| item.kind is Title)
}

/// The accepted `@inheritdoc` tags.
pub open spec fn inheritdocs(items: Seq<NatSpecItem>) -> Seq<NatSpecItem> {
    items.filter(|item: NatSpecItem| item.kind is Inheritdoc)
}

proof fn lemma_filter_push(items: Seq<NatSpecItem>, item: NatSpecItem, keep: spec_fn(NatSpecItem) -> bool)
    ensures
        items.push(item).filter(keep) == if keep(item) {
            items.filter(keep).push(item)
        } else {
            items.filter(keep)
        },
{
    reveal(Seq::filter);
    assert(items.push(item).drop_last() =~= items);
}

/// Validation accepts at most one `@title` and at most one `@inheritdoc` tag, however many the
/// documentation holds, when the lowered `@return` tags are `@return` tags.
pub proof fn lemma_validation_accepts_once_only_tags_once(
    docs: Seq<NatSpecItem>,
    count: nat,
    item_id: ItemId,
    facts_params: Seq<Symbol>,
    facts_returns: nat,
    private_variable: bool,
    inheritdoc: Seq<(Symbol, Result<ItemId, InheritdocError>)>,
    lowered: Seq<Result<NatSpecItem, NatSpecError>>,
)
    requires
        forall|i: int| 0 <= i < lowered.len() ==> match #[trigger] lowered[i] {
            Ok(item) => item.kind is Return,
            Err(_) => true,
        },
        lowered.len() >= facts_returns,
    ensures
        ({
            let state = validation_of(docs, count, item_id, facts_params, facts_returns, private_variable, inheritdoc, lowered);
            &&& titles(state.local).len() <= 1
            &&& inheritdocs(state.local).len() <= 1
            &&& titles(state.local).len() == 1 <==> state.seen_title
            &&& inheritdocs(state.local).len() == 1 ==> state.seen_inheritdoc
            &&& state.return_count <= count
        }),
    decreases count,
{
    if count == 0 || count > docs.len() {
        reveal(Seq::filter);
    } else {
        let previous_count = (count - 1) as nat;
        lemma_validation_accepts_once_only_tags_once(docs, previous_count, item_id, facts_params, facts_returns, private_variable, inheritdoc, lowered);
        let before = validation_of(docs, previous_count, item_id, facts_params, facts_returns, private_variable, inheritdoc, lowered);
        let after = validation_of(docs, count, item_id, facts_params, facts_returns, private_variable, inheritdoc, lowered);
        let item = docs[count - 1];
        let is_title = |it: NatSpecItem| it.kind is Title;
        let is_inheritdoc = |it: NatSpecItem| it.kind is Inheritdoc;
        if after.local != before.local {
            let pushed = after.local.last();
            assert(after.local == before.local.push(pushed));
            lemma_filter_push(before.local, pushed, is_title);
            lemma_filter_push(before.local, pushed, is_inheritdoc);
            if item.kind is Return {
                let index = before.return_count;
                assert(lowered[index as int] is Ok);
            }
        }
    }
}

} // verus!
