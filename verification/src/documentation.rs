//! The developer documentation of a contract, as solc's `devdoc` output field holds it.
//!
//! The documentation is assembled from plain values: the NatSpec items of the contract, of its
//! constructor, of the functions of its external interface, of its state variables, and of the
//! events and errors it can emit, each with its signature.

use vstd::prelude::*;

use crate::ids::Symbol;
use crate::natspec::{
    dev_doc_item, dev_doc_of, entries_view, return_docs, return_docs_of, selected, symbols_known, text_view,
    DocumentationItem, DocumentationKind, ItemFilter, NatSpecItem, NatSpecKind,
};

verus! {

/// A function of the contract's external interface.
#[derive(Debug)]
pub struct FunctionDocs {
    /// The function's signature.
    pub signature: String,
    /// The function's NatSpec items.
    pub docs: Vec<NatSpecItem>,
    /// The names of its return values, `None` for unnamed ones.
    pub return_names: Vec<Option<Symbol>>,
    /// The NatSpec items of the state variable the function is the getter of, if it is one.
    pub gettee_docs: Option<Vec<NatSpecItem>>,
}

/// A state variable of the contract.
#[derive(Debug)]
pub struct VariableDocs {
    /// The variable's name.
    pub name: String,
    /// The variable's NatSpec items.
    pub docs: Vec<NatSpecItem>,
    /// The names of the return values of its getter, when it has one.
    pub getter_return_names: Option<Vec<Option<Symbol>>>,
}

/// An event or an error that the contract can emit, with its signature and NatSpec items.
#[derive(Debug)]
pub enum MemberDocs {
    /// An event.
    Event(String, Vec<NatSpecItem>),
    /// An error.
    Error(String, Vec<NatSpecItem>),
}

/// What the developer documentation of a contract is assembled from.
#[derive(Debug)]
pub struct ContractDocs {
    /// The contract's NatSpec items.
    pub docs: Vec<NatSpecItem>,
    /// The NatSpec items of the constructor, when the contract has one.
    pub constructor_docs: Option<Vec<NatSpecItem>>,
    /// The functions of the external interface, in order.
    pub functions: Vec<FunctionDocs>,
    /// The state variables declared in the contract, in order.
    pub variables: Vec<VariableDocs>,
    /// The events and errors of the contract and its bases, in order.
    pub members: Vec<MemberDocs>,
}

/// NatSpec documentation in solc's `userdoc` and `devdoc` output fields.
#[derive(Debug)]
pub struct Documentation {
    /// Which documentation this is.
    pub kind: DocumentationKind,
    /// The documentation of methods by signature.
    pub methods: Vec<(String, DocumentationItem)>,
    /// The `@author` text of the contract.
    pub author: Option<String>,
    /// The `@dev` text of the contract.
    pub details: Option<String>,
    /// The documentation of events by signature.
    pub events: Vec<(String, DocumentationItem)>,
    /// The documentation of errors by signature, one item per declaration.
    pub errors: Vec<(String, Vec<DocumentationItem>)>,
    /// The documentation of state variables by name.
    pub state_variables: Option<Vec<(String, DocumentationItem)>>,
    /// The `@notice` text of the contract.
    pub notice: Option<String>,
    /// The `@title` text of the contract.
    pub title: Option<String>,
    /// The `@custom:` texts of the contract by tag.
    pub custom: Option<Vec<(String, String)>>,
    /// The format version.
    pub version: u8,
}

/// The abstract form of a documentation item: its notice, author, details, parameters, return
/// text, return values and custom tags.
pub type ItemView = (
    Option<Seq<char>>,
    Option<Seq<char>>,
    Option<Seq<char>>,
    Option<Seq<(Seq<char>, Seq<char>)>>,
    Option<Seq<char>>,
    Option<Seq<(Seq<char>, Seq<char>)>>,
    Option<Seq<(Seq<char>, Seq<char>)>>,
);

/// The abstract form of a documentation item.
pub open spec fn item_view(item: DocumentationItem) -> ItemView {
    (
        text_view(item.notice),
        text_view(item.author),
        text_view(item.details),
        entries_view(item.params),
        text_view(item.return_),
        entries_view(item.returns),
        entries_view(item.custom),
    )
}

/// Whether a documentation item has no text at all.
pub open spec fn view_is_empty(item: ItemView) -> bool {
    item.0 is None && item.1 is None && item.2 is None && item.3 is None && item.4 is None && item.5 is None
        && item.6 is None
}

/// The developer documentation item of `docs`.
pub open spec fn dev_item(docs: Seq<NatSpecItem>, symbols: Seq<String>) -> ItemView {
    let (author, details, params, custom) = dev_doc_of(docs, symbols);
    (None, author, details, params, None, None, custom)
}

/// The documentation of the return values `names` from `docs`, `None` when none has text.
pub open spec fn returns_of(docs: Seq<NatSpecItem>, names: Seq<Option<Symbol>>, symbols: Seq<String>) -> Option<
    Seq<(Seq<char>, Seq<char>)>,
> {
    let return_items = selected(docs, ItemFilter::Return);
    let expected = return_docs_of(return_items, names, symbols, return_items.len());
    if expected.len() > 0 {
        Some(expected)
    } else {
        None
    }
}

/// The developer documentation item of a function: that of its items with its return values.
pub open spec fn function_item(function: FunctionDocs, symbols: Seq<String>) -> ItemView {
    let item = dev_item(function.docs@, symbols);
    (item.0, item.1, item.2, item.3, item.4, returns_of(function.docs@, function.return_names@, symbols), item.6)
}

/// A tag whose texts documentation concatenates.
#[derive(Clone, Copy, Debug, PartialEq, Eq, Structural)]
pub enum TextTag {
    /// `@title`.
    Title,
    /// `@notice`.
    Notice,
    /// `@return`, whatever it names.
    Return,
}

/// Whether an item of kind `kind` has the tag `tag`.
pub open spec fn has_tag(kind: NatSpecKind, tag: TextTag) -> bool {
    match tag {
        TextTag::Title => kind is Title,
        TextTag::Notice => kind is Notice,
        TextTag::Return => kind is Return,
    }
}

/// The concatenated contents of the items of `docs` with the tag `tag`.
pub open spec fn kind_text(docs: Seq<NatSpecItem>, tag: TextTag) -> Seq<char>
    decreases docs.len(),
{
    if docs.len() == 0 {
        Seq::empty()
    } else {
        kind_text(docs.drop_last(), tag) + if has_tag(docs.last().kind, tag) {
            docs.last().content@
        } else {
            Seq::empty()
        }
    }
}

/// A text, `None` when empty.
pub open spec fn nonempty_text(text: Seq<char>) -> Option<Seq<char>> {
    if text.len() > 0 {
        Some(text)
    } else {
        None
    }
}

/// The developer documentation item of a state variable: that of its items, with the text of its
/// `@return` items and, when it has a getter, the return values of the getter.
pub open spec fn variable_item(variable: VariableDocs, symbols: Seq<String>) -> ItemView {
    let item = dev_item(variable.docs@, symbols);
    (
        item.0,
        item.1,
        item.2,
        item.3,
        nonempty_text(kind_text(variable.docs@, TextTag::Return)),
        match variable.getter_return_names {
            Some(names) => returns_of(variable.docs@, names@, symbols),
            None => None,
        },
        item.6,
    )
}

/// Whether `position` is the first entry with `key`.
pub open spec fn first_keyed<V>(entries: Seq<(Seq<char>, V)>, key: Seq<char>, position: int) -> bool {
    &&& 0 <= position < entries.len()
    &&& entries[position].0 == key
    &&& forall|j: int| 0 <= j < position ==> (#[trigger] entries[j]).0 != key
}

/// The entries with the value of `key` replaced by `value`, which is added at the end when absent.
pub open spec fn insert_keyed<V>(entries: Seq<(Seq<char>, V)>, key: Seq<char>, value: V) -> Seq<(Seq<char>, V)> {
    if exists|position: int| first_keyed(entries, key, position) {
        let position = choose|position: int| first_keyed(entries, key, position);
        entries.update(position, (key, value))
    } else {
        entries.push((key, value))
    }
}

/// The entries with `value` appended to the list of `key`, which is added at the end when absent.
pub open spec fn push_keyed<V>(entries: Seq<(Seq<char>, Seq<V>)>, key: Seq<char>, value: V) -> Seq<
    (Seq<char>, Seq<V>),
> {
    if exists|position: int| first_keyed(entries, key, position) {
        let position = choose|position: int| first_keyed(entries, key, position);
        entries.update(position, (key, entries[position].1.push(value)))
    } else {
        entries.push((key, seq![value]))
    }
}

/// The abstract form of a map of documentation items.
pub open spec fn item_entries(entries: Seq<(String, DocumentationItem)>) -> Seq<(Seq<char>, ItemView)> {
    entries.map_values(|entry: (String, DocumentationItem)| (entry.0@, item_view(entry.1)))
}

/// The abstract form of a map of lists of documentation items.
pub open spec fn item_list_entries(entries: Seq<(String, Vec<DocumentationItem>)>) -> Seq<(Seq<char>, Seq<ItemView>)> {
    entries.map_values(
        |entry: (String, Vec<DocumentationItem>)| (entry.0@, entry.1@.map_values(|item: DocumentationItem| item_view(item))),
    )
}

/// The documented methods: the constructor, then the first `count` interface functions other
/// than getters, each one with text.
pub open spec fn dev_methods(contract: ContractDocs, symbols: Seq<String>, count: nat) -> Seq<(Seq<char>, ItemView)>
    decreases count,
{
    if count == 0 || count > contract.functions@.len() {
        match contract.constructor_docs {
            Some(docs) => if view_is_empty(dev_item(docs@, symbols)) {
                Seq::empty()
            } else {
                seq![("constructor"@, dev_item(docs@, symbols))]
            },
            None => Seq::empty(),
        }
    } else {
        let prior = dev_methods(contract, symbols, (count - 1) as nat);
        let function = contract.functions@[count - 1];
        let item = function_item(function, symbols);
        if function.gettee_docs is Some || view_is_empty(item) {
            prior
        } else {
            insert_keyed(prior, function.signature@, item)
        }
    }
}

/// The documented state variables among the first `count`, each one with text; `None` when none
/// has text.
pub open spec fn dev_variables(contract: ContractDocs, symbols: Seq<String>, count: nat) -> Option<
    Seq<(Seq<char>, ItemView)>,
>
    decreases count,
{
    if count == 0 || count > contract.variables@.len() {
        None
    } else {
        let prior = dev_variables(contract, symbols, (count - 1) as nat);
        let variable = contract.variables@[count - 1];
        let item = variable_item(variable, symbols);
        if view_is_empty(item) {
            prior
        } else {
            Some(
                insert_keyed(
                    match prior {
                        Some(entries) => entries,
                        None => Seq::empty(),
                    },
                    variable.name@,
                    item,
                ),
            )
        }
    }
}

/// The documented events and errors among the first `count` members, with the signatures of the
/// events seen: an event is documented under its signature the first time the signature is seen,
/// when it has text; each error with text is added to the list of its signature.
pub open spec fn dev_members(contract: ContractDocs, symbols: Seq<String>, count: nat) -> (
    Seq<(Seq<char>, ItemView)>,
    Seq<(Seq<char>, Seq<ItemView>)>,
    Set<Seq<char>>,
)
    decreases count,
{
    if count == 0 || count > contract.members@.len() {
        (Seq::empty(), Seq::empty(), Set::empty())
    } else {
        let (events, errors, seen) = dev_members(contract, symbols, (count - 1) as nat);
        match contract.members@[count - 1] {
            MemberDocs::Event(signature, docs) => if seen.contains(signature@) {
                (events, errors, seen)
            } else {
                let item = dev_item(docs@, symbols);
                (
                    if view_is_empty(item) {
                        events
                    } else {
                        insert_keyed(events, signature@, item)
                    },
                    errors,
                    seen.insert(signature@),
                )
            },
            MemberDocs::Error(signature, docs) => {
                let item = dev_item(docs@, symbols);
                (events, if view_is_empty(item) {
                    errors
                } else {
                    push_keyed(errors, signature@, item)
                }, seen)
            },
        }
    }
}

/// The user documentation item of a notice text.
pub open spec fn notice_item(text: Seq<char>) -> ItemView {
    (Some(text), None, None, None, None, None, None)
}

/// The user documentation of methods: the constructor's notice, then the notices of the first
/// `count` interface functions (a getter's taken from its state variable), each one with text.
pub open spec fn user_methods(contract: ContractDocs, count: nat) -> Seq<(Seq<char>, ItemView)>
    decreases count,
{
    if count == 0 || count > contract.functions@.len() {
        match contract.constructor_docs {
            Some(docs) => match nonempty_text(kind_text(docs@, TextTag::Notice)) {
                Some(text) => seq![("constructor"@, notice_item(text))],
                None => Seq::empty(),
            },
            None => Seq::empty(),
        }
    } else {
        let prior = user_methods(contract, (count - 1) as nat);
        let function = contract.functions@[count - 1];
        let docs = match function.gettee_docs {
            Some(docs) => docs@,
            None => function.docs@,
        };
        match nonempty_text(kind_text(docs, TextTag::Notice)) {
            Some(text) => insert_keyed(prior, function.signature@, notice_item(text)),
            None => prior,
        }
    }
}

/// The user documentation of the first `count` members, with the signatures of the events seen,
/// as [`dev_members`] orders them, from notices.
pub open spec fn user_members(contract: ContractDocs, count: nat) -> (
    Seq<(Seq<char>, ItemView)>,
    Seq<(Seq<char>, Seq<ItemView>)>,
    Set<Seq<char>>,
)
    decreases count,
{
    if count == 0 || count > contract.members@.len() {
        (Seq::empty(), Seq::empty(), Set::empty())
    } else {
        let (events, errors, seen) = user_members(contract, (count - 1) as nat);
        match contract.members@[count - 1] {
            MemberDocs::Event(signature, docs) => if seen.contains(signature@) {
                (events, errors, seen)
            } else {
                (
                    match nonempty_text(kind_text(docs@, TextTag::Notice)) {
                        Some(text) => insert_keyed(events, signature@, notice_item(text)),
                        None => events,
                    },
                    errors,
                    seen.insert(signature@),
                )
            },
            MemberDocs::Error(signature, docs) => (events, match nonempty_text(kind_text(docs@, TextTag::Notice)) {
                Some(text) => push_keyed(errors, signature@, notice_item(text)),
                None => errors,
            }, seen),
        }
    }
}

/// Whether every symbol that the documentation of `contract` names has a text in `symbols`.
pub open spec fn contract_symbols_known(contract: ContractDocs, symbols: Seq<String>) -> bool {
    &&& symbols_known(contract.docs@, symbols)
    &&& match contract.constructor_docs {
        Some(docs) => symbols_known(docs@, symbols),
        None => true,
    }
    &&& forall|i: int|
        0 <= i < contract.functions@.len() ==> {
            let function = #[trigger] contract.functions@[i];
            &&& symbols_known(function.docs@, symbols)
            &&& names_known(function.return_names@, symbols)
        }
    &&& forall|i: int|
        0 <= i < contract.variables@.len() ==> {
            let variable = #[trigger] contract.variables@[i];
            &&& symbols_known(variable.docs@, symbols)
            &&& match variable.getter_return_names {
                Some(names) => names_known(names@, symbols),
                None => true,
            }
        }
    &&& forall|i: int|
        0 <= i < contract.members@.len() ==> match #[trigger] contract.members@[i] {
            MemberDocs::Event(_, docs) => symbols_known(docs@, symbols),
            MemberDocs::Error(_, docs) => symbols_known(docs@, symbols),
        }
}

/// Whether every named return value has a text in `symbols`.
pub open spec fn names_known(names: Seq<Option<Symbol>>, symbols: Seq<String>) -> bool {
    forall|i: int|
        0 <= i < names.len() ==> match #[trigger] names[i] {
            Some(name) => name.0 < symbols.len(),
            None => true,
        }
}

/// Returns whether a documentation item has no text at all.
fn item_is_empty(item: &DocumentationItem) -> (empty: bool)
    ensures
        empty == view_is_empty(item_view(*item)),
{
    item.is_empty()
}

/// Returns the position of the first entry with `key`, if any.
fn find_keyed<V>(entries: &Vec<(String, V)>, key: &String) -> (position: Option<usize>)
    ensures
        match position {
            Some(p) => p < entries@.len() && entries@[p as int].0@ == key@ && forall|j: int|
                0 <= j < p ==> (#[trigger] entries@[j]).0@ != key@,
            None => forall|j: int| 0 <= j < entries@.len() ==> (#[trigger] entries@[j]).0@ != key@,
        },
{
    let mut i: usize = 0;
    while i < entries.len()
        invariant
            0 <= i <= entries@.len(),
            forall|j: int| 0 <= j < i ==> (#[trigger] entries@[j]).0@ != key@,
        decreases entries@.len() - i,
    {
        if entries[i].0 == *key {
            return Some(i);
        }
        i += 1;
    }
    None
}

/// Puts `item` under `key`, replacing the item there or adding it at the end.
fn insert_item(entries: &mut Vec<(String, DocumentationItem)>, key: String, item: DocumentationItem)
    ensures
        item_entries(final(entries)@) == insert_keyed(item_entries(old(entries)@), key@, item_view(item)),
{
    let ghost before = item_entries(entries@);
    let ghost key_view = key@;
    let ghost value = item_view(item);
    match find_keyed(entries, &key) {
        Some(p) => {
            proof {
                assert(first_keyed(before, key_view, p as int));
                let q = choose|q: int| first_keyed(before, key_view, q);
                if q < p {
                    assert(before[q].0 == entries@[q].0@);
                } else if p < q {
                    assert(before[p as int].0 != key_view);
                }
            }
            entries.set(p, (key, item));
            proof {
                assert(item_entries(entries@) =~= before.update(p as int, (key_view, value)));
            }
        },
        None => {
            proof {
                assert forall|q: int| !first_keyed(before, key_view, q) by {
                    if 0 <= q < before.len() {
                        assert(before[q].0 == entries@[q].0@);
                    }
                }
            }
            entries.push((key, item));
            proof {
                assert(item_entries(entries@) =~= before.push((key_view, value)));
            }
        },
    }
}

/// Adds `item` to the list under `key`, adding the key at the end when absent.
fn push_item(entries: &mut Vec<(String, Vec<DocumentationItem>)>, key: String, item: DocumentationItem)
    ensures
        item_list_entries(final(entries)@) == push_keyed(item_list_entries(old(entries)@), key@, item_view(item)),
{
    let ghost before = item_list_entries(entries@);
    let ghost key_view = key@;
    let ghost value = item_view(item);
    match find_keyed(entries, &key) {
        Some(p) => {
            proof {
                assert(first_keyed(before, key_view, p as int));
                let q = choose|q: int| first_keyed(before, key_view, q);
                if q < p {
                    assert(before[q].0 == entries@[q].0@);
                } else if p < q {
                    assert(before[p as int].0 != key_view);
                }
            }
            let mut taken: (String, Vec<DocumentationItem>) = (String::new(), Vec::new());
            std::mem::swap(&mut taken, &mut entries[p]);
            let mut list = taken.1;
            let ghost old_list = list@;
            list.push(item);
            entries.set(p, (key, list));
            proof {
                assert(old_list.map_values(|item: DocumentationItem| item_view(item)) == before[p as int].1);
                assert(list@.map_values(|item: DocumentationItem| item_view(item)) =~= before[p as int].1.push(value));
                assert(item_list_entries(entries@) =~= before.update(p as int, (key_view, before[p as int].1.push(value))));
            }
        },
        None => {
            proof {
                assert forall|q: int| !first_keyed(before, key_view, q) by {
                    if 0 <= q < before.len() {
                        assert(before[q].0 == entries@[q].0@);
                    }
                }
            }
            let mut list: Vec<DocumentationItem> = Vec::new();
            list.push(item);
            entries.push((key, list));
            proof {
                assert(list@.map_values(|item: DocumentationItem| item_view(item)) =~= seq![value]);
                assert(item_list_entries(entries@) =~= before.push((key_view, seq![value])));
            }
        },
    }
}

/// Returns the concatenated contents of the items of `docs` with the tag `tag`, `None` when
/// empty.
fn kind_contents(docs: &Vec<NatSpecItem>, tag: TextTag) -> (text: Option<String>)
    ensures
        text_view(text) == nonempty_text(kind_text(docs@, tag)),
{
    let mut text = String::new();
    let mut i: usize = 0;
    while i < docs.len()
        invariant
            0 <= i <= docs@.len(),
            text@ == kind_text(docs@.subrange(0, i as int), tag),
        decreases docs@.len() - i,
    {
        let ghost prefix = docs@.subrange(0, i + 1);
        proof {
            assert(prefix.drop_last() =~= docs@.subrange(0, i as int));
            assert(prefix.last() == docs@[i as int]);
        }
        let take = match (docs[i].kind, tag) {
            (NatSpecKind::Title, TextTag::Title) => true,
            (NatSpecKind::Notice, TextTag::Notice) => true,
            (NatSpecKind::Return { .. }, TextTag::Return) => true,
            _ => false,
        };
        if take {
            text.append(docs[i].content.as_str());
        }
        proof {
            assert(text@ =~= kind_text(prefix, tag));
        }
        i += 1;
    }
    proof {
        assert(docs@.subrange(0, docs@.len() as int) =~= docs@);
    }
    if text.as_str().is_empty() {
        None
    } else {
        Some(text)
    }
}

/// Returns the developer documentation of the contract described by `contract`; `symbols` holds
/// the text of each symbol that the documentation names.
///
/// The contract's `@author`, `@dev`, `@title` and `@custom:` texts document the contract. The
/// constructor and each interface function other than a getter document a method, under
/// `constructor` or the function's signature, with the function's return values. Each state
/// variable documents itself under its name, with the text of its `@return` items and the
/// return values of its getter. An event documents its signature the first time the signature
/// is seen; each error is added to the list of its signature. Only items with text are kept.
pub fn dev_documentation(contract: &ContractDocs, symbols: &[String]) -> (documentation: Documentation)
    requires
        contract_symbols_known(*contract, symbols@),
    ensures
        documentation.kind == DocumentationKind::Dev,
        documentation.version == 1,
        documentation.notice is None,
        (text_view(documentation.author), text_view(documentation.details), entries_view(documentation.custom))
            == ({
            let (author, details, _, custom) = dev_doc_of(contract.docs@, symbols@);
            (author, details, custom)
        }),
        text_view(documentation.title) == nonempty_text(kind_text(contract.docs@, TextTag::Title)),
        item_entries(documentation.methods@) == dev_methods(*contract, symbols@, contract.functions@.len()),
        match documentation.state_variables {
            Some(entries) => dev_variables(*contract, symbols@, contract.variables@.len()) == Some(
                item_entries(entries@),
            ),
            None => dev_variables(*contract, symbols@, contract.variables@.len()) is None,
        },
        item_entries(documentation.events@) == dev_members(*contract, symbols@, contract.members@.len()).0,
        item_list_entries(documentation.errors@) == dev_members(*contract, symbols@, contract.members@.len()).1,
{
    let contract_doc = dev_doc_item(contract.docs.as_slice(), symbols);
    let title = kind_contents(&contract.docs, TextTag::Title);
    let mut methods: Vec<(String, DocumentationItem)> = Vec::new();
    proof {
        assert(item_entries(methods@) =~= Seq::<(Seq<char>, ItemView)>::empty());
    }
    match &contract.constructor_docs {
        Some(docs) => {
            let item = dev_doc_item(docs.as_slice(), symbols);
            if !item_is_empty(&item) {
                insert_item(&mut methods, String::from_str("constructor"), item);
                proof {
                    reveal_strlit("constructor");
                    assert(item_entries(methods@) =~= dev_methods(*contract, symbols@, 0));
                }
            }
        },
        None => {},
    }
    let mut i: usize = 0;
    while i < contract.functions.len()
        invariant
            0 <= i <= contract.functions@.len(),
            contract_symbols_known(*contract, symbols@),
            item_entries(methods@) == dev_methods(*contract, symbols@, i as nat),
        decreases contract.functions@.len() - i,
    {
        let function = &contract.functions[i];
        proof {
            assert(function == contract.functions@[i as int]);
        }
        if function.gettee_docs.is_none() {
            let mut item = dev_doc_item(function.docs.as_slice(), symbols);
            item.returns = return_docs(function.docs.as_slice(), function.return_names.as_slice(), symbols);
            proof {
                assert(item_view(item) == function_item(*function, symbols@));
            }
            if !item_is_empty(&item) {
                insert_item(&mut methods, function.signature.clone(), item);
            }
        }
        i += 1;
    }
    let mut state_variables: Option<Vec<(String, DocumentationItem)>> = None;
    let mut v: usize = 0;
    while v < contract.variables.len()
        invariant
            0 <= v <= contract.variables@.len(),
            contract_symbols_known(*contract, symbols@),
            match state_variables {
                Some(entries) => dev_variables(*contract, symbols@, v as nat) == Some(item_entries(entries@)),
                None => dev_variables(*contract, symbols@, v as nat) is None,
            },
        decreases contract.variables@.len() - v,
    {
        let variable = &contract.variables[v];
        proof {
            assert(variable == contract.variables@[v as int]);
        }
        let mut item = dev_doc_item(variable.docs.as_slice(), symbols);
        item.return_ = kind_contents(&variable.docs, TextTag::Return);
        match &variable.getter_return_names {
            Some(names) => {
                item.returns = return_docs(variable.docs.as_slice(), names.as_slice(), symbols);
            },
            None => {},
        }
        proof {
            assert(item_view(item) == variable_item(*variable, symbols@));
        }
        if !item_is_empty(&item) {
            let mut entries: Vec<(String, DocumentationItem)> = match state_variables {
                Some(entries) => entries,
                None => Vec::new(),
            };
            proof {
                assert(Seq::<(String, DocumentationItem)>::empty().map_values(
                    |entry: (String, DocumentationItem)| (entry.0@, item_view(entry.1)),
                ) =~= Seq::<(Seq<char>, ItemView)>::empty());
            }
            insert_item(&mut entries, variable.name.clone(), item);
            state_variables = Some(entries);
        }
        v += 1;
    }
    let mut events: Vec<(String, DocumentationItem)> = Vec::new();
    let mut errors: Vec<(String, Vec<DocumentationItem>)> = Vec::new();
    let mut seen: Vec<String> = Vec::new();
    let mut m: usize = 0;
    proof {
        assert(item_entries(events@) =~= Seq::<(Seq<char>, ItemView)>::empty());
        assert(item_list_entries(errors@) =~= Seq::<(Seq<char>, Seq<ItemView>)>::empty());
        assert(seen@.map_values(|s: String| s@) =~= Seq::<Seq<char>>::empty());
        assert(seen@.map_values(|s: String| s@).to_set() =~= Set::<Seq<char>>::empty());
    }
    while m < contract.members.len()
        invariant
            0 <= m <= contract.members@.len(),
            contract_symbols_known(*contract, symbols@),
            item_entries(events@) == dev_members(*contract, symbols@, m as nat).0,
            item_list_entries(errors@) == dev_members(*contract, symbols@, m as nat).1,
            seen@.map_values(|s: String| s@).to_set() == dev_members(*contract, symbols@, m as nat).2,
        decreases contract.members@.len() - m,
    {
        let member = &contract.members[m];
        proof {
            assert(member == contract.members@[m as int]);
        }
        match member {
            MemberDocs::Event(signature, docs) => {
                if !signature_seen(&seen, signature) {
                    see_signature(&mut seen, signature);
                    let item = dev_doc_item(docs.as_slice(), symbols);
                    if !item_is_empty(&item) {
                        insert_item(&mut events, signature.clone(), item);
                    }
                }
            },
            MemberDocs::Error(signature, docs) => {
                let item = dev_doc_item(docs.as_slice(), symbols);
                if !item_is_empty(&item) {
                    push_item(&mut errors, signature.clone(), item);
                }
            },
        }
        m += 1;
    }
    Documentation {
        kind: DocumentationKind::Dev,
        methods,
        author: contract_doc.author,
        details: contract_doc.details,
        events,
        errors,
        state_variables,
        notice: None,
        title,
        custom: contract_doc.custom,
        version: 1,
    }
}

/// Returns the documentation item of a notice.
fn notice_documentation(notice: String) -> (item: DocumentationItem)
    ensures
        item_view(item) == notice_item(notice@),
{
    let mut item = DocumentationItem::new();
    item.notice = Some(notice);
    item
}

/// Returns whether `signature` is one of `seen`, the signatures seen so far.
fn signature_seen(seen: &Vec<String>, signature: &String) -> (known: bool)
    ensures
        known == seen@.map_values(|s: String| s@).to_set().contains(signature@),
{
    let mut known = false;
    let mut k: usize = 0;
    while k < seen.len()
        invariant
            0 <= k <= seen@.len(),
            known == exists|q: int| 0 <= q < k && (#[trigger] seen@[q])@ == signature@,
        decreases seen@.len() - k,
    {
        if seen[k] == *signature {
            known = true;
        }
        k += 1;
    }
    proof {
        let names = seen@.map_values(|s: String| s@);
        if known {
            let q = choose|q: int| 0 <= q < seen@.len() && (#[trigger] seen@[q])@ == signature@;
            assert(names[q] == signature@);
        } else {
            assert(!names.contains(signature@)) by {
                if names.contains(signature@) {
                    let q = choose|q: int| 0 <= q < names.len() && names[q] == signature@;
                    assert(seen@[q]@ == signature@);
                }
            }
        }
    }
    known
}

/// Records `signature` among the signatures seen.
fn see_signature(seen: &mut Vec<String>, signature: &String)
    ensures
        final(seen)@.map_values(|s: String| s@).to_set() == old(seen)@.map_values(|s: String| s@).to_set().insert(
            signature@,
        ),
{
    let ghost names = seen@.map_values(|s: String| s@);
    seen.push(signature.clone());
    proof {
        assert(seen@.map_values(|s: String| s@) =~= names.push(signature@));
        let pushed = names.push(signature@);
        assert forall|y: Seq<char>| pushed.to_set().contains(y) <==> names.to_set().insert(signature@).contains(y) by {
            assert(pushed[names.len() as int] == signature@);
            if pushed.contains(y) {
                let q = choose|q: int| 0 <= q < pushed.len() && pushed[q] == y;
                if q < names.len() {
                    assert(names[q] == y);
                }
            }
            if names.contains(y) {
                let q = choose|q: int| 0 <= q < names.len() && names[q] == y;
                assert(pushed[q] == y);
            }
        }
        assert(pushed.to_set() =~= names.to_set().insert(signature@));
    }
}

/// Returns the user documentation of the contract described by `contract`: the notices of the
/// contract, of its constructor (under `constructor`), of its interface functions (under their
/// signatures; a getter's from its state variable), and of its events and errors as
/// [`dev_documentation`] orders them. Only notices with text are kept.
pub fn user_documentation(contract: &ContractDocs) -> (documentation: Documentation)
    ensures
        documentation.kind == DocumentationKind::User,
        documentation.version == 1,
        text_view(documentation.notice) == nonempty_text(kind_text(contract.docs@, TextTag::Notice)),
        documentation.author is None && documentation.details is None && documentation.title is None,
        documentation.custom is None && documentation.state_variables is None,
        item_entries(documentation.methods@) == user_methods(*contract, contract.functions@.len()),
        item_entries(documentation.events@) == user_members(*contract, contract.members@.len()).0,
        item_list_entries(documentation.errors@) == user_members(*contract, contract.members@.len()).1,
{
    let notice = kind_contents(&contract.docs, TextTag::Notice);
    let mut methods: Vec<(String, DocumentationItem)> = Vec::new();
    proof {
        assert(item_entries(methods@) =~= Seq::<(Seq<char>, ItemView)>::empty());
    }
    match &contract.constructor_docs {
        Some(docs) => {
            match kind_contents(docs, TextTag::Notice) {
                Some(text) => {
                    insert_item(&mut methods, String::from_str("constructor"), notice_documentation(text));
                    proof {
                        reveal_strlit("constructor");
                        assert(item_entries(methods@) =~= user_methods(*contract, 0));
                    }
                },
                None => {},
            }
        },
        None => {},
    }
    let mut i: usize = 0;
    while i < contract.functions.len()
        invariant
            0 <= i <= contract.functions@.len(),
            item_entries(methods@) == user_methods(*contract, i as nat),
        decreases contract.functions@.len() - i,
    {
        let function = &contract.functions[i];
        proof {
            assert(function == contract.functions@[i as int]);
        }
        let docs = match &function.gettee_docs {
            Some(docs) => docs,
            None => &function.docs,
        };
        match kind_contents(docs, TextTag::Notice) {
            Some(text) => insert_item(&mut methods, function.signature.clone(), notice_documentation(text)),
            None => {},
        }
        i += 1;
    }
    let mut events: Vec<(String, DocumentationItem)> = Vec::new();
    let mut errors: Vec<(String, Vec<DocumentationItem>)> = Vec::new();
    let mut seen: Vec<String> = Vec::new();
    let mut m: usize = 0;
    proof {
        assert(item_entries(events@) =~= Seq::<(Seq<char>, ItemView)>::empty());
        assert(item_list_entries(errors@) =~= Seq::<(Seq<char>, Seq<ItemView>)>::empty());
        assert(seen@.map_values(|s: String| s@) =~= Seq::<Seq<char>>::empty());
        assert(seen@.map_values(|s: String| s@).to_set() =~= Set::<Seq<char>>::empty());
    }
    while m < contract.members.len()
        invariant
            0 <= m <= contract.members@.len(),
            item_entries(events@) == user_members(*contract, m as nat).0,
            item_list_entries(errors@) == user_members(*contract, m as nat).1,
            seen@.map_values(|s: String| s@).to_set() == user_members(*contract, m as nat).2,
        decreases contract.members@.len() - m,
    {
        let member = &contract.members[m];
        proof {
            assert(member == contract.members@[m as int]);
        }
        match member {
            MemberDocs::Event(signature, docs) => {
                if !signature_seen(&seen, signature) {
                    see_signature(&mut seen, signature);
                    match kind_contents(docs, TextTag::Notice) {
                        Some(text) => insert_item(&mut events, signature.clone(), notice_documentation(text)),
                        None => {},
                    }
                }
            },
            MemberDocs::Error(signature, docs) => {
                match kind_contents(docs, TextTag::Notice) {
                    Some(text) => push_item(&mut errors, signature.clone(), notice_documentation(text)),
                    None => {},
                }
            },
        }
        m += 1;
    }
    Documentation {
        kind: DocumentationKind::User,
        methods,
        author: None,
        details: None,
        events,
        errors,
        state_variables: None,
        notice,
        title: None,
        custom: None,
        version: 1,
    }
}

/// Whether `member` is an event with the signature `key`.
pub open spec fn declares_event(member: MemberDocs, key: Seq<char>) -> bool {
    match member {
        MemberDocs::Event(signature, _) => signature@ == key,
        MemberDocs::Error(..) => false,
    }
}

/// Each entry of an insertion has the inserted key or the key of the entry at its position.
proof fn lemma_insert_keyed_keys<V>(entries: Seq<(Seq<char>, V)>, key: Seq<char>, value: V)
    ensures
        forall|p: int|
            0 <= p < insert_keyed(entries, key, value).len() ==> (#[trigger] insert_keyed(entries, key, value)[p]).0
                == key || (p < entries.len() && insert_keyed(entries, key, value)[p].0 == entries[p].0),
{
}

/// Inserting under another key keeps the first entry with `other` where it was.
proof fn lemma_insert_keyed_other<V>(entries: Seq<(Seq<char>, V)>, key: Seq<char>, value: V, other: Seq<char>, position: int)
    requires
        first_keyed(entries, other, position),
        key != other,
    ensures
        first_keyed(insert_keyed(entries, key, value), other, position),
        insert_keyed(entries, key, value)[position] == entries[position],
{
    let inserted = insert_keyed(entries, key, value);
    assert forall|j: int| 0 <= j < position implies (#[trigger] inserted[j]).0 != other by {
        assert(entries[j].0 != other);
    }
}

/// Inserting a key no entry has adds it, with its value, at the end.
proof fn lemma_insert_keyed_fresh<V>(entries: Seq<(Seq<char>, V)>, key: Seq<char>, value: V)
    requires
        forall|q: int| 0 <= q < entries.len() ==> (#[trigger] entries[q]).0 != key,
    ensures
        first_keyed(insert_keyed(entries, key, value), key, entries.len() as int),
        insert_keyed(entries, key, value)[entries.len() as int] == (key, value),
{
    assert(!exists|position: int| first_keyed(entries, key, position));
    let inserted = entries.push((key, value));
    assert forall|j: int| 0 <= j < entries.len() implies (#[trigger] inserted[j]).0 != key by {
        assert(inserted[j] == entries[j]);
    }
}

/// The signatures seen after `count` members are those of the events among them, and every
/// documented event is under one of them.
proof fn lemma_user_members_seen(contract: ContractDocs, count: nat)
    requires
        count <= contract.members@.len(),
    ensures
        forall|key: Seq<char>|
            #[trigger] user_members(contract, count).2.contains(key) <==> exists|j: int|
                0 <= j < count && declares_event(#[trigger] contract.members@[j], key),
        forall|p: int|
            0 <= p < user_members(contract, count).0.len() ==> user_members(contract, count).2.contains(
                (#[trigger] user_members(contract, count).0[p]).0,
            ),
    decreases count,
{
    if count > 0 {
        let prior = (count - 1) as nat;
        lemma_user_members_seen(contract, prior);
        let (events, errors, seen) = user_members(contract, prior);
        let member = contract.members@[prior as int];
        assert forall|key: Seq<char>|
            #[trigger] user_members(contract, count).2.contains(key) <==> exists|j: int|
                0 <= j < count && declares_event(#[trigger] contract.members@[j], key) by {
            if exists|j: int| 0 <= j < prior && declares_event(#[trigger] contract.members@[j], key) {
                let j = choose|j: int| 0 <= j < prior && declares_event(#[trigger] contract.members@[j], key);
                assert(0 <= j < count && declares_event(contract.members@[j], key));
            }
            if exists|j: int| 0 <= j < count && declares_event(#[trigger] contract.members@[j], key) {
                let j = choose|j: int| 0 <= j < count && declares_event(#[trigger] contract.members@[j], key);
                if j < prior {
                    assert(seen.contains(key));
                }
            }
        }
        if let MemberDocs::Event(signature, docs) = member {
            if !seen.contains(signature@) {
                if let Some(text) = nonempty_text(kind_text(docs@, TextTag::Notice)) {
                    lemma_insert_keyed_keys(events, signature@, notice_item(text));
                }
            }
        }
    }
}

/// The first event declared with a signature whose `@notice` has text is documented under that
/// signature with that notice: the user documentation's events map the signature to an item
/// whose notice is the text, and no earlier entry has the signature.
pub proof fn lemma_first_event_notice_documented(
    contract: ContractDocs,
    index: int,
    signature: String,
    docs: Vec<NatSpecItem>,
    count: nat,
)
    requires
        0 <= index < count <= contract.members@.len(),
        contract.members@[index] == MemberDocs::Event(signature, docs),
        forall|j: int| 0 <= j < index ==> !declares_event(#[trigger] contract.members@[j], signature@),
        kind_text(docs@, TextTag::Notice).len() > 0,
    ensures
        exists|position: int|
            first_keyed(user_members(contract, count).0, signature@, position) && user_members(contract, count).0[position].1
                == notice_item(kind_text(docs@, TextTag::Notice)),
    decreases count,
{
    let prior = (count - 1) as nat;
    let text = kind_text(docs@, TextTag::Notice);
    lemma_user_members_seen(contract, prior);
    let (events, errors, seen) = user_members(contract, prior);
    if prior == index {
        assert(!seen.contains(signature@));
        assert forall|q: int| 0 <= q < events.len() implies (#[trigger] events[q]).0 != signature@ by {
            assert(seen.contains(events[q].0));
        }
        lemma_insert_keyed_fresh(events, signature@, notice_item(text));
        assert(first_keyed(user_members(contract, count).0, signature@, events.len() as int));
    } else {
        lemma_first_event_notice_documented(contract, index, signature, docs, prior);
        let position = choose|position: int|
            first_keyed(events, signature@, position) && events[position].1 == notice_item(text);
        assert(declares_event(contract.members@[index], signature@));
        assert(seen.contains(signature@));
        if let MemberDocs::Event(other, other_docs) = contract.members@[prior as int] {
            if !seen.contains(other@) {
                if let Some(other_text) = nonempty_text(kind_text(other_docs@, TextTag::Notice)) {
                    lemma_insert_keyed_other(events, other@, notice_item(other_text), signature@, position);
                }
            }
        }
        assert(first_keyed(user_members(contract, count).0, signature@, position));
    }
}

} // verus!
