//! Semantic-analysis domains of a Solidity compiler, with their contracts proved.
//!
//! - [`ids`], [`variables`], [`keyed`], [`word`]: identifiers of HIR nodes, the kinds and
//!   declaration facts of variables, finite maps keyed by identifiers, and 256-bit storage words.
//! - [`lattice`], [`effective`], [`adapters`]: join-semilattice dataflow domains, the exits of an
//!   analyzed body, the runtime context of a program point, and holders of flow policies.
//! - [`condition`]: comparison operators and the facts a condition edge implies.
//! - [`place`], [`expr_places`]: source places, their overlap and the scalar components of
//!   assignments, and the places, roots and conversions of expressions.
//! - [`storage_roots`], [`storage_alias`], [`storage_exprs`], [`call_results`]: storage
//!   provenance of values and of local variables, the roots that expressions reach, read, write
//!   and use as slots with the provenance effects of assignments, and per-call output summaries.
//! - [`references`], [`reference_collector`]: the collection of reverse references to functions
//!   and of value bindings, and the possible targets of function values.
//! - [`value`], [`value_flow`], [`lint_flow`]: value identities with path-sensitive properties,
//!   their flow through variables, aliased aggregate fields and call results, and the lint state
//!   that pairs value flow with storage provenance.
//! - [`natspec`]: NatSpec validation, inheritance and alignment with parameters and return values,
//!   and developer documentation.
//! - [`storage_layout`]: placement of state variables and struct members in storage slots.
//! - [`stats`]: sizes of variant payloads and readable numbers.
//! - [`print`], [`pretty`]: printing of the HIR in a Solidity-like form, whole sources or
//!   declaration headers, and compact text of single nodes.
//! - [`sources`]: the parsed sources of a compilation, their import graph and its depth-first
//!   topological order.
//! - [`documentation`]: the user and developer documentation of a contract, assembled from the
//!   NatSpec items of its declarations.

pub mod ids;
pub mod variables;
pub mod keyed;
pub mod word;
pub mod lattice;
pub mod effective;
pub mod adapters;
pub mod condition;
pub mod place;
pub mod expr_places;
pub mod storage_roots;
pub mod storage_alias;
pub mod storage_exprs;
pub mod call_results;
pub mod references;
pub mod reference_collector;
pub mod value;
pub mod value_flow;
pub mod lint_flow;
pub mod natspec;
pub mod storage_layout;
pub mod stats;
pub mod print;
pub mod pretty;
pub mod sources;
pub mod documentation;
