# solar_sema

Semantic-analysis domains of a Solidity compiler, written in Verus with their contracts proved:
dataflow lattices and function-body exits, condition facts, source places, the places and
conversions of expressions and the components of assignments, storage provenance, call-result
summaries, the roots that expressions reach and the provenance effects of assignments, the
reverse references to functions as a walk of the compilation collects them, the least solution
for the targets of function values, value identities and their flow through variables, aliased
fields and call results, NatSpec validation and resolution, the user and developer
documentation of contracts, storage layout, syntax-tree statistics, the depth-first topological
order of imported sources, and printing of the HIR as Solidity-like text.

- `src/` is the verified library; each module states its contracts over mathematical views, and
  the public `lemma_*` proof functions state the laws of its domains.
- `tests/` exercises the library on concrete values.
- `app/` holds the serializable forms of the output types (`serde`), converted to and from the
  library's types.
