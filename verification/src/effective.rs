//! The runtime context of a program point in an effective function body.

use vstd::prelude::*;

use crate::ids::{ContractId, FunctionId, VariableId};

verus! {

/// Context supplied while visiting an effective function body.
///
/// The effective body includes applied modifiers and any internal calls which the visitor chooses
/// to follow. It retains the most-derived dispatch contract while inherited bodies are traversed.
#[derive(Clone, Copy, Debug)]
pub struct EffectiveBodyCx {
    pub(crate) dispatch_contract: Option<ContractId>,
    pub(crate) root_function: FunctionId,
    pub(crate) function: Option<FunctionId>,
    pub(crate) loop_depth: usize,
    pub(crate) call_depth: usize,
    pub(crate) call_entry_loop_depth: Option<usize>,
    pub(crate) reports_enabled: bool,
}

impl EffectiveBodyCx {
    /// The most-derived contract used for internal virtual dispatch.
    pub closed spec fn spec_dispatch_contract(self) -> Option<ContractId> {
        self.dispatch_contract
    }

    /// The root function passed to the traversal.
    pub closed spec fn spec_root_function(self) -> FunctionId {
        self.root_function
    }

    /// The function being traversed, or `None` in the root function's own body.
    pub closed spec fn spec_current_function(self) -> Option<FunctionId> {
        self.function
    }

    /// The runtime loop nesting depth.
    pub closed spec fn spec_loop_depth(self) -> usize {
        self.loop_depth
    }

    /// The internal call depth from the root function.
    pub closed spec fn spec_call_depth(self) -> usize {
        self.call_depth
    }

    /// The loop depth at which the innermost followed internal call was entered.
    pub closed spec fn spec_call_entry_loop_depth(self) -> Option<usize> {
        self.call_entry_loop_depth
    }

    /// Whether observations are reported.
    pub closed spec fn spec_reports_enabled(self) -> bool {
        self.reports_enabled
    }

    /// Whether the program point is in a root loop or a loop inherited from its caller.
    pub open spec fn spec_in_enclosing_loop(self) -> bool {
        self.spec_loop_depth() > 0 && match self.spec_call_entry_loop_depth() {
            None => true,
            Some(depth) => self.spec_loop_depth() <= depth,
        }
    }

    /// Whether the context is one that a traversal gives: a loop depth at call entry is recorded
    /// exactly inside followed internal calls (call depth above zero) and is at most the current
    /// loop depth, and a program point with no current function, one of the root function's own
    /// body, is at call depth zero.
    pub open spec fn wf(self) -> bool {
        &&& (self.spec_call_depth() == 0 <==> self.spec_call_entry_loop_depth() is None)
        &&& match self.spec_call_entry_loop_depth() {
            Some(depth) => depth <= self.spec_loop_depth(),
            None => true,
        }
        &&& (self.spec_current_function() is None ==> self.spec_call_depth() == 0)
    }

    /// Creates the context of one program point of a traversal.
    pub fn new(
        dispatch_contract: Option<ContractId>,
        root_function: FunctionId,
        function: Option<FunctionId>,
        loop_depth: usize,
        call_depth: usize,
        call_entry_loop_depth: Option<usize>,
        reports_enabled: bool,
    ) -> (cx: Self)
        requires
            (call_depth == 0) == (call_entry_loop_depth is None),
            match call_entry_loop_depth {
                Some(depth) => depth <= loop_depth,
                None => true,
            },
            function is None ==> call_depth == 0,
        ensures
            cx.wf(),
            cx.spec_dispatch_contract() == dispatch_contract,
            cx.spec_root_function() == root_function,
            cx.spec_current_function() == function,
            cx.spec_loop_depth() == loop_depth,
            cx.spec_call_depth() == call_depth,
            cx.spec_call_entry_loop_depth() == call_entry_loop_depth,
            cx.spec_reports_enabled() == reports_enabled,
    {
        EffectiveBodyCx {
            dispatch_contract,
            root_function,
            function,
            loop_depth,
            call_depth,
            call_entry_loop_depth,
            reports_enabled,
        }
    }

    /// Returns the most-derived contract used for internal virtual dispatch.
    pub fn dispatch_contract(self) -> (contract: Option<ContractId>)
        ensures
            contract == self.spec_dispatch_contract(),
    {
        self.dispatch_contract
    }

    /// Returns the root function passed to the traversal.
    pub fn root_function(self) -> (function: FunctionId)
        ensures
            function == self.spec_root_function(),
    {
        self.root_function
    }

    /// Returns the function whose body is currently being traversed.
    pub fn function(self) -> (function: FunctionId)
        ensures
            function == match self.spec_current_function() {
                Some(f) => f,
                None => self.spec_root_function(),
            },
    {
        match self.function {
            Some(function) => function,
            None => self.root_function,
        }
    }

    /// Returns whether the current program point belongs to the root function body.
    pub fn is_root(self) -> (root: bool)
        ensures
            root == self.spec_current_function().is_none(),
    {
        self.function.is_none()
    }

    /// Returns the internal call depth from the root function.
    pub fn call_depth(self) -> (depth: usize)
        ensures
            depth == self.spec_call_depth(),
    {
        self.call_depth
    }

    /// Returns the runtime loop nesting depth.
    pub fn loop_depth(self) -> (depth: usize)
        ensures
            depth == self.spec_loop_depth(),
    {
        self.loop_depth
    }

    /// Returns whether this program point executes in a loop.
    pub fn in_loop(self) -> (in_loop: bool)
        ensures
            in_loop == (self.spec_loop_depth() > 0),
    {
        self.loop_depth > 0
    }

    /// Returns whether this program point is in a root loop or a loop inherited from its caller.
    ///
    /// Local loops entered by an internal callee return `false`. This lets a lint follow a call
    /// made in a loop without reporting the callee's own loops again when each function is also
    /// checked independently.
    pub fn in_enclosing_loop(self) -> (enclosing: bool)
        ensures
            enclosing == self.spec_in_enclosing_loop(),
    {
        self.in_loop() && match self.call_entry_loop_depth {
            None => true,
            Some(depth) => self.loop_depth <= depth,
        }
    }

    /// The contract whose state the traversal reads: the dispatch contract, or else the contract
    /// of the root function, `root_contract`.
    pub open spec fn spec_state_contract(self, root_contract: Option<ContractId>) -> Option<ContractId> {
        match self.spec_dispatch_contract() {
            Some(contract) => Some(contract),
            None => root_contract,
        }
    }

    /// Returns the mutable state variables in this runtime dispatch context: those of the
    /// dispatch contract, or else of the root function's contract `root_contract`, none outside
    /// contracts. `mutable_state` holds the mutable state variables of each contract, at the index
    /// of its identifier.
    pub fn mutable_state_variables<'a>(
        self,
        root_contract: Option<ContractId>,
        mutable_state: &'a [Vec<VariableId>],
    ) -> (variables: &'a [VariableId])
        requires
            match self.spec_state_contract(root_contract) {
                Some(contract) => (contract.0 as int) < mutable_state@.len(),
                None => true,
            },
        ensures
            variables@ == match self.spec_state_contract(root_contract) {
                Some(contract) => mutable_state@[contract.0 as int]@,
                None => Seq::<VariableId>::empty(),
            },
    {
        let contract = match self.dispatch_contract {
            Some(contract) => Some(contract),
            None => root_contract,
        };
        match contract {
            Some(contract) => mutable_state[contract.0 as usize].as_slice(),
            None => &[],
        }
    }

    /// Returns the variables bound by one activation of `callee`: its own, then those of each
    /// distinct applied modifier. `modifiers` lists the applied modifiers in order, each resolved
    /// in the dispatch contract, `None` for a base-constructor call; `function_variables` holds
    /// the variables of each function, at the index of its identifier.
    pub fn activation_variables(
        self,
        callee: FunctionId,
        modifiers: &[Option<FunctionId>],
        function_variables: &[Vec<VariableId>],
    ) -> (variables: Vec<VariableId>)
        requires
            (callee.0 as int) < function_variables@.len(),
            forall|i: int|
                0 <= i < modifiers@.len() && #[trigger] modifiers@[i] is Some ==> ((modifiers@[i]->0).0 as int)
                    < function_variables@.len(),
        ensures
            variables@ == owner_variables(
                activation_owners(callee, modifiers@, modifiers@.len()),
                function_variables@,
            ),
    {
        let mut owners: Vec<FunctionId> = Vec::new();
        owners.push(callee);
        proof {
            assert(owners@ =~= activation_owners(callee, modifiers@, 0));
        }
        let mut i: usize = 0;
        while i < modifiers.len()
            invariant
                0 <= i <= modifiers@.len(),
                owners@ == activation_owners(callee, modifiers@, i as nat),
            decreases modifiers@.len() - i,
        {
            if let Some(modifier) = modifiers[i] {
                let mut k: usize = 0;
                let mut found = false;
                while k < owners.len()
                    invariant
                        0 <= k <= owners@.len(),
                        found == exists|q: int| 0 <= q < k && owners@[q] == modifier,
                    decreases owners@.len() - k,
                {
                    if owners[k] == modifier {
                        found = true;
                    }
                    k += 1;
                }
                if !found {
                    owners.push(modifier);
                }
            }
            i += 1;
        }
        proof {
            lemma_activation_owners_resolved(callee, modifiers@, modifiers@.len(), function_variables@.len());
        }
        let mut variables: Vec<VariableId> = Vec::new();
        let mut j: usize = 0;
        while j < owners.len()
            invariant
                0 <= j <= owners@.len(),
                forall|q: int| 0 <= q < owners@.len() ==> (#[trigger] owners@[q].0 as int) < function_variables@.len(),
                variables@ == owner_variables(owners@.subrange(0, j as int), function_variables@),
            decreases owners@.len() - j,
        {
            let owner_variables_list = &function_variables[owners[j].0 as usize];
            let mut v: usize = 0;
            let ghost start = variables@;
            while v < owner_variables_list.len()
                invariant
                    0 <= v <= owner_variables_list@.len(),
                    variables@ == start + owner_variables_list@.subrange(0, v as int),
                decreases owner_variables_list@.len() - v,
            {
                variables.push(owner_variables_list[v]);
                proof {
                    assert(variables@ =~= start + owner_variables_list@.subrange(0, v + 1));
                }
                v += 1;
            }
            proof {
                let prefix = owners@.subrange(0, j + 1);
                assert(prefix.drop_last() =~= owners@.subrange(0, j as int));
                assert(owner_variables_list@.subrange(0, owner_variables_list@.len() as int) =~= owner_variables_list@);
                assert(variables@ =~= owner_variables(prefix, function_variables@));
            }
            j += 1;
        }
        proof {
            assert(owners@.subrange(0, owners@.len() as int) =~= owners@);
        }
        variables
    }

    /// Returns whether observations such as lint diagnostics should be emitted.
    pub fn reports_enabled(self) -> (enabled: bool)
        ensures
            enabled == self.spec_reports_enabled(),
    {
        self.reports_enabled
    }
}

/// The functions whose variables an activation of `callee` binds when the first `count` applied
/// `modifiers` are considered: the callee, then each modifier not listed yet, in order.
pub open spec fn activation_owners(callee: FunctionId, modifiers: Seq<Option<FunctionId>>, count: nat) -> Seq<
    FunctionId,
>
    decreases count,
{
    if count == 0 || count > modifiers.len() {
        seq![callee]
    } else {
        let prior = activation_owners(callee, modifiers, (count - 1) as nat);
        match modifiers[count - 1] {
            Some(modifier) => if prior.contains(modifier) {
                prior
            } else {
                prior.push(modifier)
            },
            None => prior,
        }
    }
}

/// The variables of `owners`, in order, each owner's variables as `function_variables` lists them.
pub open spec fn owner_variables(owners: Seq<FunctionId>, function_variables: Seq<Vec<VariableId>>) -> Seq<VariableId>
    decreases owners.len(),
{
    if owners.len() == 0 {
        Seq::empty()
    } else {
        owner_variables(owners.drop_last(), function_variables) + function_variables[owners.last().0 as int]@
    }
}

/// Every activation owner has a variable list when the callee and each modifier do.
proof fn lemma_activation_owners_resolved(callee: FunctionId, modifiers: Seq<Option<FunctionId>>, count: nat, len: nat)
    requires
        (callee.0 as int) < len,
        forall|i: int| 0 <= i < modifiers.len() && #[trigger] modifiers[i] is Some ==> ((modifiers[i]->0).0 as int) < len,
    ensures
        forall|q: int|
            0 <= q < activation_owners(callee, modifiers, count).len() ==> (#[trigger] activation_owners(
                callee,
                modifiers,
                count,
            )[q].0 as int) < len,
    decreases count,
{
    if count > 0 && count <= modifiers.len() {
        lemma_activation_owners_resolved(callee, modifiers, (count - 1) as nat, len);
        let prior = activation_owners(callee, modifiers, (count - 1) as nat);
        let owners = activation_owners(callee, modifiers, count);
        assert(modifiers[count - 1] is Some ==> ((modifiers[count - 1]->0).0 as int) < len);
        assert forall|q: int| 0 <= q < owners.len() implies (#[trigger] owners[q].0 as int) < len by {
            if q < prior.len() {
                assert(owners[q] == prior[q]);
            }
        }
    } else {
        let owners = activation_owners(callee, modifiers, count);
        assert(owners =~= seq![callee]);
    }
}

/// In the root function and the modifiers applied to it (call depth zero) every loop is
/// enclosing; inside an internal callee entered at loop depth `d`, exactly the loops up to depth
/// `d` are, so the callee's own loops are not.
pub proof fn lemma_enclosing_loop_by_call_depth(cx: EffectiveBodyCx)
    requires
        cx.wf(),
    ensures
        cx.spec_call_depth() == 0 ==> (cx.spec_in_enclosing_loop() == (cx.spec_loop_depth() > 0)),
        cx.spec_call_entry_loop_depth() matches Some(depth) ==> (cx.spec_in_enclosing_loop() <==> (0
            < cx.spec_loop_depth() && cx.spec_loop_depth() <= depth)),
{
}

/// A program point of the root function's own body (one with no current function, whose
/// function is therefore the root function) is at call depth zero, outside every followed call.
pub proof fn lemma_root_context(cx: EffectiveBodyCx)
    requires
        cx.wf(),
    ensures
        cx.spec_current_function() is None ==> cx.spec_call_depth() == 0 && cx.spec_call_entry_loop_depth() is None,
{
}

/// A program point in an enclosing loop is in a loop, and outside followed calls every loop is
/// enclosing.
pub proof fn lemma_enclosing_loop_is_loop(cx: EffectiveBodyCx)
    ensures
        cx.spec_in_enclosing_loop() ==> cx.spec_loop_depth() > 0,
        cx.spec_call_entry_loop_depth().is_none() ==> (cx.spec_in_enclosing_loop()
            == (cx.spec_loop_depth() > 0)),
{
}

} // verus!
