//! Kinds and declaration facts of variables.

use vstd::prelude::*;

verus! {

/// The kind of variable.
#[derive(Clone, Copy, Debug, PartialEq, Eq, Hash, Structural)]
pub enum VarKind {
    /// Defined at the top level.
    Global,
    /// Defined in a contract.
    State,
    /// Defined in a struct.
    Struct,
    /// Defined in an event.
    Event,
    /// Defined in an error.
    Error,
    /// Defined as a function parameter.
    FunctionParam,
    /// Defined as a function return.
    FunctionReturn,
    /// Defined as a function type parameter.
    FunctionTyParam,
    /// Defined as a function type return.
    FunctionTyReturn,
    /// Defined as a statement, inside of a function, block or `for` statement.
    Statement,
    /// Defined in a catch clause.
    TryCatch,
}

/// The mutability of a variable declaration.
#[derive(Clone, Copy, Debug, PartialEq, Eq, Hash, Structural)]
pub enum VarMut {
    /// `constant`.
    Constant,
    /// `immutable`.
    Immutable,
}

/// The visibility of a declaration, from the least to the most visible.
#[derive(Clone, Copy, Debug, PartialEq, Eq, Hash, Structural)]
pub enum Visibility {
    /// `private`.
    Private,
    /// `internal`.
    Internal,
    /// `public`.
    Public,
    /// `external`.
    External,
}

/// The position of a visibility from the least to the most visible.
pub open spec fn visibility_rank(visibility: Visibility) -> nat {
    match visibility {
        Visibility::Private => 0,
        Visibility::Internal => 1,
        Visibility::Public => 2,
        Visibility::External => 3,
    }
}

/// The description of a variable of kind `kind`.
pub open spec fn kind_description(kind: VarKind) -> Seq<char> {
    match kind {
        VarKind::Global => "file-level variable"@,
        VarKind::State => "state variable"@,
        VarKind::Struct => "struct field"@,
        VarKind::Event => "event parameter"@,
        VarKind::Error => "error parameter"@,
        VarKind::FunctionParam => "function parameter"@,
        VarKind::FunctionTyParam => "function parameter"@,
        VarKind::FunctionReturn => "function return parameter"@,
        VarKind::FunctionTyReturn => "function return parameter"@,
        VarKind::Statement => "variable"@,
        VarKind::TryCatch => "try/catch clause"@,
    }
}

/// Whether a variable of kind `kind` is local to a callable: a parameter or return of a function
/// or function type, an event or error parameter, a statement or a catch-clause variable.
pub open spec fn is_local_kind(kind: VarKind) -> bool {
    kind is FunctionTyParam || kind is FunctionTyReturn || kind is Event || kind is Error || kind is FunctionParam
        || kind is FunctionReturn || kind is Statement || kind is TryCatch
}

/// Whether a variable of kind `kind` is a parameter or return of a callable, or a catch-clause
/// variable.
pub open spec fn is_callable_kind(kind: VarKind) -> bool {
    kind is Event || kind is Error || kind is FunctionParam || kind is FunctionTyParam || kind is FunctionReturn
        || kind is FunctionTyReturn || kind is TryCatch
}

/// Whether a variable of kind `kind` is a return parameter.
pub open spec fn is_return_kind(kind: VarKind) -> bool {
    kind is FunctionReturn || kind is FunctionTyReturn
}

impl VarKind {
    /// Returns the description of a variable of this kind.
    pub fn to_str(self) -> (description: &'static str)
        ensures
            description@ == kind_description(self),
    {
        match self {
            VarKind::Global => "file-level variable",
            VarKind::State => "state variable",
            VarKind::Struct => "struct field",
            VarKind::Event => "event parameter",
            VarKind::Error => "error parameter",
            VarKind::FunctionParam => "function parameter",
            VarKind::FunctionTyParam => "function parameter",
            VarKind::FunctionReturn => "function return parameter",
            VarKind::FunctionTyReturn => "function return parameter",
            VarKind::Statement => "variable",
            VarKind::TryCatch => "try/catch clause",
        }
    }

    /// Returns whether this is the kind of a state variable.
    pub fn is_state(self) -> (state: bool)
        ensures
            state == (self is State),
    {
        match self {
            VarKind::State => true,
            _ => false,
        }
    }
}

/// The data location of a variable.
#[derive(Clone, Copy, Debug, PartialEq, Eq, Hash, Structural)]
pub enum DataLocation {
    /// `storage`.
    Storage,
    /// `transient`.
    Transient,
    /// `memory`.
    Memory,
    /// `calldata`.
    Calldata,
}

/// The declaration facts of a variable that its classification reads: its kind, its
/// mutability, its visibility and its data location.
#[derive(Clone, Copy, Debug, PartialEq, Eq, Hash, Structural)]
pub struct Variable {
    /// The kind of variable.
    pub kind: VarKind,
    /// The mutability of the declaration, if any.
    pub mutability: Option<VarMut>,
    /// The visibility of the declaration, if any.
    pub visibility: Option<Visibility>,
    /// The data location of the declaration, if any.
    pub data_location: Option<DataLocation>,
}

impl Variable {
    /// Returns the description of the variable.
    pub fn description(&self) -> (description: &'static str)
        ensures
            description@ == kind_description(self.kind),
    {
        self.kind.to_str()
    }

    /// Returns whether the variable is `constant`.
    pub fn is_constant(&self) -> (constant: bool)
        ensures
            constant == (self.mutability == Some(VarMut::Constant)),
    {
        match self.mutability {
            Some(VarMut::Constant) => true,
            _ => false,
        }
    }

    /// Returns whether the variable is `immutable`.
    pub fn is_immutable(&self) -> (immutable: bool)
        ensures
            immutable == (self.mutability == Some(VarMut::Immutable)),
    {
        match self.mutability {
            Some(VarMut::Immutable) => true,
            _ => false,
        }
    }

    /// Returns whether the variable can be assigned: it is not `constant`.
    pub fn is_l_value(&self) -> (assignable: bool)
        ensures
            assignable == (self.mutability != Some(VarMut::Constant)),
    {
        !self.is_constant()
    }

    /// Returns whether the variable is a struct field.
    pub fn is_struct_member(&self) -> (member: bool)
        ensures
            member == (self.kind is Struct),
    {
        match self.kind {
            VarKind::Struct => true,
            _ => false,
        }
    }

    /// Returns whether the variable is an event or error parameter.
    pub fn is_event_or_error_parameter(&self) -> (parameter: bool)
        ensures
            parameter == (self.kind is Event || self.kind is Error),
    {
        match self.kind {
            VarKind::Event | VarKind::Error => true,
            _ => false,
        }
    }

    /// Returns whether the variable is local to a callable.
    pub fn is_local_variable(&self) -> (local: bool)
        ensures
            local == is_local_kind(self.kind),
    {
        match self.kind {
            VarKind::FunctionTyParam | VarKind::FunctionTyReturn | VarKind::Event | VarKind::Error
            | VarKind::FunctionParam | VarKind::FunctionReturn | VarKind::Statement | VarKind::TryCatch => true,
            _ => false,
        }
    }

    /// Returns whether the variable is a parameter or return of a callable, or a catch-clause
    /// variable.
    pub fn is_callable_or_catch_parameter(&self) -> (parameter: bool)
        ensures
            parameter == is_callable_kind(self.kind),
    {
        match self.kind {
            VarKind::Event | VarKind::Error | VarKind::FunctionParam | VarKind::FunctionTyParam
            | VarKind::FunctionReturn | VarKind::FunctionTyReturn | VarKind::TryCatch => true,
            _ => false,
        }
    }

    /// Returns whether the variable is a return parameter or a local that is no parameter.
    pub fn is_local_or_return(&self) -> (local: bool)
        ensures
            local == (is_return_kind(self.kind) || (is_local_kind(self.kind) && !is_callable_kind(self.kind))),
    {
        self.is_return_parameter() || (self.is_local_variable() && !self.is_callable_or_catch_parameter())
    }

    /// Returns whether the variable is a return parameter.
    pub fn is_return_parameter(&self) -> (return_parameter: bool)
        ensures
            return_parameter == is_return_kind(self.kind),
    {
        match self.kind {
            VarKind::FunctionReturn | VarKind::FunctionTyReturn => true,
            _ => false,
        }
    }

    /// Returns whether the variable is a catch-clause variable.
    pub fn is_try_catch_parameter(&self) -> (parameter: bool)
        ensures
            parameter == (self.kind is TryCatch),
    {
        match self.kind {
            VarKind::TryCatch => true,
            _ => false,
        }
    }

    /// Returns whether the variable is a state variable.
    pub fn is_state_variable(&self) -> (state: bool)
        ensures
            state == (self.kind is State),
    {
        self.kind.is_state()
    }

    /// Returns whether the variable is declared at the top level.
    pub fn is_file_level_variable(&self) -> (file_level: bool)
        ensures
            file_level == (self.kind is Global),
    {
        match self.kind {
            VarKind::Global => true,
            _ => false,
        }
    }

    /// Returns whether the variable is public: its visibility is `public` or `external`.
    pub fn is_public(&self) -> (public: bool)
        ensures
            public == match self.visibility {
                Some(visibility) => visibility_rank(visibility) >= visibility_rank(Visibility::Public),
                None => false,
            },
    {
        match self.visibility {
            Some(Visibility::Public) | Some(Visibility::External) => true,
            _ => false,
        }
    }
}

} // verus!
