//! Wrappers that hold a lint, storage or value flow policy.

use vstd::prelude::*;

verus! {

/// Holds a lint flow policy.
pub struct LintFlowAdapter<A> {
    analysis: A,
}

impl<A> LintFlowAdapter<A> {
    /// The wrapped analysis policy.
    pub closed spec fn spec_analysis(&self) -> A {
        self.analysis
    }

    /// Creates an adapter around `analysis`.
    pub fn new(analysis: A) -> (adapter: Self)
        ensures
            adapter.spec_analysis() == analysis,
    {
        LintFlowAdapter { analysis }
    }

    /// Returns the wrapped analysis policy.
    pub fn analysis(&self) -> (analysis: &A)
        ensures
            *analysis == self.spec_analysis(),
    {
        &self.analysis
    }

    /// Returns mutable access to the wrapped analysis policy.
    pub fn analysis_mut(&mut self) -> (analysis: &mut A)
        ensures
            *analysis == old(self).spec_analysis(),
            final(self).spec_analysis() == *final(analysis),
    {
        &mut self.analysis
    }

    /// Consumes the adapter and returns its analysis policy.
    pub fn into_analysis(self) -> (analysis: A)
        ensures
            analysis == self.spec_analysis(),
    {
        self.analysis
    }
}

/// Holds a storage-provenance flow policy.
pub struct StorageFlowAdapter<A> {
    analysis: A,
}

impl<A> StorageFlowAdapter<A> {
    /// The wrapped analysis policy.
    pub closed spec fn spec_analysis(&self) -> A {
        self.analysis
    }

    /// Creates an adapter around `analysis`.
    pub fn new(analysis: A) -> (adapter: Self)
        ensures
            adapter.spec_analysis() == analysis,
    {
        StorageFlowAdapter { analysis }
    }

    /// Returns the wrapped analysis policy.
    pub fn analysis(&self) -> (analysis: &A)
        ensures
            *analysis == self.spec_analysis(),
    {
        &self.analysis
    }

    /// Returns mutable access to the wrapped analysis policy.
    pub fn analysis_mut(&mut self) -> (analysis: &mut A)
        ensures
            *analysis == old(self).spec_analysis(),
            final(self).spec_analysis() == *final(analysis),
    {
        &mut self.analysis
    }

    /// Consumes the adapter and returns its analysis policy.
    pub fn into_analysis(self) -> (analysis: A)
        ensures
            analysis == self.spec_analysis(),
    {
        self.analysis
    }
}

/// Holds a value flow policy.
pub struct ValueFlowAdapter<A> {
    analysis: A,
}

impl<A> ValueFlowAdapter<A> {
    /// The wrapped analysis policy.
    pub closed spec fn spec_analysis(&self) -> A {
        self.analysis
    }

    /// Creates an adapter around `analysis`.
    pub fn new(analysis: A) -> (adapter: Self)
        ensures
            adapter.spec_analysis() == analysis,
    {
        ValueFlowAdapter { analysis }
    }

    /// Returns the wrapped analysis policy.
    pub fn analysis(&self) -> (analysis: &A)
        ensures
            *analysis == self.spec_analysis(),
    {
        &self.analysis
    }

    /// Returns mutable access to the wrapped analysis policy.
    pub fn analysis_mut(&mut self) -> (analysis: &mut A)
        ensures
            *analysis == old(self).spec_analysis(),
            final(self).spec_analysis() == *final(analysis),
    {
        &mut self.analysis
    }

    /// Consumes the adapter and returns its analysis policy.
    pub fn into_analysis(self) -> (analysis: A)
        ensures
            analysis == self.spec_analysis(),
    {
        self.analysis
    }
}

} // verus!
