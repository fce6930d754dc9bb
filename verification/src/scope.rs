//! The tree of scopes and symbols that a parser makes of one file.

use vstd::prelude::*;
use crate::descriptor::{Descriptor, DescriptorView};

verus! {

/// A symbol declared directly inside a scope that is not itself a scope.
#[derive(Debug)]
pub struct LeafSymbol {
    /// The qualified name of the symbol, its own name last. Never empty.
    pub descriptors: Vec<Descriptor>,
    /// The first and the last line of the symbol, counted from 0.
    pub range: [i32; 2],
}

/// A lexical scope with its nested scopes and its own symbols.
#[derive(Debug)]
pub struct Scope {
    /// The names of the scope; none where the scope is anonymous.
    pub descriptors: Vec<Descriptor>,
    /// The first and the last line of the scope, counted from 0.
    pub range: [i32; 2],
    /// The scopes nested directly in this one, in the order of the file.
    pub children: Vec<Scope>,
    /// The symbols declared directly in this scope, in the order of the file.
    pub globals: Vec<LeafSymbol>,
}

/// The mathematical value of a [`LeafSymbol`].
pub struct LeafSymbolView {
    pub descriptors: Seq<DescriptorView>,
    pub start_line: int,
    pub end_line: int,
}

/// The mathematical value of a [`Scope`].
pub struct ScopeView {
    pub descriptors: Seq<DescriptorView>,
    pub start_line: int,
    pub end_line: int,
    pub children: Seq<ScopeView>,
    pub globals: Seq<LeafSymbolView>,
}

impl View for LeafSymbol {
    type V = LeafSymbolView;

    open spec fn view(&self) -> LeafSymbolView {
        LeafSymbolView {
            descriptors: self.descriptors.deep_view(),
            start_line: self.range[0] as int,
            end_line: self.range[1] as int,
        }
    }
}

impl DeepView for LeafSymbol {
    type V = LeafSymbolView;

    open spec fn deep_view(&self) -> LeafSymbolView {
        self@
    }
}

/// The value of a scope: its own fields, and the values of its children.
pub open spec fn scope_view(scope: Scope) -> ScopeView
    decreases scope,
{
    ScopeView {
        descriptors: scope.descriptors.deep_view(),
        start_line: scope.range[0] as int,
        end_line: scope.range[1] as int,
        children: Seq::new(
            scope.children@.len(),
            |i: int|
                if 0 <= i < scope.children@.len() {
                    scope_view(scope.children@[i])
                } else {
                    arbitrary()
                },
        ),
        globals: scope.globals.deep_view(),
    }
}

impl View for Scope {
    type V = ScopeView;

    open spec fn view(&self) -> ScopeView {
        scope_view(*self)
    }
}

impl LeafSymbolView {
    /// A symbol has at least one descriptor, and its lines count from 0.
    pub open spec fn wf(self) -> bool {
        &&& self.descriptors.len() > 0
        &&& self.start_line >= 0
    }
}

impl ScopeView {
    /// Lines count from 0 in the scope and everywhere below it, and every
    /// symbol below it has at least one descriptor.
    pub open spec fn wf(self) -> bool
        decreases self,
    {
        &&& self.start_line >= 0
        &&& forall|i: int| 0 <= i < self.children.len() ==> (#[trigger] self.children[i]).wf()
        &&& forall|i: int| 0 <= i < self.globals.len() ==> (#[trigger] self.globals[i]).wf()
    }
}

impl LeafSymbol {
    /// Whether the symbol is well formed.
    pub fn is_well_formed(&self) -> (ok: bool)
        ensures
            ok == self@.wf(),
    {
        self.descriptors.len() > 0 && self.range[0] >= 0
    }
}

impl Scope {
    /// The value of a scope, field by field.
    pub proof fn lemma_view(&self)
        ensures
            self@.descriptors == self.descriptors.deep_view(),
            self@.start_line == self.range[0],
            self@.end_line == self.range[1],
            self@.children.len() == self.children@.len(),
            forall|i: int|
                0 <= i < self.children@.len() ==> #[trigger] self@.children[i]
                    == self.children@[i]@,
            self@.globals == self.globals.deep_view(),
    {
    }

    /// Whether the scope and all that is below it are well formed.
    pub fn is_well_formed(&self) -> (ok: bool)
        ensures
            ok == self@.wf(),
        decreases self,
    {
        proof {
            self.lemma_view();
        }
        if self.range[0] < 0 {
            return false;
        }
        let mut i: usize = 0;
        while i < self.children.len()
            invariant
                i <= self.children@.len(),
                self@.children.len() == self.children@.len(),
                forall|k: int|
                    0 <= k < self.children@.len() ==> #[trigger] self@.children[k]
                        == self.children@[k]@,
                forall|k: int| 0 <= k < i ==> (#[trigger] self@.children[k]).wf(),
            decreases self.children@.len() - i,
        {
            if !self.children[i].is_well_formed() {
                assert(!self@.children[i as int].wf());
                return false;
            }
            i += 1;
        }
        let mut j: usize = 0;
        while j < self.globals.len()
            invariant
                j <= self.globals@.len(),
                self@.start_line >= 0,
                self@.globals == self.globals.deep_view(),
                forall|k: int| 0 <= k < self@.children.len() ==> (#[trigger] self@.children[k]).wf(),
                forall|k: int| 0 <= k < j ==> (#[trigger] self@.globals[k]).wf(),
            decreases self.globals@.len() - j,
        {
            if !self.globals[j].is_well_formed() {
                assert(!self@.globals[j as int].wf());
                return false;
            }
            j += 1;
        }
        true
    }
}

} // verus!
