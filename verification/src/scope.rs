//! Lexical scopes. The scopes that are open form a stack; each one names the
//! place of its parent in that stack.

use vstd::prelude::*;
use vstd::string::StringExecFns;

verus! {

/// A named scope and the index of the scope around it, if there is one.
#[derive(Debug, Clone, PartialEq, Eq)]
pub struct Scope {
    pub name: String,
    pub parent: Option<usize>,
}

/// The name of the outermost scope.
pub open spec fn global_name() -> Seq<char> {
    seq!['g', 'l', 'o', 'b', 'a', 'l']
}

/// The name of the scope of a block.
pub open spec fn block_name() -> Seq<char> {
    seq!['b', 'l', 'o', 'c', 'k']
}

impl View for Scope {
    type V = (Seq<char>, Option<usize>);

    open spec fn view(&self) -> (Seq<char>, Option<usize>) {
        (self.name@, self.parent)
    }
}

/// What a stack of scopes is to a contract.
pub open spec fn scope_views(v: Seq<Scope>) -> Seq<(Seq<char>, Option<usize>)> {
    Seq::new(v.len(), |i: int| v[i]@)
}

/// Every scope but the outermost has the scope just below it as its parent.
pub open spec fn chained(v: Seq<(Seq<char>, Option<usize>)>) -> bool {
    &&& v.len() >= 1
    &&& v[0].1.is_none()
    &&& forall|i: int| 1 <= i < v.len() ==> (#[trigger] v[i]).1 == Some((i - 1) as usize)
}

impl Scope {
    /// A scope without a parent.
    pub fn new_named(name: &str) -> (s: Scope)
        ensures
            s@ == (name@, None::<usize>),
    {
        Scope { name: String::from_str(name), parent: None }
    }

    /// The scope of a block that opens within the scope at `parent`.
    pub fn child(parent: usize) -> (s: Scope)
        ensures
            s@ == (block_name(), Some(parent)),
    {
        proof {
            reveal_strlit("block");
        }
        let s = Scope { name: String::from_str("block"), parent: Some(parent) };
        assert(s.name@ =~= block_name());
        s
    }
}

} // verus!
