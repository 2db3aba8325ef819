//! The syntax tree, and the mathematical tree that contracts speak of.

use vstd::prelude::*;
use crate::number::NumExpr;

verus! {

/// A binary operator.
#[derive(Debug, Clone, Copy, PartialEq, Eq)]
pub enum BinOpKind {
    /// `=`
    Assign,
    /// `==`
    Eq,
    /// `<`
    Lt,
    /// `<=`
    LtEq,
    /// `>`
    Gt,
    /// `>=`
    GtEq,
    /// `+`
    Add,
    /// `-`
    Sub,
    /// `*`
    Mul,
    /// `/`
    Div,
    /// `%`
    Mod,
    /// `**`
    Pow,
}

impl BinOpKind {
    /// How tightly the operator binds: assignment loosest, then the
    /// comparisons, the additive and the multiplicative operators, and the
    /// power operator tightest.
    pub open spec fn spec_precedence(self) -> u8 {
        match self {
            BinOpKind::Assign => 1,
            BinOpKind::Eq | BinOpKind::Lt | BinOpKind::LtEq | BinOpKind::Gt | BinOpKind::GtEq => 2,
            BinOpKind::Add | BinOpKind::Sub => 3,
            BinOpKind::Mul | BinOpKind::Div | BinOpKind::Mod => 4,
            BinOpKind::Pow => 5,
        }
    }

    /// How tightly the operator binds, from 1 (loosest) to 5.
    #[verifier::when_used_as_spec(spec_precedence)]
    pub fn precedence(self) -> (p: u8)
        ensures
            p == self.spec_precedence(),
    {
        match self {
            BinOpKind::Assign => 1,
            BinOpKind::Eq | BinOpKind::Lt | BinOpKind::LtEq | BinOpKind::Gt | BinOpKind::GtEq => 2,
            BinOpKind::Add | BinOpKind::Sub => 3,
            BinOpKind::Mul | BinOpKind::Div | BinOpKind::Mod => 4,
            BinOpKind::Pow => 5,
        }
    }
}

/// A name in the source. The parser records every name as unknown, with the
/// byte offset at which it stands; resolving names is left to a later stage.
#[derive(Debug, PartialEq, Eq)]
pub enum Symbol {
    Resolved { name: String },
    Unknown { name: String, position: usize },
}

/// A parameter of a function: its name and the name of its type.
#[derive(Debug, PartialEq, Eq)]
pub struct Param {
    pub name: String,
    pub ty: String,
}

/// An expression. Every node owns its children.
#[derive(Debug, PartialEq)]
pub enum Expr {
    /// A number.
    Num(NumExpr),
    /// A string, with its escapes decoded.
    Str(String),
    /// A name.
    Symbol(Symbol),
    /// `left:right`, a name within a namespace.
    Access(Box<Expr>, Box<Expr>),
    /// An operator with its two operands.
    BinOp(BinOpKind, Box<Expr>, Box<Expr>),
    /// The expressions of one block, in order.
    CodeBlock(Vec<Expr>),
    /// A function: its name, its parameters and what it returns.
    Closure(String, Vec<Param>, Box<Expr>),
    /// A condition, the branch taken when it holds, and the other branch if there is one.
    If(Box<Expr>, Box<Expr>, Option<Box<Expr>>),
    /// A callee and its arguments.
    Call(Box<Expr>, Vec<Expr>),
    /// The expressions between parentheses, in order.
    List(Vec<Expr>),
    /// A variable: its name, whether it is mutable, and its initial value if it has one.
    VarDef(String, bool, Option<Box<Expr>>),
    Null,
}

/// What a `Symbol` is to a contract.
pub ghost enum Name {
    Resolved { name: Seq<char> },
    Unknown { name: Seq<char>, position: usize },
}

/// What an `Expr` is to a contract: the same tree over sequences.
pub ghost enum Tree {
    Num(NumExpr),
    Str(Seq<char>),
    Symbol(Name),
    Access(Box<Tree>, Box<Tree>),
    BinOp(BinOpKind, Box<Tree>, Box<Tree>),
    CodeBlock(Seq<Tree>),
    Closure(Seq<char>, Seq<(Seq<char>, Seq<char>)>, Box<Tree>),
    If(Box<Tree>, Box<Tree>, Option<Box<Tree>>),
    Call(Box<Tree>, Seq<Tree>),
    List(Seq<Tree>),
    VarDef(Seq<char>, bool, Option<Box<Tree>>),
    Null,
}

impl View for Symbol {
    type V = Name;

    open spec fn view(&self) -> Name {
        match self {
            Symbol::Resolved { name } => Name::Resolved { name: name@ },
            Symbol::Unknown { name, position } => Name::Unknown { name: name@, position: *position },
        }
    }
}

impl View for Param {
    type V = (Seq<char>, Seq<char>);

    open spec fn view(&self) -> (Seq<char>, Seq<char>) {
        (self.name@, self.ty@)
    }
}

/// The trees of a list of expressions, in order.
pub open spec fn trees(v: Seq<Expr>) -> Seq<Tree> {
    Seq::new(v.len(), |i: int| v[i].tree())
}

impl Expr {
    /// The tree that this expression is.
    pub open spec fn tree(self) -> Tree
        decreases self,
    {
        match self {
            Expr::Num(n) => Tree::Num(n),
            Expr::Str(s) => Tree::Str(s@),
            Expr::Symbol(s) => Tree::Symbol(s@),
            Expr::Access(l, r) => Tree::Access(Box::new((*l).tree()), Box::new((*r).tree())),
            Expr::BinOp(k, l, r) => Tree::BinOp(k, Box::new((*l).tree()), Box::new((*r).tree())),
            Expr::CodeBlock(v) => Tree::CodeBlock(
                Seq::new(
                    v@.len(),
                    |i: int|
                        if 0 <= i < v@.len() {
                            v@[i].tree()
                        } else {
                            Tree::Null
                        },
                ),
            ),
            Expr::Closure(name, params, ret) => Tree::Closure(
                name@,
                Seq::new(params@.len(), |i: int| params@[i]@),
                Box::new((*ret).tree()),
            ),
            Expr::If(c, t, e) => Tree::If(
                Box::new((*c).tree()),
                Box::new((*t).tree()),
                match e {
                    Some(b) => Some(Box::new((*b).tree())),
                    None => None,
                },
            ),
            Expr::Call(f, args) => Tree::Call(
                Box::new((*f).tree()),
                Seq::new(
                    args@.len(),
                    |i: int|
                        if 0 <= i < args@.len() {
                            args@[i].tree()
                        } else {
                            Tree::Null
                        },
                ),
            ),
            Expr::List(v) => Tree::List(
                Seq::new(
                    v@.len(),
                    |i: int|
                        if 0 <= i < v@.len() {
                            v@[i].tree()
                        } else {
                            Tree::Null
                        },
                ),
            ),
            Expr::VarDef(name, is_mut, init) => Tree::VarDef(
                name@,
                is_mut,
                match init {
                    Some(b) => Some(Box::new((*b).tree())),
                    None => None,
                },
            ),
            Expr::Null => Tree::Null,
        }
    }

    pub fn is_num(&self) -> (r: bool)
        ensures
            r == (self@ is Num),
    {
        match self {
            Expr::Num(_) => true,
            _ => false,
        }
    }

    pub fn is_str(&self) -> (r: bool)
        ensures
            r == (self@ is Str),
    {
        match self {
            Expr::Str(_) => true,
            _ => false,
        }
    }

    pub fn is_access(&self) -> (r: bool)
        ensures
            r == (self@ is Access),
    {
        match self {
            Expr::Access(_, _) => true,
            _ => false,
        }
    }

    pub fn is_bin_op(&self) -> (r: bool)
        ensures
            r == (self@ is BinOp),
    {
        match self {
            Expr::BinOp(_, _, _) => true,
            _ => false,
        }
    }

    pub fn is_code_block(&self) -> (r: bool)
        ensures
            r == (self@ is CodeBlock),
    {
        match self {
            Expr::CodeBlock(_) => true,
            _ => false,
        }
    }

    pub fn is_closure(&self) -> (r: bool)
        ensures
            r == (self@ is Closure),
    {
        match self {
            Expr::Closure(_, _, _) => true,
            _ => false,
        }
    }

    pub fn is_if(&self) -> (r: bool)
        ensures
            r == (self@ is If),
    {
        match self {
            Expr::If(_, _, _) => true,
            _ => false,
        }
    }

    pub fn is_null(&self) -> (r: bool)
        ensures
            r == (self@ is Null),
    {
        match self {
            Expr::Null => true,
            _ => false,
        }
    }

    /// The operator and the operands, if this is a binary operation.
    pub fn as_bin_op(self) -> (r: Option<(BinOpKind, Box<Expr>, Box<Expr>)>)
        ensures
            match r {
                Some((k, left, right)) => self@ == Tree::BinOp(
                    k,
                    Box::new((*left)@),
                    Box::new((*right)@),
                ),
                None => !(self@ is BinOp),
            },
    {
        match self {
            Expr::BinOp(op, left, right) => Some((op, left, right)),
            _ => None,
        }
    }
}

impl View for Expr {
    type V = Tree;

    open spec fn view(&self) -> Tree {
        self.tree()
    }
}

/// The tree of a list, a block and a call, over the trees of their parts.
pub proof fn lemma_list_trees(v: Vec<Expr>)
    ensures
        Expr::List(v)@ == Tree::List(trees(v@)),
        Expr::CodeBlock(v)@ == Tree::CodeBlock(trees(v@)),
{
    assert(Expr::List(v)@->List_0 =~= trees(v@));
    assert(Expr::CodeBlock(v)@->CodeBlock_0 =~= trees(v@));
}

pub proof fn lemma_call_tree(f: Expr, v: Vec<Expr>)
    ensures
        Expr::Call(Box::new(f), v)@ == Tree::Call(Box::new(f@), trees(v@)),
{
    assert(Expr::Call(Box::new(f), v)@->Call_1 =~= trees(v@));
}

impl Clone for Symbol {
    fn clone(&self) -> (r: Self)
        ensures
            r@ == self@,
    {
        match self {
            Symbol::Resolved { name } => Symbol::Resolved { name: name.clone() },
            Symbol::Unknown { name, position } => Symbol::Unknown {
                name: name.clone(),
                position: *position,
            },
        }
    }
}

impl Clone for Param {
    fn clone(&self) -> (r: Self)
        ensures
            r@ == self@,
    {
        Param { name: self.name.clone(), ty: self.ty.clone() }
    }
}

/// A copy of every expression of `v`, in order.
pub fn clone_all(v: &Vec<Expr>) -> (r: Vec<Expr>)
    ensures
        trees(r@) == trees(v@),
    decreases v,
{
    let mut out: Vec<Expr> = Vec::new();
    let mut i: usize = 0;
    while i < v.len()
        invariant
            i <= v.len(),
            out@.len() == i,
            forall|k: int| 0 <= k < i ==> (#[trigger] out@[k]).tree() == v@[k].tree(),
        decreases v.len() - i,
    {
        out.push(v[i].clone());
        i += 1;
    }
    assert(trees(out@) =~= trees(v@));
    out
}

impl Clone for Expr {
    fn clone(&self) -> (r: Self)
        ensures
            r@ == self@,
        decreases self,
    {
        match self {
            Expr::Num(n) => Expr::Num(*n),
            Expr::Str(s) => Expr::Str(s.clone()),
            Expr::Symbol(s) => Expr::Symbol(s.clone()),
            Expr::Access(l, r) => Expr::Access(Box::new((**l).clone()), Box::new((**r).clone())),
            Expr::BinOp(k, l, r) => Expr::BinOp(
                *k,
                Box::new((**l).clone()),
                Box::new((**r).clone()),
            ),
            Expr::CodeBlock(v) => {
                let copy = clone_all(v);
                proof {
                    lemma_list_trees(copy);
                    lemma_list_trees(*v);
                }
                Expr::CodeBlock(copy)
            },
            Expr::Closure(name, params, ret) => {
                let mut copy: Vec<Param> = Vec::new();
                let mut i: usize = 0;
                while i < params.len()
                    invariant
                        i <= params.len(),
                        copy@.len() == i,
                        forall|k: int| 0 <= k < i ==> (#[trigger] copy@[k])@ == params@[k]@,
                    decreases params.len() - i,
                {
                    copy.push(params[i].clone());
                    i += 1;
                }
                let out = Expr::Closure(name.clone(), copy, Box::new((**ret).clone()));
                assert(out@->Closure_1 =~= self@->Closure_1);
                out
            },
            Expr::If(c, t, e) => Expr::If(
                Box::new((**c).clone()),
                Box::new((**t).clone()),
                match e {
                    Some(b) => Some(Box::new((**b).clone())),
                    None => None,
                },
            ),
            Expr::Call(f, args) => {
                let copy = clone_all(args);
                let callee = (**f).clone();
                proof {
                    lemma_call_tree(callee, copy);
                    lemma_call_tree(**f, *args);
                }
                Expr::Call(Box::new(callee), copy)
            },
            Expr::List(v) => {
                let copy = clone_all(v);
                proof {
                    lemma_list_trees(copy);
                    lemma_list_trees(*v);
                }
                Expr::List(copy)
            },
            Expr::VarDef(name, is_mut, init) => Expr::VarDef(
                name.clone(),
                *is_mut,
                match init {
                    Some(b) => Some(Box::new((**b).clone())),
                    None => None,
                },
            ),
            Expr::Null => Expr::Null,
        }
    }
}

/// The views of a vector's expressions are the trees of its elements.
pub proof fn lemma_trees_push(v: Seq<Expr>, e: Expr)
    ensures
        trees(v.push(e)) == trees(v).push(e.tree()),
{
    assert(trees(v.push(e)) =~= trees(v).push(e.tree()));
}

} // verus!
