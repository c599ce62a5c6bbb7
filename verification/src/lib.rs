use vstd::prelude::*;

pub mod ids;
pub mod errors;
pub mod namespace;
pub mod syms;
pub mod codegen;
pub mod llvm_codegen;
pub mod types;
pub mod scope;
pub mod ir;
pub mod typed_ast;
pub mod symbol_vec;

use std::collections::HashMap;

use crate::errors::Error;
use crate::ids::{DeclId, ErrorId, ExprId, NodeId, StmtId};
use crate::syms::sym_map::{BoundedGeneric, GenListId, Generic, SymbolId};
use crate::syms::ty::Type;

verus! {

/// What type checking knows about one enclosing loop.
#[derive(Clone, Copy, Debug, PartialEq, Eq, Structural)]
pub struct LoopContext {
    pub has_break: bool,
}

/// The stack of loops enclosing the code being checked, innermost last.
pub struct ControlFlowState {
    pub loops: Vec<LoopContext>,
}

/// The stack after entering a loop.
pub open spec fn spec_enter_loop(s: Seq<bool>) -> Seq<bool> {
    s.push(false)
}

/// The stack after leaving the innermost loop.
pub open spec fn spec_exit_loop(s: Seq<bool>) -> Seq<bool> {
    s.drop_last()
}

/// The stack after a `break`: the innermost loop, if any, is marked.
pub open spec fn spec_mark_break(s: Seq<bool>) -> Seq<bool> {
    if s.len() > 0 {
        s.update(s.len() - 1, true)
    } else {
        s
    }
}

impl View for ControlFlowState {
    /// For each enclosing loop, outermost first, whether it has a `break`.
    type V = Seq<bool>;

    open spec fn view(&self) -> Seq<bool> {
        self.loops@.map_values(|l: LoopContext| l.has_break)
    }
}

impl Default for ControlFlowState {
    fn default() -> (r: Self)
        ensures
            r@ == Seq::<bool>::empty(),
    {
        ControlFlowState { loops: Vec::new() }
    }
}

impl ControlFlowState {
    pub fn enter_loop(&mut self)
        ensures
            final(self)@ == spec_enter_loop(old(self)@),
    {
        self.loops.push(LoopContext { has_break: false });
        assert(self@ =~= spec_enter_loop(old(self)@));
    }

    /// Leaves the innermost loop and returns what was recorded for it.
    pub fn exit_loop(&mut self) -> (r: LoopContext)
        requires
            old(self)@.len() > 0,
        ensures
            r.has_break == old(self)@.last(),
            final(self)@ == spec_exit_loop(old(self)@),
    {
        let r = self.loops.pop().unwrap();
        assert(self@ =~= spec_exit_loop(old(self)@));
        r
    }

    /// Marks the innermost loop as broken out of; false when there is no loop.
    pub fn mark_break(&mut self) -> (r: bool)
        ensures
            r == (old(self)@.len() > 0),
            final(self)@ == spec_mark_break(old(self)@),
    {
        let n = self.loops.len();
        if n == 0 {
            return false;
        }
        self.loops.set(n - 1, LoopContext { has_break: true });
        assert(self@ =~= spec_mark_break(old(self)@));
        true
    }

    /// Takes the whole stack out, leaving it empty (as on entering a function body).
    pub fn suspend(&mut self) -> (r: Self)
        ensures
            r@ == old(self)@,
            final(self)@ == Seq::<bool>::empty(),
    {
        let mut previous = ControlFlowState { loops: Vec::new() };
        std::mem::swap(self, &mut previous);
        previous
    }

    /// Puts back a stack taken by `suspend`.
    pub fn restore(&mut self, previous: Self)
        ensures
            final(self)@ == previous@,
    {
        *self = previous;
    }
}

/// Leaving a loop undoes entering it, whatever the stack was.
pub proof fn law_exit_undoes_enter(s: Seq<bool>)
    ensures
        spec_exit_loop(spec_enter_loop(s)) == s,
        spec_enter_loop(s).last() == false,
{
    assert(spec_exit_loop(spec_enter_loop(s)) =~= s);
}

/// A `break` marks exactly the innermost loop and keeps the depth.
pub proof fn law_break_marks_innermost(s: Seq<bool>)
    requires
        s.len() > 0,
    ensures
        spec_mark_break(s).len() == s.len(),
        spec_mark_break(s).last() == true,
        spec_exit_loop(spec_mark_break(s)) == spec_exit_loop(s),
{
    assert(spec_exit_loop(spec_mark_break(s)) =~= spec_exit_loop(s));
}

/// Type information recorded for one expression.
#[derive(Clone, Copy, Debug)]
pub struct ExprInfo {
    pub ty: Type,
}

/// The type of an analysed expression and how it may be used.
#[derive(Clone, Copy, Debug)]
pub struct AnalysisResult {
    pub ty: Type,
    pub is_mut: bool,
    pub is_captured: bool,
}

impl AnalysisResult {
    /// A mutable, non-captured value of type `ty`.
    pub fn new(ty: Type) -> (r: Self)
        ensures
            r.ty == ty,
            r.is_mut,
            !r.is_captured,
    {
        AnalysisResult { ty, is_mut: true, is_captured: false }
    }

    /// A value captured by a closure: immutable.
    pub fn captured(ty: Type) -> (r: Self)
        ensures
            r.ty == ty,
            !r.is_mut,
            r.is_captured,
    {
        AnalysisResult { ty, is_mut: false, is_captured: true }
    }

    /// The result of an expression that never produces a value.
    pub fn never() -> (r: Self)
        ensures
            r.ty == Type::spec_never(),
            r.is_mut,
            !r.is_captured,
    {
        Self::new(Type::never())
    }
}


/// The errors that type checking reports, each with the node it is about.
pub struct SemaErrors {
    pub errors: Vec<Error>,
    pub nodes: Vec<NodeId>,
}

impl SemaErrors {
    pub fn new() -> (r: Self)
        ensures
            r.errors@.len() == 0,
            r.nodes@.len() == 0,
    {
        SemaErrors { errors: Vec::new(), nodes: Vec::new() }
    }

    /// Records `error` about `node`; the id is its position.
    pub fn push(&mut self, node: NodeId, error: Error) -> (r: ErrorId)
        requires
            old(self).errors@.len() == old(self).nodes@.len(),
            old(self).errors@.len() < u32::MAX,
        ensures
            r.0 == old(self).errors@.len(),
            final(self).errors@ == old(self).errors@.push(error),
            final(self).nodes@ == old(self).nodes@.push(node),
    {
        let id = ErrorId(self.errors.len() as u32);
        self.errors.push(error);
        self.nodes.push(node);
        id
    }
}

/// What type checking found out about each node: the type of each
/// expression, the first error of each statement and declaration, the
/// function each call resolves to, the symbol each identifier names, the
/// trait of each trait-function access, and each impl's types.
pub struct TyInfo {
    pub exprs: Vec<Option<ExprInfo>>,
    pub stmts: Vec<Option<ErrorId>>,
    pub decls: Vec<Option<ErrorId>>,
    pub funcs: HashMap<u32, (SymbolId, GenListId)>,
    pub idents: HashMap<u32, Option<SymbolId>>,
    pub trait_funcs: HashMap<u32, Generic>,
    pub impls: HashMap<u32, (Generic, Generic, Vec<BoundedGeneric>)>,
}

/// The value that recording `info` leaves in a slot: the first one stays.
pub open spec fn first_wins(slot: Option<ErrorId>, info: ErrorId) -> Option<ErrorId> {
    if slot is None { Some(info) } else { slot }
}

impl TyInfo {
    /// Records an error for `stmt` unless it has one already.
    pub fn set_stmt(&mut self, stmt: StmtId, info: ErrorId)
        requires
            stmt.0 < old(self).stmts@.len(),
        ensures
            final(self).stmts@ == old(self).stmts@.update(stmt.0 as int, first_wins(old(self).stmts@[stmt.0 as int], info)),
            final(self).exprs@ == old(self).exprs@,
            final(self).decls@ == old(self).decls@,
            final(self).funcs@ == old(self).funcs@,
            final(self).idents@ == old(self).idents@,
    {
        if self.stmts[stmt.0 as usize].is_none() {
            self.stmts.set(stmt.0 as usize, Some(info));
        }
    }

    /// Records the type of `expr`, replacing any earlier one.
    pub fn set_expr(&mut self, expr: ExprId, ty: Type)
        requires
            expr.0 < old(self).exprs@.len(),
        ensures
            final(self).exprs@ == old(self).exprs@.update(expr.0 as int, Some(ExprInfo { ty })),
            final(self).stmts@ == old(self).stmts@,
            final(self).decls@ == old(self).decls@,
            final(self).funcs@ == old(self).funcs@,
            final(self).idents@ == old(self).idents@,
    {
        self.exprs.set(expr.0 as usize, Some(ExprInfo { ty }));
    }

    /// Records an error for `decl` unless it has one already.
    pub fn set_decl(&mut self, decl: DeclId, info: ErrorId)
        requires
            decl.0 < old(self).decls@.len(),
        ensures
            final(self).decls@ == old(self).decls@.update(decl.0 as int, first_wins(old(self).decls@[decl.0 as int], info)),
            final(self).exprs@ == old(self).exprs@,
            final(self).stmts@ == old(self).stmts@,
            final(self).funcs@ == old(self).funcs@,
            final(self).idents@ == old(self).idents@,
    {
        if self.decls[decl.0 as usize].is_none() {
            self.decls.set(decl.0 as usize, Some(info));
        }
    }

    /// Records the function that the call `expr` resolves to.
    pub fn set_func_call(&mut self, expr: ExprId, call: (SymbolId, GenListId))
        ensures
            final(self).funcs@ == old(self).funcs@.insert(expr.0, call),
            final(self).exprs@ == old(self).exprs@,
            final(self).stmts@ == old(self).stmts@,
            final(self).decls@ == old(self).decls@,
            final(self).idents@ == old(self).idents@,
    {
        self.funcs.insert(expr.0, call);
    }

    /// Records the symbol that the identifier `expr` names, unless it has
    /// one recorded already.
    pub fn set_ident(&mut self, expr: ExprId, call: Option<SymbolId>)
        ensures
            final(self).idents@ == (if old(self).idents@.contains_key(expr.0) {
                old(self).idents@
            } else {
                old(self).idents@.insert(expr.0, call)
            }),
            final(self).exprs@ == old(self).exprs@,
            final(self).stmts@ == old(self).stmts@,
            final(self).decls@ == old(self).decls@,
            final(self).funcs@ == old(self).funcs@,
    {
        if self.idents.contains_key(&expr.0) {
            return;
        }
        self.idents.insert(expr.0, call);
    }

    /// Records the trait that the access `expr` goes through.
    pub fn set_acc(&mut self, expr: ExprId, tra: Generic)
        ensures
            final(self).trait_funcs@ == old(self).trait_funcs@.insert(expr.0, tra),
            final(self).exprs@ == old(self).exprs@,
            final(self).stmts@ == old(self).stmts@,
            final(self).decls@ == old(self).decls@,
            final(self).funcs@ == old(self).funcs@,
            final(self).idents@ == old(self).idents@,
    {
        self.trait_funcs.insert(expr.0, tra);
    }

    /// The type recorded for `expr`.
    pub fn expr(&self, expr: ExprId) -> (r: Type)
        requires
            expr.0 < self.exprs@.len(),
            self.exprs@[expr.0 as int] is Some,
        ensures
            r == self.exprs@[expr.0 as int]->Some_0.ty,
    {
        self.exprs[expr.0 as usize].unwrap().ty
    }

    pub fn stmt(&self, stmt: StmtId) -> (r: Option<ErrorId>)
        requires
            stmt.0 < self.stmts@.len(),
        ensures
            r == self.stmts@[stmt.0 as int],
    {
        self.stmts[stmt.0 as usize]
    }

    pub fn decl(&self, decl: DeclId) -> (r: Option<ErrorId>)
        requires
            decl.0 < self.decls@.len(),
        ensures
            r == self.decls@[decl.0 as int],
    {
        self.decls[decl.0 as usize]
    }

    pub fn ident(&self, expr: ExprId) -> (r: Option<Option<SymbolId>>)
        ensures
            r == (if self.idents@.contains_key(expr.0) { Some(self.idents@[expr.0]) } else { None }),
    {
        match self.idents.get(&expr.0) {
            Some(v) => Some(*v),
            None => None,
        }
    }

    pub fn func_call(&self, expr: ExprId) -> (r: Option<(SymbolId, GenListId)>)
        ensures
            r == (if self.funcs@.contains_key(expr.0) { Some(self.funcs@[expr.0]) } else { None }),
    {
        match self.funcs.get(&expr.0) {
            Some(v) => Some(*v),
            None => None,
        }
    }
}

/// Recording errors for a statement or declaration keeps the first one:
/// a second error never replaces it.
pub proof fn law_first_error_wins(slot: Option<ErrorId>, a: ErrorId, b: ErrorId)
    ensures
        first_wins(first_wins(slot, a), b) == first_wins(slot, a),
        slot is None ==> first_wins(first_wins(slot, a), b) == Some(a),
{
}

} // verus!
