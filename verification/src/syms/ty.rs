use vstd::prelude::*;

use crate::errors::Error;
use crate::syms::sym_map::{BoundedGeneric, GenListId, SymbolId, SymbolMap, VarId, VarSub, rank_in};
use crate::syms::sym_map::{lemma_acyclic, lemma_cost_list_prefix, lemma_cost_persists, lemma_inst_list_from, lemma_inst_persists};

verus! {

/// A type: a symbol applied to a generic list, or an inference variable.
#[derive(Clone, Copy, Debug, PartialEq, Eq, Structural)]
pub enum Sym {
    Ty(SymbolId, GenListId),
    Var(VarId),
}

/// The name the rest of the analysis uses for `Sym`.
pub type Type = Sym;

/// A hash of a fully instantiated type.
#[derive(Clone, Copy, Debug, PartialEq, Eq, Structural)]
pub struct TypeHash(pub u32);

impl Sym {
    pub open spec fn spec_unit() -> Sym {
        Sym::Ty(SymbolId(SymbolId::UNIT), GenListId(GenListId::EMPTY))
    }

    /// The builtin `unit` type.
    #[verifier::when_used_as_spec(spec_unit)]
    pub fn unit() -> (r: Sym)
        ensures
            r == Sym::spec_unit(),
    {
        Sym::Ty(SymbolId(SymbolId::UNIT), GenListId(GenListId::EMPTY))
    }

    pub open spec fn spec_i64() -> Sym {
        Sym::Ty(SymbolId(SymbolId::I64), GenListId(GenListId::EMPTY))
    }

    /// The builtin `i64` type.
    #[verifier::when_used_as_spec(spec_i64)]
    pub fn i64() -> (r: Sym)
        ensures
            r == Sym::spec_i64(),
    {
        Sym::Ty(SymbolId(SymbolId::I64), GenListId(GenListId::EMPTY))
    }

    pub open spec fn spec_float64() -> Sym {
        Sym::Ty(SymbolId(SymbolId::F64), GenListId(GenListId::EMPTY))
    }

    /// The builtin 64-bit float type.
    #[verifier::when_used_as_spec(spec_float64)]
    pub fn float64() -> (r: Sym)
        ensures
            r == Sym::spec_float64(),
    {
        Sym::Ty(SymbolId(SymbolId::F64), GenListId(GenListId::EMPTY))
    }

    pub open spec fn spec_bool() -> Sym {
        Sym::Ty(SymbolId(SymbolId::BOOL), GenListId(GenListId::EMPTY))
    }

    /// The builtin `bool` type.
    #[verifier::when_used_as_spec(spec_bool)]
    pub fn bool() -> (r: Sym)
        ensures
            r == Sym::spec_bool(),
    {
        Sym::Ty(SymbolId(SymbolId::BOOL), GenListId(GenListId::EMPTY))
    }

    pub open spec fn spec_error() -> Sym {
        Sym::Ty(SymbolId(SymbolId::ERR), GenListId(GenListId::EMPTY))
    }

    /// The builtin `error` type.
    #[verifier::when_used_as_spec(spec_error)]
    pub fn error() -> (r: Sym)
        ensures
            r == Sym::spec_error(),
    {
        Sym::Ty(SymbolId(SymbolId::ERR), GenListId(GenListId::EMPTY))
    }

    pub open spec fn spec_never() -> Sym {
        Sym::Ty(SymbolId(SymbolId::NEVER), GenListId(GenListId::EMPTY))
    }

    /// The builtin `never` type.
    #[verifier::when_used_as_spec(spec_never)]
    pub fn never() -> (r: Sym)
        ensures
            r == Sym::spec_never(),
    {
        Sym::Ty(SymbolId(SymbolId::NEVER), GenListId(GenListId::EMPTY))
    }

    pub open spec fn spec_range() -> Sym {
        Sym::Ty(SymbolId(SymbolId::RANGE), GenListId(GenListId::EMPTY))
    }

    /// The builtin `range` type.
    #[verifier::when_used_as_spec(spec_range)]
    pub fn range() -> (r: Sym)
        ensures
            r == Sym::spec_range(),
    {
        Sym::Ty(SymbolId(SymbolId::RANGE), GenListId(GenListId::EMPTY))
    }

    pub open spec fn spec_str() -> Sym {
        Sym::Ty(SymbolId(SymbolId::STR), GenListId(GenListId::EMPTY))
    }

    /// The builtin `str` type.
    #[verifier::when_used_as_spec(spec_str)]
    pub fn str() -> (r: Sym)
        ensures
            r == Sym::spec_str(),
    {
        Sym::Ty(SymbolId(SymbolId::STR), GenListId(GenListId::EMPTY))
    }

    pub open spec fn spec_byte() -> Sym {
        Sym::Ty(SymbolId(SymbolId::BYTE), GenListId(GenListId::EMPTY))
    }

    /// The builtin `byte` type.
    #[verifier::when_used_as_spec(spec_byte)]
    pub fn byte() -> (r: Sym)
        ensures
            r == Sym::spec_byte(),
    {
        Sym::Ty(SymbolId(SymbolId::BYTE), GenListId(GenListId::EMPTY))
    }

}


impl Sym {
    /// One step along a variable's binding, as `SymbolMap::shallow`.
    pub fn instantiate_shallow(self, map: &SymbolMap) -> (r: Sym)
        requires
            self matches Sym::Var(v) ==> v.0 < map.vars@.len(),
        ensures
            r == map.shallow(self),
    {
        match self {
            Sym::Ty(_, _) => self,
            Sym::Var(v) => {
                match map.vars[v.0 as usize].sub {
                    VarSub::Concrete(t) => t,
                    _ => self,
                }
            },
        }
    }

    /// The symbol of this type, or `UnableToInfer` with the range of the
    /// variable it stands for when that is not a symbol type.
    pub fn sym(self, map: &SymbolMap) -> (r: Result<SymbolId, Error>)
        requires
            map.wf(),
            self matches Sym::Var(v) ==> v.0 < map.vars@.len(),
        ensures
            match map.shallow(self) {
                Sym::Ty(s, _) => r == Ok::<SymbolId, Error>(s),
                Sym::Var(v) => r == Err::<SymbolId, Error>(Error::UnableToInfer(map.vars@[v.0 as int].range)),
            },
    {
        match self.instantiate_shallow(map) {
            Sym::Ty(sym, _) => Ok(sym),
            Sym::Var(id) => {
                proof {
                    if let Sym::Var(v) = self {
                        assert(map.vars@[v.0 as int].sub == map.vars@[v.0 as int].sub);
                    }
                }
                Err(Error::UnableToInfer(map.vars[id.0 as usize].range))
            },
        }
    }

    /// The generic list of the symbol type this type stands for; the empty
    /// list for a variable.
    pub fn gens(self, map: &SymbolMap) -> (r: GenListId)
        requires
            self matches Sym::Var(v) ==> v.0 < map.vars@.len(),
        ensures
            r == match map.shallow(self) {
                Sym::Ty(_, g) => g,
                Sym::Var(_) => GenListId(GenListId::EMPTY),
            },
    {
        match self.instantiate_shallow(map) {
            Sym::Ty(_, v) => v,
            Sym::Var(_) => GenListId(GenListId::EMPTY),
        }
    }

    /// Whether this type stands for the error type.
    pub fn is_err(self, map: &SymbolMap) -> (r: bool)
        requires
            map.wf(),
            self matches Sym::Var(v) ==> v.0 < map.vars@.len(),
        ensures
            r == (map.shallow(self) matches Sym::Ty(s, _) && s.0 == SymbolId::ERR),
    {
        match self.sym(map) {
            Ok(sym) => sym.0 == SymbolId::ERR,
            Err(_) => false,
        }
    }

    /// Whether this type stands for the never type.
    pub fn is_never(self, map: &SymbolMap) -> (r: bool)
        requires
            map.wf(),
            self matches Sym::Var(v) ==> v.0 < map.vars@.len(),
        ensures
            r == (map.shallow(self) matches Sym::Ty(s, _) && s.0 == SymbolId::NEVER),
    {
        match self.sym(map) {
            Ok(sym) => sym.0 == SymbolId::NEVER,
            Err(_) => false,
        }
    }
}

impl Sym {
    /// This type with every bound variable replaced, all the way down, by
    /// what it stands for; each nonempty generic list on the way is copied
    /// into a new list. `depth` counts the bound variables followed so far.
    pub fn instantiate(self, map: &mut SymbolMap, depth: usize) -> (r: Sym)
        requires
            old(map).acyclic(),
            old(map).sym_ok(self),
            old(map).inst_cost(self, depth as nat) is Some,
            old(map).gens@.len() + old(map).inst_cost(self, depth as nat)->Some_0 < u32::MAX,
        ensures
            final(map).acyclic(),
            old(map).grows_to(*final(map)),
            final(map).syms == old(map).syms,
            final(map).closures == old(map).closures,
            final(map).gens@.len() == old(map).gens@.len() + old(map).inst_cost(self, depth as nat)->Some_0,
            final(map).sym_ok(r),
            final(map).instantiated(r, self),
    {
        let ghost rk = map.ranks();
        proof {
            assert(map.ranked_by(rk));
        }
        let (r, Ghost(rk2)) = self.instantiate_ranked(map, depth, Ghost(rk));
        proof {
            lemma_acyclic(*map, rk2);
        }
        r
    }

    /// `instantiate` under the ranking `rk` of the map; also gives a ranking
    /// of the new map that extends `rk`.
    fn instantiate_ranked(self, map: &mut SymbolMap, depth: usize, Ghost(rk): Ghost<(Seq<nat>, Seq<nat>)>) -> (res: (Sym, Ghost<(Seq<nat>, Seq<nat>)>))
        requires
            old(map).ranked_by(rk),
            old(map).sym_ok(self),
            old(map).inst_cost(self, depth as nat) is Some,
            old(map).gens@.len() + old(map).inst_cost(self, depth as nat)->Some_0 < u32::MAX,
        ensures
            final(map).ranked_by(res.1@),
            res.1@.0 == rk.0,
            forall|i: int| 0 <= i < rk.1.len() ==> res.1@.1[i] == rk.1[i],
            old(map).grows_to(*final(map)),
            final(map).syms == old(map).syms,
            final(map).closures == old(map).closures,
            final(map).gens@.len() == old(map).gens@.len() + old(map).inst_cost(self, depth as nat)->Some_0,
            final(map).sym_ok(res.0),
            final(map).instantiated(res.0, self),
        decreases rank_in(self, rk.0, rk.1), 1nat,
    {
        proof {
            lemma_acyclic(*old(map), rk);
        }
        match self {
            Sym::Ty(sym, gens) => {
                let (g2, Ghost(rk2)) = instantiate_gens_ranked(map, gens, Ghost(rk));
                proof {
                    lemma_acyclic(*map, rk2);
                    assert(map.gens@[gens.0 as int] == old(map).gens@[gens.0 as int]);
                }
                (Sym::Ty(sym, g2), Ghost(rk2))
            },
            Sym::Var(v) => {
                match map.vars[v.0 as usize].sub {
                    VarSub::Concrete(t) => {
                        proof {
                            assert(map.vars@[v.0 as int].sub == VarSub::Concrete(t));
                        }
                        let (r, Ghost(rk2)) = t.instantiate_ranked(map, depth + 1, Ghost(rk));
                        proof {
                            lemma_acyclic(*map, rk2);
                            assert(map.vars@[v.0 as int] == old(map).vars@[v.0 as int]);
                        }
                        (r, Ghost(rk2))
                    },
                    _ => {
                        proof {
                            assert(map.vars@[v.0 as int].sub == map.vars@[v.0 as int].sub);
                        }
                        (self, Ghost(rk))
                    },
                }
            },
        }
    }
}

/// A copy of list `gen` with each type instantiated, under the ranking `rk`
/// of the map; a nonempty copy is a new list, an empty one the empty list.
fn instantiate_gens_ranked(map: &mut SymbolMap, gen: GenListId, Ghost(rk): Ghost<(Seq<nat>, Seq<nat>)>) -> (res: (GenListId, Ghost<(Seq<nat>, Seq<nat>)>))
    requires
        old(map).ranked_by(rk),
        gen.0 < old(map).gens@.len(),
        old(map).inst_cost_list(gen.0 as int, old(map).gens@[gen.0 as int]@.len()) is Some,
        old(map).gens@.len() + old(map).inst_cost_list(gen.0 as int, old(map).gens@[gen.0 as int]@.len())->Some_0
            + (if old(map).gens@[gen.0 as int]@.len() > 0 { 1int } else { 0int }) < u32::MAX,
    ensures
        final(map).ranked_by(res.1@),
        res.1@.0 == rk.0,
        forall|i: int| 0 <= i < rk.1.len() ==> res.1@.1[i] == rk.1[i],
        old(map).grows_to(*final(map)),
        final(map).syms == old(map).syms,
        final(map).closures == old(map).closures,
        final(map).gens@.len() == old(map).gens@.len() + old(map).inst_cost_list(gen.0 as int, old(map).gens@[gen.0 as int]@.len())->Some_0
            + (if old(map).gens@[gen.0 as int]@.len() > 0 { 1int } else { 0int }),
        old(map).gens@[gen.0 as int]@.len() == 0 ==> res.0.0 == GenListId::EMPTY,
        old(map).gens@[gen.0 as int]@.len() > 0 ==> {
            &&& res.0.0 < final(map).gens@.len()
            &&& final(map).gens@[res.0.0 as int]@.len() == old(map).gens@[gen.0 as int]@.len()
            &&& final(map).inst_list(res.0.0 as int, gen.0 as int, old(map).gens@[gen.0 as int]@.len())
        },
    decreases rk.1[gen.0 as int], 0nat,
{
    let ghost m0 = *map;
    let ghost g = gen.0 as int;
    proof {
        lemma_acyclic(m0, rk);
    }
    let n = map.gens[gen.0 as usize].len();
    let mut out: Vec<(BoundedGeneric, Sym)> = Vec::new();
    let ghost mut rkc = rk;
    let ghost mut mx: nat = 0;
    let mut i: usize = 0;
    while i < n
        invariant
            g == gen.0 as int,
            0 <= g < m0.gens@.len(),
            n == m0.gens@[g]@.len(),
            0 <= i <= n,
            m0.ranked_by(rk),
            m0.acyclic(),
            map.ranked_by(rkc),
            rkc.0 == rk.0,
            forall|j: int| 0 <= j < rk.1.len() ==> rkc.1[j] == rk.1[j],
            m0.grows_to(*map),
            map.syms == m0.syms,
            map.closures == m0.closures,
            m0.inst_cost_list(g, n as nat) is Some,
            m0.inst_cost_list(g, i as nat) is Some,
            map.gens@.len() == m0.gens@.len() + m0.inst_cost_list(g, i as nat)->Some_0,
            m0.gens@.len() + m0.inst_cost_list(g, n as nat)->Some_0 + (if n > 0 { 1int } else { 0int }) < u32::MAX,
            out@.len() == i,
            forall|j: int| 0 <= j < i ==> {
                &&& (#[trigger] out@[j]).0.name == m0.gens@[g]@[j].0.name
                &&& out@[j].0.bounds@ == m0.gens@[g]@[j].0.bounds@
                &&& map.sym_ok(out@[j].1)
                &&& rank_in(out@[j].1, rkc.0, rkc.1) < mx
                &&& map.instantiated(out@[j].1, m0.gen_at(g, j))
            },
        decreases n - i,
    {
        proof {
            lemma_acyclic(*map, rkc);
            assert(map.gens@[g] == m0.gens@[g]);
        }
        let b = map.gens[gen.0 as usize][i].0.duplicate();
        let t = map.gens[gen.0 as usize][i].1;
        let ghost mprev = *map;
        let ghost rkprev = rkc;
        proof {
            assert(t == m0.gen_at(g, i as int));
            assert(m0.sym_ok(t) && rank_in(t, rk.0, rk.1) < rk.1[g]);
            lemma_cost_list_prefix(m0, g, (i + 1) as nat, n as nat);
            lemma_cost_persists(m0, mprev, t, 0);
            assert(rank_in(t, rkc.0, rkc.1) == rank_in(t, rk.0, rk.1));
        }
        let (r, Ghost(rk_new)) = t.instantiate_ranked(map, 0, Ghost(rkc));
        proof {
            lemma_acyclic(*map, rk_new);
            assert forall|j: int| 0 <= j < i implies {
                &&& (#[trigger] out@[j]).0.name == m0.gens@[g]@[j].0.name
                &&& out@[j].0.bounds@ == m0.gens@[g]@[j].0.bounds@
                &&& map.sym_ok(out@[j].1)
                &&& rank_in(out@[j].1, rk_new.0, rk_new.1) < mx
                &&& map.instantiated(out@[j].1, m0.gen_at(g, j))
            } by {
                assert(mprev.sym_ok(out@[j].1));
                assert(rank_in(out@[j].1, rk_new.0, rk_new.1) == rank_in(out@[j].1, rkprev.0, rkprev.1));
                assert(m0.gen_at(g, j) == mprev.gen_at(g, j));
                assert(mprev.sym_ok(m0.gen_at(g, j)));
                lemma_inst_persists(mprev, *map, out@[j].1, m0.gen_at(g, j));
            }
            rkc = rk_new;
            if rank_in(r, rkc.0, rkc.1) >= mx {
                mx = rank_in(r, rkc.0, rkc.1) + 1;
            }
        }
        out.push((b, r));
        i = i + 1;
    }
    let ghost mpre = *map;
    proof {
        lemma_acyclic(mpre, rkc);
        assert(mpre.gens@[g] == m0.gens@[g]);
    }
    let g2 = map.add_gens(out);
    if n == 0 {
        return (g2, Ghost(rkc));
    }
    let ghost rkf = (rkc.0, rkc.1.push(mx));
    proof {
        let m = *map;
        assert(m.gens@ == mpre.gens@.push(out));
        assert forall|v: int| 0 <= v < m.vars@.len() implies match #[trigger] m.vars@[v].sub {
            VarSub::Concrete(t) => m.sym_ok(t) && rank_in(t, rkf.0, rkf.1) < rkf.0[v],
            _ => true,
        } by {
            assert(mpre.vars@[v].sub == m.vars@[v].sub);
            if let VarSub::Concrete(t) = m.vars@[v].sub {
                assert(mpre.sym_ok(t));
            }
        }
        assert forall|h: int, k: int| 0 <= h < m.gens@.len() && 0 <= k < m.gens@[h]@.len() implies
            m.sym_ok(#[trigger] m.gen_at(h, k)) && rank_in(m.gen_at(h, k), rkf.0, rkf.1) < rkf.1[h] by {
            if h < mpre.gens@.len() {
                assert(m.gens@[h] == mpre.gens@[h]);
                assert(m.gen_at(h, k) == mpre.gen_at(h, k));
                assert(mpre.sym_ok(mpre.gen_at(h, k)));
            } else {
                assert(m.gens@[h] == out);
                assert(m.gen_at(h, k) == out@[k].1);
                assert(mpre.sym_ok(out@[k].1));
            }
        }
        assert(m.ranked_by(rkf));
        lemma_acyclic(m, rkf);
        assert(mpre.grows_to(m));
        assert forall|j: int| 0 <= j < n implies {
            &&& (#[trigger] m.gens@[g2.0 as int]@[j]).0.name == m.gens@[g]@[j].0.name
            &&& m.gens@[g2.0 as int]@[j].0.bounds@ == m.gens@[g]@[j].0.bounds@
            &&& m.instantiated(m.gen_at(g2.0 as int, j), m.gen_at(g, j))
        } by {
            assert(m.gens@[g2.0 as int] == out);
            assert(m.gens@[g] == m0.gens@[g]);
            assert(out@[j] == out@[j]);
            assert(mpre.sym_ok(m0.gen_at(g, j)));
            lemma_inst_persists(mpre, m, out@[j].1, m0.gen_at(g, j));
        }
        lemma_inst_list_from(m, g2.0 as int, g, n as nat);
    }
    (g2, Ghost(rkf))
}

} // verus!
