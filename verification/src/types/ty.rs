use vstd::prelude::*;

use crate::errors::Error;
use crate::ids::StringIndex;
use crate::types::{GenListId, SymbolId, SymbolMap, Var, VarId, count_unbound, is_wild, min_nat};

verus! {

/// A type: a symbol applied to a generic list, or an inference variable.
#[derive(Clone, Copy, Debug, PartialEq, Eq, Structural)]
pub enum Type {
    Ty(SymbolId, GenListId),
    Var(VarId),
}

/// Following a type's variable chain stays within the map, never raises
/// the rank, and ends at a symbol type or at a variable unified with nothing.
pub proof fn lemma_shallow(m: SymbolMap, t: Type)
    requires
        m.wf(),
        m.ty_ok(t),
    ensures
        m.ty_ok(m.shallow(t)),
        m.ty_rank(m.shallow(t)) <= m.ty_rank(t),
        m.shallow(m.shallow(t)) == m.shallow(t),
        m.shallow(t) matches Type::Var(v) ==> m.vars@[v.0 as int].sub is None,
    decreases m.ty_rank(t),
{
    if let Type::Var(v) = t {
        assert(m.vars@[v.0 as int].sub == m.vars@[v.0 as int].sub);
        if let Some(s) = m.vars@[v.0 as int].sub {
            lemma_shallow(m, s);
        }
    }
}

/// A map that keeps everything another holds follows every variable chain
/// at least as far.
pub proof fn lemma_shallow_ext(m1: SymbolMap, m2: SymbolMap, t: Type)
    requires
        m1.wf(),
        m2.wf(),
        m1.extends(m2),
        m1.ty_ok(t),
    ensures
        m2.shallow(t) == m2.shallow(m1.shallow(t)),
        m1.shallow(t) is Ty ==> m2.shallow(t) == m1.shallow(t),
    decreases m1.ty_rank(t),
{
    if let Type::Var(v) = t {
        assert(m1.vars@[v.0 as int].sub == m1.vars@[v.0 as int].sub);
        assert(m2.vars@[v.0 as int].range == m1.vars@[v.0 as int].range);
        if let Some(s) = m1.vars@[v.0 as int].sub {
            assert(m2.vars@[v.0 as int].sub == Some(s));
            assert(m2.vars@[v.0 as int].sub == m2.vars@[v.0 as int].sub);
            lemma_shallow_ext(m1, m2, s);
        }
    }
}

/// Unification only looks at where the variable chains end.
pub proof fn lemma_unified_shallow(m: SymbolMap, x: Type, y: Type)
    requires
        m.wf(),
        m.ty_ok(x),
        m.ty_ok(y),
    ensures
        m.unified(x, y) == m.unified(m.shallow(x), m.shallow(y)),
        m.same_res(x, y) == m.same_res(m.shallow(x), m.shallow(y)),
{
    lemma_shallow(m, x);
    lemma_shallow(m, y);
}

proof fn lemma_unified_refl_list(m: SymbolMap, g: int, n: nat)
    requires
        m.wf(),
        0 <= g < m.tys@.len(),
        n <= m.gl(g).len(),
    ensures
        m.unified_list(g, g, n),
        m.same_res_list(g, g, n),
    decreases m.rank_g@[g], 0nat, n,
{
    if n > 0 {
        lemma_unified_refl_list(m, g, (n - 1) as nat);
        let e = m.gl(g)[n - 1].1;
        assert(m.ty_ok(e) && m.ty_rank(e) < m.rank_g@[g]);
        law_unified_reflexive(m, e);
    }
}

/// Every type is unified with itself and stands for itself.
pub proof fn law_unified_reflexive(m: SymbolMap, x: Type)
    requires
        m.wf(),
        m.ty_ok(x),
    ensures
        m.unified(x, x),
        m.same_res(x, x),
    decreases m.ty_rank(x), 1nat, 0nat,
{
    lemma_shallow(m, x);
    if let Type::Ty(s, g) = m.shallow(x) {
        lemma_unified_refl_list(m, g.0 as int, m.gl(g.0 as int).len());
    }
}

proof fn lemma_ext_list(m1: SymbolMap, m2: SymbolMap, ga: int, gb: int, n: nat)
    requires
        m1.wf(),
        m2.wf(),
        m1.extends(m2),
        0 <= ga < m1.tys@.len(),
        0 <= gb < m1.tys@.len(),
        n <= m1.gl(ga).len(),
        n <= m1.gl(gb).len(),
    ensures
        m1.unified_list(ga, gb, n) ==> m2.unified_list(ga, gb, n),
        m1.same_res_list(ga, gb, n) ==> m2.same_res_list(ga, gb, n),
    decreases m1.rank_g@[ga] + m1.rank_g@[gb], 0nat, n,
{
    if n > 0 {
        lemma_ext_list(m1, m2, ga, gb, (n - 1) as nat);
        let ea = m1.gl(ga)[n - 1].1;
        let eb = m1.gl(gb)[n - 1].1;
        assert(m2.gl(ga) == m1.gl(ga));
        assert(m2.gl(gb) == m1.gl(gb));
        assert(m1.ty_ok(ea) && m1.ty_rank(ea) < m1.rank_g@[ga]);
        assert(m1.ty_ok(eb) && m1.ty_rank(eb) < m1.rank_g@[gb]);
        assert(m2.ty_ok(m2.gl(ga)[n - 1].1) && m2.ty_rank(ea) < m2.rank_g@[ga]);
        assert(m2.ty_ok(m2.gl(gb)[n - 1].1) && m2.ty_rank(eb) < m2.rank_g@[gb]);
        law_unification_persists(m1, m2, ea, eb);
    }
}

/// What is unified stays unified, and what stands for the same type keeps
/// doing so, in every map that keeps what the first one holds.
pub proof fn law_unification_persists(m1: SymbolMap, m2: SymbolMap, x: Type, y: Type)
    requires
        m1.wf(),
        m2.wf(),
        m1.extends(m2),
        m1.ty_ok(x),
        m1.ty_ok(y),
    ensures
        m1.unified(x, y) ==> m2.unified(x, y),
        m1.same_res(x, y) ==> m2.same_res(x, y),
    decreases m1.ty_rank(x) + m1.ty_rank(y), 1nat, 0nat,
{
    lemma_shallow(m1, x);
    lemma_shallow(m1, y);
    lemma_shallow_ext(m1, m2, x);
    lemma_shallow_ext(m1, m2, y);
    assert(m2.ty_ok(x) && m2.ty_ok(y));
    lemma_unified_shallow(m2, x, y);
    let x1 = m1.shallow(x);
    let y1 = m1.shallow(y);
    match (x1, y1) {
        (Type::Ty(sa, ga), Type::Ty(sb, gb)) => {
            lemma_shallow(m2, x);
            lemma_shallow(m2, y);
            assert(m2.gl(ga.0 as int) == m1.gl(ga.0 as int));
            assert(m2.gl(gb.0 as int) == m1.gl(gb.0 as int));
            lemma_ext_list(m1, m2, ga.0 as int, gb.0 as int, min_nat(m1.gl(ga.0 as int).len(), m1.gl(gb.0 as int).len()));
            if m1.gl(ga.0 as int).len() == m1.gl(gb.0 as int).len() {
                lemma_ext_list(m1, m2, ga.0 as int, gb.0 as int, m1.gl(ga.0 as int).len());
            }
        },
        (Type::Var(a), Type::Var(b)) => {
            if a == b {
                assert(m2.ty_ok(x1));
                lemma_shallow(m2, x1);
                law_unified_reflexive(m2, m2.shallow(x1));
                lemma_unified_shallow(m2, m2.shallow(x1), m2.shallow(x1));
            }
        },
        _ => {},
    }
}

proof fn lemma_transfer_list(m: SymbolMap, g: int, g2: int, h: int, h2: int, n: nat)
    requires
        m.wf(),
        0 <= g < m.tys@.len(),
        0 <= g2 < m.tys@.len(),
        0 <= h < m.tys@.len(),
        0 <= h2 < m.tys@.len(),
        n <= m.gl(g).len(),
        n <= m.gl(g2).len(),
        n <= m.gl(h).len(),
        n <= m.gl(h2).len(),
        m.same_res_list(g, g2, n),
        m.same_res_list(h, h2, n),
        m.unified_list(g2, h2, n),
    ensures
        m.unified_list(g, h, n),
    decreases m.rank_g@[g] + m.rank_g@[g2] + m.rank_g@[h] + m.rank_g@[h2], 0nat, n,
{
    if n > 0 {
        lemma_transfer_list(m, g, g2, h, h2, (n - 1) as nat);
        let a = m.gl(g)[n - 1].1;
        let a2 = m.gl(g2)[n - 1].1;
        let b = m.gl(h)[n - 1].1;
        let b2 = m.gl(h2)[n - 1].1;
        assert(m.ty_ok(a) && m.ty_rank(a) < m.rank_g@[g]);
        assert(m.ty_ok(a2) && m.ty_rank(a2) < m.rank_g@[g2]);
        assert(m.ty_ok(b) && m.ty_rank(b) < m.rank_g@[h]);
        assert(m.ty_ok(b2) && m.ty_rank(b2) < m.rank_g@[h2]);
        lemma_transfer(m, a, a2, b, b2);
    }
}

/// Unification holds of types that stand for the same types as two
/// unified ones.
pub proof fn lemma_transfer(m: SymbolMap, x: Type, x2: Type, y: Type, y2: Type)
    requires
        m.wf(),
        m.ty_ok(x),
        m.ty_ok(x2),
        m.ty_ok(y),
        m.ty_ok(y2),
        m.same_res(x, x2),
        m.same_res(y, y2),
        m.unified(x2, y2),
    ensures
        m.unified(x, y),
    decreases m.ty_rank(x) + m.ty_rank(x2) + m.ty_rank(y) + m.ty_rank(y2), 1nat, 0nat,
{
    lemma_shallow(m, x);
    lemma_shallow(m, x2);
    lemma_shallow(m, y);
    lemma_shallow(m, y2);
    match (m.shallow(x), m.shallow(x2), m.shallow(y), m.shallow(y2)) {
        (Type::Ty(s, g), Type::Ty(s2, g2), Type::Ty(t, h), Type::Ty(t2, h2)) => {
            if !is_wild(s) && !is_wild(t) {
                let n = min_nat(m.gl(g.0 as int).len(), m.gl(h.0 as int).len());
                lemma_same_res_prefix(m, g.0 as int, g2.0 as int, m.gl(g.0 as int).len(), n);
                lemma_same_res_prefix(m, h.0 as int, h2.0 as int, m.gl(h.0 as int).len(), n);
                lemma_transfer_list(m, g.0 as int, g2.0 as int, h.0 as int, h2.0 as int, n);
            }
        },
        _ => {},
    }
}

proof fn lemma_same_res_prefix(m: SymbolMap, g: int, h: int, n: nat, k: nat)
    requires
        m.same_res_list(g, h, n),
        k <= n,
    ensures
        m.same_res_list(g, h, k),
    decreases n,
{
    if k < n {
        lemma_same_res_prefix(m, g, h, (n - 1) as nat, k);
    }
}

proof fn lemma_same_res_list_from(m: SymbolMap, g: int, h: int, n: nat)
    requires
        m.wf(),
        0 <= g < m.tys@.len(),
        0 <= h < m.tys@.len(),
        n <= m.gl(g).len(),
        n <= m.gl(h).len(),
        forall|i: int| 0 <= i < n ==> m.same_res(#[trigger] m.gl(g)[i].1, m.gl(h)[i].1),
    ensures
        m.same_res_list(g, h, n),
    decreases n,
{
    if n > 0 {
        lemma_same_res_list_from(m, g, h, (n - 1) as nat);
        assert(m.same_res(m.gl(g)[n - 1].1, m.gl(h)[n - 1].1));
    }
}

impl VarId {
    /// Whether this variable occurs in `ty`, looking through the types that
    /// variables were unified with.
    pub fn occurs_in(self, map: &SymbolMap, ty: Type) -> (r: bool)
        requires
            map.wf(),
            map.ty_ok(ty),
        ensures
            r == map.reaches(ty, self),
        decreases map.ty_rank(ty),
    {
        match ty {
            Type::Ty(tsym, gens) => {
                let list = &map.tys[gens.0];
                let mut i: usize = 0;
                while i < list.len()
                    invariant
                        ty == Type::Ty(tsym, gens),
                        map.wf(),
                        0 <= gens.0 < map.tys@.len(),
                        *list == map.tys@[gens.0 as int],
                        0 <= i <= list@.len(),
                        !map.reaches_list(gens.0 as int, self, i as nat),
                    decreases list@.len() - i,
                {
                    let e = list[i].1;
                    proof {
                        assert(map.gl(gens.0 as int)[i as int].1 == e);
                        assert(map.ty_ok(e) && map.ty_rank(e) < map.rank_g@[gens.0 as int]);
                    }
                    if self.occurs_in(map, e) {
                        proof {
                            assert(map.reaches_list(gens.0 as int, self, (i + 1) as nat));
                            lemma_reaches_list_mono(*map, gens.0 as int, self, (i + 1) as nat, map.gl(gens.0 as int).len());
                        }
                        return true;
                    }
                    i = i + 1;
                }
                false
            },
            Type::Var(v) => {
                if self == v {
                    return true;
                }
                match map.vars[v.0].sub {
                    Some(t) => {
                        proof {
                            assert(map.vars@[v.0 as int].sub == Some(t));
                        }
                        self.occurs_in(map, t)
                    },
                    None => false,
                }
            },
        }
    }
}

proof fn lemma_reaches_list_mono(m: SymbolMap, g: int, a: VarId, k: nat, n: nat)
    requires
        m.reaches_list(g, a, k),
        k <= n,
    ensures
        m.reaches_list(g, a, n),
    decreases n,
{
    if k < n {
        lemma_reaches_list_mono(m, g, a, k, (n - 1) as nat);
    }
}

impl Type {
    /// The end of this type's chain of unified variables.
    pub fn instantiate_shallow(self, map: &SymbolMap) -> (r: Type)
        requires
            map.wf(),
            map.ty_ok(self),
        ensures
            r == map.shallow(self),
        decreases map.ty_rank(self),
    {
        match self {
            Type::Ty(_, _) => self,
            Type::Var(v) => {
                match map.vars[v.0].sub {
                    Some(t) => {
                        proof {
                            assert(map.vars@[v.0 as int].sub == Some(t));
                        }
                        t.instantiate_shallow(map)
                    },
                    None => self,
                }
            },
        }
    }

    /// This type with every unified variable replaced, all the way down, by
    /// what it was unified with; the generic lists on the way are copied.
    pub fn instantiate(self, map: &mut SymbolMap) -> (r: Type)
        requires
            old(map).wf(),
            old(map).ty_ok(self),
        ensures
            final(map).wf(),
            old(map).extends(*final(map)),
            old(map).ranks_kept(*final(map)),
            final(map).vars@ == old(map).vars@,
            final(map).ty_ok(r),
            final(map).ty_rank(r) <= old(map).ty_rank(self),
            final(map).same_res(self, r),
        decreases old(map).ty_rank(self), 1nat,
    {
        match self {
            Type::Ty(sym, gens) => {
                let g2 = instantiate_gens(map, gens);
                let r = Type::Ty(sym, g2);
                proof {
                    let m = *map;
                    lemma_same_res_list_from(m, gens.0 as int, g2.0 as int, m.gl(gens.0 as int).len());
                }
                r
            },
            Type::Var(v) => {
                match map.vars[v.0].sub {
                    Some(t) => {
                        proof {
                            assert(map.vars@[v.0 as int].sub == Some(t));
                        }
                        let ghost m0 = *map;
                        let r = t.instantiate(map);
                        proof {
                            let m = *map;
                            assert(m.vars@[v.0 as int].sub == Some(t));
                            assert(m.ty_rank(t) < m.rank_v@[v.0 as int]);
                            lemma_shallow(m, t);
                            lemma_shallow(m, r);
                            assert(m.shallow(self) == m.shallow(t));
                            lemma_unified_shallow(m, self, r);
                            lemma_unified_shallow(m, t, r);
                        }
                        r
                    },
                    None => {
                        proof {
                            law_unified_reflexive(*map, self);
                        }
                        self
                    },
                }
            },
        }
    }
}

/// A copy of list `gen` with each entry instantiated; the copy is a new list.
pub fn instantiate_gens(map: &mut SymbolMap, gen: GenListId) -> (r: GenListId)
    requires
        old(map).wf(),
        gen.0 < old(map).tys@.len(),
    ensures
        final(map).wf(),
        old(map).extends(*final(map)),
        old(map).ranks_kept(*final(map)),
        final(map).vars@ == old(map).vars@,
        r.0 >= old(map).tys@.len(),
        r.0 < final(map).tys@.len(),
        final(map).rank_g@[r.0 as int] <= old(map).rank_g@[gen.0 as int],
        final(map).gl(r.0 as int).len() == old(map).gl(gen.0 as int).len(),
        forall|i: int| 0 <= i < old(map).gl(gen.0 as int).len() ==> {
            &&& (#[trigger] final(map).gl(r.0 as int)[i]).0 == old(map).gl(gen.0 as int)[i].0
            &&& final(map).same_res(old(map).gl(gen.0 as int)[i].1, final(map).gl(r.0 as int)[i].1)
        },
    decreases old(map).rank_g@[gen.0 as int], 0nat,
{
    let ghost m0 = *map;
    let n = map.tys[gen.0].len();
    let mut out: Vec<(StringIndex, Type)> = Vec::new();
    let mut i: usize = 0;
    while i < n
        invariant
            map.wf(),
            m0.wf(),
            m0 == *old(map),
            m0.extends(*map),
            m0.ranks_kept(*map),
            map.vars@ == m0.vars@,
            gen.0 < m0.tys@.len(),
            n == m0.gl(gen.0 as int).len(),
            0 <= i <= n,
            out@.len() == i,
            forall|j: int| 0 <= j < i ==> {
                &&& (#[trigger] out@[j]).0 == m0.gl(gen.0 as int)[j].0
                &&& map.ty_ok(out@[j].1)
                &&& map.ty_rank(out@[j].1) < m0.rank_g@[gen.0 as int]
                &&& map.same_res(m0.gl(gen.0 as int)[j].1, out@[j].1)
            },
        decreases n - i,
    {
        proof {
            assert(map.gl(gen.0 as int) == m0.gl(gen.0 as int));
        }
        let (name, e) = map.tys[gen.0][i];
        let ghost mb = *map;
        proof {
            assert(mb.gl(gen.0 as int) == m0.gl(gen.0 as int));
            assert(m0.gl(gen.0 as int)[i as int] == (name, e));
            assert(m0.ty_ok(e) && m0.ty_rank(e) < m0.rank_g@[gen.0 as int]);
            if let Type::Ty(_, eg) = e {
                assert(mb.rank_g@[eg.0 as int] == m0.rank_g@[eg.0 as int]);
            }
            assert(mb.ty_rank(e) == m0.ty_rank(e));
        }
        let e2 = e.instantiate(map);
        out.push((name, e2));
        proof {
            let m = *map;
            assert forall|j: int| 0 <= j < i + 1 implies {
                &&& (#[trigger] out@[j]).0 == m0.gl(gen.0 as int)[j].0
                &&& m.ty_ok(out@[j].1)
                &&& m.ty_rank(out@[j].1) < m0.rank_g@[gen.0 as int]
                &&& m.same_res(m0.gl(gen.0 as int)[j].1, out@[j].1)
            } by {
                if j < i {
                    assert(m0.ty_ok(m0.gl(gen.0 as int)[j].1));
                    law_unification_persists(mb, m, m0.gl(gen.0 as int)[j].1, out@[j].1);
                }
            }
        }
        i = i + 1;
    }
    let id = GenListId(map.tys.len());
    let ghost m1 = *map;
    map.tys.push(out);
    map.rank_g = Ghost(map.rank_g@.push(m0.rank_g@[gen.0 as int]));
    proof {
        let m = *map;
        assert(m.gl(id.0 as int) == out@);
        assert forall|g: int| 0 <= g < m1.tys@.len() implies #[trigger] m.gl(g) == m1.gl(g) by {
            assert(m.tys@[g] == m1.tys@[g]);
        }
        assert(m1.extends(m));
        assert forall|g: int, j: int| 0 <= g < m.tys@.len() && 0 <= j < m.gl(g).len() implies {
            &&& m.ty_ok(#[trigger] m.gl(g)[j].1)
            &&& m.ty_rank(m.gl(g)[j].1) < m.rank_g@[g]
        } by {
            if g < m1.tys@.len() {
                assert(m.gl(g) == m1.gl(g));
                assert(m1.ty_ok(m1.gl(g)[j].1));
            } else {
                assert(g == id.0);
                assert(m.gl(g)[j] == out@[j]);
            }
        }
        assert(m.wf());
        assert forall|j: int| 0 <= j < n implies {
            &&& (#[trigger] m.gl(id.0 as int)[j]).0 == m0.gl(gen.0 as int)[j].0
            &&& m.same_res(m0.gl(gen.0 as int)[j].1, m.gl(id.0 as int)[j].1)
        } by {
            assert(m.gl(id.0 as int)[j] == out@[j]);
            assert(m0.ty_ok(m0.gl(gen.0 as int)[j].1));
            law_unification_persists(m1, m, m0.gl(gen.0 as int)[j].1, out@[j].1);
        }
        assert(m0.extends(m));
    }
    id
}

pub(crate) proof fn lemma_extends_trans(m1: SymbolMap, m2: SymbolMap, m3: SymbolMap)
    requires
        m1.extends(m2),
        m2.extends(m3),
    ensures
        m1.extends(m3),
{
    assert forall|g: int| 0 <= g < m1.tys@.len() implies #[trigger] m3.gl(g) == m1.gl(g) by {
        assert(m2.gl(g) == m1.gl(g));
        assert(m3.gl(g) == m2.gl(g));
    }
    assert forall|v: int| 0 <= v < m1.vars@.len() implies {
        &&& (#[trigger] m3.vars@[v]).range == m1.vars@[v].range
        &&& (m1.vars@[v].sub is Some ==> m3.vars@[v].sub == m1.vars@[v].sub)
    } by {
        assert(m2.vars@[v].range == m1.vars@[v].range);
        assert(m3.vars@[v].range == m2.vars@[v].range);
    }
}

pub(crate) proof fn lemma_ranks_kept_trans(m1: SymbolMap, m2: SymbolMap, m3: SymbolMap)
    requires
        m1.ranks_kept(m2),
        m2.ranks_kept(m3),
        m2.tys@.len() >= m1.tys@.len(),
    ensures
        m1.ranks_kept(m3),
{
    assert forall|g: int| 0 <= g < m1.tys@.len() implies #[trigger] m3.rank_g@[g] == m1.rank_g@[g] by {
        assert(m2.rank_g@[g] == m1.rank_g@[g]);
        assert(m3.rank_g@[g] == m2.rank_g@[g]);
    }
}

proof fn lemma_count_unbound_bind(vs: Seq<Var>, i: int, v: Var)
    requires
        0 <= i < vs.len(),
        vs[i].sub is None,
        v.sub is Some,
    ensures
        count_unbound(vs.update(i, v)) + 1 == count_unbound(vs),
    decreases vs.len(),
{
    let us = vs.update(i, v);
    if i == vs.len() - 1 {
        assert(us.drop_last() =~= vs.drop_last());
    } else {
        assert(us.drop_last() =~= vs.drop_last().update(i, v));
        lemma_count_unbound_bind(vs.drop_last(), i, v);
    }
}

/// The ranks after binding `a`: every variable and list in which `a`
/// occurs moves up by `k`.
pub open spec fn shift_v(m: SymbolMap, a: VarId, k: nat) -> Seq<nat> {
    Seq::new(m.rank_v@.len(), |x: int| m.rank_v@[x] + if m.reaches(Type::Var(VarId(x as usize)), a) { k } else { 0 })
}

pub open spec fn shift_g(m: SymbolMap, a: VarId, k: nat) -> Seq<nat> {
    Seq::new(m.rank_g@.len(), |g: int| m.rank_g@[g] + if m.reaches_list(g, a, m.gl(g).len()) { k } else { 0 })
}

proof fn lemma_reaches_entry(m: SymbolMap, g: int, j: int, a: VarId)
    requires
        m.wf(),
        0 <= g < m.tys@.len(),
        0 <= j < m.gl(g).len(),
        m.reaches(m.gl(g)[j].1, a),
    ensures
        m.reaches_list(g, a, m.gl(g).len()),
{
    assert(m.ty_ok(m.gl(g)[j].1));
    assert(m.reaches_list(g, a, (j + 1) as nat));
    lemma_reaches_list_mono(m, g, a, (j + 1) as nat, m.gl(g).len());
}

/// Binding the unbound variable `a` to a type `b` it does not occur in
/// keeps the map well formed, with the ranks moved up where `a` occurs;
/// `a` then stands for `b`.
proof fn lemma_bind(m: SymbolMap, m2: SymbolMap, a: VarId, b: Type)
    requires
        m.wf(),
        a.0 < m.vars@.len(),
        m.vars@[a.0 as int].sub is None,
        m.ty_ok(b),
        !m.reaches(b, a),
        m2.syms@ == m.syms@,
        m2.tys@ == m.tys@,
        m2.vars@ == m.vars@.update(a.0 as int, Var { sub: Some(b), range: m.vars@[a.0 as int].range }),
        m2.rank_v@ == shift_v(m, a, m.ty_rank(b) + 1),
        m2.rank_g@ == shift_g(m, a, m.ty_rank(b) + 1),
    ensures
        m2.wf(),
        m.extends(m2),
        m2.unbound_count() + 1 == m.unbound_count(),
        m2.shallow(Type::Var(a)) == m2.shallow(b),
{
    let k = m.ty_rank(b) + 1;
    assert(m.vars.len() == m.vars@.len());
    assert forall|t: Type| m.ty_ok(t) implies #[trigger] m2.ty_rank(t) == m.ty_rank(t) + (if m.reaches(t, a) { k } else { 0 }) by {
        match t {
            Type::Var(x) => {
                assert(VarId(x.0 as int as usize) == x);
            },
            Type::Ty(_, g) => {},
        }
    }
    assert forall|g: int, j: int| 0 <= g < m2.tys@.len() && 0 <= j < m2.gl(g).len() implies {
        &&& m2.ty_ok(#[trigger] m2.gl(g)[j].1)
        &&& m2.ty_rank(m2.gl(g)[j].1) < m2.rank_g@[g]
    } by {
        let e = m.gl(g)[j].1;
        assert(m.ty_ok(e) && m.ty_rank(e) < m.rank_g@[g]);
        assert(m2.ty_rank(e) == m.ty_rank(e) + (if m.reaches(e, a) { k } else { 0 }));
        if m.reaches(e, a) {
            lemma_reaches_entry(m, g, j, a);
        }
    }
    assert forall|v: int| 0 <= v < m2.vars@.len() implies match #[trigger] m2.vars@[v].sub {
        Some(s) => m2.ty_ok(s) && m2.ty_rank(s) < m2.rank_v@[v],
        None => true,
    } by {
        assert(VarId(v as usize).0 == v);
        if v == a.0 {
            assert(m.reaches(Type::Var(a), a));
            assert(m2.ty_rank(b) == m.ty_rank(b));
        } else {
            assert(m2.vars@[v] == m.vars@[v]);
            assert(m.vars@[v].sub == m.vars@[v].sub);
            if let Some(s) = m.vars@[v].sub {
                assert(m2.ty_rank(s) == m.ty_rank(s) + (if m.reaches(s, a) { k } else { 0 }));
                if m.reaches(s, a) {
                    assert(m.reaches(Type::Var(VarId(v as usize)), a));
                }
            }
        }
    }
    assert(m2.wf());
    assert forall|g: int| 0 <= g < m.tys@.len() implies #[trigger] m2.gl(g) == m.gl(g) by {}
    assert forall|v: int| 0 <= v < m.vars@.len() implies {
        &&& (#[trigger] m2.vars@[v]).range == m.vars@[v].range
        &&& (m.vars@[v].sub is Some ==> m2.vars@[v].sub == m.vars@[v].sub)
    } by {}
    lemma_count_unbound_bind(m.vars@, a.0 as int, Var { sub: Some(b), range: m.vars@[a.0 as int].range });
    assert(m2.vars@[a.0 as int].sub == Some(b));
    assert(m2.ty_rank(b) < m2.rank_v@[a.0 as int]);
}


proof fn lemma_same_res_sym_list(m: SymbolMap, g: int, h: int, n: nat)
    requires
        m.wf(),
        0 <= g < m.tys@.len(),
        0 <= h < m.tys@.len(),
        n <= m.gl(g).len(),
        n <= m.gl(h).len(),
        m.same_res_list(g, h, n),
    ensures
        m.same_res_list(h, g, n),
    decreases m.rank_g@[g] + m.rank_g@[h], 0nat, n,
{
    if n > 0 {
        lemma_same_res_sym_list(m, g, h, (n - 1) as nat);
        let a = m.gl(g)[n - 1].1;
        let b = m.gl(h)[n - 1].1;
        assert(m.ty_ok(a) && m.ty_rank(a) < m.rank_g@[g]);
        assert(m.ty_ok(b) && m.ty_rank(b) < m.rank_g@[h]);
        lemma_same_res_sym(m, a, b);
    }
}

/// Standing for the same type is symmetric.
pub proof fn lemma_same_res_sym(m: SymbolMap, x: Type, y: Type)
    requires
        m.wf(),
        m.ty_ok(x),
        m.ty_ok(y),
        m.same_res(x, y),
    ensures
        m.same_res(y, x),
    decreases m.ty_rank(x) + m.ty_rank(y), 1nat, 0nat,
{
    lemma_shallow(m, x);
    lemma_shallow(m, y);
    if let (Type::Ty(sa, ga), Type::Ty(sb, gb)) = (m.shallow(x), m.shallow(y)) {
        lemma_same_res_sym_list(m, ga.0 as int, gb.0 as int, m.gl(ga.0 as int).len());
    }
}

proof fn lemma_unified_list_from(m: SymbolMap, g: int, h: int, n: nat)
    requires
        m.wf(),
        0 <= g < m.tys@.len(),
        0 <= h < m.tys@.len(),
        n <= m.gl(g).len(),
        n <= m.gl(h).len(),
        forall|i: int| 0 <= i < n ==> m.unified(#[trigger] m.gl(g)[i].1, m.gl(h)[i].1),
    ensures
        m.unified_list(g, h, n),
    decreases n,
{
    if n > 0 {
        lemma_unified_list_from(m, g, h, (n - 1) as nat);
        assert(m.unified(m.gl(g)[n - 1].1, m.gl(h)[n - 1].1));
    }
}

proof fn lemma_unified_list_at(m: SymbolMap, g: int, h: int, n: nat, i: int)
    requires
        m.unified_list(g, h, n),
        0 <= i < n,
    ensures
        m.unified(m.gl(g)[i].1, m.gl(h)[i].1),
    decreases n,
{
    if i < n - 1 {
        lemma_unified_list_at(m, g, h, (n - 1) as nat, i);
    }
}

pub(crate) proof fn lemma_extends_refl(m: SymbolMap)
    ensures
        m.extends(m),
        m.ranks_kept(m),
        m.wf() ==> m.gl(0) == Seq::<(StringIndex, Type)>::empty(),
{
    if m.wf() {
        assert(m.gl(0) =~= Seq::<(StringIndex, Type)>::empty());
    }
}

/// `m2` is `m1` with the variable `v` bound to `t`, and nothing else changed.
pub open spec fn bound_to(m1: SymbolMap, m2: SymbolMap, v: VarId, t: Type) -> bool {
    &&& m2.vars@ == m1.vars@.update(v.0 as int, (Var { sub: Some(t), range: m1.vars@[v.0 as int].range }))
    &&& m2.syms@ == m1.syms@
    &&& m2.tys@ == m1.tys@
}

impl Type {
    /// Unifies this type with `oth`: unbound variables are bound where
    /// needed, and the result says whether the two now stand for equal
    /// types.  `ERROR` and `NEVER` are equal to every type, and a variable
    /// is never bound to a type it occurs in.
    pub fn eq(self, map: &mut SymbolMap, oth: Type) -> (r: bool)
        requires
            old(map).wf(),
            old(map).ty_ok(self),
            old(map).ty_ok(oth),
        ensures
            final(map).wf(),
            old(map).extends(*final(map)),
            final(map).vars@.len() == old(map).vars@.len(),
            final(map).unbound_count() <= old(map).unbound_count(),
            final(map).unbound_count() == old(map).unbound_count() ==> {
                &&& old(map).ranks_kept(*final(map))
                &&& final(map).vars@ == old(map).vars@
            },
            r == final(map).unified(self, oth),
            old(map).shallow(self) matches Type::Var(a) && !old(map).reaches(oth, a) ==> r,
            old(map).shallow(oth) matches Type::Var(b) && !old(map).reaches(self, b) ==> r,
            old(map).shallow(self) is Var && old(map).shallow(oth) == old(map).shallow(self)
                ==> r && *final(map) == *old(map),
            old(map).shallow(self) is Var && old(map).shallow(oth) != old(map).shallow(self) ==> {
                &&& r == !old(map).reaches(old(map).shallow(oth), old(map).shallow(self)->Var_0)
                &&& r ==> bound_to(*old(map), *final(map), old(map).shallow(self)->Var_0, old(map).shallow(oth))
                &&& !r ==> *final(map) == *old(map)
            },
            old(map).shallow(self) is Ty && old(map).shallow(oth) is Var ==> {
                &&& r == !old(map).reaches(old(map).shallow(self), old(map).shallow(oth)->Var_0)
                &&& r ==> bound_to(*old(map), *final(map), old(map).shallow(oth)->Var_0, old(map).shallow(self))
                &&& !r ==> *final(map) == *old(map)
            },
        decreases old(map).unbound_count(), old(map).ty_rank(self) + old(map).ty_rank(oth), 1nat,
    {
        let ghost m0 = *map;
        proof {
            lemma_shallow(m0, self);
            lemma_shallow(m0, oth);
            lemma_extends_refl(m0);
            lemma_unified_shallow(m0, self, oth);
        }
        let a = self.instantiate_shallow(map);
        let b = oth.instantiate_shallow(map);
        match (a, b) {
            (Type::Ty(syma, gena), Type::Ty(symb, genb)) => {
                if syma.0 == SymbolId::ERROR || syma.0 == SymbolId::NEVER {
                    return true;
                }
                if symb.0 == SymbolId::ERROR || symb.0 == SymbolId::NEVER {
                    return true;
                }
                if syma == symb {
                    eq_lists(map, self, oth, syma, gena, genb)
                } else {
                    false
                }
            },
            (Type::Var(ida), Type::Var(idb)) if ida == idb => {
                proof {
                    law_unified_reflexive(m0, a);
                }
                true
            },
            (Type::Var(ida), _) => {
                if ida.occurs_in(map, b) {
                    proof {
                        lemma_reaches_shallow(m0, oth, ida);
                    }
                    return false;
                }
                proof {
                    lemma_reaches_shallow(m0, oth, ida);
                }
                bind_var(map, ida, b);
                proof {
                    let m = *map;
                    lemma_shallow_ext(m0, m, self);
                    lemma_shallow_ext(m0, m, oth);
                    lemma_shallow(m, b);
                    assert(m.ty_ok(self) && m.ty_ok(oth));
                    lemma_unified_shallow(m, self, oth);
                    law_unified_reflexive(m, m.shallow(b));
                    lemma_unified_shallow(m, m.shallow(b), m.shallow(b));
                }
                true
            },
            (_, Type::Var(idb)) => {
                if idb.occurs_in(map, a) {
                    proof {
                        lemma_reaches_shallow(m0, self, idb);
                    }
                    return false;
                }
                proof {
                    lemma_reaches_shallow(m0, self, idb);
                }
                bind_var(map, idb, a);
                proof {
                    let m = *map;
                    lemma_shallow_ext(m0, m, self);
                    lemma_shallow_ext(m0, m, oth);
                    lemma_shallow(m, a);
                    assert(m.ty_ok(self) && m.ty_ok(oth));
                    lemma_unified_shallow(m, self, oth);
                    law_unified_reflexive(m, m.shallow(a));
                    lemma_unified_shallow(m, m.shallow(a), m.shallow(a));
                }
                true
            },
        }
    }
}


proof fn lemma_reaches_shallow(m: SymbolMap, t: Type, a: VarId)
    requires
        m.wf(),
        m.ty_ok(t),
    ensures
        m.reaches(m.shallow(t), a) ==> m.reaches(t, a),
    decreases m.ty_rank(t),
{
    if let Type::Var(v) = t {
        assert(m.vars@[v.0 as int].sub == m.vars@[v.0 as int].sub);
        if let Some(s) = m.vars@[v.0 as int].sub {
            lemma_reaches_shallow(m, s, a);
        }
    }
}

/// Binds the unbound variable `v` to `t`, a type it does not occur in.
fn bind_var(map: &mut SymbolMap, v: VarId, t: Type)
    requires
        old(map).wf(),
        v.0 < old(map).vars@.len(),
        old(map).vars@[v.0 as int].sub is None,
        old(map).ty_ok(t),
        !old(map).reaches(t, v),
    ensures
        final(map).wf(),
        old(map).extends(*final(map)),
        final(map).vars@.len() == old(map).vars@.len(),
        final(map).unbound_count() + 1 == old(map).unbound_count(),
        final(map).shallow(Type::Var(v)) == final(map).shallow(t),
        bound_to(*old(map), *final(map), v, t),
{
    let ghost m = *map;
    let range = map.vars[v.0].range;
    map.vars.set(v.0, Var { sub: Some(t), range });
    map.rank_v = Ghost(shift_v(m, v, (m.ty_rank(t) + 1) as nat));
    map.rank_g = Ghost(shift_g(m, v, (m.ty_rank(t) + 1) as nat));
    proof {
        lemma_bind(m, *map, v, t);
    }
}

/// Unification of two types whose chains end at the same symbol, applied
/// to generic lists `ga` and `gb`: the lists are instantiated and their
/// entries unified pairwise, up to the shorter one's length.
fn eq_lists(map: &mut SymbolMap, x: Type, y: Type, sym: SymbolId, ga: GenListId, gb: GenListId) -> (r: bool)
    requires
        old(map).wf(),
        old(map).ty_ok(x),
        old(map).ty_ok(y),
        old(map).shallow(x) == Type::Ty(sym, ga),
        old(map).shallow(y) == Type::Ty(sym, gb),
        !is_wild(sym),
    ensures
        final(map).wf(),
        old(map).extends(*final(map)),
        final(map).vars@.len() == old(map).vars@.len(),
        final(map).unbound_count() <= old(map).unbound_count(),
        final(map).unbound_count() == old(map).unbound_count() ==> {
            &&& old(map).ranks_kept(*final(map))
            &&& final(map).vars@ == old(map).vars@
        },
        r == final(map).unified(x, y),
    decreases old(map).unbound_count(), old(map).ty_rank(x) + old(map).ty_rank(y), 0nat,
{
    let ghost m0 = *map;
    proof {
        lemma_shallow(m0, x);
        lemma_shallow(m0, y);
    }
    let ga2 = instantiate_gens(map, ga);
    let ghost m1 = *map;
    let gb2 = instantiate_gens(map, gb);
    let ghost mm = *map;
    proof {
        lemma_extends_trans(m0, m1, mm);
        lemma_ranks_kept_trans(m0, m1, mm);
        assert(mm.gl(ga2.0 as int) == m1.gl(ga2.0 as int));
        assert(mm.rank_g@[ga2.0 as int] == m1.rank_g@[ga2.0 as int]);
        assert(m1.rank_g@[gb.0 as int] == m0.rank_g@[gb.0 as int]);
        assert(m1.gl(gb.0 as int) == m0.gl(gb.0 as int));
        assert forall|j: int| 0 <= j < m0.gl(ga.0 as int).len() implies
            mm.same_res(m0.gl(ga.0 as int)[j].1, #[trigger] mm.gl(ga2.0 as int)[j].1) by {
            assert(m1.gl(ga2.0 as int)[j] == mm.gl(ga2.0 as int)[j]);
            assert(m0.ty_ok(m0.gl(ga.0 as int)[j].1));
            assert(m1.ty_ok(m1.gl(ga2.0 as int)[j].1));
            law_unification_persists(m1, mm, m0.gl(ga.0 as int)[j].1, m1.gl(ga2.0 as int)[j].1);
        }
    }
    let la = map.tys[ga2.0].len();
    let lb = map.tys[gb2.0].len();
    let n = if la < lb { la } else { lb };
    let mut i: usize = 0;
    while i < n
        invariant
            map.wf(),
            mm.wf(),
            m0.wf(),
            m0 == *old(map),
            !is_wild(sym),
            m0.ty_ok(x),
            m0.ty_ok(y),
            m0.shallow(x) == Type::Ty(sym, ga),
            m0.shallow(y) == Type::Ty(sym, gb),
            m0.ty_rank(m0.shallow(x)) <= m0.ty_rank(x),
            m0.ty_rank(m0.shallow(y)) <= m0.ty_rank(y),
            m0.extends(mm),
            mm.extends(*map),
            m0.ranks_kept(mm),
            mm.vars@ == m0.vars@,
            map.vars@.len() == m0.vars@.len(),
            map.unbound_count() <= m0.unbound_count(),
            map.unbound_count() == m0.unbound_count() ==> {
                &&& mm.ranks_kept(*map)
                &&& map.vars@ == m0.vars@
            },
            ga.0 < m0.tys@.len(),
            gb.0 < m0.tys@.len(),
            ga2.0 < mm.tys@.len(),
            gb2.0 < mm.tys@.len(),
            mm.gl(ga2.0 as int).len() == la,
            mm.gl(gb2.0 as int).len() == lb,
            m0.gl(ga.0 as int).len() == la,
            m0.gl(gb.0 as int).len() == lb,
            n == min_nat(la as nat, lb as nat),
            mm.rank_g@[ga2.0 as int] <= m0.rank_g@[ga.0 as int],
            mm.rank_g@[gb2.0 as int] <= m0.rank_g@[gb.0 as int],
            forall|j: int| 0 <= j < la ==>
                mm.same_res(m0.gl(ga.0 as int)[j].1, #[trigger] mm.gl(ga2.0 as int)[j].1),
            forall|j: int| 0 <= j < lb ==>
                mm.same_res(m0.gl(gb.0 as int)[j].1, #[trigger] mm.gl(gb2.0 as int)[j].1),
            0 <= i <= n,
            forall|j: int| 0 <= j < i ==>
                map.unified(#[trigger] mm.gl(ga2.0 as int)[j].1, mm.gl(gb2.0 as int)[j].1),
        decreases n - i,
    {
        let ghost mb = *map;
        proof {
            assert(mb.gl(ga2.0 as int) == mm.gl(ga2.0 as int));
            assert(mb.gl(gb2.0 as int) == mm.gl(gb2.0 as int));
        }
        let ta = map.tys[ga2.0][i].1;
        let tb = map.tys[gb2.0][i].1;
        proof {
            assert(ta == mm.gl(ga2.0 as int)[i as int].1);
            assert(tb == mm.gl(gb2.0 as int)[i as int].1);
            assert(mm.ty_ok(ta) && mm.ty_rank(ta) < mm.rank_g@[ga2.0 as int]);
            assert(mm.ty_ok(tb) && mm.ty_rank(tb) < mm.rank_g@[gb2.0 as int]);
            if mb.unbound_count() == m0.unbound_count() {
                lemma_ranks_ty(mm, mb, ta);
                lemma_ranks_ty(mm, mb, tb);
            }
        }
        let ok = ta.eq(map, tb);
        let ghost m2 = *map;
        proof {
            lemma_extends_trans(mm, mb, m2);
            if m2.unbound_count() == m0.unbound_count() {
                lemma_ranks_kept_trans(mm, mb, m2);
            }
            assert(m2.gl(ga2.0 as int) == mm.gl(ga2.0 as int));
            assert(m2.gl(gb2.0 as int) == mm.gl(gb2.0 as int));
        }
        if !ok {
            proof {
                lemma_extends_trans(m0, mm, m2);
                if m2.unbound_count() == m0.unbound_count() {
                    lemma_ranks_kept_trans(m0, mm, m2);
                }
                let oa = m0.gl(ga.0 as int)[i as int].1;
                let ob = m0.gl(gb.0 as int)[i as int].1;
                assert(m0.ty_ok(oa) && m0.ty_ok(ob));
                assert(mm.same_res(oa, ta));
                assert(mm.same_res(ob, tb));
                law_unification_persists(mm, m2, oa, ta);
                law_unification_persists(mm, m2, ob, tb);
                lemma_same_res_sym(m2, oa, ta);
                lemma_same_res_sym(m2, ob, tb);
                lemma_shallow_ext(m0, m2, x);
                lemma_shallow_ext(m0, m2, y);
                lemma_shallow(m2, x);
                lemma_shallow(m2, y);
                assert(m2.gl(ga.0 as int) == m0.gl(ga.0 as int));
                assert(m2.gl(gb.0 as int) == m0.gl(gb.0 as int));
                if m2.unified(x, y) {
                    assert(m2.shallow(x) == Type::Ty(sym, ga));
                    assert(m2.shallow(y) == Type::Ty(sym, gb));
                    assert(m2.ty_rank(m2.shallow(x)) <= m2.ty_rank(x));
                    assert(m2.ty_rank(m2.shallow(y)) <= m2.ty_rank(y));
                    assert(min_nat(m2.gl(ga.0 as int).len(), m2.gl(gb.0 as int).len()) == n);
                    assert(m2.unified_list(ga.0 as int, gb.0 as int, n as nat));
                    lemma_unified_list_at(m2, ga.0 as int, gb.0 as int, n as nat, i as int);
                    lemma_transfer(m2, ta, oa, tb, ob);
                }
            }
            return false;
        }
        proof {
            assert forall|j: int| 0 <= j < i + 1 implies
                m2.unified(#[trigger] mm.gl(ga2.0 as int)[j].1, mm.gl(gb2.0 as int)[j].1) by {
                if j < i {
                    assert(mm.ty_ok(mm.gl(ga2.0 as int)[j].1));
                    assert(mm.ty_ok(mm.gl(gb2.0 as int)[j].1));
                    law_unification_persists(mb, m2, mm.gl(ga2.0 as int)[j].1, mm.gl(gb2.0 as int)[j].1);
                }
            }
        }
        i = i + 1;
    }
    proof {
        let m = *map;
        lemma_extends_trans(m0, mm, m);
        if m.unbound_count() == m0.unbound_count() {
            lemma_ranks_kept_trans(m0, mm, m);
        }
        assert(m.gl(ga2.0 as int) == mm.gl(ga2.0 as int));
        assert(m.gl(gb2.0 as int) == mm.gl(gb2.0 as int));
        assert(m.gl(ga.0 as int) == m0.gl(ga.0 as int));
        assert(m.gl(gb.0 as int) == m0.gl(gb.0 as int));
        lemma_unified_list_from(m, ga2.0 as int, gb2.0 as int, n as nat);
        assert forall|j: int| 0 <= j < n implies
            m.same_res(#[trigger] m.gl(ga.0 as int)[j].1, m.gl(ga2.0 as int)[j].1) by {
            assert(m0.ty_ok(m0.gl(ga.0 as int)[j].1));
            assert(mm.ty_ok(mm.gl(ga2.0 as int)[j].1));
            law_unification_persists(mm, m, m0.gl(ga.0 as int)[j].1, mm.gl(ga2.0 as int)[j].1);
        }
        assert forall|j: int| 0 <= j < n implies
            m.same_res(#[trigger] m.gl(gb.0 as int)[j].1, m.gl(gb2.0 as int)[j].1) by {
            assert(m0.ty_ok(m0.gl(gb.0 as int)[j].1));
            assert(mm.ty_ok(mm.gl(gb2.0 as int)[j].1));
            law_unification_persists(mm, m, m0.gl(gb.0 as int)[j].1, mm.gl(gb2.0 as int)[j].1);
        }
        lemma_same_res_list_from(m, ga.0 as int, ga2.0 as int, n as nat);
        lemma_same_res_list_from(m, gb.0 as int, gb2.0 as int, n as nat);
        lemma_transfer_list(m, ga.0 as int, ga2.0 as int, gb.0 as int, gb2.0 as int, n as nat);
        lemma_shallow_ext(m0, m, x);
        lemma_shallow_ext(m0, m, y);
        lemma_shallow(m, x);
        lemma_shallow(m, y);
    }
    true
}

proof fn lemma_ranks_ty(m1: SymbolMap, m2: SymbolMap, t: Type)
    requires
        m1.ranks_kept(m2),
        m1.ty_ok(t),
    ensures
        m2.ty_rank(t) == m1.ty_rank(t),
{
}


impl Type {
    /// The negation of `eq`, with the same effect on the map.
    pub fn ne(self, map: &mut SymbolMap, oth: Type) -> (r: bool)
        requires
            old(map).wf(),
            old(map).ty_ok(self),
            old(map).ty_ok(oth),
        ensures
            final(map).wf(),
            old(map).extends(*final(map)),
            final(map).vars@.len() == old(map).vars@.len(),
            final(map).unbound_count() <= old(map).unbound_count(),
            r == !final(map).unified(self, oth),
            old(map).shallow(self) matches Type::Var(a) && !old(map).reaches(oth, a) ==> !r,
            old(map).shallow(oth) matches Type::Var(b) && !old(map).reaches(self, b) ==> !r,
    {
        !self.eq(map, oth)
    }

    /// The symbol this type ends at, or `UnableToInfer` with the range of
    /// the variable it ends at when that variable is still unbound.
    pub fn sym(self, map: &mut SymbolMap) -> (r: Result<SymbolId, Error>)
        requires
            old(map).wf(),
            old(map).ty_ok(self),
        ensures
            *final(map) == *old(map),
            match old(map).shallow(self) {
                Type::Ty(s, _) => r == Ok::<SymbolId, Error>(s),
                Type::Var(v) => r == Err::<SymbolId, Error>(Error::UnableToInfer(old(map).vars@[v.0 as int].range)),
            },
    {
        proof {
            lemma_shallow(*map, self);
        }
        match self.instantiate_shallow(map) {
            Type::Ty(sym, _) => Ok(sym),
            Type::Var(id) => {
                let range = map.vars[id.0].range;
                Err(Error::UnableToInfer(range))
            },
        }
    }

    /// The generic arguments of the symbol this type ends at; none when it
    /// ends at an unbound variable.
    pub fn gens<'a>(self, map: &'a SymbolMap) -> (r: &'a [(StringIndex, Type)])
        requires
            map.wf(),
            map.ty_ok(self),
        ensures
            r@ == match map.shallow(self) {
                Type::Ty(_, g) => map.gl(g.0 as int),
                Type::Var(_) => Seq::<(StringIndex, Type)>::empty(),
            },
    {
        proof {
            lemma_shallow(*map, self);
        }
        match self.instantiate_shallow(map) {
            Type::Ty(_, v) => map.tys[v.0].as_slice(),
            Type::Var(_) => {
                proof {
                    assert(map.gl(0) =~= Seq::<(StringIndex, Type)>::empty());
                }
                map.tys[GenListId::EMPTY].as_slice()
            },
        }
    }
}


proof fn lemma_unified_sym_list(m: SymbolMap, g: int, h: int, n: nat)
    requires
        m.wf(),
        0 <= g < m.tys@.len(),
        0 <= h < m.tys@.len(),
        n <= m.gl(g).len(),
        n <= m.gl(h).len(),
    ensures
        m.unified_list(g, h, n) == m.unified_list(h, g, n),
    decreases m.rank_g@[g] + m.rank_g@[h], 0nat, n,
{
    if n > 0 {
        lemma_unified_sym_list(m, g, h, (n - 1) as nat);
        let a = m.gl(g)[n - 1].1;
        let b = m.gl(h)[n - 1].1;
        assert(m.ty_ok(a) && m.ty_rank(a) < m.rank_g@[g]);
        assert(m.ty_ok(b) && m.ty_rank(b) < m.rank_g@[h]);
        law_unified_symmetric(m, a, b);
    }
}

/// Whether two types unify does not depend on their order.
pub proof fn law_unified_symmetric(m: SymbolMap, x: Type, y: Type)
    requires
        m.wf(),
        m.ty_ok(x),
        m.ty_ok(y),
    ensures
        m.unified(x, y) == m.unified(y, x),
    decreases m.ty_rank(x) + m.ty_rank(y), 1nat, 0nat,
{
    lemma_shallow(m, x);
    lemma_shallow(m, y);
    if let (Type::Ty(sa, ga), Type::Ty(sb, gb)) = (m.shallow(x), m.shallow(y)) {
        let n = min_nat(m.gl(ga.0 as int).len(), m.gl(gb.0 as int).len());
        assert(n == min_nat(m.gl(gb.0 as int).len(), m.gl(ga.0 as int).len()));
        lemma_unified_sym_list(m, ga.0 as int, gb.0 as int, n);
    }
}

} // verus!
