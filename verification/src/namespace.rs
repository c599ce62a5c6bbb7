use std::collections::HashMap;
use vstd::prelude::*;

use crate::errors::Error;
use crate::ids::{NamespaceId, SourceRange, StringIndex};
use crate::syms::sym_map::SymbolId;

verus! {

broadcast use vstd::std_specs::hash::group_hash_axioms;

/// Who may see a symbol from outside its namespace.
#[derive(Clone, Copy, Debug, PartialEq, Eq, Structural)]
pub enum Visibility {
    Public,
    Private,
}

/// What a namespace holds under one name.
#[derive(Clone, Copy, Debug)]
pub struct SymbolEntry {
    pub result: Result<SymbolId, Error>,
    pub visibility: Visibility,
}

impl SymbolEntry {
    pub fn result(&self) -> (r: Result<SymbolId, Error>)
        ensures
            r == self.result,
    {
        self.result
    }

    pub fn visibility(&self) -> (r: Visibility)
        ensures
            r == self.visibility,
    {
        self.visibility
    }
}

/// The outcome of looking a name up in a namespace.
#[derive(Clone, Copy, Debug, PartialEq, Eq, Structural)]
pub enum SymbolGetResult {
    Symbol(SymbolId),
    Errored(Error),
    Private,
    Undefined,
}

/// A set of named symbols, keyed by the interned name.
pub struct Namespace {
    pub symbols: HashMap<u32, SymbolEntry>,
    pub path: StringIndex,
    pub parent: Option<NamespaceId>,
}

/// The entry that `add_sym` leaves under `name`, given the entries before.
pub open spec fn add_sym_entry(
    old: Map<u32, SymbolEntry>,
    source: SourceRange,
    name: StringIndex,
    sym: SymbolId,
    visibility: Visibility,
) -> SymbolEntry {
    if old.contains_key(name.0) {
        SymbolEntry {
            result: Err(Error::NameIsAlreadyDefined { source, name }),
            visibility,
        }
    } else {
        SymbolEntry { result: Ok(sym), visibility }
    }
}

/// The entries of a namespace after `add_sym` of each name in `names`, in
/// order, as private, the `k`th under the symbol numbered `first + k`.
pub open spec fn add_all(m: Map<u32, SymbolEntry>, source: SourceRange, names: Seq<StringIndex>, first: nat) -> Map<u32, SymbolEntry>
    decreases names.len(),
{
    if names.len() == 0 {
        m
    } else {
        let prev = add_all(m, source, names.drop_last(), first);
        let name = names.last();
        let sym = SymbolId((first + names.len() - 1) as u32);
        if already_holds(prev, name, sym) {
            prev
        } else {
            prev.insert(name.0, add_sym_entry(prev, source, name, sym, Visibility::Private))
        }
    }
}

/// `name` already holds exactly `sym`, so adding it again changes nothing.
pub open spec fn already_holds(old: Map<u32, SymbolEntry>, name: StringIndex, sym: SymbolId) -> bool {
    old.contains_key(name.0) && old[name.0].result == Ok::<SymbolId, Error>(sym)
}

impl Namespace {
    pub fn new(path: StringIndex) -> (r: Self)
        ensures
            r.symbols@ == Map::<u32, SymbolEntry>::empty(),
            r.path == path,
            r.parent.is_none(),
    {
        Namespace { symbols: HashMap::new(), path, parent: None }
    }

    /// Records `err` under `name`, keeping the visibility it had (private if it had none).
    pub fn set_err_sym(&mut self, name: StringIndex, err: Error)
        ensures
            final(self).symbols@ == old(self).symbols@.insert(
                name.0,
                SymbolEntry {
                    result: Err(err),
                    visibility: if old(self).symbols@.contains_key(name.0) {
                        old(self).symbols@[name.0].visibility
                    } else {
                        Visibility::Private
                    },
                },
            ),
            final(self).path == old(self).path,
            final(self).parent == old(self).parent,
    {
        let visibility = match self.symbols.get(&name.0) {
            Some(entry) => entry.visibility,
            None => Visibility::Private,
        };
        self.symbols.insert(name.0, SymbolEntry { result: Err(err), visibility });
    }

    /// Adds `sym` under `name`. Adding the very symbol a name already holds is
    /// a no-op; any other clash replaces the entry with a
    /// `NameIsAlreadyDefined` error, which is also returned.
    pub fn add_sym(
        &mut self,
        source: SourceRange,
        name: StringIndex,
        sym: SymbolId,
        visibility: Visibility,
    ) -> (r: Result<(), Error>)
        ensures
            already_holds(old(self).symbols@, name, sym) ==> {
                &&& r == Ok::<(), Error>(())
                &&& final(self).symbols@ == old(self).symbols@
            },
            !already_holds(old(self).symbols@, name, sym) ==> {
                &&& final(self).symbols@ == old(self).symbols@.insert(
                    name.0,
                    add_sym_entry(old(self).symbols@, source, name, sym, visibility),
                )
                &&& r == (if old(self).symbols@.contains_key(name.0) {
                    Err::<(), Error>(Error::NameIsAlreadyDefined { source, name })
                } else {
                    Ok::<(), Error>(())
                })
            },
            final(self).path == old(self).path,
            final(self).parent == old(self).parent,
    {
        match self.symbols.get(&name.0) {
            Some(entry) => {
                if let Ok(existing) = entry.result {
                    if existing == sym {
                        return Ok(());
                    }
                }
            },
            None => {},
        }
        let old_sym = self.symbols.insert(name.0, SymbolEntry { result: Ok(sym), visibility });
        if old_sym.is_some() {
            let id = Error::NameIsAlreadyDefined { source, name };
            self.symbols.insert(name.0, SymbolEntry { result: Err(id), visibility });
            return Err(id);
        }
        Ok(())
    }

    pub fn get_sym(&self, name: StringIndex) -> (r: Option<Result<SymbolId, Error>>)
        ensures
            r == (if self.symbols@.contains_key(name.0) {
                Some(self.symbols@[name.0].result)
            } else {
                None
            }),
    {
        match self.symbols.get(&name.0) {
            Some(entry) => Some(entry.result),
            None => None,
        }
    }

    pub fn entry(&self, name: StringIndex) -> (r: Option<&SymbolEntry>)
        ensures
            r == (if self.symbols@.contains_key(name.0) {
                Some(&self.symbols@[name.0])
            } else {
                None
            }),
    {
        self.symbols.get(&name.0)
    }

    pub fn syms(&self) -> (r: &HashMap<u32, SymbolEntry>)
        ensures
            r@ == self.symbols@,
    {
        &self.symbols
    }
}

/// All namespaces, indexed by `NamespaceId`. A namespace's parent always
/// comes before it.
pub struct NamespaceMap {
    pub map: Vec<Namespace>,
}

/// `owner` is `requester` or one of its ancestors.
pub open spec fn is_ancestor(map: Seq<Namespace>, owner: NamespaceId, requester: NamespaceId) -> bool
    decreases requester.0,
{
    if owner == requester {
        true
    } else if requester.0 < map.len() {
        match map[requester.0 as int].parent {
            Some(p) => if p.0 < requester.0 {
                is_ancestor(map, owner, p)
            } else {
                false
            },
            None => false,
        }
    } else {
        false
    }
}

/// The result of a lookup in one namespace's entry, after the visibility check.
pub open spec fn lookup_result(entry: Option<SymbolEntry>, accessible: bool, name: StringIndex) -> SymbolGetResult {
    match entry {
        None => SymbolGetResult::Undefined,
        Some(e) => if e.visibility == Visibility::Public || accessible {
            match e.result {
                Ok(s) => SymbolGetResult::Symbol(s),
                Err(Error::PrivateSymbol { .. }) => SymbolGetResult::Private,
                Err(err) => SymbolGetResult::Errored(err),
            }
        } else {
            SymbolGetResult::Private
        },
    }
}

impl NamespaceMap {
    pub open spec fn wf(&self) -> bool {
        forall|i: int|
            0 <= i < self.map@.len() ==> match #[trigger] self.map@[i].parent {
                Some(p) => p.0 < i,
                None => true,
            }
    }

    pub open spec fn len(&self) -> nat {
        self.map@.len()
    }

    pub open spec fn contains(&self, id: NamespaceId) -> bool {
        id.0 < self.map@.len()
    }

    /// The entry that namespace `ns` holds under `name`, if any.
    pub open spec fn entry_of(&self, ns: NamespaceId, name: StringIndex) -> Option<SymbolEntry> {
        let m = self.map@[ns.0 as int].symbols@;
        if m.contains_key(name.0) {
            Some(m[name.0])
        } else {
            None
        }
    }

    pub fn new() -> (r: Self)
        ensures
            r.wf(),
            r.map@.len() == 0,
    {
        NamespaceMap { map: Vec::new() }
    }

    /// Appends `ns` with the given parent and returns its id.
    pub fn push(&mut self, ns: Namespace, parent: Option<NamespaceId>) -> (r: NamespaceId)
        requires
            old(self).map@.len() < u32::MAX,
        ensures
            old(self).wf() && (parent matches Some(p) ==> old(self).contains(p)) ==> final(self).wf(),
            r.0 == old(self).map@.len(),
            final(self).map@.len() == old(self).map@.len() + 1,
            forall|i: int| 0 <= i < old(self).map@.len() ==> final(self).map@[i] == old(self).map@[i],
            final(self).map@[r.0 as int].symbols@ == ns.symbols@,
            final(self).map@[r.0 as int].path == ns.path,
            final(self).map@[r.0 as int].parent == parent,
    {
        let mut ns = ns;
        ns.parent = parent;
        let id = NamespaceId(self.map.len() as u32);
        self.map.push(ns);
        id
    }

    pub fn get_ns(&self, ns: NamespaceId) -> (r: &Namespace)
        requires
            self.contains(ns),
        ensures
            *r == self.map@[ns.0 as int],
    {
        &self.map[ns.0 as usize]
    }

    pub fn get_ns_mut(&mut self, ns: NamespaceId) -> (r: &mut Namespace)
        requires
            old(self).contains(ns),
        ensures
            *r == old(self).map@[ns.0 as int],
            final(self).map@ == old(self).map@.update(ns.0 as int, *final(r)),
    {
        &mut self.map[ns.0 as usize]
    }

    /// The two different namespaces `ns1` and `ns2`, to be updated together.
    pub fn get_double(&mut self, ns1: NamespaceId, ns2: NamespaceId) -> (r: (&mut Namespace, &mut Namespace))
        requires
            old(self).contains(ns1),
            old(self).contains(ns2),
            ns1 != ns2,
        ensures
            *r.0 == old(self).map@[ns1.0 as int],
            *r.1 == old(self).map@[ns2.0 as int],
            final(self).map@ == old(self).map@.update(ns1.0 as int, *final(r.0)).update(ns2.0 as int, *final(r.1)),
    {
        let lo_first = ns1.0 < ns2.0;
        let (lo, hi) = if lo_first { (ns1.0 as usize, ns2.0 as usize) } else { (ns2.0 as usize, ns1.0 as usize) };
        let slice = self.map.as_mut_slice();
        let (front, back) = slice.split_at_mut(hi);
        let (_, rest) = front.split_at_mut(lo);
        let a = rest.first_mut().unwrap();
        let b = back.first_mut().unwrap();
        if lo_first { (a, b) } else { (b, a) }
    }

    /// Whether code in `requester` may see the private symbols of `owner`:
    /// `owner` is `requester` itself or one of its ancestors.
    pub fn can_access(&self, owner: NamespaceId, requester: NamespaceId) -> (r: bool)
        requires
            self.wf(),
            self.contains(requester),
        ensures
            r == is_ancestor(self.map@, owner, requester),
    {
        let mut cur = requester;
        loop
            invariant
                self.wf(),
                self.contains(cur),
                is_ancestor(self.map@, owner, cur) == is_ancestor(self.map@, owner, requester),
            decreases cur.0,
        {
            if owner == cur {
                return true;
            }
            let parent = self.map[cur.0 as usize].parent;
            assert(self.map@[cur.0 as int].parent == parent);
            match parent {
                Some(p) => {
                    assert(p.0 < cur.0);
                    cur = p;
                },
                None => {
                    return false;
                },
            }
        }
    }
}

impl NamespaceMap {
    /// Looks `name` up in `owner` on behalf of code in `requester`.
    pub fn get_sym(&self, owner: NamespaceId, requester: NamespaceId, name: StringIndex) -> (r: SymbolGetResult)
        requires
            self.wf(),
            self.contains(owner),
            self.contains(requester),
        ensures
            r == lookup_result(
                self.entry_of(owner, name),
                is_ancestor(self.map@, owner, requester),
                name,
            ),
    {
        let ns = &self.map[owner.0 as usize];
        match ns.symbols.get(&name.0) {
            None => SymbolGetResult::Undefined,
            Some(entry) => {
                if entry.visibility == Visibility::Public || self.can_access(owner, requester) {
                    match entry.result {
                        Ok(s) => SymbolGetResult::Symbol(s),
                        Err(Error::PrivateSymbol { .. }) => SymbolGetResult::Private,
                        Err(err) => SymbolGetResult::Errored(err),
                    }
                } else {
                    SymbolGetResult::Private
                }
            },
        }
    }
}


/// Every namespace may see into itself, and seeing into an ancestor's
/// ancestor is seeing into an ancestor: what `can_access` decides is
/// reflexive and transitive.
pub proof fn law_access_reflexive_transitive(map: Seq<Namespace>, a: NamespaceId, b: NamespaceId, c: NamespaceId)
    ensures
        is_ancestor(map, a, a),
        is_ancestor(map, a, b) && is_ancestor(map, b, c) ==> is_ancestor(map, a, c),
    decreases c.0,
{
    if is_ancestor(map, a, b) && is_ancestor(map, b, c) && b != c {
        if c.0 < map.len() {
            if let Some(p) = map[c.0 as int].parent {
                if p.0 < c.0 {
                    law_access_reflexive_transitive(map, a, b, p);
                }
            }
        }
    }
}

} // verus!
