use vstd::prelude::*;

use crate::types::ty_sym::TypeSymbol;

verus! {

/// Identifier of a type in a `TypeMap`.
#[derive(Clone, Copy, Debug, PartialEq, Eq, Structural)]
pub struct TypeId(pub u32);

/// The raw ids of the builtin types; the primitives count down from the top.
impl TypeId {
    pub const BOOL: u32 = 0;
    pub const STR: u32 = 1;
    pub const I32: u32 = 4294967295;
    pub const I64: u32 = 4294967294;
    pub const F64: u32 = 4294967293;
    pub const ANY: u32 = 4294967292;
    pub const UNIT: u32 = 4294967291;
    pub const NEVER: u32 = 4294967290;
    pub const ERROR: u32 = 4294967289;

    pub fn as_u32(self) -> (r: u32)
        ensures
            r == self.0,
    {
        self.0
    }
}

/// The types whose layout is known, by id; a pending id has no symbol yet.
pub struct TypeMap {
    pub map: Vec<Option<TypeSymbol>>,
}

impl TypeMap {
    pub open spec fn contains(&self, id: TypeId) -> bool {
        id.0 < self.map@.len()
    }

    pub open spec fn entry(&self, id: TypeId) -> Option<TypeSymbol> {
        self.map@[id.0 as int]
    }

    pub fn new() -> (r: Self)
        ensures
            r.map@.len() == 0,
    {
        TypeMap { map: Vec::new() }
    }

    /// Reserves a new id whose symbol is not known yet.
    pub fn pending(&mut self) -> (r: TypeId)
        requires
            old(self).map@.len() < TypeId::ERROR,
        ensures
            r.0 == old(self).map@.len(),
            final(self).map@ == old(self).map@.push(None),
    {
        let id = TypeId(self.map.len() as u32);
        self.map.push(None);
        id
    }

    /// Fills in a pending id; an id is filled in at most once.
    pub fn put(&mut self, ty_id: TypeId, sym: TypeSymbol)
        requires
            old(self).contains(ty_id),
            old(self).entry(ty_id).is_none(),
        ensures
            final(self).map@ == old(self).map@.update(ty_id.0 as int, Some(sym)),
    {
        self.map.set(ty_id.0 as usize, Some(sym));
    }

    pub fn get(&self, ty_id: TypeId) -> (r: &TypeSymbol)
        requires
            self.contains(ty_id),
            self.entry(ty_id).is_some(),
        ensures
            Some(*r) == self.entry(ty_id),
    {
        self.map[ty_id.0 as usize].as_ref().unwrap()
    }

    pub fn get_opt(&self, ty_id: TypeId) -> (r: Option<&TypeSymbol>)
        requires
            self.contains(ty_id),
        ensures
            match self.entry(ty_id) {
                Some(s) => r == Some(&s),
                None => r.is_none(),
            },
    {
        self.map[ty_id.0 as usize].as_ref()
    }
}

/// Reading an id back gives what was put there, and putting one id leaves
/// every other id as it was: `after` is `before` after `put(id, sym)`.
pub proof fn law_put_then_get(before: TypeMap, after: TypeMap, id: TypeId, other: TypeId, sym: TypeSymbol)
    requires
        before.contains(id),
        after.map@ == before.map@.update(id.0 as int, Some(sym)),
        other != id,
    ensures
        after.contains(id),
        after.entry(id) == Some(sym),
        after.contains(other) == before.contains(other),
        before.contains(other) ==> after.entry(other) == before.entry(other),
{
}

} // verus!
