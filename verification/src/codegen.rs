use vstd::prelude::*;

use crate::ids::StringIndex;
use crate::syms::sym_map::GenListId;

verus! {

/// Index of a block of bytecode within the function being generated.
#[derive(Clone, Copy, Debug, PartialEq, Eq, Structural)]
pub struct BlockIndex(pub u32);

/// The bookkeeping of generating one function's bytecode: the variables in
/// scope, innermost last, with their local slots; how many slots and blocks
/// were handed out; the blocks that `continue` and `break` of the innermost
/// loop go to; and the generic list the function is generated for.
pub struct Env {
    pub vars: Vec<(StringIndex, u32)>,
    pub var_counter: u32,
    pub block_counter: u32,
    pub loop_cont: Option<BlockIndex>,
    pub loop_brek: Option<BlockIndex>,
    pub gens: GenListId,
}

/// The slot of the innermost variable named `name` in `vars`.
pub open spec fn slot_of(vars: Seq<(StringIndex, u32)>, name: StringIndex) -> Option<u32>
    decreases vars.len(),
{
    if vars.len() == 0 {
        None
    } else if vars.last().0 == name {
        Some(vars.last().1)
    } else {
        slot_of(vars.drop_last(), name)
    }
}

impl Env {
    /// Brings a variable named `str` into scope in a fresh slot, and returns
    /// the slot.
    pub fn alloc_var(&mut self, str: StringIndex) -> (r: u32)
        requires
            old(self).var_counter < u32::MAX,
        ensures
            r == old(self).var_counter,
            final(self).var_counter == old(self).var_counter + 1,
            final(self).vars@ == old(self).vars@.push((str, r)),
            final(self).block_counter == old(self).block_counter,
            final(self).loop_cont == old(self).loop_cont,
            final(self).loop_brek == old(self).loop_brek,
            final(self).gens == old(self).gens,
    {
        let value = self.alloc_anon_var();
        self.vars.push((str, value));
        value
    }

    /// A fresh slot for a value that no name refers to.
    pub fn alloc_anon_var(&mut self) -> (r: u32)
        requires
            old(self).var_counter < u32::MAX,
        ensures
            r == old(self).var_counter,
            final(self).var_counter == old(self).var_counter + 1,
            final(self).vars@ == old(self).vars@,
            final(self).block_counter == old(self).block_counter,
            final(self).loop_cont == old(self).loop_cont,
            final(self).loop_brek == old(self).loop_brek,
            final(self).gens == old(self).gens,
    {
        self.var_counter = self.var_counter + 1;
        self.var_counter - 1
    }

    /// A fresh block index.
    pub fn next_block_index(&mut self) -> (r: BlockIndex)
        requires
            old(self).block_counter < u32::MAX,
        ensures
            r.0 == old(self).block_counter,
            final(self).block_counter == old(self).block_counter + 1,
            final(self).vars@ == old(self).vars@,
            final(self).var_counter == old(self).var_counter,
            final(self).loop_cont == old(self).loop_cont,
            final(self).loop_brek == old(self).loop_brek,
            final(self).gens == old(self).gens,
    {
        self.block_counter = self.block_counter + 1;
        BlockIndex(self.block_counter - 1)
    }

    /// The slot of the innermost variable named `name`.
    pub fn find_var(&self, name: StringIndex) -> (r: Option<u32>)
        ensures
            r == slot_of(self.vars@, name),
    {
        let mut i: usize = self.vars.len();
        proof {
            assert(self.vars@.subrange(0, i as int) =~= self.vars@);
        }
        while i > 0
            invariant
                0 <= i <= self.vars@.len(),
                slot_of(self.vars@, name) == slot_of(self.vars@.subrange(0, i as int), name),
            decreases i,
        {
            proof {
                let pre = self.vars@.subrange(0, i as int);
                assert(pre.last() == self.vars@[i - 1]);
                assert(pre.drop_last() =~= self.vars@.subrange(0, i - 1));
            }
            if self.vars[i - 1].0 == name {
                return Some(self.vars[i - 1].1);
            }
            i = i - 1;
        }
        proof {
            assert(self.vars@.subrange(0, 0) =~= Seq::<(StringIndex, u32)>::empty());
        }
        None
    }
}

/// A variable brought into scope is what its name finds, and leaves what
/// other names find as it was.
pub proof fn law_new_variable_is_found(vars: Seq<(StringIndex, u32)>, name: StringIndex, slot: u32, other: StringIndex)
    ensures
        slot_of(vars.push((name, slot)), name) == Some(slot),
        other != name ==> slot_of(vars.push((name, slot)), other) == slot_of(vars, other),
{
    assert(vars.push((name, slot)).drop_last() =~= vars);
}

} // verus!
