use vstd::prelude::*;

verus! {

/// How a block of the intermediate representation ends.
#[derive(Clone, Debug)]
pub enum Terminator {
    Ret,
    Jmp(BlockId),
    Jif { cond: Reg, if_true: BlockId, if_false: BlockId },
    Match { src: Reg, jumps: Vec<BlockId> },
}

/// The index of an enum variant.
#[derive(Clone, Copy, Debug, PartialEq, Eq, Structural)]
pub struct EnumVariant(pub u16);

/// Identifier of a block.
#[derive(Clone, Copy, Debug, PartialEq, Eq, Structural)]
pub struct BlockId(pub u32);

/// Identifier of a string constant.
#[derive(Clone, Copy, Debug, PartialEq, Eq, Structural)]
pub struct StrConstId(pub u32);

/// A virtual register.
#[derive(Clone, Copy, Debug, PartialEq, Eq, Structural)]
pub struct Reg(pub usize);

} // verus!
