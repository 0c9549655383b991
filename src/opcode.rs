//! The instruction set.
use vstd::prelude::*;

verus! {

/// Every opcode of the bytecode.
#[derive(Clone, Copy, Debug, PartialEq, Eq, Structural)]
pub enum BcOpcode {
    Const,
    LoadLocal,
    StoreLocal,
    LoadModule,
    ListNew,
    ListOfN,
    ForLoop,
    IfNotBr,
    ComprListAppend,
    Continue,
    Return,
    Pop,
    Def,
}

/// The number of opcodes.
pub const OPCODE_COUNT: usize = 13;

impl BcOpcode {
    /// The position of the opcode in the instruction set.
    pub open spec fn spec_number(self) -> nat {
        match self {
            BcOpcode::Const => 0,
            BcOpcode::LoadLocal => 1,
            BcOpcode::StoreLocal => 2,
            BcOpcode::LoadModule => 3,
            BcOpcode::ListNew => 4,
            BcOpcode::ListOfN => 5,
            BcOpcode::ForLoop => 6,
            BcOpcode::IfNotBr => 7,
            BcOpcode::ComprListAppend => 8,
            BcOpcode::Continue => 9,
            BcOpcode::Return => 10,
            BcOpcode::Pop => 11,
            BcOpcode::Def => 12,
        }
    }

    /// The position of the opcode in the instruction set.
    pub fn number(self) -> (r: usize)
        ensures
            r == self.spec_number(),
            r < OPCODE_COUNT,
    {
        match self {
            BcOpcode::Const => 0,
            BcOpcode::LoadLocal => 1,
            BcOpcode::StoreLocal => 2,
            BcOpcode::LoadModule => 3,
            BcOpcode::ListNew => 4,
            BcOpcode::ListOfN => 5,
            BcOpcode::ForLoop => 6,
            BcOpcode::IfNotBr => 7,
            BcOpcode::ComprListAppend => 8,
            BcOpcode::Continue => 9,
            BcOpcode::Return => 10,
            BcOpcode::Pop => 11,
            BcOpcode::Def => 12,
        }
    }

    /// The opcode at position `n`, if there is one.
    pub open spec fn spec_by_number(n: nat) -> Option<BcOpcode> {
        if n == 0 {
            Some(BcOpcode::Const)
        } else if n == 1 {
            Some(BcOpcode::LoadLocal)
        } else if n == 2 {
            Some(BcOpcode::StoreLocal)
        } else if n == 3 {
            Some(BcOpcode::LoadModule)
        } else if n == 4 {
            Some(BcOpcode::ListNew)
        } else if n == 5 {
            Some(BcOpcode::ListOfN)
        } else if n == 6 {
            Some(BcOpcode::ForLoop)
        } else if n == 7 {
            Some(BcOpcode::IfNotBr)
        } else if n == 8 {
            Some(BcOpcode::ComprListAppend)
        } else if n == 9 {
            Some(BcOpcode::Continue)
        } else if n == 10 {
            Some(BcOpcode::Return)
        } else if n == 11 {
            Some(BcOpcode::Pop)
        } else if n == 12 {
            Some(BcOpcode::Def)
        } else {
            None
        }
    }

    /// The opcode at position `n`, if there is one.
    pub fn by_number(n: usize) -> (r: Option<BcOpcode>)
        ensures
            r == Self::spec_by_number(n as nat),
            n < OPCODE_COUNT <==> r is Some,
            r matches Some(o) ==> o.spec_number() == n,
    {
        if n == 0 {
            Some(BcOpcode::Const)
        } else if n == 1 {
            Some(BcOpcode::LoadLocal)
        } else if n == 2 {
            Some(BcOpcode::StoreLocal)
        } else if n == 3 {
            Some(BcOpcode::LoadModule)
        } else if n == 4 {
            Some(BcOpcode::ListNew)
        } else if n == 5 {
            Some(BcOpcode::ListOfN)
        } else if n == 6 {
            Some(BcOpcode::ForLoop)
        } else if n == 7 {
            Some(BcOpcode::IfNotBr)
        } else if n == 8 {
            Some(BcOpcode::ComprListAppend)
        } else if n == 9 {
            Some(BcOpcode::Continue)
        } else if n == 10 {
            Some(BcOpcode::Return)
        } else if n == 11 {
            Some(BcOpcode::Pop)
        } else if n == 12 {
            Some(BcOpcode::Def)
        } else {
            None
        }
    }

    /// The opcode's name, as reports print it.
    pub open spec fn spec_name(self) -> Seq<char> {
        match self {
            BcOpcode::Const => "Const"@,
            BcOpcode::LoadLocal => "LoadLocal"@,
            BcOpcode::StoreLocal => "StoreLocal"@,
            BcOpcode::LoadModule => "LoadModule"@,
            BcOpcode::ListNew => "ListNew"@,
            BcOpcode::ListOfN => "ListOfN"@,
            BcOpcode::ForLoop => "ForLoop"@,
            BcOpcode::IfNotBr => "IfNotBr"@,
            BcOpcode::ComprListAppend => "ComprListAppend"@,
            BcOpcode::Continue => "Continue"@,
            BcOpcode::Return => "Return"@,
            BcOpcode::Pop => "Pop"@,
            BcOpcode::Def => "Def"@,
        }
    }

    /// The opcode's name, as reports print it.
    pub fn name(self) -> (r: &'static str)
        ensures
            r@ == self.spec_name(),
    {
        match self {
            BcOpcode::Const => "Const",
            BcOpcode::LoadLocal => "LoadLocal",
            BcOpcode::StoreLocal => "StoreLocal",
            BcOpcode::LoadModule => "LoadModule",
            BcOpcode::ListNew => "ListNew",
            BcOpcode::ListOfN => "ListOfN",
            BcOpcode::ForLoop => "ForLoop",
            BcOpcode::IfNotBr => "IfNotBr",
            BcOpcode::ComprListAppend => "ComprListAppend",
            BcOpcode::Continue => "Continue",
            BcOpcode::Return => "Return",
            BcOpcode::Pop => "Pop",
            BcOpcode::Def => "Def",
        }
    }
}

} // verus!
