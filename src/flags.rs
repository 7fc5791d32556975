use vstd::prelude::*;

verus! {

/// The option flags of a configuration entry: a set over ten named bits.
#[derive(Clone, Copy, Debug, PartialEq, Eq, Hash, PartialOrd, Ord, Structural)]
pub struct CFGFlags {
    pub bits: u16,
}

/// Mask of the ten bits that name a flag.
pub const ALL_FLAG_BITS: u16 = 0x3ff;

/// One of the ten named flags.
#[derive(Clone, Copy, Debug, PartialEq, Eq, Hash, PartialOrd, Ord, Structural)]
pub enum Flag {
    Save,
    Client,
    Server,
    Insensitive,
    NonTeehistoric,
    Master,
    Econ,
    Game,
    ColAlpha,
    ColLight,
}

/// The bit that stands for a flag.
pub open spec fn flag_bit(f: Flag) -> u16 {
    match f {
        Flag::Save => 1,
        Flag::Client => 2,
        Flag::Server => 4,
        Flag::Insensitive => 8,
        Flag::NonTeehistoric => 16,
        Flag::Master => 32,
        Flag::Econ => 64,
        Flag::Game => 128,
        Flag::ColAlpha => 256,
        Flag::ColLight => 512,
    }
}

impl Flag {
    pub fn bit(self) -> (r: u16)
        ensures
            r == flag_bit(self),
    {
        match self {
            Flag::Save => 1,
            Flag::Client => 2,
            Flag::Server => 4,
            Flag::Insensitive => 8,
            Flag::NonTeehistoric => 16,
            Flag::Master => 32,
            Flag::Econ => 64,
            Flag::Game => 128,
            Flag::ColAlpha => 256,
            Flag::ColLight => 512,
        }
    }
}

impl CFGFlags {
    /// The bit pattern of the set.
    pub open spec fn view_bits(self) -> u16 {
        self.bits
    }

    /// Only the ten named bits may be set.
    pub open spec fn wf(self) -> bool {
        self.bits & !ALL_FLAG_BITS == 0
    }

    pub fn empty() -> (r: CFGFlags)
        ensures
            r.bits == 0,
            r.wf(),
    {
        proof {
            assert(0u16 & !ALL_FLAG_BITS == 0) by (bit_vector);
        }
        CFGFlags { bits: 0 }
    }

    /// The set that holds one flag.
    pub fn from_flag(f: Flag) -> (r: CFGFlags)
        ensures
            r.bits == flag_bit(f),
            r.wf(),
    {
        let b = f.bit();
        proof {
            assert(b == 1 || b == 2 || b == 4 || b == 8 || b == 16 || b == 32 || b == 64 || b == 128 || b == 256 || b == 512 ==> b & !ALL_FLAG_BITS == 0) by (bit_vector);
        }
        CFGFlags { bits: b }
    }

    pub fn bits(&self) -> (r: u16)
        ensures
            r == self.bits,
    {
        self.bits
    }

    /// The union of two sets.
    pub fn union(self, other: CFGFlags) -> (r: CFGFlags)
        requires
            self.wf(),
            other.wf(),
        ensures
            r.bits == self.bits | other.bits,
            r.wf(),
    {
        let a = self.bits;
        let b = other.bits;
        proof {
            assert(a & !ALL_FLAG_BITS == 0 && b & !ALL_FLAG_BITS == 0 ==> (a | b) & !ALL_FLAG_BITS == 0) by (bit_vector);
        }
        CFGFlags { bits: a | b }
    }

    /// Whether every flag of `other` is in `self`.
    pub fn contains(&self, other: CFGFlags) -> (r: bool)
        ensures
            r == (self.bits & other.bits == other.bits),
    {
        self.bits & other.bits == other.bits
    }
}

/// Union of flag sets does not depend on the order of its operands, and
/// adding a set to itself leaves it unchanged.
pub proof fn lemma_union_commutative_idempotent(a: CFGFlags, b: CFGFlags)
    ensures
        (a.bits | b.bits) == (b.bits | a.bits),
        (a.bits | a.bits) == a.bits,
{
    let x = a.bits;
    let y = b.bits;
    assert((x | y) == (y | x)) by (bit_vector);
    assert((x | x) == x) by (bit_vector);
}

} // verus!
