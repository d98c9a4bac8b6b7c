use vstd::prelude::*;

verus! {

/// Identity of one entity: a slot index and the generation of that slot,
/// so that a reused slot is told apart from the entity that held it before.
#[derive(Clone, Copy, Debug, PartialEq, Eq, Structural)]
pub struct EntityId {
    pub index: usize,
    pub generation: u64,
}

impl EntityId {
    pub fn new(index: usize, generation: u64) -> (r: EntityId)
        ensures
            r.index == index,
            r.generation == generation,
    {
        EntityId { index, generation }
    }
}

/// The character of the decimal digit `d`.
pub open spec fn digit_text(d: nat) -> Seq<char> {
    if d == 0 {
        "0"@
    } else if d == 1 {
        "1"@
    } else if d == 2 {
        "2"@
    } else if d == 3 {
        "3"@
    } else if d == 4 {
        "4"@
    } else if d == 5 {
        "5"@
    } else if d == 6 {
        "6"@
    } else if d == 7 {
        "7"@
    } else if d == 8 {
        "8"@
    } else {
        "9"@
    }
}

/// Decimal notation of `n`, without leading zeros.
pub open spec fn decimal(n: nat) -> Seq<char>
    decreases n,
{
    if n < 10 {
        digit_text(n)
    } else {
        decimal(n / 10) + digit_text(n % 10)
    }
}

fn digit_str(d: u64) -> (r: &'static str)
    requires
        d < 10,
    ensures
        r@ == digit_text(d as nat),
{
    if d == 0 {
        "0"
    } else if d == 1 {
        "1"
    } else if d == 2 {
        "2"
    } else if d == 3 {
        "3"
    } else if d == 4 {
        "4"
    } else if d == 5 {
        "5"
    } else if d == 6 {
        "6"
    } else if d == 7 {
        "7"
    } else if d == 8 {
        "8"
    } else {
        "9"
    }
}

/// Decimal notation of `n`.
pub fn decimal_string(n: u64) -> (r: String)
    ensures
        r@ == decimal(n as nat),
    decreases n,
{
    if n < 10 {
        String::from_str(digit_str(n))
    } else {
        decimal_string(n / 10).concat(digit_str(n % 10))
    }
}

/// Identity of a component type, the key under which its storage is registered.
#[derive(Clone, Copy, Debug, PartialEq, Eq, Structural)]
pub struct StorageId {
    pub id: u64,
}

} // verus!
