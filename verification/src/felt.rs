use vstd::prelude::*;

verus! {

/// The order of the base field: 2^64 - 2^32 + 1.
pub const MODULUS: u64 = 0xffff_ffff_0000_0001u64;

/// An element of the base field, kept in canonical form (its value is below `MODULUS`).
#[derive(Clone, Copy, Debug, PartialEq, Eq, Structural)]
pub struct Felt {
    value: u64,
}

impl View for Felt {
    type V = u64;

    closed spec fn view(&self) -> u64 {
        self.value
    }
}

impl Felt {
    #[verifier::type_invariant]
    closed spec fn canonical(self) -> bool {
        self.value < MODULUS
    }

    /// The element that `new(value)` returns.
    pub closed spec fn from_int(value: u64) -> Felt {
        Felt { value: (value % MODULUS) as u64 }
    }

    /// The additive identity.
    pub open spec fn zero_spec() -> Felt {
        Felt::from_int(0)
    }

    /// Reduces `value` modulo the field order.
    pub fn new(value: u64) -> (r: Felt)
        ensures
            r == Felt::from_int(value),
            r@ == value % MODULUS,
    {
        Felt { value: value % MODULUS }
    }

    /// The additive identity.
    pub fn zero() -> (r: Felt)
        ensures
            r == Felt::zero_spec(),
            r@ == 0,
    {
        Felt::new(0)
    }

    /// The multiplicative identity.
    pub fn one() -> (r: Felt)
        ensures
            r == Felt::from_int(1),
            r@ == 1,
    {
        Felt::new(1)
    }

    /// The canonical integer value of this element.
    pub fn as_int(&self) -> (r: u64)
        ensures
            r == self@,
            r < MODULUS,
    {
        proof {
            use_type_invariant(self);
        }
        self.value
    }

    /// Two elements are equal exactly when their integer values are.
    pub proof fn lemma_view_injective(a: Felt, b: Felt)
        ensures
            a@ == b@ <==> a == b,
    {
    }

    /// The integer value of `from_int(value)`.
    pub proof fn lemma_from_int_view(value: u64)
        ensures
            Felt::from_int(value)@ == value % MODULUS,
    {
    }
}

} // verus!
