use vstd::prelude::*;

use std::collections::BTreeMap;

use crate::felt::Felt;
use crate::stack::zeros;

verus! {

broadcast use vstd::std_specs::btree::group_btree_axioms;

/// Four field elements, the unit in which memory is read and written.
pub type Word = [Felt; 4];

/// What reading `addr` gives back: the word last written there, or four zeros.
pub open spec fn read_word(mem: Map<u64, Seq<Felt>>, addr: u64) -> Seq<Felt> {
    if mem.contains_key(addr) {
        mem[addr]
    } else {
        zeros(4)
    }
}

/// Random-access memory of the processor: words addressed by field elements. Memory starts
/// out as all zeros.
pub struct Memory {
    memory: BTreeMap<u64, Word>,
}

impl Memory {
    /// The words written so far, by address.
    pub closed spec fn contents(self) -> Map<u64, Seq<Felt>> {
        self.memory@.map_values(|w: Word| w@)
    }

    /// Only finitely many addresses have been written.
    pub proof fn lemma_finite(self)
        ensures
            self.contents().dom().finite(),
    {
        assert(self.contents().dom() =~= self.memory@.dom());
    }

    /// A memory in which nothing has been written.
    pub fn new() -> (m: Memory)
        ensures
            m.contents() == Map::<u64, Seq<Felt>>::empty(),
            m.contents().dom().finite(),
    {
        let m = Memory { memory: BTreeMap::new() };
        assert(m.contents() =~= Map::<u64, Seq<Felt>>::empty());
        m
    }

    /// The number of addresses that have been written.
    pub fn size(&self) -> (r: usize)
        ensures
            r == self.contents().len(),
            self.contents().dom().finite(),
    {
        assert(self.contents().dom() =~= self.memory@.dom());
        self.memory.len()
    }

    /// The word at `addr`, if one was written there.
    pub fn get_value(&self, addr: u64) -> (r: Option<Word>)
        ensures
            r is Some <==> self.contents().contains_key(addr),
            r matches Some(w) ==> w@ == self.contents()[addr],
    {
        match self.memory.get(&addr) {
            Some(w) => Some(*w),
            None => None,
        }
    }

    /// The word at `addr`; an address never written reads as four zeros.
    pub fn read(&self, addr: Felt) -> (r: Word)
        ensures
            r@ == read_word(self.contents(), addr@),
    {
        let a = addr.as_int();
        match self.memory.get(&a) {
            Some(w) => *w,
            None => {
                let r = [Felt::zero(), Felt::zero(), Felt::zero(), Felt::zero()];
                assert(r@ =~= zeros(4));
                r
            },
        }
    }

    /// Writes `value` at `addr`, replacing what was there.
    pub fn write(&mut self, addr: Felt, value: Word)
        ensures
            final(self).contents() == old(self).contents().insert(addr@, value@),
            final(self).contents().dom().finite(),
    {
        let a = addr.as_int();
        self.memory.insert(a, value);
        assert(final(self).contents() =~= old(self).contents().insert(addr@, value@));
        assert(self.contents().dom() =~= self.memory@.dom());
    }
}

} // verus!
