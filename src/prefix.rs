use vstd::prelude::*;
use crate::id::PublicId;

verus! {

/// A section of the address space: the leading bits that its names share, at a version.
pub struct Prefix {
    pub bits: Vec<bool>,
    pub version: u64,
}

/// A prefix without its version: the key under which signatures are kept.
pub struct UnversionedPrefix {
    pub bits: Vec<bool>,
}

/// Two prefixes are compatible where one extends the other: their sections overlap.
pub open spec fn compatible(a: Seq<bool>, b: Seq<bool>) -> bool {
    forall|i: int| 0 <= i < a.len() && i < b.len() ==> a[i] == b[i]
}

impl Prefix {
    pub fn unversioned(&self) -> (r: UnversionedPrefix)
        ensures
            r.bits@ == self.bits@,
    {
        UnversionedPrefix { bits: copy_bits(&self.bits) }
    }
}

impl UnversionedPrefix {
    pub fn is_compatible(&self, other: &UnversionedPrefix) -> (r: bool)
        ensures
            r == compatible(self.bits@, other.bits@),
    {
        let n = if self.bits.len() < other.bits.len() {
            self.bits.len()
        } else {
            other.bits.len()
        };
        let mut i: usize = 0;
        while i < n
            invariant
                n <= self.bits@.len(),
                n <= other.bits@.len(),
                n == self.bits@.len() || n == other.bits@.len(),
                i <= n,
                forall|j: int| 0 <= j < i ==> self.bits@[j] == other.bits@[j],
            decreases n - i,
        {
            if self.bits[i] != other.bits[i] {
                return false;
            }
            i += 1;
        }
        true
    }

    pub fn same_as(&self, other: &UnversionedPrefix) -> (r: bool)
        ensures
            r == (self.bits@ == other.bits@),
    {
        if self.bits.len() != other.bits.len() {
            return false;
        }
        let mut i: usize = 0;
        while i < self.bits.len()
            invariant
                self.bits@.len() == other.bits@.len(),
                i <= self.bits@.len(),
                forall|j: int| 0 <= j < i ==> self.bits@[j] == other.bits@[j],
            decreases self.bits@.len() - i,
        {
            if self.bits[i] != other.bits[i] {
                return false;
            }
            i += 1;
        }
        assert(self.bits@ =~= other.bits@);
        true
    }

    pub fn copy(&self) -> (r: UnversionedPrefix)
        ensures
            r.bits@ == self.bits@,
    {
        UnversionedPrefix { bits: copy_bits(&self.bits) }
    }
}

fn copy_bits(bits: &Vec<bool>) -> (r: Vec<bool>)
    ensures
        r@ == bits@,
{
    let mut r: Vec<bool> = Vec::new();
    let mut i: usize = 0;
    while i < bits.len()
        invariant
            i <= bits@.len(),
            r@ == bits@.subrange(0, i as int),
        decreases bits@.len() - i,
    {
        r.push(bits[i]);
        i += 1;
        assert(r@ =~= bits@.subrange(0, i as int));
    }
    assert(bits@.subrange(0, bits@.len() as int) =~= bits@);
    r
}

/// The members of a section at one point in time, compared by content.
pub struct SectionList {
    pub members: Vec<PublicId>,
}

impl SectionList {
    pub fn same_as(&self, other: &SectionList) -> (r: bool)
        ensures
            r == (self.members@ == other.members@),
    {
        if self.members.len() != other.members.len() {
            return false;
        }
        let mut i: usize = 0;
        while i < self.members.len()
            invariant
                self.members@.len() == other.members@.len(),
                i <= self.members@.len(),
                forall|j: int| 0 <= j < i ==> self.members@[j] == other.members@[j],
            decreases self.members@.len() - i,
        {
            if self.members[i] != other.members[i] {
                return false;
            }
            i += 1;
        }
        assert(self.members@ =~= other.members@);
        true
    }

    pub fn copy(&self) -> (r: SectionList)
        ensures
            r.members@ == self.members@,
    {
        let mut r: Vec<PublicId> = Vec::new();
        let mut i: usize = 0;
        while i < self.members.len()
            invariant
                i <= self.members@.len(),
                r@ == self.members@.subrange(0, i as int),
            decreases self.members@.len() - i,
        {
            r.push(self.members[i]);
            i += 1;
            assert(r@ =~= self.members@.subrange(0, i as int));
        }
        assert(self.members@.subrange(0, self.members@.len() as int) =~= self.members@);
        SectionList { members: r }
    }
}

/// A signature over a section list.
#[derive(Clone, Copy, Debug)]
pub struct Signature {
    pub bytes: [u8; 64],
}

} // verus!
