use vstd::prelude::*;

verus! {

/// Public identity of a node: its routing name and its public signing key.
#[derive(Clone, Copy, Debug, PartialEq, Eq, Structural, Hash)]
pub struct PublicId {
    pub name: u64,
    pub sign_key: u64,
}

impl PublicId {
    pub fn name(&self) -> (r: u64)
        ensures
            r == self.name,
    {
        self.name
    }
}

/// Full credential of a node: its public identity and its secret key material.
#[derive(Clone, Debug)]
pub struct FullId {
    pub public_id: PublicId,
    pub secret_key: Vec<u8>,
}

impl FullId {
    pub fn public_id(&self) -> (r: &PublicId)
        ensures
            *r == self.public_id,
    {
        &self.public_id
    }
}

/// A copy of `ids`.
pub fn copy_ids(ids: &Vec<PublicId>) -> (r: Vec<PublicId>)
    ensures
        r@ == ids@,
{
    let mut r: Vec<PublicId> = Vec::new();
    let mut i: usize = 0;
    while i < ids.len()
        invariant
            i <= ids@.len(),
            r@ == ids@.subrange(0, i as int),
        decreases ids@.len() - i,
    {
        r.push(ids[i]);
        i += 1;
        assert(r@ =~= ids@.subrange(0, i as int));
    }
    assert(ids@.subrange(0, ids@.len() as int) =~= ids@);
    r
}

/// Whether `id` occurs in `members`.
pub fn contains_id(members: &Vec<PublicId>, id: &PublicId) -> (r: bool)
    ensures
        r == members@.contains(*id),
{
    let mut i: usize = 0;
    while i < members.len()
        invariant
            i <= members@.len(),
            forall|j: int| 0 <= j < i ==> members@[j] != *id,
        decreases members@.len() - i,
    {
        if members[i] == *id {
            assert(members@[i as int] == *id);
            return true;
        }
        i += 1;
    }
    false
}

} // verus!
