use vstd::prelude::*;
use crate::id::{copy_ids, FullId, PublicId};
use crate::parsec::ConsensusEngine;

verus! {

/// A deterministic engine for test harnesses: every vote is agreed at once, in the order
/// cast. A block carries the vote and the number of requests the session had handled.
pub struct MockParsec {
    pub from_genesis: bool,
    pub members: Vec<PublicId>,
    pub genesis: Vec<PublicId>,
    pub latest: Vec<PublicId>,
    pub state: Vec<u8>,
    pub pending: Vec<u32>,
    pub requests_handled: u64,
    pub seed: u64,
}

fn copy_votes(votes: &Vec<u32>) -> (r: Vec<u32>)
    ensures
        r@ == votes@,
{
    let mut r: Vec<u32> = Vec::new();
    let mut i: usize = 0;
    while i < votes.len()
        invariant
            i <= votes@.len(),
            r@ == votes@.subrange(0, i as int),
        decreases votes@.len() - i,
    {
        r.push(votes[i]);
        i += 1;
        assert(r@ =~= votes@.subrange(0, i as int));
    }
    assert(votes@.subrange(0, votes@.len() as int) =~= votes@);
    r
}

fn copy_bytes(bytes: &Vec<u8>) -> (r: Vec<u8>)
    ensures
        r@ == bytes@,
{
    let mut r: Vec<u8> = Vec::new();
    let mut i: usize = 0;
    while i < bytes.len()
        invariant
            i <= bytes@.len(),
            r@ == bytes@.subrange(0, i as int),
        decreases bytes@.len() - i,
    {
        r.push(bytes[i]);
        i += 1;
        assert(r@ =~= bytes@.subrange(0, i as int));
    }
    assert(bytes@.subrange(0, bytes@.len() as int) =~= bytes@);
    r
}

impl ConsensusEngine for MockParsec {
    /// A request carries a number; zero is malformed.
    type Request = u32;
    type Response = u32;
    type Block = (u32, u64);
    type Observation = u32;
    type Event = u64;
    type Error = ();
    type Rng = u64;

    open spec fn founded_on_genesis(&self) -> bool {
        self.from_genesis
    }

    open spec fn recipients(&self) -> Seq<PublicId> {
        self.members@
    }

    open spec fn unpolled(&self) -> Seq<u32> {
        self.pending@
    }

    open spec fn next_block(&self) -> Option<(u32, u64)> {
        if self.pending@.len() > 0 {
            Some((self.pending@[0], self.requests_handled))
        } else {
            None
        }
    }

    open spec fn genesis_members(&self) -> Seq<PublicId> {
        self.genesis@
    }

    open spec fn latest_members(&self) -> Seq<PublicId> {
        self.latest@
    }

    open spec fn genesis_state(&self) -> Seq<u8> {
        self.state@
    }

    open spec fn observation_for(event: u64) -> Option<u32> {
        if event <= u32::MAX {
            Some(event as u32)
        } else {
            None
        }
    }

    fn from_genesis(
        full_id: FullId,
        genesis_members: &Vec<PublicId>,
        first_state_serialized: &Vec<u8>,
        rng: u64,
    ) -> (r: Self) {
        MockParsec {
            from_genesis: true,
            members: copy_ids(genesis_members),
            genesis: copy_ids(genesis_members),
            latest: Vec::new(),
            state: copy_bytes(first_state_serialized),
            pending: Vec::new(),
            requests_handled: 0,
            seed: rng,
        }
    }

    fn from_existing(
        full_id: FullId,
        genesis_members: &Vec<PublicId>,
        latest_members: &Vec<PublicId>,
        rng: u64,
    ) -> (r: Self) {
        MockParsec {
            from_genesis: false,
            members: copy_ids(latest_members),
            genesis: copy_ids(genesis_members),
            latest: copy_ids(latest_members),
            state: Vec::new(),
            pending: Vec::new(),
            requests_handled: 0,
            seed: rng,
        }
    }

    fn handle_request(&mut self, src: &PublicId, request: u32) -> Result<u32, ()> {
        self.requests_handled = self.requests_handled.saturating_add(1);
        if request == 0 {
            Err(())
        } else {
            Ok(request)
        }
    }

    fn handle_response(&mut self, src: &PublicId, response: u32) -> Result<(), ()> {
        if response == 0 {
            Err(())
        } else {
            Ok(())
        }
    }

    fn create_gossip(&mut self, target: &PublicId) -> Result<u32, ()> {
        if self.pending.len() < u32::MAX as usize {
            Ok(self.pending.len() as u32 + 1)
        } else {
            Err(())
        }
    }

    fn vote_for(&mut self, observation: u32) -> Result<(), ()> {
        self.pending.push(observation);
        Ok(())
    }

    fn poll(&mut self) -> Option<(u32, u64)> {
        if self.pending.len() > 0 {
            let vote = self.pending.remove(0);
            Some((vote, self.requests_handled))
        } else {
            None
        }
    }

    fn gossip_recipients(&self) -> (r: Vec<PublicId>) {
        copy_ids(&self.members)
    }

    fn our_unpolled_observations(&self) -> (r: Vec<u32>) {
        copy_votes(&self.pending)
    }

    fn has_unpolled_observations(&self) -> (r: bool) {
        self.pending.len() > 0
    }

    fn observation_of(event: u64) -> (r: Option<u32>) {
        if event <= u32::MAX as u64 {
            Some(event as u32)
        } else {
            None
        }
    }
}

} // verus!
