use vstd::prelude::*;
use crate::id::{contains_id, FullId, PublicId};

verus! {

/// Default traffic volume (in serialised bytes) above which the newest session needs pruning.
pub const PARSEC_SIZE_LIMIT: u64 = 100;

/// A membership snapshot of a section at one version.
pub struct SectionInfo {
    pub members: Vec<PublicId>,
    pub version: u64,
}

impl SectionInfo {
    pub fn version(&self) -> (r: u64)
        ensures
            r == self.version,
    {
        self.version
    }

    pub fn members(&self) -> (r: &Vec<PublicId>)
        ensures
            r@ == self.members@,
    {
        &self.members
    }
}

/// What a session of one epoch is founded on.
pub struct GenesisPfxInfo {
    pub first_info: SectionInfo,
    pub first_state_serialized: Vec<u8>,
    pub latest_info: SectionInfo,
}

/// The agreement engine run by one session. The registry only routes traffic to it and
/// reads its output; its agreement logic is its own.
pub trait ConsensusEngine: Sized {
    type Request;
    type Response;
    type Block;
    type Observation;
    type Event;
    type Error;
    /// The randomness source handed to a new session.
    type Rng;

    /// Whether the session was founded from the genesis state rather than joined.
    spec fn founded_on_genesis(&self) -> bool;

    /// The peers that the session gossips with.
    spec fn recipients(&self) -> Seq<PublicId>;

    /// This node's votes that no agreed block holds yet.
    spec fn unpolled(&self) -> Seq<Self::Observation>;

    /// The block that the next poll returns.
    spec fn next_block(&self) -> Option<Self::Block>;

    /// The members of the section at the session's genesis.
    spec fn genesis_members(&self) -> Seq<PublicId>;

    /// The members that a joining session catches up from.
    spec fn latest_members(&self) -> Seq<PublicId>;

    /// The serialised state that a genesis session is seeded with.
    spec fn genesis_state(&self) -> Seq<u8>;

    /// The observation that votes for `event`, if the event can be voted for.
    spec fn observation_for(event: Self::Event) -> Option<Self::Observation>;

    /// A session for a node that is itself one of the genesis members.
    fn from_genesis(
        full_id: FullId,
        genesis_members: &Vec<PublicId>,
        first_state_serialized: &Vec<u8>,
        rng: Self::Rng,
    ) -> (r: Self)
        ensures
            r.founded_on_genesis(),
            r.genesis_members() == genesis_members@,
            r.genesis_state() == first_state_serialized@,
    ;

    /// A session for a node that joins an existing, already agreeing set of members.
    fn from_existing(
        full_id: FullId,
        genesis_members: &Vec<PublicId>,
        latest_members: &Vec<PublicId>,
        rng: Self::Rng,
    ) -> (r: Self)
        ensures
            !r.founded_on_genesis(),
            r.genesis_members() == genesis_members@,
            r.latest_members() == latest_members@,
    ;

    fn handle_request(&mut self, src: &PublicId, request: Self::Request) -> Result<
        Self::Response,
        Self::Error,
    >;

    fn handle_response(&mut self, src: &PublicId, response: Self::Response) -> Result<
        (),
        Self::Error,
    >;

    fn create_gossip(&mut self, target: &PublicId) -> Result<Self::Request, Self::Error>;

    /// Casts a vote; a refused vote changes nothing.
    fn vote_for(&mut self, observation: Self::Observation) -> (r: Result<(), Self::Error>)
        ensures
            r is Ok ==> final(self).unpolled() == old(self).unpolled().push(observation),
            r is Err ==> *final(self) == *old(self),
    ;

    fn poll(&mut self) -> (r: Option<Self::Block>)
        ensures
            r == old(self).next_block(),
    ;

    fn gossip_recipients(&self) -> (r: Vec<PublicId>)
        ensures
            r@ == self.recipients(),
    ;

    fn our_unpolled_observations(&self) -> (r: Vec<Self::Observation>)
        ensures
            r@ == self.unpolled(),
    ;

    fn has_unpolled_observations(&self) -> (r: bool)
        ensures
            r == (self.unpolled().len() > 0),
    ;

    fn observation_of(event: Self::Event) -> (r: Option<Self::Observation>)
        ensures
            r == Self::observation_for(event),
    ;
}

/// A consensus message addressed to the session of one epoch.
pub enum DirectMessage<Q, S> {
    ParsecRequest(u64, Q),
    ParsecResponse(u64, S),
}

/// Serialised volume of the traffic handled by the newest session.
#[derive(Debug, PartialEq, Eq, Structural)]
pub struct ParsecSizeCounter(pub u64);

/// `a + b`, held at `u64::MAX`.
pub open spec fn saturating_sum(a: u64, b: u64) -> u64 {
    if a + b > u64::MAX {
        u64::MAX
    } else {
        (a + b) as u64
    }
}

impl ParsecSizeCounter {
    pub fn new() -> (r: Self)
        ensures
            r.0 == 0,
    {
        ParsecSizeCounter(0)
    }

    /// Adds `size` bytes; a counter at `u64::MAX` stays there.
    pub fn increase_size(&mut self, size: u64)
        ensures
            final(self).0 == saturating_sum(old(self).0, size),
    {
        self.0 = self.0.saturating_add(size);
    }

    pub fn needs_pruning(&self) -> (r: bool)
        ensures
            r == (self.0 > PARSEC_SIZE_LIMIT),
    {
        self.exceeds(PARSEC_SIZE_LIMIT)
    }

    /// Whether the counted traffic exceeds `limit`.
    pub fn exceeds(&self, limit: u64) -> (r: bool)
        ensures
            r == (self.0 > limit),
    {
        self.0 > limit
    }
}

impl Default for ParsecSizeCounter {
    fn default() -> (r: Self)
        ensures
            r.0 == 0,
    {
        ParsecSizeCounter(0)
    }
}

/// Whether `s` holds a session for epoch `v`.
pub open spec fn has_epoch<E>(s: Seq<(u64, E)>, v: u64) -> bool {
    exists|i: int| 0 <= i < s.len() && s[i].0 == v
}

/// Epochs strictly increase along `s`, and `s` is not empty.
pub open spec fn sessions_wf<E>(s: Seq<(u64, E)>) -> bool {
    &&& s.len() > 0
    &&& forall|i: int, j: int| 0 <= i < j < s.len() ==> s[i].0 < s[j].0
}

/// The newest epoch of `s`.
pub open spec fn newest<E>(s: Seq<(u64, E)>) -> u64 {
    s.last().0
}

/// `new` holds the same epochs as `old`, and every session but the one of epoch `v` is
/// unchanged.
pub open spec fn touches_only<E>(old: Seq<(u64, E)>, new: Seq<(u64, E)>, v: u64) -> bool {
    &&& new.len() == old.len()
    &&& forall|i: int| 0 <= i < old.len() ==> #[trigger] new[i].0 == old[i].0
    &&& forall|i: int| 0 <= i < old.len() && old[i].0 != v ==> #[trigger] new[i] == old[i]
}

/// `new` is `old` with one session of the fresh epoch `v` inserted in epoch order.
pub open spec fn inserted<E>(old: Seq<(u64, E)>, new: Seq<(u64, E)>, v: u64) -> bool {
    exists|i: int|
        0 <= i < new.len() && new[i].0 == v && #[trigger] new.remove(i) == old && sessions_wf(new)
}

/// The registry after `InitEpoch` for epoch `v`, from `old`: unchanged where `v` is known,
/// else `v` inserted and the size counter reset.
pub open spec fn init_result<E>(
    old: Seq<(u64, E)>,
    old_size: u64,
    new: Seq<(u64, E)>,
    new_size: u64,
    v: u64,
) -> bool {
    if has_epoch(old, v) {
        new == old && new_size == old_size
    } else {
        inserted(old, new, v) && new_size == 0
    }
}

/// The size counter after traffic of `size` bytes addressed to epoch `v`: only traffic to
/// the newest epoch counts.
pub open spec fn counted_size<E>(s: Seq<(u64, E)>, old_size: u64, v: u64, size: u64) -> u64 {
    if v == newest(s) {
        saturating_sum(old_size, size)
    } else {
        old_size
    }
}

/// One session per epoch, ordered by epoch, of which only the newest votes and is polled.
pub struct ParsecMap<E> {
    map: Vec<(u64, E)>,
    size_counter: ParsecSizeCounter,
    size_limit: u64,
}

/// `e` is the session that `create` builds for the node `id` from `gen_pfx_info`: founded from
/// the genesis members and state where `id` is a genesis member, else joined from the genesis
/// members and the latest members.
pub open spec fn built_from<E: ConsensusEngine>(e: E, id: PublicId, gen_pfx_info: GenesisPfxInfo) -> bool {
    if gen_pfx_info.first_info.members@.contains(id) {
        &&& e.founded_on_genesis()
        &&& e.genesis_members() == gen_pfx_info.first_info.members@
        &&& e.genesis_state() == gen_pfx_info.first_state_serialized@
    } else {
        &&& !e.founded_on_genesis()
        &&& e.genesis_members() == gen_pfx_info.first_info.members@
        &&& e.latest_members() == gen_pfx_info.latest_info.members@
    }
}

/// Creates the session of the epoch of `gen_pfx_info`: founded from the genesis state where
/// the node is a genesis member, else joined from the genesis and latest members.
pub fn create<E: ConsensusEngine>(full_id: FullId, gen_pfx_info: &GenesisPfxInfo, rng: E::Rng) -> (r: E)
    ensures
        built_from(r, full_id.public_id, *gen_pfx_info),
{
    if joins_as_genesis(&full_id, gen_pfx_info) {
        E::from_genesis(
            full_id,
            &gen_pfx_info.first_info.members,
            &gen_pfx_info.first_state_serialized,
            rng,
        )
    } else {
        E::from_existing(
            full_id,
            &gen_pfx_info.first_info.members,
            &gen_pfx_info.latest_info.members,
            rng,
        )
    }
}

/// Whether the session for `gen_pfx_info` is founded from the genesis state (the node is a
/// genesis member) rather than joined.
pub fn joins_as_genesis(full_id: &FullId, gen_pfx_info: &GenesisPfxInfo) -> (r: bool)
    ensures
        r == gen_pfx_info.first_info.members@.contains(full_id.public_id),
{
    contains_id(&gen_pfx_info.first_info.members, full_id.public_id())
}

/// The reply to a request handled by the session of epoch `version`: the engine's response
/// under the epoch tag, nothing where the engine refused the request.
pub fn response_message<Q, S, X>(version: u64, result: Result<S, X>) -> (r: Option<
    DirectMessage<Q, S>,
>)
    ensures
        match result {
            Ok(s) => r == Some(DirectMessage::<Q, S>::ParsecResponse(version, s)),
            Err(_) => r.is_none(),
        },
{
    match result {
        Ok(response) => Some(DirectMessage::ParsecResponse(version, response)),
        Err(_) => None,
    }
}

/// A gossip request for the session of epoch `version`, nothing where the engine refused.
pub fn request_message<Q, S, X>(version: u64, result: Result<Q, X>) -> (r: Option<
    DirectMessage<Q, S>,
>)
    ensures
        match result {
            Ok(q) => r == Some(DirectMessage::<Q, S>::ParsecRequest(version, q)),
            Err(_) => r.is_none(),
        },
{
    match result {
        Ok(request) => Some(DirectMessage::ParsecRequest(version, request)),
        Err(_) => None,
    }
}

impl<E: ConsensusEngine> ParsecMap<E> {
    /// The sessions, in increasing epoch order.
    pub closed spec fn sessions(&self) -> Seq<(u64, E)> {
        self.map@
    }

    /// The size counter's value.
    pub closed spec fn size(&self) -> u64 {
        self.size_counter.0
    }

    /// The traffic volume above which pruning is needed.
    pub closed spec fn size_limit(&self) -> u64 {
        self.size_limit
    }

    pub open spec fn wf(&self) -> bool {
        sessions_wf(self.sessions())
    }

    /// A registry holding the single session of the genesis epoch.
    pub fn new(full_id: FullId, gen_pfx_info: &GenesisPfxInfo, rng: E::Rng) -> (r: Self)
        ensures
            r.wf(),
            r.sessions().len() == 1,
            r.sessions()[0].0 == gen_pfx_info.first_info.version,
            built_from(r.sessions()[0].1, full_id.public_id, *gen_pfx_info),
            r.size() == 0,
            r.size_limit() == PARSEC_SIZE_LIMIT,
    {
        let mut map: Vec<(u64, E)> = Vec::new();
        map.push((gen_pfx_info.first_info.version(), create(full_id, gen_pfx_info, rng)));
        let size_counter = ParsecSizeCounter::new();
        ParsecMap { map, size_counter, size_limit: PARSEC_SIZE_LIMIT }
    }

    /// Index of the session of epoch `version`, if there is one.
    fn find(&self, version: u64) -> (r: Option<usize>)
        ensures
            match r {
                Some(i) => i < self.sessions().len() && self.sessions()[i as int].0 == version,
                None => !has_epoch(self.sessions(), version),
            },
    {
        let mut i: usize = 0;
        while i < self.map.len()
            invariant
                i <= self.map@.len(),
                forall|j: int| 0 <= j < i ==> self.map@[j].0 != version,
            decreases self.map@.len() - i,
        {
            if self.map[i].0 == version {
                return Some(i);
            }
            i += 1;
        }
        None
    }

    /// Installs the session of the epoch of `gen_pfx_info`, unless it is already there.
    pub fn init(&mut self, full_id: FullId, gen_pfx_info: &GenesisPfxInfo, rng: E::Rng)
        requires
            old(self).wf(),
        ensures
            final(self).wf(),
            final(self).size_limit() == old(self).size_limit(),
            !has_epoch(old(self).sessions(), gen_pfx_info.first_info.version) ==> forall|i: int|
                0 <= i < final(self).sessions().len() && final(self).sessions()[i].0
                    == gen_pfx_info.first_info.version ==> built_from(
                    (#[trigger] final(self).sessions()[i]).1,
                    full_id.public_id,
                    *gen_pfx_info,
                ),
            init_result(
                old(self).sessions(),
                old(self).size(),
                final(self).sessions(),
                final(self).size(),
                gen_pfx_info.first_info.version,
            ),
    {
        let version = gen_pfx_info.first_info.version();
        if self.find(version).is_some() {
            return;
        }
        let mut i: usize = 0;
        while i < self.map.len() && self.map[i].0 < version
            invariant
                i <= self.map@.len(),
                forall|j: int| 0 <= j < i ==> self.map@[j].0 < version,
            decreases self.map@.len() - i,
        {
            i += 1;
        }
        let ghost old_map = self.map@;
        let ghost id = full_id.public_id;
        let session = create(full_id, gen_pfx_info, rng);
        self.map.insert(i, (version, session));
        proof {
            assert(self.map@.remove(i as int) =~= old_map);
            assert forall|a: int, b: int| 0 <= a < b < self.map@.len() implies self.map@[a].0
                < self.map@[b].0 by {
                if i < old_map.len() {
                    assert(old_map[i as int].0 != version);
                }
            }
            assert(built_from(self.map@[i as int].1, id, *gen_pfx_info));
        }
        self.size_counter = ParsecSizeCounter::new();
    }

    /// Adds `size` to the counter where `version` is the newest epoch.
    fn count_size(&mut self, size: u64, version: u64)
        requires
            old(self).wf(),
        ensures
            final(self).sessions() == old(self).sessions(),
            final(self).size_limit() == old(self).size_limit(),
            final(self).size() == counted_size(old(self).sessions(), old(self).size(), version, size),
    {
        if self.last_version() == version {
            self.size_counter.increase_size(size);
        }
    }

    /// Hands `request` (`request_size` bytes once serialised) from `pub_id` to the session of
    /// epoch `version`. Returns the session's reply, and whether that epoch is the newest, so
    /// that the caller polls for agreed blocks.
    pub fn handle_request(
        &mut self,
        version: u64,
        request: E::Request,
        request_size: u64,
        pub_id: PublicId,
    ) -> (r: (Option<DirectMessage<E::Request, E::Response>>, bool))
        requires
            old(self).wf(),
        ensures
            final(self).wf(),
            final(self).size_limit() == old(self).size_limit(),
            touches_only(old(self).sessions(), final(self).sessions(), version),
            final(self).size() == counted_size(
                old(self).sessions(),
                old(self).size(),
                version,
                request_size,
            ),
            r.1 == (version == newest(old(self).sessions())),
            !has_epoch(old(self).sessions(), version) ==> r.0.is_none() && final(self).sessions()
                == old(self).sessions(),
            match r.0 {
                Some(m) => m is ParsecResponse && m->ParsecResponse_0 == version,
                None => true,
            },
    {
        self.count_size(request_size, version);
        let i = match self.find(version) {
            Some(i) => i,
            None => return (None, false),
        };
        let result = self.map[i].1.handle_request(&pub_id, request);
        let response = response_message(version, result);
        let poll = self.last_version() == version;
        (response, poll)
    }

    /// Hands `response` (`response_size` bytes once serialised) from `pub_id` to the session
    /// of epoch `version`. Returns whether that epoch is the newest.
    pub fn handle_response(
        &mut self,
        version: u64,
        response: E::Response,
        response_size: u64,
        pub_id: PublicId,
    ) -> (r: bool)
        requires
            old(self).wf(),
        ensures
            final(self).wf(),
            final(self).size_limit() == old(self).size_limit(),
            touches_only(old(self).sessions(), final(self).sessions(), version),
            final(self).size() == counted_size(
                old(self).sessions(),
                old(self).size(),
                version,
                response_size,
            ),
            r == (version == newest(old(self).sessions())),
            !has_epoch(old(self).sessions(), version) ==> final(self).sessions() == old(
                self,
            ).sessions(),
    {
        self.count_size(response_size, version);
        let i = match self.find(version) {
            Some(i) => i,
            None => return false,
        };
        let _ = self.map[i].1.handle_response(&pub_id, response);
        self.last_version() == version
    }

    /// A gossip request to `target` from the session of epoch `version`.
    pub fn create_gossip(&mut self, version: u64, target: &PublicId) -> (r: Option<
        DirectMessage<E::Request, E::Response>,
    >)
        requires
            old(self).wf(),
        ensures
            final(self).wf(),
            final(self).size_limit() == old(self).size_limit(),
            final(self).size() == old(self).size(),
            touches_only(old(self).sessions(), final(self).sessions(), version),
            !has_epoch(old(self).sessions(), version) ==> r.is_none() && final(self).sessions()
                == old(self).sessions(),
            match r {
                Some(m) => m is ParsecRequest && m->ParsecRequest_0 == version,
                None => true,
            },
    {
        let i = match self.find(version) {
            Some(i) => i,
            None => return None,
        };
        let result = self.map[i].1.create_gossip(target);
        request_message(version, result)
    }

    /// Votes for `event` in the newest session; an event that cannot be voted for is dropped.
    pub fn vote_for(&mut self, event: E::Event)
        requires
            old(self).wf(),
        ensures
            final(self).wf(),
            final(self).size_limit() == old(self).size_limit(),
            final(self).size() == old(self).size(),
            touches_only(old(self).sessions(), final(self).sessions(), newest(old(self).sessions())),
            E::observation_for(event) is None ==> final(self).sessions() == old(self).sessions(),
            E::observation_for(event) is Some ==> {
                ||| final(self).sessions().last().1.unpolled() == old(self).sessions().last().1.unpolled().push(
                    E::observation_for(event).unwrap(),
                )
                ||| final(self).sessions() == old(self).sessions()
            },
    {
        let last = self.map.len() - 1;
        match E::observation_of(event) {
            Some(observation) => {
                let ghost before = self.map@;
                let _ = self.map[last].1.vote_for(observation);
                proof {
                    if self.map@[last as int].1 == before[last as int].1 {
                        assert(self.map@ =~= before);
                    }
                }
            },
            None => {},
        }
    }

    /// The newest epoch.
    pub fn last_version(&self) -> (r: u64)
        requires
            self.wf(),
        ensures
            r == newest(self.sessions()),
    {
        self.map[self.map.len() - 1].0
    }

    /// The peers that the newest session gossips with.
    pub fn gossip_recipients(&self) -> (r: Vec<PublicId>)
        requires
            self.wf(),
        ensures
            r@ == self.sessions().last().1.recipients(),
    {
        self.map[self.map.len() - 1].1.gossip_recipients()
    }

    /// The next block agreed by the newest session.
    pub fn poll(&mut self) -> (r: Option<E::Block>)
        requires
            old(self).wf(),
        ensures
            final(self).wf(),
            final(self).size_limit() == old(self).size_limit(),
            final(self).size() == old(self).size(),
            touches_only(old(self).sessions(), final(self).sessions(), newest(old(self).sessions())),
            r == old(self).sessions().last().1.next_block(),
    {
        let last = self.map.len() - 1;
        self.map[last].1.poll()
    }

    /// This node's votes in the newest session that no agreed block holds yet.
    pub fn our_unpolled_observations(&self) -> (r: Vec<E::Observation>)
        requires
            self.wf(),
        ensures
            r@ == self.sessions().last().1.unpolled(),
    {
        self.map[self.map.len() - 1].1.our_unpolled_observations()
    }

    /// Whether the newest session holds votes of this node that no agreed block holds yet.
    pub fn has_unpolled_observations(&self) -> (r: bool)
        requires
            self.wf(),
        ensures
            r == (self.sessions().last().1.unpolled().len() > 0),
    {
        self.map[self.map.len() - 1].1.has_unpolled_observations()
    }

    /// Whether the traffic counted against the newest session exceeds the limit.
    pub fn needs_pruning(&self) -> (r: bool)
        ensures
            r == (self.size() > self.size_limit()),
    {
        self.size_counter.exceeds(self.size_limit)
    }

    /// Sets the traffic volume above which pruning is needed.
    pub fn set_size_limit(&mut self, limit: u64)
        ensures
            final(self).size_limit() == limit,
            final(self).sessions() == old(self).sessions(),
            final(self).size() == old(self).size(),
            final(self).wf() == old(self).wf(),
    {
        self.size_limit = limit;
    }
}

/// Installing an epoch a second time changes nothing: neither its session nor the size
/// counter.
pub proof fn lemma_init_idempotent<E>(
    s0: Seq<(u64, E)>,
    z0: u64,
    s1: Seq<(u64, E)>,
    z1: u64,
    s2: Seq<(u64, E)>,
    z2: u64,
    v: u64,
)
    requires
        sessions_wf(s0),
        init_result(s0, z0, s1, z1, v),
        init_result(s1, z1, s2, z2, v),
    ensures
        s2 == s1,
        z2 == z1,
{
    if !has_epoch(s0, v) {
        let i = choose|i: int|
            0 <= i < s1.len() && s1[i].0 == v && #[trigger] s1.remove(i) == s0 && sessions_wf(s1);
        assert(has_epoch(s1, v));
    }
}

/// Traffic addressed to an epoch other than the newest leaves the size counter as it was.
pub proof fn lemma_stale_traffic_not_counted<E>(s: Seq<(u64, E)>, size_before: u64, v: u64, size: u64)
    requires
        v != newest(s),
    ensures
        counted_size(s, size_before, v, size) == size_before,
{
}

/// Traffic handled by an older session leaves the newest session, which alone is polled
/// and votes, exactly as it was: the next poll returns the same block.
pub proof fn lemma_stale_traffic_keeps_newest<E: ConsensusEngine>(
    old: Seq<(u64, E)>,
    new: Seq<(u64, E)>,
    v: u64,
)
    requires
        sessions_wf(old),
        touches_only(old, new, v),
        v != newest(old),
    ensures
        new.last() == old.last(),
        newest(new) == newest(old),
        new.last().1.next_block() == old.last().1.next_block(),
{
    assert(new[old.len() - 1] == old[old.len() - 1]);
}

/// Voting and polling, which go to the newest session, leave every older session as it
/// was.
pub proof fn lemma_newest_only<E>(old: Seq<(u64, E)>, new: Seq<(u64, E)>)
    requires
        sessions_wf(old),
        touches_only(old, new, newest(old)),
    ensures
        sessions_wf(new),
        newest(new) == newest(old),
        forall|i: int| 0 <= i < old.len() - 1 ==> new[i] == old[i],
{
    assert forall|i: int| 0 <= i < old.len() - 1 implies new[i] == old[i] by {
        assert(old[i].0 < old[old.len() - 1].0);
    }
    assert forall|i: int, j: int| 0 <= i < j < new.len() implies new[i].0 < new[j].0 by {
        assert(new[i].0 == old[i].0 && new[j].0 == old[j].0);
    }
    assert(new[new.len() - 1].0 == old[old.len() - 1].0);
}

} // verus!
