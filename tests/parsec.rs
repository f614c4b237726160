use routing::id::{FullId, PublicId};
use routing::mock::MockParsec;
use routing::parsec::{
    create, joins_as_genesis, request_message, response_message, DirectMessage,
    GenesisPfxInfo, ParsecMap, ParsecSizeCounter, SectionInfo, PARSEC_SIZE_LIMIT,
};

const DEFAULT_MIN_SECTION_SIZE: u64 = 4;
const MSG_SIZE: u64 = 7;

fn create_full_ids() -> Vec<FullId> {
    (0..DEFAULT_MIN_SECTION_SIZE)
        .map(|i| FullId {
            public_id: PublicId { name: i * 11, sign_key: i * 13 + 1 },
            secret_key: vec![i as u8; 4],
        })
        .collect()
}

fn create_gen_pfx_info(full_ids: &[FullId], version: u64) -> GenesisPfxInfo {
    let members: Vec<PublicId> = full_ids.iter().map(|id| *id.public_id()).collect();
    GenesisPfxInfo {
        first_info: SectionInfo { members, version },
        first_state_serialized: Vec::new(),
        latest_info: SectionInfo { members: Vec::new(), version: 0 },
    }
}

fn create_parsec_map(size: u64) -> ParsecMap<MockParsec> {
    let full_ids = create_full_ids();
    let full_id = full_ids[0].clone();
    let gen_pfx_info = create_gen_pfx_info(&full_ids, 0);
    let mut parsec_map = ParsecMap::new(full_id.clone(), &gen_pfx_info, 0);
    for parsec_no in 1..=size {
        let gen_pfx_info = create_gen_pfx_info(&full_ids, parsec_no);
        parsec_map.init(full_id.clone(), &gen_pfx_info, parsec_no);
    }
    parsec_map
}

fn add_to_parsec_map(parsec_map: &mut ParsecMap<MockParsec>, version: u64) {
    let full_ids = create_full_ids();
    let full_id = full_ids[0].clone();
    let gen_pfx_info = create_gen_pfx_info(&full_ids, version);
    parsec_map.init(full_id, &gen_pfx_info, version);
}

fn sender() -> PublicId {
    PublicId { name: 999, sign_key: 1000 }
}

fn handle(parsec_map: &mut ParsecMap<MockParsec>, version: u64, request: bool) {
    if request {
        let _ = parsec_map.handle_request(version, 5, MSG_SIZE, sender());
    } else {
        let _ = parsec_map.handle_response(version, 5, MSG_SIZE, sender());
    }
}

fn check_prune_needed_after_msg(request: bool, parsec_age: u64, prune_needed: bool) {
    let number_of_parsecs = 2;
    let mut parsec_map = create_parsec_map(number_of_parsecs);
    let msg_version = number_of_parsecs - parsec_age;

    for _ in 0..PARSEC_SIZE_LIMIT / MSG_SIZE {
        handle(&mut parsec_map, msg_version, request);
    }
    assert_eq!(parsec_map.needs_pruning(), false);

    handle(&mut parsec_map, msg_version, request);
    assert_eq!(parsec_map.needs_pruning(), prune_needed);

    add_to_parsec_map(&mut parsec_map, number_of_parsecs + 1);
    assert_eq!(parsec_map.needs_pruning(), false);
}

#[test]
fn parsec_size_counter() {
    let mut counter = ParsecSizeCounter::default();
    assert!(!counter.needs_pruning());
    counter.increase_size(PARSEC_SIZE_LIMIT);
    assert!(!counter.needs_pruning());
    counter.increase_size(1);
    assert!(counter.needs_pruning());
}

#[test]
fn prune_not_required_for_resp_to_old_parsec() {
    check_prune_needed_after_msg(false, 1, false);
}

#[test]
fn prune_required_for_resp_to_latest_parsec() {
    check_prune_needed_after_msg(false, 0, true);
}

#[test]
fn prune_not_required_for_req_to_old_parsec() {
    check_prune_needed_after_msg(true, 1, false);
}

#[test]
fn prune_required_for_req_to_latest_parsec() {
    check_prune_needed_after_msg(true, 0, true);
}

#[test]
fn size_counter_saturates() {
    let mut counter = ParsecSizeCounter(u64::MAX - 1);
    counter.increase_size(5);
    assert_eq!(counter.0, u64::MAX);
    assert!(counter.needs_pruning());
}

#[test]
fn new_map_holds_genesis_epoch() {
    let full_ids = create_full_ids();
    let map: ParsecMap<MockParsec> = ParsecMap::new(full_ids[0].clone(), &create_gen_pfx_info(&full_ids, 7), 0);
    assert_eq!(map.last_version(), 7);
    assert!(!map.needs_pruning());
    assert_eq!(map.gossip_recipients().len(), 4);
}

#[test]
fn init_is_idempotent() {
    let mut map = create_parsec_map(1);
    map.vote_for(42);
    for _ in 0..20 {
        handle(&mut map, 1, true);
    }
    assert!(map.needs_pruning());
    add_to_parsec_map(&mut map, 1);
    // Neither the session nor the counter was reset.
    assert!(map.needs_pruning());
    assert!(map.has_unpolled_observations());
    assert_eq!(map.our_unpolled_observations(), vec![42]);
    assert_eq!(map.last_version(), 1);
}

#[test]
fn init_out_of_order_keeps_newest() {
    let mut map = create_parsec_map(0);
    add_to_parsec_map(&mut map, 5);
    add_to_parsec_map(&mut map, 3);
    assert_eq!(map.last_version(), 5);
    let (_, poll) = map.handle_request(3, 1, MSG_SIZE, sender());
    assert!(!poll);
    let (_, poll) = map.handle_request(5, 1, MSG_SIZE, sender());
    assert!(poll);
}

#[test]
fn stale_traffic_is_not_counted() {
    let mut map = create_parsec_map(2);
    for _ in 0..100 {
        handle(&mut map, 0, true);
        handle(&mut map, 1, false);
    }
    assert!(!map.needs_pruning());
}

#[test]
fn only_newest_session_votes_and_polls() {
    let mut map = create_parsec_map(2);
    map.vote_for(9);
    map.vote_for(u64::MAX);
    assert_eq!(map.our_unpolled_observations(), vec![9]);
    for _ in 0..3 {
        let (_, poll) = map.handle_request(0, 1, MSG_SIZE, sender());
        assert!(!poll);
    }
    // Requests to epoch 0 did not reach the session that is polled.
    assert_eq!(map.poll(), Some((9, 0)));
    assert_eq!(map.poll(), None);
    assert!(!map.has_unpolled_observations());
}

#[test]
fn handle_request_reports_polling_by_epoch() {
    let mut map = create_parsec_map(0);
    add_to_parsec_map(&mut map, 1);
    let (response, poll) = map.handle_request(0, 3, MSG_SIZE, sender());
    assert!(!poll);
    assert!(matches!(response, Some(DirectMessage::ParsecResponse(0, 3))));
    let (response, poll) = map.handle_request(1, 3, MSG_SIZE, sender());
    assert!(poll);
    assert!(matches!(response, Some(DirectMessage::ParsecResponse(1, 3))));
}

#[test]
fn handle_request_unknown_epoch_or_error() {
    let mut map = create_parsec_map(1);
    let (response, poll) = map.handle_request(9, 3, MSG_SIZE, sender());
    assert!(response.is_none());
    assert!(!poll);
    let (response, poll) = map.handle_request(1, 0, MSG_SIZE, sender());
    assert!(response.is_none());
    assert!(poll);
}

#[test]
fn handle_response_reports_polling_by_epoch() {
    let mut map = create_parsec_map(1);
    assert!(!map.handle_response(0, 1, MSG_SIZE, sender()));
    assert!(map.handle_response(1, 1, MSG_SIZE, sender()));
    assert!(map.handle_response(1, 0, MSG_SIZE, sender()));
    assert!(!map.handle_response(4, 1, MSG_SIZE, sender()));
}

#[test]
fn create_gossip_tags_epoch() {
    let mut map = create_parsec_map(1);
    assert!(matches!(
        map.create_gossip(0, &sender()),
        Some(DirectMessage::ParsecRequest(0, 1))
    ));
    assert!(map.create_gossip(3, &sender()).is_none());
}

#[test]
fn session_kind_follows_genesis_membership() {
    let full_ids = create_full_ids();
    let info = create_gen_pfx_info(&full_ids, 0);
    assert!(joins_as_genesis(&full_ids[2], &info));
    let outsider = FullId { public_id: PublicId { name: 5, sign_key: 5 }, secret_key: vec![] };
    assert!(!joins_as_genesis(&outsider, &info));
    let mut info = create_gen_pfx_info(&full_ids[1..], 0);
    info.latest_info = SectionInfo { members: vec![outsider.public_id], version: 3 };
    let map: ParsecMap<MockParsec> = ParsecMap::new(full_ids[0].clone(), &info, 0);
    // A joining session catches up from the latest members.
    assert_eq!(map.gossip_recipients(), vec![outsider.public_id]);
}

#[test]
fn message_wrappers() {
    let r: Option<DirectMessage<u32, u32>> = response_message(4, Ok::<_, ()>(2));
    assert!(matches!(r, Some(DirectMessage::ParsecResponse(4, 2))));
    let r: Option<DirectMessage<u32, u32>> = response_message(4, Err::<u32, _>(()));
    assert!(r.is_none());
    let r: Option<DirectMessage<u32, u32>> = request_message(6, Ok::<_, ()>(1));
    assert!(matches!(r, Some(DirectMessage::ParsecRequest(6, 1))));
    let r: Option<DirectMessage<u32, u32>> = request_message(6, Err::<u32, _>(()));
    assert!(r.is_none());
}

#[test]
fn create_picks_genesis_or_joining_session() {
    let full_ids = create_full_ids();
    let info = create_gen_pfx_info(&full_ids, 0);
    let session: MockParsec = create(full_ids[1].clone(), &info, 17);
    assert!(session.from_genesis);
    assert_eq!(session.members.len(), 4);
    assert_eq!(session.genesis, info.first_info.members);
    assert_eq!(session.state, info.first_state_serialized);
    assert_eq!(session.seed, 17);

    let outsider = FullId { public_id: PublicId { name: 5, sign_key: 5 }, secret_key: vec![] };
    let mut info = create_gen_pfx_info(&full_ids, 0);
    info.latest_info = SectionInfo { members: vec![outsider.public_id, full_ids[0].public_id], version: 2 };
    let session: MockParsec = create(outsider, &info, 18);
    assert!(!session.from_genesis);
    assert_eq!(session.genesis, info.first_info.members);
    assert_eq!(session.latest, info.latest_info.members);
    assert_eq!(session.members, vec![PublicId { name: 5, sign_key: 5 }, full_ids[0].public_id]);
    assert_eq!(session.seed, 18);
}

#[test]
fn unconvertible_vote_is_dropped() {
    let mut map = create_parsec_map(1);
    map.vote_for(u64::MAX);
    assert!(!map.has_unpolled_observations());
    assert_eq!(map.poll(), None);
    map.vote_for(3);
    assert_eq!(map.our_unpolled_observations(), vec![3]);
}

#[test]
fn size_limit_is_configurable() {
    let mut map = create_parsec_map(0);
    map.set_size_limit(10);
    handle(&mut map, 0, true);
    assert!(!map.needs_pruning());
    handle(&mut map, 0, true);
    assert!(map.needs_pruning());
    let counter = ParsecSizeCounter(11);
    assert!(counter.exceeds(10));
    assert!(!counter.exceeds(11));
}
