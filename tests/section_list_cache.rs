use routing::id::PublicId;
use routing::prefix::{Prefix, SectionList, Signature, UnversionedPrefix};
use routing::section_list_cache::SectionListCache;

fn author(n: u64) -> PublicId {
    PublicId { name: n, sign_key: 100 + n }
}

fn prefix(bits: &[bool]) -> Prefix {
    Prefix { bits: bits.to_vec(), version: 1 }
}

fn list(names: &[u64]) -> SectionList {
    SectionList { members: names.iter().map(|n| author(*n)).collect() }
}

fn sig(b: u8) -> Signature {
    Signature { bytes: [b; 64] }
}

fn signers(cache: &SectionListCache, p: &Prefix) -> Vec<u64> {
    let mut names: Vec<u64> = cache
        .get_signatures(p)
        .map(|q| q.signatures.iter().map(|(a, _)| a.name).collect())
        .unwrap_or_default();
    names.sort();
    names
}

#[test]
fn quorum_of_three_in_section_of_four() {
    let mut cache = SectionListCache::new();
    let p = prefix(&[true]);
    cache.add_signature(prefix(&[true]), author(1), list(&[1, 2, 3, 4]), sig(1), 4);
    assert!(cache.get_signatures(&p).is_none());
    cache.add_signature(prefix(&[true]), author(2), list(&[1, 2, 3, 4]), sig(2), 4);
    assert!(cache.get_signatures(&p).is_none());
    cache.add_signature(prefix(&[true]), author(3), list(&[1, 2, 3, 4]), sig(3), 4);
    let q = cache.get_signatures(&p).unwrap();
    assert_eq!(q.list.members, list(&[1, 2, 3, 4]).members);
    assert_eq!(q.signatures.len(), 3);
    assert_eq!(signers(&cache, &p), vec![1, 2, 3]);
}

#[test]
fn quorum_keeps_growing_with_more_signatures() {
    let mut cache = SectionListCache::new();
    let p = prefix(&[false, true]);
    for a in 1..=5u64 {
        cache.add_signature(prefix(&[false, true]), author(a), list(&[7, 8]), sig(a as u8), 5);
        if a < 4 {
            assert!(cache.get_signatures(&p).is_none());
        } else {
            assert_eq!(signers(&cache, &p), (1..=a).collect::<Vec<u64>>());
        }
    }
}

#[test]
fn second_signature_replaces_first() {
    let mut cache = SectionListCache::new();
    let p = prefix(&[true, false]);
    let l1 = list(&[1, 2]);
    let l2 = list(&[1, 3]);
    cache.add_signature(prefix(&[true, false]), author(1), list(&[1, 2]), sig(9), 4);
    assert_eq!(cache.get_signature_for(&p, &author(1), &l1).map(|s| s.bytes[0]), Some(9));
    cache.add_signature(prefix(&[true, false]), author(1), list(&[1, 3]), sig(8), 4);
    assert!(cache.get_signature_for(&p, &author(1), &l1).is_none());
    assert_eq!(cache.get_signature_for(&p, &author(1), &l2).map(|s| s.bytes[0]), Some(8));
}

#[test]
fn signature_under_compatible_prefix_is_revoked() {
    let mut cache = SectionListCache::new();
    let l = list(&[4, 5]);
    cache.add_signature(prefix(&[true]), author(1), list(&[4, 5]), sig(1), 4);
    cache.add_signature(prefix(&[false]), author(1), list(&[4, 5]), sig(2), 4);
    // [false] and [true] do not overlap: both stay.
    assert!(cache.get_signature_for(&prefix(&[true]), &author(1), &l).is_some());
    assert!(cache.get_signature_for(&prefix(&[false]), &author(1), &l).is_some());
    // [true, true] lies inside [true]: that signature goes.
    cache.add_signature(prefix(&[true, true]), author(1), list(&[4, 5]), sig(3), 4);
    assert!(cache.get_signature_for(&prefix(&[true]), &author(1), &l).is_none());
    assert!(cache.get_signature_for(&prefix(&[false]), &author(1), &l).is_some());
    assert!(cache.get_signature_for(&prefix(&[true, true]), &author(1), &l).is_some());
}

#[test]
fn lost_quorum_keeps_stale_entry_until_no_signatures() {
    let mut cache = SectionListCache::new();
    let p = prefix(&[]);
    for a in 1..=3u64 {
        cache.add_signature(prefix(&[]), author(a), list(&[1]), sig(a as u8), 4);
    }
    assert_eq!(signers(&cache, &p), vec![1, 2, 3]);
    cache.remove_signatures(1, 4);
    // Two signatures are below quorum, but the trusted list stays.
    assert_eq!(signers(&cache, &p), vec![1, 2, 3]);
    cache.remove_signatures(2, 4);
    cache.remove_signatures(3, 4);
    assert!(cache.get_signatures(&p).is_none());
    assert!(cache.get_signature_for(&p, &author(3), &list(&[1])).is_none());
}

#[test]
fn remove_signatures_of_unknown_name_changes_nothing() {
    let mut cache = SectionListCache::new();
    let p = prefix(&[true]);
    cache.add_signature(prefix(&[true]), author(1), list(&[1]), sig(1), 1);
    assert_eq!(signers(&cache, &p), vec![1]);
    cache.remove_signatures(77, 1);
    assert_eq!(signers(&cache, &p), vec![1]);
    assert!(cache.get_signature_for(&p, &author(1), &list(&[1])).is_some());
}

#[test]
fn most_signed_list_wins() {
    let mut cache = SectionListCache::new();
    let p = prefix(&[false]);
    cache.add_signature(prefix(&[false]), author(1), list(&[1, 2]), sig(1), 2);
    cache.add_signature(prefix(&[false]), author(2), list(&[1, 3]), sig(2), 2);
    cache.add_signature(prefix(&[false]), author(3), list(&[1, 3]), sig(3), 2);
    let q = cache.get_signatures(&p).unwrap();
    assert_eq!(q.list.members, list(&[1, 3]).members);
    assert_eq!(signers(&cache, &p), vec![2, 3]);
}

#[test]
fn prefix_compatibility() {
    let a = UnversionedPrefix { bits: vec![true, false] };
    let b = UnversionedPrefix { bits: vec![true] };
    let c = UnversionedPrefix { bits: vec![false] };
    assert!(a.is_compatible(&b));
    assert!(b.is_compatible(&a));
    assert!(!a.is_compatible(&c));
    assert!(a.same_as(&prefix(&[true, false]).unversioned()));
    assert!(!a.same_as(&b));
}

#[test]
fn quorum_fraction_is_configurable() {
    // A simple majority: more than 1/2 of a section of 4.
    let mut cache = SectionListCache::with_quorum(1, 2);
    let p = prefix(&[true]);
    cache.add_signature(prefix(&[true]), author(1), list(&[1]), sig(1), 4);
    cache.add_signature(prefix(&[true]), author(2), list(&[1]), sig(2), 4);
    assert!(cache.get_signatures(&p).is_none());
    cache.add_signature(prefix(&[true]), author(3), list(&[1]), sig(3), 4);
    assert_eq!(signers(&cache, &p), vec![1, 2, 3]);
}
