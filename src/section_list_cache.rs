use vstd::prelude::*;
use crate::id::PublicId;
use crate::prefix::{compatible, Prefix, SectionList, Signature, UnversionedPrefix};

verus! {

/// The default fraction of the section whose signatures a list needs to be trusted.
pub const QUORUM_NUMERATOR: usize = 2;

pub const QUORUM_DENOMINATOR: usize = 3;

/// One signature: `author` vouches for `list` as the members of the section at `prefix`.
pub struct SignedEntry {
    pub prefix: UnversionedPrefix,
    pub author: PublicId,
    pub list: SectionList,
    pub sig: Signature,
}

/// A signature as plain values: prefix bits, author, list members, signature.
pub type SigRecord = (Seq<bool>, PublicId, Seq<PublicId>, Signature);

impl View for SignedEntry {
    type V = SigRecord;

    open spec fn view(&self) -> SigRecord {
        (self.prefix.bits@, self.author, self.list.members@, self.sig)
    }
}

impl SignedEntry {
    fn copy(&self) -> (r: SignedEntry)
        ensures
            r@ == self@,
    {
        SignedEntry {
            prefix: self.prefix.copy(),
            author: self.author,
            list: self.list.copy(),
            sig: self.sig,
        }
    }
}

/// The list trusted for `prefix`, with the signatures that made it so.
pub struct QuorumList {
    pub prefix: UnversionedPrefix,
    pub list: SectionList,
    pub signatures: Vec<(PublicId, Signature)>,
}

pub type QuorumView = (Seq<bool>, Seq<PublicId>, Seq<(PublicId, Signature)>);

impl View for QuorumList {
    type V = QuorumView;

    open spec fn view(&self) -> QuorumView {
        (self.prefix.bits@, self.list.members@, self.signatures@)
    }
}

/// No author holds two signatures under compatible prefixes.
pub open spec fn records_wf(r: Seq<SigRecord>) -> bool {
    forall|i: int, j: int|
        0 <= i < r.len() && 0 <= j < r.len() && i != j && #[trigger] r[i].1 == #[trigger] r[j].1
            ==> !compatible(r[i].0, r[j].0)
}

/// How many signatures `r` holds for list `l` under prefix `p`.
pub open spec fn count(r: Seq<SigRecord>, p: Seq<bool>, l: Seq<PublicId>) -> nat
    decreases r.len(),
{
    if r.len() == 0 {
        0
    } else {
        count(r.drop_last(), p, l) + if r.last().0 == p && r.last().2 == l {
            1nat
        } else {
            0nat
        }
    }
}

/// Whether `r` holds signature `x` (author and signature) for list `l` under prefix `p`.
pub open spec fn signed(r: Seq<SigRecord>, p: Seq<bool>, l: Seq<PublicId>, x: (PublicId, Signature)) -> bool {
    exists|i: int| 0 <= i < r.len() && r[i] == (p, x.0, l, x.1)
}

/// Whether `r` holds any signature under prefix `p`.
pub open spec fn has_prefix(r: Seq<SigRecord>, p: Seq<bool>) -> bool {
    exists|i: int| 0 <= i < r.len() && r[i].0 == p
}

/// `l` is signed under `p`, and no list under `p` has more signatures.
pub open spec fn is_best(r: Seq<SigRecord>, p: Seq<bool>, l: Seq<PublicId>) -> bool {
    &&& exists|i: int| 0 <= i < r.len() && r[i].0 == p && r[i].2 == l
    &&& forall|l2: Seq<PublicId>| count(r, p, l2) <= count(r, p, l)
}

/// A quorum rule: section size, numerator and denominator of the fraction of the section
/// that must be exceeded.
pub type Quorum = (usize, usize, usize);

/// `c` signatures are more than the rule's fraction of the section:
/// `c * denominator > rule * numerator`.
pub open spec fn reaches_quorum(c: nat, t: Quorum) -> bool {
    c * t.2 > t.0 * t.1
}

/// Some list under `p` with the most signatures reaches quorum.
pub open spec fn quorum_reached(r: Seq<SigRecord>, p: Seq<bool>, rule: Quorum) -> bool {
    exists|l: Seq<PublicId>| is_best(r, p, l) && reaches_quorum(count(r, p, l), rule)
}

/// The cached list and signatures for `p`, if any.
pub open spec fn quorum_for(q: Seq<QuorumView>, p: Seq<bool>) -> Option<
    (Seq<PublicId>, Seq<(PublicId, Signature)>),
> {
    if exists|i: int| 0 <= i < q.len() && q[i].0 == p {
        let i = choose|i: int| 0 <= i < q.len() && q[i].0 == p;
        Some((q[i].1, q[i].2))
    } else {
        None
    }
}

/// Each prefix has at most one cached list.
pub open spec fn quorum_wf(q: Seq<QuorumView>) -> bool {
    forall|i: int, j: int| 0 <= i < j < q.len() ==> q[i].0 != q[j].0
}

/// `sigs` holds exactly the signatures that `r` holds for `l` under `p`.
pub open spec fn holds_signatures(
    sigs: Seq<(PublicId, Signature)>,
    r: Seq<SigRecord>,
    p: Seq<bool>,
    l: Seq<PublicId>,
) -> bool {
    forall|x: (PublicId, Signature)| sigs.contains(x) <==> signed(r, p, l, x)
}

/// `e` is a list of most signatures under `p`, reaching quorum, with all its signatures.
pub open spec fn quorum_entry(
    e: Option<(Seq<PublicId>, Seq<(PublicId, Signature)>)>,
    r: Seq<SigRecord>,
    p: Seq<bool>,
    rule: Quorum,
) -> bool {
    &&& e is Some
    &&& is_best(r, p, e.unwrap().0)
    &&& reaches_quorum(count(r, p, e.unwrap().0), rule)
    &&& holds_signatures(e.unwrap().1, r, p, e.unwrap().0)
}

/// The cache `new` after recomputing quorum over `r` from `old`: each prefix whose best
/// list reaches quorum caches it; every other prefix keeps what it had.
pub open spec fn refreshed(
    old: Seq<QuorumView>,
    r: Seq<SigRecord>,
    new: Seq<QuorumView>,
    rule: Quorum,
) -> bool {
    forall|p: Seq<bool>|
        if quorum_reached(r, p, rule) {
            quorum_entry(#[trigger] quorum_for(new, p), r, p, rule)
        } else {
            quorum_for(new, p) == quorum_for(old, p)
        }
}

/// The cache `new` after dropping from `old` each prefix that `r` holds no signature for.
pub open spec fn pruned(old: Seq<QuorumView>, r: Seq<SigRecord>, new: Seq<QuorumView>) -> bool {
    forall|p: Seq<bool>|
        #[trigger] quorum_for(new, p) == if has_prefix(r, p) {
            quorum_for(old, p)
        } else {
            None
        }
}

/// `x` survives when `author` withdraws its signatures under `scope`: under the prefixes
/// compatible with `Some(p)`, or under all prefixes for `None`.
pub open spec fn kept(x: SigRecord, author: PublicId, scope: Option<Seq<bool>>) -> bool {
    !(x.1 == author && match scope {
        Some(p) => compatible(x.0, p),
        None => true,
    })
}

/// `r` without the signatures of `author` under `scope`.
pub open spec fn revoked(r: Seq<SigRecord>, author: PublicId, scope: Option<Seq<bool>>) -> Seq<SigRecord> {
    r.filter(|x: SigRecord| kept(x, author, scope))
}

/// `r` after `author` signs `l` with `sig` under `p`, in place of its signatures under
/// prefixes compatible with `p`.
pub open spec fn added(r: Seq<SigRecord>, p: Seq<bool>, author: PublicId, l: Seq<PublicId>, sig: Signature) -> Seq<SigRecord> {
    revoked(r, author, Some(p)).push((p, author, l, sig))
}

/// The signature that `r` holds of `author` for `l` under `p`, if any.
pub open spec fn signature_for(r: Seq<SigRecord>, p: Seq<bool>, author: PublicId, l: Seq<PublicId>) -> Option<Signature> {
    if exists|i: int| 0 <= i < r.len() && r[i].0 == p && r[i].1 == author && r[i].2 == l {
        let i = choose|i: int| 0 <= i < r.len() && r[i].0 == p && r[i].1 == author && r[i].2 == l;
        Some(r[i].3)
    } else {
        None
    }
}


/// The author of the earliest signature held whose author's name is `name`, if any.
pub open spec fn named_author(r: Seq<SigRecord>, name: u64) -> Option<PublicId> {
    if exists|i: int| 0 <= i < r.len() && r[i].1.name == name {
        let i = choose|i: int|
            0 <= i < r.len() && r[i].1.name == name && forall|j: int|
                0 <= j < i ==> r[j].1.name != name;
        Some(r[i].1)
    } else {
        None
    }
}

proof fn lemma_count_zero(r: Seq<SigRecord>, p: Seq<bool>, l: Seq<PublicId>)
    requires
        forall|i: int| 0 <= i < r.len() ==> !(r[i].0 == p && r[i].2 == l),
    ensures
        count(r, p, l) == 0,
    decreases r.len(),
{
    if r.len() > 0 {
        assert forall|i: int| 0 <= i < r.drop_last().len() implies !(r.drop_last()[i].0 == p
            && r.drop_last()[i].2 == l) by {
            assert(r.drop_last()[i] == r[i]);
        }
        lemma_count_zero(r.drop_last(), p, l);
    }
}

proof fn lemma_compatible_symmetric(a: Seq<bool>, b: Seq<bool>)
    ensures
        compatible(a, b) == compatible(b, a),
{
}

proof fn lemma_quorum_at(q: Seq<QuorumView>, i: int)
    requires
        quorum_wf(q),
        0 <= i < q.len(),
    ensures
        quorum_for(q, q[i].0) == Some((q[i].1, q[i].2)),
{
    let j = choose|j: int| 0 <= j < q.len() && q[j].0 == q[i].0;
    assert(j == i);
}

proof fn lemma_quorum_absent(q: Seq<QuorumView>, p: Seq<bool>)
    requires
        forall|i: int| 0 <= i < q.len() ==> q[i].0 != p,
    ensures
        quorum_for(q, p) is None,
{
}

proof fn lemma_quorum_found(q: Seq<QuorumView>, p: Seq<bool>) -> (i: int)
    requires
        quorum_wf(q),
        quorum_for(q, p) is Some,
    ensures
        0 <= i < q.len(),
        q[i].0 == p,
        quorum_for(q, p) == Some((q[i].1, q[i].2)),
{
    let i = choose|i: int| 0 <= i < q.len() && q[i].0 == p;
    lemma_quorum_at(q, i);
    i
}

proof fn lemma_quorum_remove(q: Seq<QuorumView>, i: int, p: Seq<bool>)
    requires
        quorum_wf(q),
        0 <= i < q.len(),
    ensures
        quorum_wf(q.remove(i)),
        quorum_for(q.remove(i), p) == if p == q[i].0 {
            None
        } else {
            quorum_for(q, p)
        },
{
    let q2 = q.remove(i);
    assert forall|a: int, b: int| 0 <= a < b < q2.len() implies q2[a].0 != q2[b].0 by {
        let a0 = if a < i { a } else { a + 1 };
        let b0 = if b < i { b } else { b + 1 };
        assert(q2[a] == q[a0] && q2[b] == q[b0]);
    }
    if p == q[i].0 {
        assert forall|j: int| 0 <= j < q2.len() implies q2[j].0 != p by {
            let j0 = if j < i { j } else { j + 1 };
            assert(q2[j] == q[j0]);
        }
        lemma_quorum_absent(q2, p);
    } else if quorum_for(q, p) is Some {
        let k = lemma_quorum_found(q, p);
        let k2 = if k < i { k } else { k - 1 };
        assert(q2[k2] == q[k]);
        lemma_quorum_at(q2, k2);
    } else {
        assert forall|j: int| 0 <= j < q2.len() implies q2[j].0 != p by {
            let j0 = if j < i { j } else { j + 1 };
            assert(q2[j] == q[j0]);
            if q[j0].0 == p {
                lemma_quorum_at(q, j0);
            }
        }
        lemma_quorum_absent(q2, p);
    }
}

proof fn lemma_quorum_update(q: Seq<QuorumView>, i: int, e: QuorumView, p: Seq<bool>)
    requires
        quorum_wf(q),
        0 <= i < q.len(),
        e.0 == q[i].0,
    ensures
        quorum_wf(q.update(i, e)),
        quorum_for(q.update(i, e), p) == if p == e.0 {
            Some((e.1, e.2))
        } else {
            quorum_for(q, p)
        },
{
    let q2 = q.update(i, e);
    assert(quorum_wf(q2));
    if p == e.0 {
        lemma_quorum_at(q2, i);
    } else if quorum_for(q, p) is Some {
        let k = lemma_quorum_found(q, p);
        lemma_quorum_at(q2, k);
    } else {
        assert forall|j: int| 0 <= j < q2.len() implies q2[j].0 != p by {
            if q[j].0 == p {
                lemma_quorum_at(q, j);
            }
        }
        lemma_quorum_absent(q2, p);
    }
}

proof fn lemma_quorum_push(q: Seq<QuorumView>, e: QuorumView, p: Seq<bool>)
    requires
        quorum_wf(q),
        quorum_for(q, e.0) is None,
    ensures
        quorum_wf(q.push(e)),
        quorum_for(q.push(e), p) == if p == e.0 {
            Some((e.1, e.2))
        } else {
            quorum_for(q, p)
        },
{
    let q2 = q.push(e);
    assert forall|a: int, b: int| 0 <= a < b < q2.len() implies q2[a].0 != q2[b].0 by {
        if b == q.len() && q[a].0 == e.0 {
            lemma_quorum_at(q, a);
        }
    }
    if p == e.0 {
        lemma_quorum_at(q2, q.len() as int);
    } else if quorum_for(q, p) is Some {
        let k = lemma_quorum_found(q, p);
        assert(q2[k] == q[k]);
        lemma_quorum_at(q2, k);
    } else {
        assert forall|j: int| 0 <= j < q2.len() implies q2[j].0 != p by {
            if j < q.len() && q[j].0 == p {
                lemma_quorum_at(q, j);
            }
        }
        lemma_quorum_absent(q2, p);
    }
}

/// Dropping signatures keeps one signature per author and overlapping prefixes.
proof fn lemma_filter_records_wf(r: Seq<SigRecord>, f: spec_fn(SigRecord) -> bool)
    requires
        records_wf(r),
    ensures
        records_wf(r.filter(f)),
        forall|x: SigRecord| #[trigger] r.filter(f).contains(x) ==> r.contains(x) && f(x),
    decreases r.len(),
{
    reveal(Seq::filter);
    if r.len() > 0 {
        let d = r.drop_last();
        assert(records_wf(d)) by {
            assert forall|i: int, j: int|
                0 <= i < d.len() && 0 <= j < d.len() && i != j && #[trigger] d[i].1 == #[trigger] d[j].1
                implies !compatible(d[i].0, d[j].0) by {
                assert(d[i] == r[i] && d[j] == r[j]);
            }
        }
        lemma_filter_records_wf(d, f);
        let fd = d.filter(f);
        assert forall|x: SigRecord| #[trigger] r.filter(f).contains(x) implies r.contains(x) && f(x) by {
            if fd.contains(x) {
                let k = choose|k: int| 0 <= k < d.len() && d[k] == x;
                assert(r[k] == x);
            } else {
                assert(x == r.last());
                assert(r[r.len() - 1] == x);
            }
        }
        if f(r.last()) {
            let rf = r.filter(f);
            assert(rf == fd.push(r.last()));
            assert forall|i: int, j: int|
                0 <= i < rf.len() && 0 <= j < rf.len() && i != j && #[trigger] rf[i].1 == #[trigger] rf[j].1
                implies !compatible(rf[i].0, rf[j].0) by {
                if i == rf.len() - 1 || j == rf.len() - 1 {
                    let o = if i == rf.len() - 1 { j } else { i };
                    assert(fd.contains(rf[o]));
                    let k = choose|k: int| 0 <= k < d.len() && d[k] == rf[o];
                    assert(r[k] == rf[o]);
                    lemma_compatible_symmetric(rf[i].0, rf[j].0);
                } else {
                    assert(rf[i] == fd[i] && rf[j] == fd[j]);
                }
            }
        }
    }
}

/// Signatures over section lists by prefix and author, and the list trusted for each prefix.
pub struct SectionListCache {
    signatures: Vec<SignedEntry>,
    lists_cache: Vec<QuorumList>,
    quorum_numerator: usize,
    quorum_denominator: usize,
}

impl SectionListCache {
    /// Every signature held, in the order of arrival.
    pub closed spec fn records(&self) -> Seq<SigRecord> {
        self.signatures@.map_values(|e: SignedEntry| e@)
    }

    /// The trusted lists.
    pub closed spec fn quorum(&self) -> Seq<QuorumView> {
        self.lists_cache@.map_values(|e: QuorumList| e@)
    }

    /// The quorum rule for a section of `section_size` members.
    pub closed spec fn quorum_rule(&self, section_size: usize) -> Quorum {
        (section_size, self.quorum_numerator, self.quorum_denominator)
    }

    /// One signature per author and overlapping prefixes, one trusted list per prefix, and
    /// none for a prefix without signatures.
    pub open spec fn wf(&self) -> bool {
        &&& records_wf(self.records())
        &&& quorum_wf(self.quorum())
        &&& forall|p: Seq<bool>| #[trigger] quorum_for(self.quorum(), p) is Some ==> has_prefix(self.records(), p)
    }

    /// An empty cache that trusts a list once its signatures number more than
    /// `QUORUM_NUMERATOR / QUORUM_DENOMINATOR` of the section.
    pub fn new() -> (r: Self)
        ensures
            r.wf(),
            r.records() == Seq::<SigRecord>::empty(),
            r.quorum() == Seq::<QuorumView>::empty(),
            forall|n: usize| #[trigger] r.quorum_rule(n) == (n, QUORUM_NUMERATOR, QUORUM_DENOMINATOR),
    {
        SectionListCache::with_quorum(QUORUM_NUMERATOR, QUORUM_DENOMINATOR)
    }

    /// An empty cache that trusts a list once its signatures number more than
    /// `numerator / denominator` of the section.
    pub fn with_quorum(numerator: usize, denominator: usize) -> (r: Self)
        ensures
            r.wf(),
            r.records() == Seq::<SigRecord>::empty(),
            r.quorum() == Seq::<QuorumView>::empty(),
            forall|n: usize| #[trigger] r.quorum_rule(n) == (n, numerator, denominator),
    {
        let r = SectionListCache {
            signatures: Vec::new(),
            lists_cache: Vec::new(),
            quorum_numerator: numerator,
            quorum_denominator: denominator,
        };
        assert(r.records() =~= Seq::<SigRecord>::empty());
        assert(r.quorum() =~= Seq::<QuorumView>::empty());
        r
    }

    /// The signature of `pub_info` over `list` under `prefix`, if it is held.
    pub fn get_signature_for(
        &self,
        prefix: &Prefix,
        pub_info: &PublicId,
        list: &SectionList,
    ) -> (r: Option<&Signature>)
        requires
            self.wf(),
        ensures
            match r {
                Some(s) => signature_for(self.records(), prefix.bits@, *pub_info, list.members@)
                    == Some(*s),
                None => signature_for(self.records(), prefix.bits@, *pub_info, list.members@)
                    is None,
            },
    {
        let key = prefix.unversioned();
        let mut i: usize = 0;
        while i < self.signatures.len()
            invariant
                self.wf(),
                key.bits@ == prefix.bits@,
                i <= self.signatures@.len(),
                self.records().len() == self.signatures@.len(),
                forall|j: int|
                    0 <= j < i ==> !(#[trigger] self.records()[j].0 == prefix.bits@
                        && self.records()[j].1 == *pub_info && self.records()[j].2
                        == list.members@),
            decreases self.signatures@.len() - i,
        {
            let e = &self.signatures[i];
            assert(self.records()[i as int] == e@);
            if e.author == *pub_info && e.prefix.same_as(&key) && e.list.same_as(list) {
                proof {
                    let r = self.records();
                    assert(r[i as int].0 == prefix.bits@ && r[i as int].1 == *pub_info && r[i as int].2
                        == list.members@);
                    let k = choose|k: int|
                        0 <= k < r.len() && r[k].0 == prefix.bits@ && r[k].1 == *pub_info
                            && r[k].2 == list.members@;
                    if k != i {
                        assert(r[k].1 == r[i as int].1);
                    }
                }
                return Some(&e.sig);
            }
            i += 1;
        }
        None
    }

    /// Drops every signature of `author` under `scope`: the prefixes compatible with the
    /// given one, or all prefixes.
    fn drop_signatures(&mut self, author: PublicId, scope: Option<&UnversionedPrefix>)
        requires
            records_wf(old(self).records()),
        ensures
            records_wf(final(self).records()),
            final(self).records() == revoked(
                old(self).records(),
                author,
                match scope {
                    Some(p) => Some(p.bits@),
                    None => None,
                },
            ),
            final(self).lists_cache == old(self).lists_cache,
            final(self).quorum_numerator == old(self).quorum_numerator,
            final(self).quorum_denominator == old(self).quorum_denominator,
    {
        let ghost sc = match scope {
            Some(p) => Some(p.bits@),
            None => None,
        };
        let ghost f = |x: SigRecord| kept(x, author, sc);
        let ghost r0 = self.records();
        let mut kept_entries: Vec<SignedEntry> = Vec::new();
        let mut i: usize = 0;
        while i < self.signatures.len()
            invariant
                i <= self.signatures@.len(),
                r0 == self.records(),
                r0.len() == self.signatures@.len(),
                sc == match scope {
                    Some(p) => Some(p.bits@),
                    None => None,
                },
                forall|x: SigRecord| #[trigger] f(x) == kept(x, author, sc),
                kept_entries@.map_values(|e: SignedEntry| e@) == r0.subrange(0, i as int).filter(
                    f,
                ),
            decreases self.signatures@.len() - i,
        {
            let e = &self.signatures[i];
            assert(r0[i as int] == e@);
            let drop = e.author == author && match scope {
                Some(p) => e.prefix.is_compatible(p),
                None => true,
            };
            let ghost before = kept_entries@;
            if !drop {
                let c = e.copy();
                kept_entries.push(c);
            }
            proof {
                reveal(Seq::filter);
                let s1 = r0.subrange(0, i + 1);
                assert(s1.drop_last() =~= r0.subrange(0, i as int));
                assert(s1.last() == r0[i as int]);
                assert(f(r0[i as int]) == !drop);
                if !drop {
                    assert(kept_entries@.map_values(|e: SignedEntry| e@) =~= before.map_values(
                        |e: SignedEntry| e@,
                    ).push(r0[i as int]));
                } else {
                    assert(kept_entries@ == before);
                }
                assert(kept_entries@.map_values(|e: SignedEntry| e@) =~= s1.filter(f));
            }
            i += 1;
        }
        assert(r0.subrange(0, r0.len() as int) =~= r0);
        self.signatures = kept_entries;
        proof {
            lemma_filter_records_wf(r0, f);
        }
    }

    /// Drops the trusted list of every prefix that no signature is held for.
    fn prune(&mut self)
        requires
            quorum_wf(old(self).quorum()),
        ensures
            quorum_wf(final(self).quorum()),
            pruned(old(self).quorum(), old(self).records(), final(self).quorum()),
            final(self).signatures == old(self).signatures,
            final(self).quorum_numerator == old(self).quorum_numerator,
            final(self).quorum_denominator == old(self).quorum_denominator,
            forall|p: Seq<bool>|
                #[trigger] quorum_for(final(self).quorum(), p) is Some ==> has_prefix(
                    final(self).records(),
                    p,
                ),
    {
        let ghost q0 = self.quorum();
        let ghost r = self.records();
        let mut i: usize = 0;
        while i < self.lists_cache.len()
            invariant
                i <= self.lists_cache@.len(),
                self.signatures == old(self).signatures,
                self.quorum_numerator == old(self).quorum_numerator,
                self.quorum_denominator == old(self).quorum_denominator,
                r == self.records(),
                self.quorum().len() == self.lists_cache@.len(),
                quorum_wf(self.quorum()),
                forall|j: int| 0 <= j < i ==> has_prefix(r, #[trigger] self.quorum()[j].0),
                forall|p: Seq<bool>|
                    #[trigger] quorum_for(self.quorum(), p) is Some ==> quorum_for(self.quorum(), p)
                        == quorum_for(q0, p),
                forall|p: Seq<bool>|
                    has_prefix(r, p) ==> #[trigger] quorum_for(self.quorum(), p) == quorum_for(
                        q0,
                        p,
                    ),
                forall|p: Seq<bool>|
                    #[trigger] quorum_for(self.quorum(), p) is Some && !has_prefix(r, p) ==> exists|
                        j: int,
                    |
                        i <= j < self.quorum().len() && self.quorum()[j].0 == p,
            decreases self.lists_cache@.len() - i,
        {
            let ghost q = self.quorum();
            assert(q[i as int] == self.lists_cache@[i as int]@);
            let mut found = false;
            let mut k: usize = 0;
            while k < self.signatures.len()
                invariant
                    k <= self.signatures@.len(),
                    r == self.records(),
                    r.len() == self.signatures@.len(),
                    q == self.quorum(),
                    i < q.len(),
                    found == exists|j: int| 0 <= j < k && r[j].0 == q[i as int].0,
                decreases self.signatures@.len() - k,
            {
                assert(r[k as int] == self.signatures@[k as int]@);
                if self.signatures[k].prefix.same_as(&self.lists_cache[i].prefix) {
                    found = true;
                }
                k += 1;
            }
            if found {
                i += 1;
            } else {
                let _ = self.lists_cache.remove(i);
                proof {
                    let q2 = self.quorum();
                    assert(q2 =~= q.remove(i as int));
                    assert forall|p: Seq<bool>| true implies quorum_for(q2, p) == if p == q[i as int].0 {
                        None
                    } else {
                        quorum_for(q, p)
                    } by {
                        lemma_quorum_remove(q, i as int, p);
                    }
                    lemma_quorum_remove(q, i as int, q[i as int].0);
                    assert forall|j: int| 0 <= j < i implies has_prefix(r, #[trigger] q2[j].0) by {
                        assert(q2[j] == q[j]);
                    }
                    assert forall|p: Seq<bool>|
                        #[trigger] quorum_for(q2, p) is Some && !has_prefix(r, p) implies exists|
                            j: int,
                        |
                            i <= j < q2.len() && q2[j].0 == p by {
                        let j = choose|j: int| i <= j < q.len() && q[j].0 == p;
                        assert(j != i);
                        assert(q2[j - 1] == q[j]);
                    }
                }
            }
        }
        proof {
            let q = self.quorum();
            assert forall|p: Seq<bool>|
                #[trigger] quorum_for(q, p) == if has_prefix(r, p) {
                    quorum_for(q0, p)
                } else {
                    None
                } by {
                if !has_prefix(r, p) && quorum_for(q, p) is Some {
                    let j = choose|j: int| i <= j < q.len() && q[j].0 == p;
                }
            }
            assert forall|p: Seq<bool>| #[trigger] quorum_for(q, p) is Some implies has_prefix(r, p) by {
                if !has_prefix(r, p) {
                    let j = choose|j: int| i <= j < q.len() && q[j].0 == p;
                }
            }
        }
    }

    /// Caches `entry` as the trusted list of its prefix, in place of any earlier one.
    fn set_quorum(&mut self, entry: QuorumList)
        requires
            quorum_wf(old(self).quorum()),
        ensures
            quorum_wf(final(self).quorum()),
            forall|p: Seq<bool>|
                #[trigger] quorum_for(final(self).quorum(), p) == if p == entry.prefix.bits@ {
                    Some((entry.list.members@, entry.signatures@))
                } else {
                    quorum_for(old(self).quorum(), p)
                },
            final(self).signatures == old(self).signatures,
            final(self).quorum_numerator == old(self).quorum_numerator,
            final(self).quorum_denominator == old(self).quorum_denominator,
    {
        let ghost q = self.quorum();
        let ghost e = entry@;
        let mut i: usize = 0;
        while i < self.lists_cache.len()
            invariant
                i <= self.lists_cache@.len(),
                self.signatures == old(self).signatures,
                self.quorum_numerator == old(self).quorum_numerator,
                self.quorum_denominator == old(self).quorum_denominator,
                self.lists_cache == old(self).lists_cache,
                entry@ == e,
                quorum_wf(q),
                q == self.quorum(),
                q.len() == self.lists_cache@.len(),
                forall|j: int| 0 <= j < i ==> q[j].0 != entry.prefix.bits@,
            decreases self.lists_cache@.len() - i,
        {
            assert(q[i as int] == self.lists_cache@[i as int]@);
            if self.lists_cache[i].prefix.same_as(&entry.prefix) {
                let ghost lc = self.lists_cache@;
                self.lists_cache[i] = entry;
                proof {
                    assert(self.lists_cache@ == lc.update(i as int, entry));
                    assert(self.quorum() =~= q.update(i as int, e));
                    assert forall|p: Seq<bool>| true implies #[trigger] quorum_for(self.quorum(), p)
                        == if p == e.0 {
                        Some((e.1, e.2))
                    } else {
                        quorum_for(q, p)
                    } by {
                        lemma_quorum_update(q, i as int, e, p);
                    }
                    lemma_quorum_update(q, i as int, e, e.0);
                }
                return;
            }
            i += 1;
        }
        proof {
            lemma_quorum_absent(q, e.0);
        }
        self.lists_cache.push(entry);
        proof {
            assert(self.quorum() =~= q.push(e));
            assert forall|p: Seq<bool>| true implies #[trigger] quorum_for(self.quorum(), p) == if p
                == e.0 {
                Some((e.1, e.2))
            } else {
                quorum_for(q, p)
            } by {
                lemma_quorum_push(q, e, p);
            }
            lemma_quorum_push(q, e, e.0);
        }
    }

    /// How many signatures are held for `list` under `prefix`.
    fn count_list(&self, prefix: &UnversionedPrefix, list: &SectionList) -> (c: usize)
        ensures
            c == count(self.records(), prefix.bits@, list.members@),
    {
        let ghost r = self.records();
        let mut c: usize = 0;
        let mut i: usize = 0;
        while i < self.signatures.len()
            invariant
                r == self.records(),
                r.len() == self.signatures@.len(),
                i <= r.len(),
                c <= i,
                c == count(r.subrange(0, i as int), prefix.bits@, list.members@),
            decreases r.len() - i,
        {
            let e = &self.signatures[i];
            assert(r[i as int] == e@);
            let hit = e.prefix.same_as(prefix) && e.list.same_as(list);
            if hit {
                c += 1;
            }
            assert(r.subrange(0, i + 1).drop_last() =~= r.subrange(0, i as int));
            i += 1;
        }
        assert(r.subrange(0, r.len() as int) =~= r);
        c
    }

    /// A list with the most signatures under `prefix`: the index of a signature over it,
    /// and its number of signatures.
    fn best_list(&self, prefix: &UnversionedPrefix) -> (b: (usize, usize))
        requires
            has_prefix(self.records(), prefix.bits@),
        ensures
            b.0 < self.records().len(),
            self.records()[b.0 as int].0 == prefix.bits@,
            b.1 == count(self.records(), prefix.bits@, self.records()[b.0 as int].2),
            is_best(self.records(), prefix.bits@, self.records()[b.0 as int].2),
    {
        let ghost r = self.records();
        let ghost p = prefix.bits@;
        let mut found = false;
        let mut best_j: usize = 0;
        let mut best_c: usize = 0;
        let mut j: usize = 0;
        while j < self.signatures.len()
            invariant
                r == self.records(),
                p == prefix.bits@,
                r.len() == self.signatures@.len(),
                j <= r.len(),
                found ==> best_j < j && r[best_j as int].0 == p && best_c == count(
                    r,
                    p,
                    r[best_j as int].2,
                ),
                forall|k: int|
                    0 <= k < j && (#[trigger] r[k]).0 == p ==> found && count(r, p, r[k].2)
                        <= best_c,
            decreases r.len() - j,
        {
            let e = &self.signatures[j];
            assert(r[j as int] == e@);
            let ghost old_found = found;
            let ghost old_best = best_c;
            assert(forall|k: int|
                0 <= k < j && (#[trigger] r[k]).0 == p ==> old_found && count(r, p, r[k].2)
                    <= old_best);
            if e.prefix.same_as(prefix) {
                let c = self.count_list(prefix, &e.list);
                if !found || c > best_c {
                    found = true;
                    best_j = j;
                    best_c = c;
                }
                assert(count(r, p, r[j as int].2) <= best_c);
            }
            assert forall|k: int|
                0 <= k < j + 1 && (#[trigger] r[k]).0 == p implies found && count(r, p, r[k].2)
                    <= best_c by {
                if k < j {
                    assert(old_best <= best_c);
                }
            }
            j += 1;
        }
        proof {
            let k = choose|k: int| 0 <= k < r.len() && r[k].0 == p;
            assert(r[k].0 == p);
            assert(found);
            assert forall|l2: Seq<PublicId>| #[trigger] count(r, p, l2) <= count(r, p, r[best_j as int].2) by {
                if exists|k: int| 0 <= k < r.len() && r[k].0 == p && r[k].2 == l2 {
                    let k = choose|k: int| 0 <= k < r.len() && r[k].0 == p && r[k].2 == l2;
                    assert(count(r, p, r[k].2) <= best_c);
                } else {
                    lemma_count_zero(r, p, l2);
                }
            }
        }
        (best_j, best_c)
    }

    /// Every signature held for `list` under `prefix`, with its author.
    fn collect_signatures(&self, prefix: &UnversionedPrefix, list: &SectionList) -> (sigs: Vec<
        (PublicId, Signature),
    >)
        ensures
            holds_signatures(sigs@, self.records(), prefix.bits@, list.members@),
    {
        let ghost r = self.records();
        let ghost p = prefix.bits@;
        let ghost l = list.members@;
        let mut sigs: Vec<(PublicId, Signature)> = Vec::new();
        let mut i: usize = 0;
        while i < self.signatures.len()
            invariant
                r == self.records(),
                p == prefix.bits@,
                l == list.members@,
                r.len() == self.signatures@.len(),
                i <= r.len(),
                forall|x: (PublicId, Signature)|
                    #[trigger] sigs@.contains(x) <==> exists|j: int|
                        0 <= j < i && r[j] == (p, x.0, l, x.1),
            decreases r.len() - i,
        {
            let e = &self.signatures[i];
            assert(r[i as int] == e@);
            let ghost before = sigs@;
            if e.prefix.same_as(prefix) && e.list.same_as(list) {
                sigs.push((e.author, e.sig));
                proof {
                    assert forall|x: (PublicId, Signature)| #[trigger] sigs@.contains(x) <==> exists|
                        j: int,
                    |
                        0 <= j < i + 1 && r[j] == (p, x.0, l, x.1) by {
                        if x == (e.author, e.sig) {
                            assert(sigs@[before.len() as int] == x);
                        }
                        if before.contains(x) {
                            let k = choose|k: int| 0 <= k < before.len() && before[k] == x;
                            assert(sigs@[k] == x);
                        }
                        if sigs@.contains(x) && x != (e.author, e.sig) {
                            let k = choose|k: int| 0 <= k < sigs@.len() && sigs@[k] == x;
                            assert(before[k] == x);
                        }
                    }
                }
            } else {
                assert forall|x: (PublicId, Signature)| #[trigger] sigs@.contains(x) <==> exists|
                    j: int,
                |
                    0 <= j < i + 1 && r[j] == (p, x.0, l, x.1) by {
                    if exists|j: int| 0 <= j < i + 1 && r[j] == (p, x.0, l, x.1) {
                        let j = choose|j: int| 0 <= j < i + 1 && r[j] == (p, x.0, l, x.1);
                        assert(j != i);
                    }
                }
            }
            i += 1;
        }
        sigs
    }

    /// Caches, for each prefix whose list of most signatures reaches quorum in a section of
    /// `our_section_size`, that list with its signatures.
    fn update_lists_cache(&mut self, our_section_size: usize)
        requires
            quorum_wf(old(self).quorum()),
        ensures
            quorum_wf(final(self).quorum()),
            refreshed(
                old(self).quorum(),
                old(self).records(),
                final(self).quorum(),
                old(self).quorum_rule(our_section_size),
            ),
            final(self).signatures == old(self).signatures,
            final(self).quorum_numerator == old(self).quorum_numerator,
            final(self).quorum_denominator == old(self).quorum_denominator,
            forall|p: Seq<bool>|
                #[trigger] quorum_for(final(self).quorum(), p) is Some ==> quorum_for(
                    old(self).quorum(),
                    p,
                ) is Some || has_prefix(final(self).records(), p),
    {
        let ghost r = self.records();
        let ghost q0 = self.quorum();
        let ghost n = self.quorum_rule(our_section_size);
        let mut k: usize = 0;
        while k < self.signatures.len()
            invariant
                self.signatures == old(self).signatures,
                self.quorum_numerator == old(self).quorum_numerator,
                self.quorum_denominator == old(self).quorum_denominator,
                r == self.records(),
                q0 == old(self).quorum(),
                n == (our_section_size, self.quorum_numerator, self.quorum_denominator),
                r.len() == self.signatures@.len(),
                k <= r.len(),
                quorum_wf(self.quorum()),
                forall|p: Seq<bool>|
                    if (exists|j: int| 0 <= j < k && r[j].0 == p) && quorum_reached(r, p, n) {
                        quorum_entry(#[trigger] quorum_for(self.quorum(), p), r, p, n)
                    } else {
                        quorum_for(self.quorum(), p) == quorum_for(q0, p)
                    },
            decreases r.len() - k,
        {
            assert(r[k as int] == self.signatures@[k as int]@);
            let prefix = self.signatures[k].prefix.copy();
            let ghost p = prefix.bits@;
            let ghost q1 = self.quorum();
            let (bj, bc) = self.best_list(&prefix);
            let ghost lb = r[bj as int].2;
            proof {
                assert forall|l: Seq<PublicId>| is_best(r, p, l) implies count(r, p, l) == bc by {}
            }
            let den = self.quorum_denominator;
            let num = self.quorum_numerator;
            proof {
                assert((bc as u128) * (den as u128) <= u64::MAX as u128 * u64::MAX as u128)
                    by (nonlinear_arith)
                    requires
                        bc <= u64::MAX,
                        den <= u64::MAX,
                ;
                assert((our_section_size as u128) * (num as u128) <= u64::MAX as u128
                    * u64::MAX as u128) by (nonlinear_arith)
                    requires
                        our_section_size <= u64::MAX,
                        num <= u64::MAX,
                ;
            }
            if (bc as u128) * (den as u128) > (our_section_size as u128) * (num as u128) {
                let list = self.signatures[bj].list.copy();
                let signatures = self.collect_signatures(&prefix, &list);
                let entry = QuorumList { prefix, list, signatures };
                self.set_quorum(entry);
                proof {
                    assert forall|p2: Seq<bool>|
                        if (exists|j: int| 0 <= j < k + 1 && r[j].0 == p2) && quorum_reached(r, p2, n) {
                            quorum_entry(#[trigger] quorum_for(self.quorum(), p2), r, p2, n)
                        } else {
                            quorum_for(self.quorum(), p2) == quorum_for(q0, p2)
                        } by {
                        if p2 != p {
                            if exists|j: int| 0 <= j < k + 1 && r[j].0 == p2 {
                                let j = choose|j: int| 0 <= j < k + 1 && r[j].0 == p2;
                                assert(j != k);
                            }
                        } else {
                            assert(is_best(r, p, lb));
                        }
                    }
                }
            } else {
                proof {
                    assert forall|p2: Seq<bool>|
                        if (exists|j: int| 0 <= j < k + 1 && r[j].0 == p2) && quorum_reached(r, p2, n) {
                            quorum_entry(#[trigger] quorum_for(self.quorum(), p2), r, p2, n)
                        } else {
                            quorum_for(self.quorum(), p2) == quorum_for(q0, p2)
                        } by {
                        if exists|j: int| 0 <= j < k + 1 && r[j].0 == p2 {
                            let j = choose|j: int| 0 <= j < k + 1 && r[j].0 == p2;
                            if j == k {
                                assert(!quorum_reached(r, p2, n));
                            }
                        }
                    }
                }
            }
            k += 1;
        }
        proof {
            assert forall|p: Seq<bool>|
                if quorum_reached(r, p, n) {
                    quorum_entry(#[trigger] quorum_for(self.quorum(), p), r, p, n)
                } else {
                    quorum_for(self.quorum(), p) == quorum_for(q0, p)
                } by {
                if quorum_reached(r, p, n) {
                    let l = choose|l: Seq<PublicId>| is_best(r, p, l) && reaches_quorum(count(r, p, l), n);
                    let j = choose|j: int| 0 <= j < r.len() && r[j].0 == p && r[j].2 == l;
                    assert(r[j].0 == p);
                }
            }
            assert forall|p: Seq<bool>|
                #[trigger] quorum_for(self.quorum(), p) is Some implies quorum_for(q0, p) is Some
                    || has_prefix(r, p) by {
                if quorum_reached(r, p, n) {
                    let l = choose|l: Seq<PublicId>| is_best(r, p, l) && reaches_quorum(count(r, p, l), n);
                    let j = choose|j: int| 0 <= j < r.len() && r[j].0 == p && r[j].2 == l;
                    assert(r[j].0 == p);
                }
            }
        }
    }

    /// Withdraws every signature of `author` under a prefix compatible with `prefix`, and
    /// drops the trusted lists of prefixes left without signatures.
    fn remove_signatures_for_prefix_by(&mut self, prefix: &UnversionedPrefix, author: PublicId)
        requires
            old(self).wf(),
        ensures
            final(self).wf(),
            final(self).records() == revoked(old(self).records(), author, Some(prefix.bits@)),
            pruned(old(self).quorum(), final(self).records(), final(self).quorum()),
            final(self).quorum_numerator == old(self).quorum_numerator,
            final(self).quorum_denominator == old(self).quorum_denominator,
    {
        self.drop_signatures(author, Some(prefix));
        self.prune();
    }

    /// Records the signature `sig` of `pub_info` over `list` for `prefix`, in place of any
    /// signature that `pub_info` gave under a compatible prefix, and recomputes the trusted
    /// lists for a section of `our_section_size`.
    pub fn add_signature(
        &mut self,
        prefix: Prefix,
        pub_info: PublicId,
        list: SectionList,
        sig: Signature,
        our_section_size: usize,
    )
        requires
            old(self).wf(),
        ensures
            final(self).wf(),
            final(self).records() == added(old(self).records(), prefix.bits@, pub_info, list.members@, sig),
            quorum_step(
                old(self).quorum(),
                revoked(old(self).records(), pub_info, Some(prefix.bits@)),
                final(self).records(),
                final(self).quorum(),
                old(self).quorum_rule(our_section_size),
            ),
            forall|n: usize| #[trigger] final(self).quorum_rule(n) == old(self).quorum_rule(n),
    {
        let key = prefix.unversioned();
        self.remove_signatures_for_prefix_by(&key, pub_info);
        let ghost r1 = self.records();
        let ghost q1 = self.quorum();
        let entry = SignedEntry { prefix: key, author: pub_info, list, sig };
        self.signatures.push(entry);
        proof {
            let r2 = self.records();
            assert(r2 =~= r1.push(entry@));
            assert forall|i: int| 0 <= i < r1.len() implies kept(r1[i], pub_info, Some(prefix.bits@)) by {
                let f = |x: SigRecord| kept(x, pub_info, Some(prefix.bits@));
                old(self).records().lemma_filter_pred(f, i);
            }
            assert forall|i: int, j: int|
                0 <= i < r2.len() && 0 <= j < r2.len() && i != j && #[trigger] r2[i].1
                    == #[trigger] r2[j].1 implies !compatible(r2[i].0, r2[j].0) by {
                if i == r1.len() {
                    assert(kept(r1[j], pub_info, Some(prefix.bits@)));
                    lemma_compatible_symmetric(r2[i].0, r2[j].0);
                } else if j == r1.len() {
                    assert(kept(r1[i], pub_info, Some(prefix.bits@)));
                } else {
                    assert(r2[i] == r1[i] && r2[j] == r1[j]);
                }
            }
            assert forall|p: Seq<bool>| #[trigger] quorum_for(q1, p) is Some implies has_prefix(r2, p) by {
                let k = choose|k: int| 0 <= k < r1.len() && r1[k].0 == p;
                assert(r2[k] == r1[k]);
            }
        }
        self.update_lists_cache(our_section_size);
        proof {
            assert(self.quorum_rule(our_section_size) == old(self).quorum_rule(our_section_size));
            assert(refreshed(q1, self.records(), self.quorum(), old(self).quorum_rule(our_section_size)));
            assert forall|p: Seq<bool>| #[trigger] quorum_for(self.quorum(), p) is Some implies has_prefix(
                self.records(),
                p,
            ) by {
                assert(quorum_for(q1, p) is Some || has_prefix(self.records(), p));
            }
        }
    }

    /// Withdraws every signature of the author named `name` and recomputes the trusted lists
    /// for a section of `our_section_size`. Where several authors share the name, the one of
    /// the earliest signature held is meant.
    pub fn remove_signatures(&mut self, name: u64, our_section_size: usize)
        requires
            old(self).wf(),
        ensures
            final(self).wf(),
            forall|n: usize| #[trigger] final(self).quorum_rule(n) == old(self).quorum_rule(n),
            match named_author(old(self).records(), name) {
                None => final(self).records() == old(self).records() && final(self).quorum() == old(
                    self,
                ).quorum(),
                Some(a) => {
                    &&& final(self).records() == revoked(old(self).records(), a, None)
                    &&& quorum_step(
                        old(self).quorum(),
                        final(self).records(),
                        final(self).records(),
                        final(self).quorum(),
                        old(self).quorum_rule(our_section_size),
                    )
                },
            },
    {
        let ghost r0 = self.records();
        let ghost q0 = self.quorum();
        let mut i: usize = 0;
        while i < self.signatures.len() && self.signatures[i].author.name != name
            invariant
                r0 == self.records(),
                r0.len() == self.signatures@.len(),
                i <= r0.len(),
                forall|j: int| 0 <= j < i ==> (#[trigger] r0[j]).1.name != name,
            decreases r0.len() - i,
        {
            assert(r0[i as int] == self.signatures@[i as int]@);
            i += 1;
        }
        if i == self.signatures.len() {
            proof {
                assert forall|j: int| 0 <= j < r0.len() implies (#[trigger] r0[j]).1.name != name by {}
            }
            return;
        }
        let author = self.signatures[i].author;
        proof {
            assert(r0[i as int] == self.signatures@[i as int]@);
            assert(r0[i as int].1 == author);
            assert(r0[i as int].1.name == name);
            let k = choose|k: int|
                0 <= k < r0.len() && r0[k].1.name == name && forall|j: int|
                    0 <= j < k ==> r0[j].1.name != name;
            if k < i {
                assert(r0[k].1.name != name);
            }
            if k > i {
                assert(r0[i as int].1.name != name);
            }
            assert(named_author(r0, name) == Some(author));
        }
        self.drop_signatures(author, None);
        self.prune();
        let ghost q1 = self.quorum();
        self.update_lists_cache(our_section_size);
        proof {
            assert(pruned(q0, self.records(), q1));
            assert forall|p: Seq<bool>| #[trigger] quorum_for(self.quorum(), p) is Some implies has_prefix(
                self.records(),
                p,
            ) by {
                assert(quorum_for(q1, p) is Some || has_prefix(self.records(), p));
            }
        }
    }

    /// The list trusted for `prefix`, with the signatures that made it so, if any.
    pub fn get_signatures(&self, prefix: &Prefix) -> (r: Option<&QuorumList>)
        requires
            self.wf(),
        ensures
            match r {
                Some(e) => e.prefix.bits@ == prefix.bits@ && quorum_for(self.quorum(), prefix.bits@)
                    == Some((e.list.members@, e.signatures@)),
                None => quorum_for(self.quorum(), prefix.bits@) is None,
            },
    {
        let key = prefix.unversioned();
        let mut i: usize = 0;
        while i < self.lists_cache.len()
            invariant
                self.wf(),
                key.bits@ == prefix.bits@,
                i <= self.lists_cache@.len(),
                self.quorum().len() == self.lists_cache@.len(),
                forall|j: int| 0 <= j < i ==> (#[trigger] self.quorum()[j]).0 != prefix.bits@,
            decreases self.lists_cache@.len() - i,
        {
            assert(self.quorum()[i as int] == self.lists_cache@[i as int]@);
            if self.lists_cache[i].prefix.same_as(&key) {
                proof {
                    lemma_quorum_at(self.quorum(), i as int);
                }
                return Some(&self.lists_cache[i]);
            }
            i += 1;
        }
        proof {
            assert forall|j: int| 0 <= j < self.quorum().len() implies self.quorum()[j].0 != prefix.bits@ by {
                assert(self.quorum()[j].0 != prefix.bits@);
            }
            lemma_quorum_absent(self.quorum(), prefix.bits@);
        }
        None
    }
}

/// A second signature of an author under the same prefix, over another list, withdraws the
/// first: no signature of that author over the first list remains there.
pub proof fn lemma_author_exclusive(
    r: Seq<SigRecord>,
    p: Seq<bool>,
    author: PublicId,
    l1: Seq<PublicId>,
    s1: Signature,
    l2: Seq<PublicId>,
    s2: Signature,
)
    requires
        l1 != l2,
    ensures
        signature_for(added(added(r, p, author, l1, s1), p, author, l2, s2), p, author, l1) is None,
{
    let r1 = added(r, p, author, l1, s1);
    let r2 = added(r1, p, author, l2, s2);
    let f = |x: SigRecord| kept(x, author, Some(p));
    if exists|i: int| 0 <= i < r2.len() && r2[i].0 == p && r2[i].1 == author && r2[i].2 == l1 {
        let i = choose|i: int| 0 <= i < r2.len() && r2[i].0 == p && r2[i].1 == author && r2[i].2 == l1;
        if i < r2.len() - 1 {
            r1.lemma_filter_pred(f, i);
            assert(compatible(p, p));
        }
    }
}

proof fn lemma_count_positive(r: Seq<SigRecord>, i: int)
    requires
        0 <= i < r.len(),
    ensures
        count(r, r[i].0, r[i].2) >= 1,
    decreases r.len(),
{
    if i < r.len() - 1 {
        assert(r.drop_last()[i] == r[i]);
        lemma_count_positive(r.drop_last(), i);
    }
}

/// Where every signature under `p` is over the same list `l`, recomputing the trusted lists
/// caches `l` with all its signatures as soon as their number reaches quorum, and leaves
/// the entry of `p` as it was until then.
pub proof fn lemma_single_list_quorum(
    before: Seq<QuorumView>,
    r: Seq<SigRecord>,
    after: Seq<QuorumView>,
    p: Seq<bool>,
    l: Seq<PublicId>,
    rule: Quorum,
)
    requires
        refreshed(before, r, after, rule),
        exists|i: int| 0 <= i < r.len() && r[i].0 == p && r[i].2 == l,
        forall|i: int| 0 <= i < r.len() && r[i].0 == p ==> r[i].2 == l,
    ensures
        reaches_quorum(count(r, p, l), rule) ==> quorum_for(after, p) is Some
            && quorum_for(after, p).unwrap().0 == l && holds_signatures(
            quorum_for(after, p).unwrap().1,
            r,
            p,
            l,
        ),
        !reaches_quorum(count(r, p, l), rule) ==> quorum_for(after, p) == quorum_for(
            before,
            p,
        ),
{
    assert forall|l2: Seq<PublicId>| #[trigger] count(r, p, l2) <= count(r, p, l) by {
        if l2 != l {
            lemma_count_zero(r, p, l2);
        }
    }
    assert(is_best(r, p, l));
    if quorum_reached(r, p, rule) {
        let e = quorum_for(after, p);
        assert(quorum_entry(e, r, p, rule));
        let j = choose|j: int| 0 <= j < r.len() && r[j].0 == p && r[j].2 == e.unwrap().0;
    }
}

/// In a well-formed cache no index has an empty entry: every signature held counts toward
/// its list under its prefix and is found under its prefix, author and list, and every
/// trusted list belongs to a prefix that still has signatures.
pub proof fn lemma_no_empty_entries(c: &SectionListCache)
    requires
        c.wf(),
    ensures
        forall|i: int|
            0 <= i < c.records().len() ==> count(c.records(), (#[trigger] c.records()[i]).0, c.records()[i].2)
                >= 1,
        forall|i: int|
            0 <= i < c.records().len() ==> signature_for(
                c.records(),
                (#[trigger] c.records()[i]).0,
                c.records()[i].1,
                c.records()[i].2,
            ) is Some,
        forall|p: Seq<bool>| #[trigger] quorum_for(c.quorum(), p) is Some ==> has_prefix(c.records(), p),
{
    let r = c.records();
    assert forall|i: int| 0 <= i < r.len() implies count(r, (#[trigger] r[i]).0, r[i].2) >= 1 by {
        lemma_count_positive(r, i);
    }
    assert forall|i: int| 0 <= i < r.len() implies signature_for(r, (#[trigger] r[i]).0, r[i].1, r[i].2) is Some by {
        assert(r[i].0 == r[i].0 && r[i].1 == r[i].1 && r[i].2 == r[i].2);
    }
}

proof fn lemma_filter_keeps_all(r: Seq<SigRecord>, f: spec_fn(SigRecord) -> bool)
    requires
        forall|i: int| 0 <= i < r.len() ==> f(#[trigger] r[i]),
    ensures
        r.filter(f) == r,
    decreases r.len(),
{
    reveal(Seq::filter);
    if r.len() > 0 {
        assert forall|i: int| 0 <= i < r.drop_last().len() implies f(#[trigger] r.drop_last()[i]) by {
            assert(r.drop_last()[i] == r[i]);
        }
        lemma_filter_keeps_all(r.drop_last(), f);
        assert(f(r[r.len() - 1]));
        assert(r.drop_last().push(r.last()) =~= r);
    }
}

/// A signature from an author that has signed nothing overlapping `p` withdraws nothing,
/// and adds one to the signatures of its list under `p`.
pub proof fn lemma_fresh_signer_count(
    r: Seq<SigRecord>,
    p: Seq<bool>,
    author: PublicId,
    l: Seq<PublicId>,
    sig: Signature,
)
    requires
        forall|i: int| 0 <= i < r.len() ==> !((#[trigger] r[i]).1 == author && compatible(r[i].0, p)),
    ensures
        revoked(r, author, Some(p)) == r,
        added(r, p, author, l, sig) == r.push((p, author, l, sig)),
        count(added(r, p, author, l, sig), p, l) == count(r, p, l) + 1,
{
    let f = |x: SigRecord| kept(x, author, Some(p));
    assert forall|i: int| 0 <= i < r.len() implies f(#[trigger] r[i]) by {}
    lemma_filter_keeps_all(r, f);
    assert(r.push((p, author, l, sig)).drop_last() =~= r);
}

/// The trusted lists `after` follow from `before` as `add_signature` relates them: pruned
/// against the signatures left after the withdrawal, then recomputed over the signatures held
/// after the addition.
pub open spec fn quorum_step(
    before: Seq<QuorumView>,
    withdrawn: Seq<SigRecord>,
    held: Seq<SigRecord>,
    after: Seq<QuorumView>,
    rule: Quorum,
) -> bool {
    exists|q: Seq<QuorumView>| #[trigger] pruned(before, withdrawn, q) && refreshed(q, held, after, rule)
}

/// The signatures held after, starting from none, each of the first `k` authors in turn
/// signs `l` under `p` with the signature of the same index.
pub open spec fn signed_in_turn(
    p: Seq<bool>,
    l: Seq<PublicId>,
    authors: Seq<PublicId>,
    sigs: Seq<Signature>,
    k: nat,
) -> Seq<SigRecord>
    decreases k,
{
    if k == 0 {
        Seq::empty()
    } else {
        added(
            signed_in_turn(p, l, authors, sigs, (k - 1) as nat),
            p,
            authors[k - 1],
            l,
            sigs[k - 1],
        )
    }
}

proof fn lemma_signed_in_turn_shape(
    p: Seq<bool>,
    l: Seq<PublicId>,
    authors: Seq<PublicId>,
    sigs: Seq<Signature>,
    k: nat,
)
    requires
        k <= authors.len(),
        k <= sigs.len(),
        forall|i: int, j: int| 0 <= i < j < authors.len() ==> authors[i] != authors[j],
    ensures
        signed_in_turn(p, l, authors, sigs, k).len() == k,
        forall|j: int|
            0 <= j < k ==> #[trigger] signed_in_turn(p, l, authors, sigs, k)[j] == (
                p,
                authors[j],
                l,
                sigs[j],
            ),
    decreases k,
{
    if k > 0 {
        let k1 = (k - 1) as nat;
        lemma_signed_in_turn_shape(p, l, authors, sigs, k1);
        let r = signed_in_turn(p, l, authors, sigs, k1);
        assert forall|i: int| 0 <= i < r.len() implies !((#[trigger] r[i]).1 == authors[k1 as int]
            && compatible(r[i].0, p)) by {
            assert(r[i].1 == authors[i]);
        }
        lemma_fresh_signer_count(r, p, authors[k1 as int], l, sigs[k1 as int]);
    }
}

proof fn lemma_count_all(r: Seq<SigRecord>, p: Seq<bool>, l: Seq<PublicId>)
    requires
        forall|i: int| 0 <= i < r.len() ==> (#[trigger] r[i]).0 == p && r[i].2 == l,
    ensures
        count(r, p, l) == r.len(),
    decreases r.len(),
{
    if r.len() > 0 {
        assert forall|i: int| 0 <= i < r.drop_last().len() implies (#[trigger] r.drop_last()[i]).0
            == p && r.drop_last()[i].2 == l by {
            assert(r.drop_last()[i] == r[i]);
        }
        lemma_count_all(r.drop_last(), p, l);
        assert(r.last() == r[r.len() - 1]);
    }
}

/// Signatures for one list under one prefix arrive one at a time from distinct authors,
/// `caches[i]` being the trusted lists before the `i`-th and `caches[i + 1]` after it, as
/// `add_signature` relates them. Then after `k` signatures the prefix has no trusted list
/// while `k` does not reach quorum, and from the first `k` that does, the trusted list is
/// `l` with exactly the `k` signatures so far.
pub proof fn lemma_quorum_growth(
    p: Seq<bool>,
    l: Seq<PublicId>,
    authors: Seq<PublicId>,
    sigs: Seq<Signature>,
    rule: Quorum,
    caches: Seq<Seq<QuorumView>>,
    k: nat,
)
    requires
        sigs.len() == authors.len(),
        caches.len() == authors.len() + 1,
        k <= authors.len(),
        forall|i: int, j: int| 0 <= i < j < authors.len() ==> authors[i] != authors[j],
        caches[0] == Seq::<QuorumView>::empty(),
        forall|i: int|
            0 <= i < authors.len() ==> quorum_step(
                #[trigger] caches[i],
                revoked(signed_in_turn(p, l, authors, sigs, i as nat), authors[i], Some(p)),
                signed_in_turn(p, l, authors, sigs, (i + 1) as nat),
                caches[i + 1],
                rule,
            ),
    ensures
        !reaches_quorum(k, rule) ==> quorum_for(caches[k as int], p) is None,
        reaches_quorum(k, rule) ==> {
            &&& quorum_for(caches[k as int], p) is Some
            &&& quorum_for(caches[k as int], p).unwrap().0 == l
            &&& forall|x: (PublicId, Signature)|
                #[trigger] quorum_for(caches[k as int], p).unwrap().1.contains(x) <==> exists|j: int|
                    0 <= j < k && x == (authors[j], sigs[j])
        },
    decreases k,
{
    if k == 0 {
        lemma_quorum_absent(caches[0], p);
    } else {
        let i = (k - 1) as nat;
        lemma_quorum_growth(p, l, authors, sigs, rule, caches, i);
        lemma_signed_in_turn_shape(p, l, authors, sigs, i);
        lemma_signed_in_turn_shape(p, l, authors, sigs, k);
        let ri = signed_in_turn(p, l, authors, sigs, i);
        let rk = signed_in_turn(p, l, authors, sigs, k);
        assert forall|j: int| 0 <= j < ri.len() implies !((#[trigger] ri[j]).1 == authors[i as int]
            && compatible(ri[j].0, p)) by {
            assert(ri[j].1 == authors[j]);
        }
        lemma_fresh_signer_count(ri, p, authors[i as int], l, sigs[i as int]);
        assert(caches[i as int] == caches[i as int]);
        let q = choose|q: Seq<QuorumView>|
            pruned(caches[i as int], revoked(ri, authors[i as int], Some(p)), q) && refreshed(
                q,
                rk,
                caches[k as int],
                rule,
            );
        assert(quorum_for(q, p) == quorum_for(q, p));
        assert(rk[i as int] == (p, authors[i as int], l, sigs[i as int]));
        assert forall|j: int| 0 <= j < rk.len() && rk[j].0 == p implies rk[j].2 == l by {
            assert(rk[j] == (p, authors[j], l, sigs[j]));
        }
        lemma_single_list_quorum(q, rk, caches[k as int], p, l, rule);
        assert forall|j: int| 0 <= j < rk.len() implies (#[trigger] rk[j]).0 == p && rk[j].2 == l by {
            assert(rk[j] == (p, authors[j], l, sigs[j]));
        }
        lemma_count_all(rk, p, l);
        if reaches_quorum(k, rule) {
            let e = quorum_for(caches[k as int], p).unwrap();
            assert forall|x: (PublicId, Signature)| #[trigger] e.1.contains(x) <==> exists|j: int|
                0 <= j < k && x == (authors[j], sigs[j]) by {
                if e.1.contains(x) {
                    assert(signed(rk, p, l, x));
                    let m = choose|m: int| 0 <= m < rk.len() && rk[m] == (p, x.0, l, x.1);
                    assert(rk[m] == (p, authors[m], l, sigs[m]));
                }
                if exists|j: int| 0 <= j < k && x == (authors[j], sigs[j]) {
                    let j = choose|j: int| 0 <= j < k && x == (authors[j], sigs[j]);
                    assert(rk[j] == (p, authors[j], l, sigs[j]));
                    assert(signed(rk, p, l, x));
                }
            }
        } else {
            assert(!reaches_quorum(i, rule)) by (nonlinear_arith)
                requires
                    !reaches_quorum(k, rule),
                    k == i + 1,
            ;
            if i > 0 {
                assert(ri[0].0 == p);
            }
        }
    }
}

} // verus!
