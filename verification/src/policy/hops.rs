//! What a delegation chain promises: authority is handed on only by
//! delegations that may redelegate, with depth to spare at every hop.
use crate::policy::authority::{
    authority_measure, authority_of, delegated_chains, delegation_eligible, lemma_measure_drops, rec_id,
    rec_source, source_index, RecordRef,
};
use crate::policy::model::{Delegation, PolicySet};
use vstd::prelude::*;

verus! {

/// Delegation `d` may hand authority on to delegation `e`: it allows
/// redelegation, has depth to give, and `e` reaches less deep than it.
pub open spec fn hands_on(d: Delegation, e: Delegation) -> bool {
    d.redelegation && d.max_depth >= 1 && e.max_depth < d.max_depth
}

/// The hop from the `i`-th to the next delegation named by positions `ks`.
pub open spec fn hop_at(policy: PolicySet, ks: Seq<int>, i: int) -> bool {
    hands_on(policy.delegations@[ks[i]], policy.delegations@[ks[i + 1]])
}

/// Chain `c` runs through the policy's delegations at positions `ks`: each
/// position holds the delegation the chain names there, and each hop hands
/// authority on.
pub open spec fn runs_through(policy: PolicySet, c: Seq<Seq<char>>, ks: Seq<int>) -> bool {
    &&& ks.len() == c.len()
    &&& forall|i: int|
        0 <= i < ks.len() ==> 0 <= #[trigger] ks[i] < policy.delegations@.len() && policy.delegations@[ks[i]].id@
            == c[i]
    &&& forall|i: int| 0 <= i < ks.len() - 1 ==> #[trigger] hop_at(policy, ks, i)
}

/// What the authority search keeps of every chain it returns for `record`:
/// the chain runs through the policy's delegations, and its last delegation
/// hands authority on to `record` when `record` is itself a delegation.
spec fn chain_kept(policy: PolicySet, record: RecordRef, c: Seq<Seq<char>>) -> bool {
    exists|ks: Seq<int>|
        runs_through(policy, c, ks) && (c.len() > 0 ==> (record matches RecordRef::Delegation(child)
            ==> hands_on(policy.delegations@[ks.last()], *child)))
}

proof fn lemma_extend(policy: PolicySet, record: RecordRef, k: int, p: Seq<Seq<char>>)
    requires
        0 <= k < policy.delegations@.len(),
        chain_kept(policy, RecordRef::Delegation(&policy.delegations@[k]), p),
        record matches RecordRef::Delegation(child) ==> hands_on(policy.delegations@[k], *child),
    ensures
        chain_kept(policy, record, p.push(policy.delegations@[k].id@)),
{
    let d = policy.delegations@[k];
    let ks = choose|ks: Seq<int>|
        runs_through(policy, p, ks) && (p.len() > 0 ==> hands_on(policy.delegations@[ks.last()], d));
    let c = p.push(d.id@);
    let ks2 = ks.push(k);
    assert forall|i: int| 0 <= i < ks2.len() implies 0 <= #[trigger] ks2[i] < policy.delegations@.len()
        && policy.delegations@[ks2[i]].id@ == c[i] by {
        if i < ks.len() {
            assert(ks2[i] == ks[i]);
        }
    }
    assert forall|i: int| 0 <= i < ks2.len() - 1 implies #[trigger] hop_at(policy, ks2, i) by {
        assert(ks2[i] == ks[i]);
        if i < ks.len() - 1 {
            assert(hop_at(policy, ks, i));
            assert(ks2[i + 1] == ks[i + 1]);
        } else {
            assert(ks2[i + 1] == k);
        }
    }
    assert(runs_through(policy, c, ks2));
    assert(ks2.last() == k);
}

proof fn lemma_search(policy: PolicySet, record: RecordRef, trail: Seq<Seq<char>>)
    ensures
        forall|c: Seq<Seq<char>>|
            #[trigger] authority_of(policy, record, trail).1.contains(c) ==> chain_kept(policy, record, c),
    decreases authority_measure(policy, record, trail), 1int, 0int,
{
    let s = authority_of(policy, record, trail);
    assert forall|c: Seq<Seq<char>>| #[trigger] s.1.contains(c) implies chain_kept(policy, record, c) by {
        let n = policy.delegations@.len() as int;
        match source_index(policy.environment.sources@, rec_source(record)) {
            None => {},
            Some(si) => {
                let source = policy.environment.sources@[si];
                if s.1 == delegated_chains(policy, record, source.id@, trail, n) {
                    lemma_gathered(policy, record, source.id@, trail, n);
                } else {
                    assert(c == Seq::<Seq<char>>::empty());
                    let ks = Seq::<int>::empty();
                    assert(runs_through(policy, c, ks));
                }
            },
        }
    }
}

proof fn lemma_gathered(
    policy: PolicySet,
    record: RecordRef,
    source_id: Seq<char>,
    trail: Seq<Seq<char>>,
    k: int,
)
    ensures
        forall|c: Seq<Seq<char>>|
            #[trigger] delegated_chains(policy, record, source_id, trail, k).contains(c) ==> chain_kept(
                policy,
                record,
                c,
            ),
    decreases authority_measure(policy, record, trail), 0int, k,
{
    if k <= 0 || k > policy.delegations@.len() || trail.contains(rec_id(record)) {
    } else {
        lemma_gathered(policy, record, source_id, trail, k - 1);
        let d = policy.delegations@[k - 1];
        if delegation_eligible(d, record, source_id) {
            lemma_measure_drops(policy, record, trail, k - 1);
            let child = RecordRef::Delegation(&policy.delegations@[k - 1]);
            let next = trail.push(rec_id(record));
            lemma_search(policy, child, next);
            let parent = authority_of(policy, child, next);
            if parent.0 {
                let grown = parent.1.map(|p: Seq<Seq<char>>| p.push(d.id@));
                assert forall|c: Seq<Seq<char>>| #[trigger] grown.contains(c) implies chain_kept(
                    policy,
                    record,
                    c,
                ) by {
                    let p = choose|p: Seq<Seq<char>>| parent.1.contains(p) && c == p.push(d.id@);
                    lemma_extend(policy, record, k - 1, p);
                }
                let rest = delegated_chains(policy, record, source_id, trail, k - 1);
                assert(delegated_chains(policy, record, source_id, trail, k) == rest.union(grown));
            }
        }
    }
}

proof fn lemma_depth_drops(policy: PolicySet, c: Seq<Seq<char>>, ks: Seq<int>, i: int)
    requires
        runs_through(policy, c, ks),
        0 <= i < ks.len(),
    ensures
        policy.delegations@[ks[i]].max_depth + i <= policy.delegations@[ks[0]].max_depth,
    decreases i,
{
    if i > 0 {
        lemma_depth_drops(policy, c, ks, i - 1);
        assert(hop_at(policy, ks, i - 1));
    }
}

/// Authority is handed on only as delegation allows: every chain that
/// carries a record's authority runs through the policy's delegations; at
/// each hop the delegation allows redelegation, has depth to give, and the
/// next one reaches strictly less deep; so no chain has more delegations
/// than one more than its first delegation's maximum depth.
pub proof fn lemma_chains_hand_on(policy: PolicySet, record: RecordRef, c: Seq<Seq<char>>)
    requires
        authority_of(policy, record, Seq::empty()).1.contains(c),
    ensures
        exists|ks: Seq<int>|
            runs_through(policy, c, ks) && (c.len() > 0 ==> c.len() <= policy.delegations@[ks[0]].max_depth
                + 1),
{
    lemma_search(policy, record, Seq::empty());
    assert(chain_kept(policy, record, c));
    let ks = choose|ks: Seq<int>|
        runs_through(policy, c, ks) && (c.len() > 0 ==> (record matches RecordRef::Delegation(child)
            ==> hands_on(policy.delegations@[ks.last()], *child)));
    if c.len() > 0 {
        lemma_depth_drops(policy, c, ks, c.len() - 1);
    }
}

} // verus!
