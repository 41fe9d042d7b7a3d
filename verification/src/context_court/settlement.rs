//! The settlement queues: who is to be slashed or rewarded, and the batch
//! that each block settles.

use vstd::prelude::*;
use crate::context_court::{
    has_voted, juror_voted, CourtView, Error, Pallet, SessionView, VoteRegistry, VoteView,
};
use crate::context_court::ledger::{slash_call, Fortitude, LedgerCall, Precision, Preservation};
use crate::lists::{byte_sum, clone_did, contains, even_byte_sum};
use crate::sorted::{ascending, insert_sorted, lemma_is_ascending, strictly_sorted};
use crate::table::Table;
use crate::types::{AccountId, BlockNumber, ContentId, ContentIdView, Did};

verus! {

/// The model of a [`Transfer`].
pub struct TransferView {
    pub juror: Seq<u8>,
    pub call: LedgerCall,
}

/// A ledger call that settles one juror.
#[derive(Clone, PartialEq, Eq, Debug)]
pub struct Transfer {
    pub juror: Did,
    pub call: LedgerCall,
}

impl View for Transfer {
    type V = TransferView;

    open spec fn view(&self) -> TransferView {
        TransferView { juror: self.juror.deep_view(), call: self.call }
    }
}

impl DeepView for Transfer {
    type V = TransferView;

    open spec fn deep_view(&self) -> TransferView {
        self@
    }
}

/// The jurors that have a vote among `votes`.
pub open spec fn voters(votes: Seq<VoteView>) -> Set<Seq<u8>> {
    Set::new(|d: Seq<u8>| has_voted(votes, d))
}

/// The jurors of `jurors` that have no vote among `votes`.
pub open spec fn absentees(jurors: Seq<Seq<u8>>, votes: Seq<VoteView>) -> Set<Seq<u8>> {
    Set::new(|d: Seq<u8>| jurors.contains(d) && !has_voted(votes, d))
}

/// The jurors of the session that are queued to be slashed when it is
/// settled: those who did not vote, in dictionary order.
pub open spec fn slashes_due(session: SessionView) -> Seq<Seq<u8>> {
    ascending(absentees(session.jurors, session.verdict.votes))
}

/// The jurors that are queued to be rewarded when the session is settled:
/// those who voted, in dictionary order; none where the session escalated.
pub open spec fn rewards_due(session: SessionView) -> Seq<Seq<u8>> {
    if session.verdict.escalated {
        Seq::empty()
    } else {
        ascending(voters(session.verdict.votes))
    }
}

/// Why the dispute `id` cannot be settled, if it cannot.
pub open spec fn reward_error(s: CourtView, id: ContentIdView) -> Option<Error> {
    if !s.disputes.contains_key(id) {
        Some(Error::SessionNotFound)
    } else if s.disputes[id].ended_at is Some {
        Some(Error::SessionHasBeenRewarded)
    } else if s.pending_slashes.len() + slashes_due(s.disputes[id]).len()
        > s.config.max_rewards_number {
        Some(Error::StorageOverflow)
    } else if s.pending_rewards.len() + rewards_due(s.disputes[id]).len()
        > s.config.max_rewards_number {
        Some(Error::StorageOverflow)
    } else {
        None
    }
}

/// The court after the dispute `id` was settled at block `now`.
pub open spec fn reward_next(s: CourtView, id: ContentIdView, now: BlockNumber) -> CourtView {
    let session = s.disputes[id];
    CourtView {
        pending_slashes: s.pending_slashes + slashes_due(session),
        pending_rewards: s.pending_rewards + rewards_due(session),
        disputes: s.disputes.insert(id, SessionView { ended_at: Some(now), ..session }),
        ..s
    }
}

/// A session that has ended is not settled again, whatever else holds of
/// the court.
pub proof fn lemma_ended_session_is_refused(s: CourtView, id: ContentIdView)
    requires
        s.disputes.contains_key(id),
        s.disputes[id].ended_at is Some,
    ensures
        reward_error(s, id) == Some(Error::SessionHasBeenRewarded),
{
}

/// A dispute is settled once: after it was settled, settling it again is
/// refused because the session has been rewarded.
pub proof fn lemma_settled_once(s: CourtView, id: ContentIdView, now: BlockNumber)
    requires
        reward_error(s, id) is None,
    ensures
        reward_error(reward_next(s, id, now), id) == Some(Error::SessionHasBeenRewarded),
{
}

/// The jurors of `jurors` without a vote, in dictionary order.
fn sorted_absentees(jurors: &Vec<Did>, votes: &Vec<VoteRegistry>) -> (list: Vec<Did>)
    ensures
        list.deep_view() == ascending(absentees(jurors.deep_view(), votes.deep_view())),
        list@.len() <= jurors@.len(),
{
    let mut list: Vec<Did> = Vec::new();
    let mut i: usize = 0;
    while i < jurors.len()
        invariant
            i <= jurors@.len(),
            list@.len() <= i,
            strictly_sorted(list.deep_view()),
            forall|d: Seq<u8>|
                list.deep_view().contains(d) <==> (jurors.deep_view().take(i as int).contains(d)
                    && !has_voted(votes.deep_view(), d)),
        decreases jurors@.len() - i,
    {
        let ghost seen = jurors.deep_view().take(i as int);
        let ghost next = jurors.deep_view().take(i + 1);
        assert(next =~= seen.push(jurors.deep_view()[i as int]));
        assert forall|d: Seq<u8>| next.contains(d) <==> (seen.contains(d) || d
            == jurors.deep_view()[i as int]) by {
            if next.contains(d) {
                let k = choose|k: int| 0 <= k < next.len() && next[k] == d;
                if k < i {
                    assert(seen[k] == d);
                }
            }
            if seen.contains(d) {
                let k = choose|k: int| 0 <= k < seen.len() && seen[k] == d;
                assert(next[k] == d);
            }
            assert(next[i as int] == jurors.deep_view()[i as int]);
        }
        if !juror_voted(votes, &jurors[i]) {
            insert_sorted(&mut list, clone_did(&jurors[i]));
        }
        i += 1;
    }
    proof {
        assert(jurors.deep_view().take(jurors@.len() as int) =~= jurors.deep_view());
        lemma_is_ascending(
            list.deep_view(),
            absentees(jurors.deep_view(), votes.deep_view()),
        );
    }
    list
}

/// The jurors with a vote among `votes`, in dictionary order.
fn sorted_voters(votes: &Vec<VoteRegistry>) -> (list: Vec<Did>)
    ensures
        list.deep_view() == ascending(voters(votes.deep_view())),
        list@.len() <= votes@.len(),
{
    let mut list: Vec<Did> = Vec::new();
    let mut i: usize = 0;
    while i < votes.len()
        invariant
            i <= votes@.len(),
            list@.len() <= i,
            strictly_sorted(list.deep_view()),
            forall|d: Seq<u8>|
                list.deep_view().contains(d) <==> has_voted(votes.deep_view().take(i as int), d),
        decreases votes@.len() - i,
    {
        let ghost seen = votes.deep_view().take(i as int);
        let ghost next = votes.deep_view().take(i + 1);
        assert forall|d: Seq<u8>| has_voted(next, d) <==> (has_voted(seen, d) || d
            == votes.deep_view()[i as int].juror) by {
            if has_voted(next, d) {
                let k = choose|k: int| 0 <= k < next.len() && next[k].juror == d;
                if k < i {
                    assert(seen[k].juror == d);
                }
            }
            if has_voted(seen, d) {
                let k = choose|k: int| 0 <= k < seen.len() && seen[k].juror == d;
                assert(next[k].juror == d);
            }
            assert(next[i as int].juror == votes.deep_view()[i as int].juror);
        }
        insert_sorted(&mut list, clone_did(&votes[i].juror));
        i += 1;
    }
    proof {
        assert(votes.deep_view().take(votes@.len() as int) =~= votes.deep_view());
        lemma_is_ascending(list.deep_view(), voters(votes.deep_view()));
    }
    list
}

/// What serving a queue comes to.
pub struct Batch {
    /// The queue that is left.
    pub rest: Seq<Seq<u8>>,
    /// The jurors whose transfer failed, in the order in which they were served.
    pub failed: Seq<Seq<u8>>,
    /// How many entries left the queue.
    pub processed: nat,
    /// How many transfer outcomes were consumed.
    pub used: nat,
}

/// Serves `queue` from its back: at most `budget` entries leave it.  An entry
/// whose juror has an account in `admins` consumes the next of `outcomes`
/// (`true` for a transfer that went through); where none is left, serving
/// stops.  An entry without an account leaves the queue and nothing more.
pub open spec fn serve(
    queue: Seq<Seq<u8>>,
    admins: Map<Seq<u8>, AccountId>,
    outcomes: Seq<bool>,
    budget: nat,
) -> Batch
    decreases budget,
{
    if budget == 0 || queue.len() == 0 {
        Batch { rest: queue, failed: Seq::empty(), processed: 0, used: 0 }
    } else if !admins.contains_key(queue.last()) {
        let later = serve(queue.drop_last(), admins, outcomes, (budget - 1) as nat);
        Batch { processed: later.processed + 1, ..later }
    } else if outcomes.len() == 0 {
        Batch { rest: queue, failed: Seq::empty(), processed: 0, used: 0 }
    } else {
        let later = serve(queue.drop_last(), admins, outcomes.drop_first(), (budget - 1) as nat);
        Batch {
            rest: later.rest,
            failed: if outcomes[0] {
                later.failed
            } else {
                seq![queue.last()] + later.failed
            },
            processed: later.processed + 1,
            used: later.used + 1,
        }
    }
}

/// The jurors that serving `queue` within `budget` has a transfer for, each
/// with its account, in the order in which they are served.
pub open spec fn to_serve(
    queue: Seq<Seq<u8>>,
    admins: Map<Seq<u8>, AccountId>,
    budget: nat,
) -> Seq<(Seq<u8>, AccountId)>
    decreases budget,
{
    if budget == 0 || queue.len() == 0 {
        Seq::empty()
    } else if !admins.contains_key(queue.last()) {
        to_serve(queue.drop_last(), admins, (budget - 1) as nat)
    } else {
        seq![(queue.last(), admins[queue.last()])] + to_serve(
            queue.drop_last(),
            admins,
            (budget - 1) as nat,
        )
    }
}

/// The roster `jurors` without the jurors of `purged`.
pub open spec fn survivors(jurors: Seq<Seq<u8>>, purged: Seq<Seq<u8>>) -> Seq<Seq<u8>> {
    jurors.filter(|d: Seq<u8>| !purged.contains(d))
}

/// Whether a block with this randomness slashes; otherwise it rewards.
pub open spec fn punishes(random: Seq<u8>) -> bool {
    byte_sum(random) % 2 == 0
}

/// The court after the block's settlement.
pub open spec fn tick_next(s: CourtView, random: Seq<u8>, outcomes: Seq<bool>) -> CourtView {
    let budget = s.config.batch_reward_size as nat;
    if punishes(random) {
        let batch = serve(s.pending_slashes, s.juror_admins, outcomes, budget);
        CourtView {
            pending_slashes: batch.rest,
            jurors: survivors(s.jurors, batch.failed),
            ..s
        }
    } else {
        let batch = serve(s.pending_rewards, s.juror_admins, outcomes, budget);
        CourtView { pending_rewards: batch.rest + batch.failed, ..s }
    }
}

/// The call that settles `juror` through `account` in a block with this
/// randomness: the burn of the slash amount, or a mint of the reward.
pub open spec fn transfer_for(
    s: CourtView,
    random: Seq<u8>,
    juror: Seq<u8>,
    account: AccountId,
) -> TransferView {
    TransferView {
        juror,
        call: if punishes(random) {
            slash_call(account, s.config.slash_amount)
        } else {
            LedgerCall::MintInto { who: account, amount: s.config.reward_amount }
        },
    }
}

/// The jurors with an account among the entries that a block with this
/// randomness can serve, in the order of service.
pub open spec fn tick_served(s: CourtView, random: Seq<u8>) -> Seq<(Seq<u8>, AccountId)> {
    to_serve(
        if punishes(random) {
            s.pending_slashes
        } else {
            s.pending_rewards
        },
        s.juror_admins,
        s.config.batch_reward_size as nat,
    )
}

/// The transfers that the ledger is to attempt for a block with this
/// randomness, in the order in which their outcomes are read.
pub open spec fn planned(s: CourtView, random: Seq<u8>) -> Seq<TransferView> {
    let served = tick_served(s, random);
    Seq::new(served.len(), |i: int| transfer_for(s, random, served[i].0, served[i].1))
}

/// How many queue entries the block's settlement serves.
pub open spec fn tick_processed(s: CourtView, random: Seq<u8>, outcomes: Seq<bool>) -> nat {
    let budget = s.config.batch_reward_size as nat;
    if punishes(random) {
        serve(s.pending_slashes, s.juror_admins, outcomes, budget).processed
    } else {
        serve(s.pending_rewards, s.juror_admins, outcomes, budget).processed
    }
}

/// Serving shortens the queue by what it serves, fails no more transfers
/// than it makes, and keeps within the budget and the outcomes.
pub proof fn lemma_serve_bounds(
    queue: Seq<Seq<u8>>,
    admins: Map<Seq<u8>, AccountId>,
    outcomes: Seq<bool>,
    budget: nat,
)
    ensures
        ({
            let b = serve(queue, admins, outcomes, budget);
            &&& b.processed <= budget
            &&& b.rest.len() + b.processed == queue.len()
            &&& b.failed.len() <= b.used <= b.processed
            &&& b.used <= outcomes.len()
            &&& b.rest == queue.take(queue.len() - b.processed)
        }),
    decreases budget,
{
    if budget == 0 || queue.len() == 0 {
        assert(queue.take(queue.len() as int) =~= queue);
    } else if !admins.contains_key(queue.last()) {
        lemma_serve_bounds(queue.drop_last(), admins, outcomes, (budget - 1) as nat);
        let later = serve(queue.drop_last(), admins, outcomes, (budget - 1) as nat);
        assert(queue.drop_last().take(queue.len() - 1 - later.processed) =~= queue.take(
            queue.len() - (later.processed + 1),
        ));
    } else if outcomes.len() == 0 {
        assert(queue.take(queue.len() as int) =~= queue);
    } else {
        lemma_serve_bounds(queue.drop_last(), admins, outcomes.drop_first(), (budget - 1) as nat);
        let later = serve(
            queue.drop_last(),
            admins,
            outcomes.drop_first(),
            (budget - 1) as nat,
        );
        assert(queue.drop_last().take(queue.len() - 1 - later.processed) =~= queue.take(
            queue.len() - (later.processed + 1),
        ));
    }
}

/// Serving consumes one outcome for each juror that it has a transfer for,
/// as long as outcomes are left, and reports as failed the jurors whose
/// outcome is `false`.
pub proof fn lemma_serve_outcomes(
    queue: Seq<Seq<u8>>,
    admins: Map<Seq<u8>, AccountId>,
    outcomes: Seq<bool>,
    budget: nat,
)
    ensures
        ({
            let b = serve(queue, admins, outcomes, budget);
            let jurors = to_serve(queue, admins, budget);
            &&& b.used == if jurors.len() <= outcomes.len() {
                jurors.len()
            } else {
                outcomes.len()
            }
            &&& forall|i: int|
                0 <= i < b.used && !outcomes[i] ==> b.failed.contains(#[trigger] jurors[i].0)
            &&& outcomes.len() >= jurors.len() ==> b.processed == if budget <= queue.len() {
                budget
            } else {
                queue.len()
            }
        }),
    decreases budget,
{
    let b = serve(queue, admins, outcomes, budget);
    let jurors = to_serve(queue, admins, budget);
    if budget == 0 || queue.len() == 0 {
    } else if !admins.contains_key(queue.last()) {
        lemma_serve_outcomes(queue.drop_last(), admins, outcomes, (budget - 1) as nat);
    } else if outcomes.len() == 0 {
    } else {
        lemma_serve_outcomes(queue.drop_last(), admins, outcomes.drop_first(), (budget - 1) as nat);
        let later = serve(
            queue.drop_last(),
            admins,
            outcomes.drop_first(),
            (budget - 1) as nat,
        );
        let later_jurors = to_serve(queue.drop_last(), admins, (budget - 1) as nat);
        assert forall|i: int| 0 <= i < b.used && !outcomes[i] implies b.failed.contains(
            #[trigger] jurors[i].0,
        ) by {
            if i == 0 {
                assert(b.failed[0] == queue.last());
            } else {
                assert(jurors[i] == later_jurors[i - 1]);
                assert(!outcomes.drop_first()[i - 1]);
                assert(later.failed.contains(later_jurors[i - 1].0));
                let k = choose|k: int|
                    0 <= k < later.failed.len() && later.failed[k] == later_jurors[i - 1].0;
                if outcomes[0] {
                    assert(b.failed[k] == later_jurors[i - 1].0);
                } else {
                    assert(b.failed[k + 1] == later_jurors[i - 1].0);
                }
            }
        }
    }
}

/// A block that rewards keeps every juror whose mint failed in the reward
/// queue: where the outcome of a planned transfer is `false`, its juror is
/// queued after the block.  And no block serves more entries than the batch
/// size.
pub proof fn lemma_unpaid_juror_stays_queued(
    s: CourtView,
    random: Seq<u8>,
    outcomes: Seq<bool>,
    i: int,
)
    requires
        !punishes(random),
        0 <= i < planned(s, random).len(),
        i < outcomes.len(),
        !outcomes[i],
    ensures
        tick_next(s, random, outcomes).pending_rewards.contains(planned(s, random)[i].juror),
        tick_processed(s, random, outcomes) <= s.config.batch_reward_size,
{
    let budget = s.config.batch_reward_size as nat;
    lemma_serve_outcomes(s.pending_rewards, s.juror_admins, outcomes, budget);
    lemma_serve_bounds(s.pending_rewards, s.juror_admins, outcomes, budget);
    let b = serve(s.pending_rewards, s.juror_admins, outcomes, budget);
    let jurors = to_serve(s.pending_rewards, s.juror_admins, budget);
    assert(b.failed.contains(jurors[i].0));
    let k = choose|k: int| 0 <= k < b.failed.len() && b.failed[k] == jurors[i].0;
    assert((b.rest + b.failed)[b.rest.len() + k] == jurors[i].0);
}

/// A block never serves more entries than the batch size, and with an
/// outcome for every planned transfer it serves the whole batch, or the
/// whole queue where that is shorter.
pub proof fn lemma_tick_batch(s: CourtView, random: Seq<u8>, outcomes: Seq<bool>)
    ensures
        tick_processed(s, random, outcomes) <= s.config.batch_reward_size,
        outcomes.len() >= planned(s, random).len() ==> tick_processed(s, random, outcomes) == if punishes(
            random,
        ) {
            if s.config.batch_reward_size <= s.pending_slashes.len() {
                s.config.batch_reward_size as nat
            } else {
                s.pending_slashes.len()
            }
        } else {
            if s.config.batch_reward_size <= s.pending_rewards.len() {
                s.config.batch_reward_size as nat
            } else {
                s.pending_rewards.len()
            }
        },
{
    let budget = s.config.batch_reward_size as nat;
    lemma_serve_bounds(s.pending_slashes, s.juror_admins, outcomes, budget);
    lemma_serve_bounds(s.pending_rewards, s.juror_admins, outcomes, budget);
    lemma_serve_outcomes(s.pending_slashes, s.juror_admins, outcomes, budget);
    lemma_serve_outcomes(s.pending_rewards, s.juror_admins, outcomes, budget);
}

/// Serves `queue` as [`serve`] says and hands out the count of served
/// entries and the jurors whose transfer failed.
fn drain(
    queue: &mut Vec<Did>,
    admins: &Table<Did, AccountId>,
    outcomes: &[bool],
    budget: u32,
) -> (r: (u32, Vec<Did>))
    requires
        admins.wf(),
    ensures
        ({
            let b = serve(old(queue).deep_view(), admins.model(), outcomes@, budget as nat);
            &&& final(queue).deep_view() == b.rest
            &&& r.0 == b.processed
            &&& r.1.deep_view() == b.failed
        }),
{
    let ghost start = queue.deep_view();
    let ghost total = serve(start, admins.model(), outcomes@, budget as nat);
    let mut processed: u32 = 0;
    let mut used: usize = 0;
    let mut failed: Vec<Did> = Vec::new();
    assert(failed.deep_view() =~= Seq::<Seq<u8>>::empty());
    assert(outcomes@.skip(0) =~= outcomes@);
    while processed < budget
        invariant
            admins.wf(),
            processed <= budget,
            used <= outcomes@.len(),
            total == serve(start, admins.model(), outcomes@, budget as nat),
            ({
                let later = serve(
                    queue.deep_view(),
                    admins.model(),
                    outcomes@.skip(used as int),
                    (budget - processed) as nat,
                );
                &&& total.rest == later.rest
                &&& total.failed == failed.deep_view() + later.failed
                &&& total.processed == processed + later.processed
            }),
        ensures
            total.rest == queue.deep_view(),
            total.failed == failed.deep_view(),
            total.processed == processed,
        decreases budget - processed,
    {
        let ghost before = queue.deep_view();
        let ghost left = outcomes@.skip(used as int);
        assert(failed.deep_view() + Seq::<Seq<u8>>::empty() =~= failed.deep_view());
        if queue.len() == 0 {
            break;
        }
        let has_account = admins.contains_key(&queue[queue.len() - 1]);
        assert(queue.deep_view().last() == queue@[queue@.len() - 1].deep_view());
        if has_account && used >= outcomes.len() {
            break;
        }
        let juror = queue.pop().unwrap();
        assert(queue.deep_view() =~= before.drop_last());
        assert(juror.deep_view() == before.last());
        if has_account {
            let went_through = outcomes[used];
            assert(left[0] == outcomes@[used as int]);
            assert(left.drop_first() =~= outcomes@.skip(used + 1));
            used += 1;
            if !went_through {
                let ghost kept = failed.deep_view();
                failed.push(juror);
                assert(failed.deep_view() =~= kept + seq![before.last()]);
                let ghost later = serve(
                    before.drop_last(),
                    admins.model(),
                    left.drop_first(),
                    (budget - processed - 1) as nat,
                );
                assert(kept + (seq![before.last()] + later.failed) =~= (kept + seq![
                    before.last(),
                ]) + later.failed);
            }
        }
        processed += 1;
        assert(failed.deep_view() + Seq::<Seq<u8>>::empty() =~= failed.deep_view());
    }
    (processed, failed)
}

/// Takes the jurors of `purged` off the roster.
fn strike(jurors: &mut Vec<Did>, purged: &Vec<Did>)
    requires
        old(jurors).deep_view().no_duplicates(),
    ensures
        final(jurors).deep_view() == survivors(old(jurors).deep_view(), purged.deep_view()),
        final(jurors).deep_view().no_duplicates(),
        final(jurors)@.len() <= old(jurors)@.len(),
{
    let ghost before = jurors.deep_view();
    let ghost gone = purged.deep_view();
    let mut kept: Vec<Did> = Vec::new();
    let mut i: usize = 0;
    assert(kept.deep_view() =~= Seq::<Seq<u8>>::empty());
    assert(before.take(0) =~= Seq::<Seq<u8>>::empty());
    assert(survivors(before.take(0), gone) =~= Seq::<Seq<u8>>::empty()) by {
        reveal(Seq::filter);
    }
    while i < jurors.len()
        invariant
            i <= jurors@.len(),
            jurors.deep_view() == before,
            purged.deep_view() == gone,
            before.no_duplicates(),
            kept@.len() <= i,
            kept.deep_view() == survivors(before.take(i as int), gone),
            forall|k: int|
                0 <= k < kept@.len() ==> exists|j: int|
                    0 <= j < i && before[j] == #[trigger] kept.deep_view()[k],
            kept.deep_view().no_duplicates(),
        decreases jurors@.len() - i,
    {
        let ghost so_far = kept.deep_view();
        reveal(Seq::filter);
        assert(before.take(i + 1).drop_last() =~= before.take(i as int));
        assert(before.take(i + 1).last() == before[i as int]);
        if !contains(purged, &jurors[i]) {
            kept.push(clone_did(&jurors[i]));
            assert(kept.deep_view() =~= so_far.push(before[i as int]));
            assert forall|k: int| 0 <= k < kept@.len() implies exists|j: int|
                0 <= j < i + 1 && before[j] == #[trigger] kept.deep_view()[k] by {
                if k < so_far.len() {
                    let j = choose|j: int| 0 <= j < i && before[j] == so_far[k];
                    assert(before[j] == kept.deep_view()[k]);
                } else {
                    assert(before[i as int] == kept.deep_view()[k]);
                }
            }
            assert forall|a: int, b: int|
                0 <= a < kept@.len() && 0 <= b < kept@.len() && a != b implies kept.deep_view()[a]
                != kept.deep_view()[b] by {
                if a == so_far.len() {
                    let j = choose|j: int| 0 <= j < i && before[j] == so_far[b];
                } else if b == so_far.len() {
                    let j = choose|j: int| 0 <= j < i && before[j] == so_far[a];
                }
            }
        }
        i += 1;
    }
    assert(before.take(before.len() as int) =~= before);
    *jurors = kept;
}

impl Pallet {
    /// Settles the dispute `content_id` at block `now`: queues its jurors that
    /// did not vote to be slashed and, unless it escalated, those that voted to
    /// be rewarded, and marks it as ended.  A dispute is settled once.
    pub fn get_reward_for_duty(&mut self, now: BlockNumber, content_id: ContentId) -> (r: Result<
        (),
        Error,
    >)
        requires
            old(self).wf(),
        ensures
            final(self).wf(),
            match r {
                Ok(()) => reward_error(old(self)@, content_id@) is None && final(self)@
                    == reward_next(old(self)@, content_id@, now),
                Err(e) => reward_error(old(self)@, content_id@) == Some(e) && final(self)@ == old(self)@,
            },
    {
        let ghost s0 = self@;
        let ghost id = content_id@;
        let cap = self.config.max_rewards_number as usize;
        let (mut absent, mut voted) = match self.disputes.get(&content_id) {
            None => {
                return Err(Error::SessionNotFound);
            },
            Some(session) => {
                if session.ended_at.is_some() {
                    return Err(Error::SessionHasBeenRewarded);
                }
                let absent = sorted_absentees(&session.jurors, &session.verdict.votes);
                let voted = if session.verdict.escalated {
                    Vec::new()
                } else {
                    sorted_voters(&session.verdict.votes)
                };
                (absent, voted)
            },
        };
        assert(absent.deep_view() == slashes_due(s0.disputes[id]));
        assert(voted.deep_view() =~= rewards_due(s0.disputes[id]));
        if absent.len() > cap - self.pending_slashes.len() {
            return Err(Error::StorageOverflow);
        }
        if voted.len() > cap - self.pending_rewards.len() {
            return Err(Error::StorageOverflow);
        }
        let ghost slashes = self.pending_slashes.deep_view();
        let ghost rewards = self.pending_rewards.deep_view();
        let ghost due_slashes = absent.deep_view();
        let ghost due_rewards = voted.deep_view();
        self.pending_slashes.append(&mut absent);
        self.pending_rewards.append(&mut voted);
        assert(self.pending_slashes.deep_view() =~= slashes + due_slashes);
        assert(self.pending_rewards.deep_view() =~= rewards + due_rewards);
        match self.disputes.remove(&content_id) {
            Some(mut session) => {
                session.ended_at = Some(now);
                self.disputes.insert(content_id, session);
            },
            None => {},
        }
        proof {
            let session = s0.disputes[id];
            let ended = SessionView { ended_at: Some(now), ..session };
            assert(self@.disputes =~= s0.disputes.insert(id, ended));
            assert(self@.jury_selection == s0.jury_selection);
            assert(self@.escalated_sessions == s0.escalated_sessions);
            assert(ended.fits(s0.config));
            assert forall|other: ContentIdView| #[trigger]
                self@.disputes.contains_key(other) implies self@.disputes[other].fits(
                self@.config,
            ) by {
                if other != id {
                    assert(s0.disputes.contains_key(other));
                }
            }
        }
        Ok(())
    }

    /// The transfers to attempt before [`Pallet::on_initialize`] is called with
    /// the same randomness: one for each juror with an account among the
    /// entries that the block can serve.
    pub fn settlement_plan(&self, random: &[u8]) -> (plan: Vec<Transfer>)
        requires
            self.wf(),
        ensures
            plan.deep_view() == planned(self@, random@),
    {
        let punish = even_byte_sum(random);
        let queue = if punish {
            &self.pending_slashes
        } else {
            &self.pending_rewards
        };
        let budget = self.config.batch_reward_size;
        let ghost admins = self.juror_admins.model();
        let ghost total = tick_served(self@, random@);
        let ghost done: Seq<(Seq<u8>, AccountId)> = Seq::empty();
        let mut plan: Vec<Transfer> = Vec::new();
        let mut n: u32 = 0;
        let mut k: usize = queue.len();
        assert(queue.deep_view().take(k as int) =~= queue.deep_view());
        assert(done + total =~= total);
        while n < budget && k > 0
            invariant
                self.wf(),
                admins == self.juror_admins.model(),
                punish == punishes(random@),
                n <= budget,
                k <= queue@.len(),
                total == done + to_serve(
                    queue.deep_view().take(k as int),
                    admins,
                    (budget - n) as nat,
                ),
                plan@.len() == done.len(),
                forall|i: int|
                    0 <= i < done.len() ==> #[trigger] plan.deep_view()[i] == transfer_for(
                        self@,
                        random@,
                        done[i].0,
                        done[i].1,
                    ),
            decreases k,
        {
            let ghost shown = queue.deep_view().take(k as int);
            k -= 1;
            assert(shown.drop_last() =~= queue.deep_view().take(k as int));
            assert(shown.last() == queue@[k as int].deep_view());
            let juror = &queue[k];
            match self.juror_admins.get(juror) {
                Some(account) => {
                    let call = if punish {
                        LedgerCall::BurnFrom {
                            who: *account,
                            amount: self.config.slash_amount,
                            preservation: Preservation::Expendable,
                            precision: Precision::BestEffort,
                            fortitude: Fortitude::Force,
                        }
                    } else {
                        LedgerCall::MintInto { who: *account, amount: self.config.reward_amount }
                    };
                    let ghost before = plan.deep_view();
                    plan.push(Transfer { juror: clone_did(juror), call });
                    proof {
                        let pair = (shown.last(), admins[shown.last()]);
                        let later = to_serve(shown.drop_last(), admins, (budget - n - 1) as nat);
                        assert(done + (seq![pair] + later) =~= done.push(pair) + later);
                        assert(plan.deep_view() =~= before.push(
                            transfer_for(self@, random@, pair.0, pair.1),
                        ));
                        done = done.push(pair);
                    }
                },
                None => {},
            }
            n += 1;
        }
        assert(done + Seq::<(Seq<u8>, AccountId)>::empty() =~= done);
        assert(plan.deep_view() =~= planned(self@, random@));
        plan
    }

    /// Settles one block.  The parity of the sum of `random` decides whether the
    /// block slashes or rewards.  At most `batch_reward_size` entries leave the
    /// back of the chosen queue; `outcomes` tells, transfer by transfer, whether
    /// the ledger carried it out.  A juror whose slash failed leaves the roster;
    /// a juror whose reward failed goes back to the reward queue.  Returns how
    /// many entries were served.
    pub fn on_initialize(&mut self, random: &[u8], outcomes: &[bool]) -> (processed: u32)
        requires
            old(self).wf(),
        ensures
            final(self).wf(),
            final(self)@ == tick_next(old(self)@, random@, outcomes@),
            processed == tick_processed(old(self)@, random@, outcomes@),
            processed <= old(self)@.config.batch_reward_size,
    {
        let budget = self.config.batch_reward_size;
        let ghost s0 = self@;
        proof {
            lemma_serve_bounds(
                self@.pending_slashes,
                self@.juror_admins,
                outcomes@,
                budget as nat,
            );
            lemma_serve_bounds(
                self@.pending_rewards,
                self@.juror_admins,
                outcomes@,
                budget as nat,
            );
        }
        if even_byte_sum(random) {
            let (processed, failed) = drain(
                &mut self.pending_slashes,
                &self.juror_admins,
                outcomes,
                budget,
            );
            let ghost roster = self.jurors.deep_view();
            strike(&mut self.jurors, &failed);
            assert(self.jurors.deep_view().len() <= roster.len());
            assert(self@.disputes == s0.disputes);
            assert(self@.jury_selection == s0.jury_selection);
            assert(self@.escalated_sessions == s0.escalated_sessions);
            processed
        } else {
            let (processed, mut failed) = drain(
                &mut self.pending_rewards,
                &self.juror_admins,
                outcomes,
                budget,
            );
            let ghost rest = self.pending_rewards.deep_view();
            let ghost again = failed.deep_view();
            self.pending_rewards.append(&mut failed);
            assert(self.pending_rewards.deep_view() =~= rest + again);
            assert(self@.disputes == s0.disputes);
            assert(self@.jury_selection == s0.jury_selection);
            assert(self@.escalated_sessions == s0.escalated_sessions);
            processed
        }
    }
}

} // verus!
