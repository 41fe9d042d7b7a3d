//! The escalated round: after a tie the dispute is put to the vote again,
//! open to every DID, and decided without a further escalation.

use vstd::prelude::*;
use crate::context_court::verdict::{count_yays, yay_count};
use crate::context_court::{
    capability_error, check_capability, has_voted, juror_voted, CourtView, Decision, Error,
    EscalatedView, Pallet, Vote, VoteRegistry, VoteView,
};
use crate::lists::{remove_first, without_first};
use crate::traits::DidManager;
use crate::types::{AccountId, BaseRight, BlockNumber, ContentId, ContentIdView, Did};

verus! {

/// Why `did` cannot vote in the escalated round of `id`, if it cannot;
/// `answer` is what the identity registry said of the caller.
pub open spec fn escalated_vote_error(
    s: CourtView,
    id: ContentIdView,
    did: Seq<u8>,
    answer: Option<bool>,
) -> Option<Error> {
    if capability_error(answer) is Some {
        capability_error(answer)
    } else if !s.escalated_sessions.contains_key(id) {
        Some(Error::SessionNotFound)
    } else if has_voted(s.escalated_sessions[id].votes, did) {
        Some(Error::JurorAlreadyVoted)
    } else if s.escalated_sessions[id].votes.len() >= s.config.max_jurors {
        Some(Error::StorageOverflow)
    } else {
        None
    }
}

/// The court after `did` voted in the escalated round of `id`: the vote is
/// the last of the round.
pub open spec fn escalated_vote_next(
    s: CourtView,
    id: ContentIdView,
    did: Seq<u8>,
    vote: Vote,
) -> CourtView {
    let round = s.escalated_sessions[id];
    CourtView {
        escalated_sessions: s.escalated_sessions.insert(
            id,
            EscalatedView { votes: round.votes.push(VoteView { juror: did, vote }), ..round },
        ),
        ..s
    }
}

/// The last block of the voting period of the round: the period counts
/// from the block of the escalation.
pub open spec fn voting_deadline(s: CourtView, round: EscalatedView) -> int {
    s.config.escalated_voting_period + match round.escalated_at {
        Some(start) => start as int,
        None => 0,
    }
}

/// The decision on the votes of an escalated round: a conviction where the
/// "Yay" votes are more than half of the votes, rounded down, else an
/// acquittal.
pub open spec fn final_decision(votes: Seq<VoteView>) -> Decision {
    if yay_count(votes) > votes.len() / 2 {
        Decision::Convict
    } else {
        Decision::Acquittal
    }
}

/// Why the escalated round of `id` cannot be tallied at block `now`, if it
/// cannot.
pub open spec fn escalated_tally_error(s: CourtView, id: ContentIdView, now: BlockNumber) -> Option<
    Error,
> {
    if s.decisions.contains_key(id) {
        None
    } else if !s.escalated_sessions.contains_key(id) {
        Some(Error::SessionNotFound)
    } else if now <= voting_deadline(s, s.escalated_sessions[id]) {
        Some(Error::SessionInProgress)
    } else if s.escalated_sessions[id].votes.len() < 2 {
        Some(Error::NotEnoughVotes)
    } else {
        None
    }
}

/// The court after the escalated round of `id` was tallied at block `now`.
/// Where a decision is recorded already, nothing changes.
pub open spec fn escalated_tally_next(s: CourtView, id: ContentIdView, now: BlockNumber) -> CourtView {
    if s.decisions.contains_key(id) {
        s
    } else {
        let round = s.escalated_sessions[id];
        let decision = final_decision(round.votes);
        CourtView {
            decisions: s.decisions.insert(id, decision),
            escalated_sessions: s.escalated_sessions.insert(
                id,
                EscalatedView { decision_at: Some(now), decision, ..round },
            ),
            escalated_disputes: without_first(s.escalated_disputes, id),
            ..s
        }
    }
}

/// A DID with a vote in an escalated round is refused a further one because
/// the juror has voted, whenever the caller holds the right to dispute.
pub proof fn lemma_escalated_voter_is_refused(s: CourtView, id: ContentIdView, did: Seq<u8>)
    requires
        s.escalated_sessions.contains_key(id),
        has_voted(s.escalated_sessions[id].votes, did),
    ensures
        escalated_vote_error(s, id, did, Some(true)) == Some(Error::JurorAlreadyVoted),
{
}

/// A DID votes once in an escalated round: after its vote went through, a
/// further vote of a caller with the right to dispute is refused because the
/// juror has voted.
pub proof fn lemma_escalated_vote_once(s: CourtView, id: ContentIdView, did: Seq<u8>, vote: Vote)
    requires
        escalated_vote_error(s, id, did, Some(true)) is None,
    ensures
        escalated_vote_error(escalated_vote_next(s, id, did, vote), id, did, Some(true)) == Some(
            Error::JurorAlreadyVoted,
        ),
{
    let votes = escalated_vote_next(s, id, did, vote).escalated_sessions[id].votes;
    assert(votes[votes.len() - 1].juror == did);
}

/// The tally of an escalated round is idempotent: on a dispute with a
/// recorded decision it goes through at any block and changes nothing.
pub proof fn lemma_escalated_tally_idempotent(s: CourtView, id: ContentIdView, now: BlockNumber)
    requires
        s.decisions.contains_key(id),
    ensures
        escalated_tally_error(s, id, now) is None,
        escalated_tally_next(s, id, now) == s,
{
}

/// A decision is written once: no tally of an escalated round, of this
/// dispute or of another, changes a decision that is recorded.
pub proof fn lemma_escalated_decision_is_kept(
    s: CourtView,
    id: ContentIdView,
    tallied: ContentIdView,
    now: BlockNumber,
)
    requires
        s.decisions.contains_key(id),
        escalated_tally_error(s, tallied, now) is None,
    ensures
        escalated_tally_next(s, tallied, now).decisions.contains_key(id),
        escalated_tally_next(s, tallied, now).decisions[id] == s.decisions[id],
{
}

impl Pallet {
    /// Casts the vote of `did` in the escalated round of `content_id`.  The
    /// caller `who` must hold the right to dispute for `did`; the round is open
    /// to every such DID, once.
    pub fn vote_escalated_content<R: DidManager>(
        &mut self,
        registry: &R,
        now: BlockNumber,
        who: AccountId,
        did: Did,
        content_id: ContentId,
        vote: Vote,
    ) -> (r: Result<(), Error>)
        requires
            old(self).wf(),
            registry.wf(),
        ensures
            final(self).wf(),
            ({
                let answer = registry.signer_valid(now, who, did.deep_view(), BaseRight::Dispute);
                match r {
                    Ok(()) => escalated_vote_error(old(self)@, content_id@, did.deep_view(), answer)
                        is None && final(self)@ == escalated_vote_next(
                        old(self)@,
                        content_id@,
                        did.deep_view(),
                        vote,
                    ),
                    Err(e) => escalated_vote_error(old(self)@, content_id@, did.deep_view(), answer)
                        == Some(e) && final(self)@ == old(self)@,
                }
            }),
    {
        let ghost s0 = self@;
        let ghost id = content_id@;
        match check_capability(registry, now, who, &did) {
            Err(e) => {
                return Err(e);
            },
            Ok(()) => {},
        }
        match self.escalated_sessions.get(&content_id) {
            None => {
                return Err(Error::SessionNotFound);
            },
            Some(round) => {
                if juror_voted(&round.votes, &did) {
                    return Err(Error::JurorAlreadyVoted);
                }
                if round.votes.len() >= self.config.max_jurors as usize {
                    return Err(Error::StorageOverflow);
                }
            },
        }
        match self.escalated_sessions.remove(&content_id) {
            Some(mut round) => {
                let ghost votes = round.votes.deep_view();
                round.votes.push(VoteRegistry { juror: did, vote });
                assert(round.votes.deep_view() =~= votes.push(
                    VoteView { juror: did.deep_view(), vote },
                ));
                self.escalated_sessions.insert(content_id, round);
            },
            None => {},
        }
        proof {
            let round = s0.escalated_sessions[id];
            let voted = EscalatedView {
                votes: round.votes.push(VoteView { juror: did.deep_view(), vote }),
                ..round
            };
            assert(self@.escalated_sessions =~= s0.escalated_sessions.insert(id, voted));
            assert(self@.disputes == s0.disputes);
            assert(self@.jury_selection == s0.jury_selection);
            assert(voted.fits(s0.config));
            assert forall|other: ContentIdView| #[trigger]
                self@.escalated_sessions.contains_key(
                    other,
                ) implies self@.escalated_sessions[other].fits(self@.config) by {
                if other != id {
                    assert(s0.escalated_sessions.contains_key(other));
                }
            }
        }
        Ok(())
    }

    /// Tallies the escalated round of `content_id` at block `now`, once its
    /// voting period is over.
    pub fn calculate_escalated_result(&mut self, now: BlockNumber, content_id: ContentId) -> (r:
        Result<(), Error>)
        requires
            old(self).wf(),
        ensures
            final(self).wf(),
            match r {
                Ok(()) => escalated_tally_error(old(self)@, content_id@, now) is None && final(self)@ == escalated_tally_next(old(self)@, content_id@, now),
                Err(e) => escalated_tally_error(old(self)@, content_id@, now) == Some(e) && final(self)@ == old(self)@,
            },
    {
        let ghost s0 = self@;
        let ghost id = content_id@;
        if self.decisions.contains_key(&content_id) {
            return Ok(());
        }
        let decision = match self.escalated_sessions.get(&content_id) {
            None => {
                return Err(Error::SessionNotFound);
            },
            Some(round) => {
                let start: u64 = match round.escalated_at {
                    Some(at) => at,
                    None => 0,
                };
                let deadline: u128 = start as u128 + self.config.escalated_voting_period as u128;
                if now as u128 <= deadline {
                    return Err(Error::SessionInProgress);
                }
                if round.votes.len() < 2 {
                    return Err(Error::NotEnoughVotes);
                }
                if count_yays(&round.votes) > round.votes.len() / 2 {
                    Decision::Convict
                } else {
                    Decision::Acquittal
                }
            },
        };
        self.decisions.insert(content_id, decision);
        match self.escalated_sessions.remove(&content_id) {
            Some(mut round) => {
                round.decision_at = Some(now);
                round.decision = decision;
                self.escalated_sessions.insert(content_id, round);
            },
            None => {},
        }
        remove_first(&mut self.escalated_disputes, &content_id);
        proof {
            let round = s0.escalated_sessions[id];
            let decided = EscalatedView { decision_at: Some(now), decision, ..round };
            assert(self@.escalated_sessions =~= s0.escalated_sessions.insert(id, decided));
            assert(self@.disputes == s0.disputes);
            assert(self@.jury_selection == s0.jury_selection);
            assert(decided.fits(s0.config));
            assert forall|other: ContentIdView| #[trigger]
                self@.escalated_sessions.contains_key(
                    other,
                ) implies self@.escalated_sessions[other].fits(self@.config) by {
                if other != id {
                    assert(s0.escalated_sessions.contains_key(other));
                }
            }
        }
        Ok(())
    }
}

} // verus!
