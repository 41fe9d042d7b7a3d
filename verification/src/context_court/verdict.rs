//! The tally of a session: majority rule, with escalation on a tie.

use vstd::prelude::*;
use crate::context_court::{
    CourtView, Decision, Error, Escalated, EscalatedView, Pallet, SessionView, VerdictView, Vote,
    VoteRegistry, VoteView,
};
use crate::types::{BlockNumber, ContentId, ContentIdView};

verus! {

/// How many of `votes` are "Yay".
pub open spec fn yay_count(votes: Seq<VoteView>) -> nat
    decreases votes.len(),
{
    if votes.len() == 0 {
        0
    } else {
        yay_count(votes.drop_last()) + if votes.last().vote == Vote::Yay {
            1nat
        } else {
            0nat
        }
    }
}

/// What a tally comes to.
pub enum Ruling {
    /// The "Yay" votes are more than half of the votes, rounded down.
    Convict,
    /// The "Yay" votes are fewer than half of the votes, rounded down.
    Acquittal,
    /// The "Yay" votes are exactly half of the votes, rounded down.
    Escalate,
}

/// The ruling on `yays` "Yay" votes among `total` votes.
pub open spec fn majority(total: nat, yays: nat) -> Ruling {
    let threshold = total / 2;
    if yays == threshold {
        Ruling::Escalate
    } else if yays > threshold {
        Ruling::Convict
    } else {
        Ruling::Acquittal
    }
}

/// The ruling on `votes`.
pub open spec fn ruling(votes: Seq<VoteView>) -> Ruling {
    majority(votes.len(), yay_count(votes))
}

/// Counts the "Yay" votes.
pub fn count_yays(votes: &Vec<VoteRegistry>) -> (yays: usize)
    ensures
        yays == yay_count(votes.deep_view()),
        yays <= votes@.len(),
{
    let mut yays: usize = 0;
    let mut i: usize = 0;
    while i < votes.len()
        invariant
            i <= votes@.len(),
            yays <= i,
            yays == yay_count(votes.deep_view().take(i as int)),
        decreases votes@.len() - i,
    {
        assert(votes.deep_view().take(i + 1).drop_last() =~= votes.deep_view().take(i as int));
        match votes[i].vote {
            Vote::Yay => {
                yays += 1;
            },
            _ => {},
        }
        i += 1;
    }
    assert(votes.deep_view().take(votes@.len() as int) =~= votes.deep_view());
    yays
}

/// The ruling on the given votes.
pub fn rule(votes: &Vec<VoteRegistry>) -> (r: Ruling)
    ensures
        r == ruling(votes.deep_view()),
{
    let threshold = votes.len() / 2;
    let yays = count_yays(votes);
    if yays == threshold {
        Ruling::Escalate
    } else if yays > threshold {
        Ruling::Convict
    } else {
        Ruling::Acquittal
    }
}

/// Why the dispute `id` cannot be tallied at block `now`, if it cannot.
pub open spec fn tally_error(s: CourtView, id: ContentIdView, now: BlockNumber) -> Option<Error> {
    if s.decisions.contains_key(id) {
        None
    } else if !s.disputes.contains_key(id) {
        Some(Error::SessionNotFound)
    } else if now <= s.disputes[id].expires_at {
        Some(Error::SessionInProgress)
    } else if s.disputes[id].started_at is None {
        Some(Error::SessionHasNotStarted)
    } else if s.disputes[id].verdict.escalated {
        Some(Error::SessionEscalated)
    } else if s.disputes[id].verdict.votes.len() < 2 {
        Some(Error::NotEnoughVotes)
    } else if ruling(s.disputes[id].verdict.votes) is Escalate && s.escalated_disputes.len()
        >= s.config.max_jurors {
        Some(Error::StorageOverflow)
    } else {
        None
    }
}

/// The escalated round that a tie at block `now` opens.
pub open spec fn fresh_round(now: BlockNumber) -> EscalatedView {
    EscalatedView {
        escalated_at: Some(now),
        decision_at: None,
        decision: Decision::Pending,
        votes: Seq::empty(),
    }
}

/// The court after the dispute `id` was tallied at block `now`.  Where a
/// decision is recorded already, nothing changes.  A tie marks the session
/// as escalated, opens an escalated round and lists the dispute among the
/// escalated ones; any other count records the decision.
pub open spec fn tally_next(s: CourtView, id: ContentIdView, now: BlockNumber) -> CourtView {
    if s.decisions.contains_key(id) {
        s
    } else {
        let session = s.disputes[id];
        match ruling(session.verdict.votes) {
            Ruling::Escalate => CourtView {
                disputes: s.disputes.insert(
                    id,
                    SessionView {
                        verdict: VerdictView { escalated: true, ..session.verdict },
                        ..session
                    },
                ),
                escalated_sessions: s.escalated_sessions.insert(id, fresh_round(now)),
                escalated_disputes: s.escalated_disputes.push(id),
                ..s
            },
            Ruling::Convict => CourtView {
                decisions: s.decisions.insert(id, Decision::Convict),
                ..s
            },
            Ruling::Acquittal => CourtView {
                decisions: s.decisions.insert(id, Decision::Acquittal),
                ..s
            },
        }
    }
}

/// Majority rule: with `t` half of the votes, rounded down, the ruling is to
/// convict exactly when the "Yay" votes are more than `t`, to escalate
/// exactly when they are `t`, and to acquit exactly when they are fewer.
pub proof fn lemma_majority_rule(total: nat, yays: nat)
    ensures
        majority(total, yays) is Convict <==> yays > total / 2,
        majority(total, yays) is Escalate <==> yays == total / 2,
        majority(total, yays) is Acquittal <==> yays < total / 2,
{
}

/// A tally that goes through on a dispute without a decision follows the
/// majority rule: it records a conviction or an acquittal, or on a tie
/// records no decision, marks the session as escalated, opens an escalated
/// round and lists the dispute among the escalated ones.
pub proof fn lemma_tally_follows_majority(s: CourtView, id: ContentIdView, now: BlockNumber)
    requires
        tally_error(s, id, now) is None,
        !s.decisions.contains_key(id),
    ensures
        ({
            let votes = s.disputes[id].verdict.votes;
            let yays = yay_count(votes);
            let threshold = votes.len() / 2;
            let after = tally_next(s, id, now);
            &&& yays > threshold ==> after.decisions.contains_key(id) && after.decisions[id]
                == Decision::Convict
            &&& yays < threshold ==> after.decisions.contains_key(id) && after.decisions[id]
                == Decision::Acquittal
            &&& yays == threshold ==> !after.decisions.contains_key(id)
                && after.disputes[id].verdict.escalated && after.escalated_sessions.contains_key(
                id,
            ) && after.escalated_sessions[id] == fresh_round(now)
                && after.escalated_disputes.contains(id)
        }),
{
    let after = tally_next(s, id, now);
    if ruling(s.disputes[id].verdict.votes) is Escalate {
        assert(after.escalated_disputes[s.escalated_disputes.len() as int] == id);
    }
}

/// A tally is idempotent: on a dispute with a recorded decision it goes
/// through at any block and changes nothing.
pub proof fn lemma_tally_idempotent(s: CourtView, id: ContentIdView, now: BlockNumber)
    requires
        s.decisions.contains_key(id),
    ensures
        tally_error(s, id, now) is None,
        tally_next(s, id, now) == s,
{
}

/// A decision is written once: no tally, of this dispute or of another,
/// changes a decision that is recorded.
pub proof fn lemma_decision_is_kept(
    s: CourtView,
    id: ContentIdView,
    tallied: ContentIdView,
    now: BlockNumber,
)
    requires
        s.decisions.contains_key(id),
        tally_error(s, tallied, now) is None,
    ensures
        tally_next(s, tallied, now).decisions.contains_key(id),
        tally_next(s, tallied, now).decisions[id] == s.decisions[id],
{
}

/// After a tally that recorded a decision, a second tally goes through and
/// leaves the court, and so the decision, as the first one left it.
pub proof fn lemma_tally_twice(s: CourtView, id: ContentIdView, now: BlockNumber, later: BlockNumber)
    requires
        tally_error(s, id, now) is None,
        tally_next(s, id, now).decisions.contains_key(id),
    ensures
        tally_error(tally_next(s, id, now), id, later) is None,
        tally_next(tally_next(s, id, now), id, later) == tally_next(s, id, now),
{
}

impl Pallet {
    /// Tallies the dispute `content_id` at block `now`.
    pub fn calculate_result(&mut self, now: BlockNumber, content_id: ContentId) -> (r: Result<
        (),
        Error,
    >)
        requires
            old(self).wf(),
        ensures
            final(self).wf(),
            match r {
                Ok(()) => tally_error(old(self)@, content_id@, now) is None && final(self)@
                    == tally_next(old(self)@, content_id@, now),
                Err(e) => tally_error(old(self)@, content_id@, now) == Some(e) && final(self)@
                    == old(self)@,
            },
    {
        let ghost s0 = self@;
        let ghost id = content_id@;
        if self.decisions.contains_key(&content_id) {
            return Ok(());
        }
        let verdict = match self.disputes.get(&content_id) {
            None => {
                return Err(Error::SessionNotFound);
            },
            Some(session) => {
                if now <= session.expires_at {
                    return Err(Error::SessionInProgress);
                }
                if session.started_at.is_none() {
                    return Err(Error::SessionHasNotStarted);
                }
                if session.verdict.escalated {
                    return Err(Error::SessionEscalated);
                }
                if session.verdict.votes.len() < 2 {
                    return Err(Error::NotEnoughVotes);
                }
                rule(&session.verdict.votes)
            },
        };
        match verdict {
            Ruling::Escalate => {
                if self.escalated_disputes.len() >= self.config.max_jurors as usize {
                    return Err(Error::StorageOverflow);
                }
                match self.disputes.remove(&content_id) {
                    Some(mut session) => {
                        session.verdict.escalated = true;
                        self.disputes.insert(content_id, session);
                    },
                    None => {},
                }
                let round = Escalated {
                    escalated_at: Some(now),
                    decision_at: None,
                    decision: Decision::Pending,
                    votes: Vec::new(),
                };
                assert(round@ =~= fresh_round(now)) by {
                    assert(round@.votes =~= Seq::empty());
                }
                self.escalated_sessions.insert(content_id, round);
                let ghost listed = self.escalated_disputes.deep_view();
                self.escalated_disputes.push(content_id);
                proof {
                    let session = s0.disputes[id];
                    let marked = SessionView {
                        verdict: VerdictView { escalated: true, ..session.verdict },
                        ..session
                    };
                    assert(self.escalated_disputes.deep_view() =~= listed.push(id));
                    assert(self@.disputes =~= s0.disputes.insert(id, marked));
                    assert(self@.jury_selection == s0.jury_selection);
                    assert(marked.fits(s0.config));
                    assert(fresh_round(now).fits(s0.config));
                    assert forall|other: ContentIdView| #[trigger]
                        self@.disputes.contains_key(other) implies self@.disputes[other].fits(
                        self@.config,
                    ) by {
                        if other != id {
                            assert(s0.disputes.contains_key(other));
                        }
                    }
                    assert forall|other: ContentIdView| #[trigger]
                        self@.escalated_sessions.contains_key(
                            other,
                        ) implies self@.escalated_sessions[other].fits(self@.config) by {
                        if other != id {
                            assert(s0.escalated_sessions.contains_key(other));
                        }
                    }
                }
            },
            Ruling::Convict => {
                self.decisions.insert(content_id, Decision::Convict);
                proof {
                    assert(self@.disputes == s0.disputes);
                    assert(self@.jury_selection == s0.jury_selection);
                    assert(self@.escalated_sessions == s0.escalated_sessions);
                }
            },
            Ruling::Acquittal => {
                self.decisions.insert(content_id, Decision::Acquittal);
                proof {
                    assert(self@.disputes == s0.disputes);
                    assert(self@.jury_selection == s0.jury_selection);
                    assert(self@.escalated_sessions == s0.escalated_sessions);
                }
            },
        }
        Ok(())
    }
}

} // verus!
