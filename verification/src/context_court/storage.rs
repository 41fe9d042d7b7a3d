//! Reading what the court has recorded, and recording it directly.

use vstd::prelude::*;
use crate::context_court::{
    distinct_voters, CourtSession, CourtView, Decision, Error, Escalated, EscalatedView, Pallet,
    SessionView, VoteRegistry,
};
use crate::types::{AccountId, ContentId, ContentIdView, Did};

verus! {

/// Whether no two of `votes` come from the same juror.
pub fn votes_distinct(votes: &Vec<VoteRegistry>) -> (distinct: bool)
    ensures
        distinct == distinct_voters(votes.deep_view()),
{
    let mut i: usize = 0;
    while i < votes.len()
        invariant
            i <= votes@.len(),
            distinct_voters(votes.deep_view().take(i as int)),
        decreases votes@.len() - i,
    {
        let ghost all = votes.deep_view();
        let mut k: usize = 0;
        while k < i
            invariant
                k <= i,
                i < votes@.len(),
                all == votes.deep_view(),
                forall|j: int| 0 <= j < k ==> all[j].juror != all[i as int].juror,
            decreases i - k,
        {
            if crate::table::Key::same(&votes[k].juror, &votes[i].juror) {
                assert(all[k as int].juror == all[i as int].juror);
                assert(!distinct_voters(all));
                return false;
            }
            k += 1;
        }
        let ghost seen = all.take(i as int);
        let ghost next = all.take(i + 1);
        assert forall|a: int, b: int| 0 <= a < b < next.len() implies next[a].juror
            != next[b].juror by {
            if b < i {
                assert(seen[a].juror != seen[b].juror);
            }
        }
        i += 1;
    }
    assert(votes.deep_view().take(votes@.len() as int) =~= votes.deep_view());
    true
}

/// Why `session` cannot be recorded under the limits of `s`, if it cannot.
pub open spec fn session_error(s: CourtView, session: SessionView) -> Option<Error> {
    if session.jurors.len() > s.config.max_jurors_per_dispute || session.verdict.votes.len()
        > s.config.max_jurors_per_dispute || session.context.len()
        > s.config.max_context_length {
        Some(Error::StorageOverflow)
    } else if !distinct_voters(session.verdict.votes) {
        Some(Error::JurorAlreadyVoted)
    } else {
        None
    }
}

/// Why `round` cannot be recorded under the limits of `s`, if it cannot.
pub open spec fn round_error(s: CourtView, round: EscalatedView) -> Option<Error> {
    if round.votes.len() > s.config.max_jurors {
        Some(Error::StorageOverflow)
    } else if !distinct_voters(round.votes) {
        Some(Error::JurorAlreadyVoted)
    } else {
        None
    }
}

impl Pallet {
    /// The roster, in the order of registration.
    pub fn jurors(&self) -> (list: &Vec<Did>)
        ensures
            list.deep_view() == self@.jurors,
    {
        &self.jurors
    }

    /// The disputes whose escalated round is open.
    pub fn get_all_escalated_dispute(&self) -> (list: &Vec<ContentId>)
        ensures
            list.deep_view() == self@.escalated_disputes,
    {
        &self.escalated_disputes
    }

    /// The jurors that wait to be slashed.
    pub fn pending_slashes(&self) -> (list: &Vec<Did>)
        ensures
            list.deep_view() == self@.pending_slashes,
    {
        &self.pending_slashes
    }

    /// The jurors that wait to be rewarded.
    pub fn pending_rewards(&self) -> (list: &Vec<Did>)
        ensures
            list.deep_view() == self@.pending_rewards,
    {
        &self.pending_rewards
    }

    /// The account that answers for the juror `did`.
    pub fn get_juror_native_account(&self, did: &Did) -> (r: Option<AccountId>)
        requires
            self.wf(),
        ensures
            r == if self@.juror_admins.contains_key(did.deep_view()) {
                Some(self@.juror_admins[did.deep_view()])
            } else {
                None
            },
    {
        match self.juror_admins.get(did) {
            Some(account) => Some(*account),
            None => None,
        }
    }

    /// How many jurors were summoned to `content_id`, where a count is kept.
    pub fn get_amount_of_jury_summoned_for_dispute(&self, content_id: &ContentId) -> (r: Option<u32>)
        requires
            self.wf(),
        ensures
            r == if self@.jury_summoned.contains_key(content_id@) {
                Some(self@.jury_summoned[content_id@])
            } else {
                None
            },
    {
        match self.jury_summoned.get(content_id) {
            Some(n) => Some(*n),
            None => None,
        }
    }

    /// The session of the dispute over `content_id`.
    pub fn get_dispute(&self, content_id: &ContentId) -> (r: Option<&CourtSession>)
        requires
            self.wf(),
        ensures
            match r {
                Some(session) => self@.disputes.contains_key(content_id@) && session@
                    == self@.disputes[content_id@],
                None => !self@.disputes.contains_key(content_id@),
            },
    {
        self.disputes.get(content_id)
    }

    /// Whether a dispute over `content_id` was opened.
    pub fn has_dispute(&self, content_id: &ContentId) -> (has: bool)
        requires
            self.wf(),
        ensures
            has == self@.disputes.contains_key(content_id@),
    {
        self.disputes.contains_key(content_id)
    }

    /// The decision recorded for `content_id`.
    pub fn get_decision(&self, content_id: &ContentId) -> (r: Option<Decision>)
        requires
            self.wf(),
        ensures
            r == if self@.decisions.contains_key(content_id@) {
                Some(self@.decisions[content_id@])
            } else {
                None
            },
    {
        match self.decisions.get(content_id) {
            Some(decision) => Some(*decision),
            None => None,
        }
    }

    /// The escalated round of the dispute over `content_id`.
    pub fn get_escalated_dispute(&self, content_id: &ContentId) -> (r: Option<&Escalated>)
        requires
            self.wf(),
        ensures
            match r {
                Some(round) => self@.escalated_sessions.contains_key(content_id@) && round@
                    == self@.escalated_sessions[content_id@],
                None => !self@.escalated_sessions.contains_key(content_id@),
            },
    {
        self.escalated_sessions.get(content_id)
    }

    /// The jurors selected for `content_id` that wait for the deliberation.
    pub fn jury_selection(&self, content_id: &ContentId) -> (list: Vec<Did>)
        requires
            self.wf(),
        ensures
            list.deep_view() == self@.selection(content_id@),
    {
        match self.jury_selection.get(content_id) {
            Some(list) => crate::lists::clone_dids(list),
            None => {
                let list: Vec<Did> = Vec::new();
                assert(list.deep_view() =~= Seq::<Seq<u8>>::empty());
                list
            },
        }
    }

    /// Whether `did` is on duty for `content_id`.
    pub fn is_on_duty(&self, did: &Did, content_id: &ContentId) -> (on_duty: bool)
        requires
            self.wf(),
        ensures
            on_duty == self@.on_duty(did.deep_view(), content_id@),
    {
        let key = (crate::lists::clone_did(did), *content_id);
        self.jury_duty.contains_key(&key)
    }

    /// Records `session` as the session of `content_id`, in place of any
    /// other.  Refused where the session passes a limit of the court or holds
    /// two votes of one juror.
    pub fn insert_dispute(&mut self, content_id: ContentId, session: CourtSession) -> (r: Result<
        (),
        Error,
    >)
        requires
            old(self).wf(),
        ensures
            final(self).wf(),
            match r {
                Ok(()) => session_error(old(self)@, session@) is None && final(self)@ == (CourtView {
                    disputes: old(self)@.disputes.insert(content_id@, session@),
                    ..old(self)@
                }),
                Err(e) => session_error(old(self)@, session@) == Some(e) && final(self)@ == old(
                    self,
                )@,
            },
    {
        let ghost s0 = self@;
        let cap = self.config.max_jurors_per_dispute as usize;
        if session.jurors.len() > cap || session.verdict.votes.len() > cap || session.context.len()
            > self.config.max_context_length as usize {
            return Err(Error::StorageOverflow);
        }
        if !votes_distinct(&session.verdict.votes) {
            return Err(Error::JurorAlreadyVoted);
        }
        self.disputes.insert(content_id, session);
        proof {
            assert(self@.jury_selection == s0.jury_selection);
            assert(self@.escalated_sessions == s0.escalated_sessions);
            assert forall|other: ContentIdView| #[trigger]
                self@.disputes.contains_key(other) implies self@.disputes[other].fits(
                self@.config,
            ) by {
                if other != content_id@ {
                    assert(s0.disputes.contains_key(other));
                }
            }
        }
        Ok(())
    }

    /// Records `round` as the escalated round of `content_id`, in place of any
    /// other.  Refused where it holds more votes than the roster has room
    /// for, or two votes of one juror.
    pub fn insert_escalated_session(&mut self, content_id: ContentId, round: Escalated) -> (r:
        Result<(), Error>)
        requires
            old(self).wf(),
        ensures
            final(self).wf(),
            match r {
                Ok(()) => round_error(old(self)@, round@) is None && final(self)@ == (CourtView {
                    escalated_sessions: old(self)@.escalated_sessions.insert(content_id@, round@),
                    ..old(self)@
                }),
                Err(e) => round_error(old(self)@, round@) == Some(e) && final(self)@ == old(self)@,
            },
    {
        let ghost s0 = self@;
        if round.votes.len() > self.config.max_jurors as usize {
            return Err(Error::StorageOverflow);
        }
        if !votes_distinct(&round.votes) {
            return Err(Error::JurorAlreadyVoted);
        }
        self.escalated_sessions.insert(content_id, round);
        proof {
            assert(self@.jury_selection == s0.jury_selection);
            assert(self@.disputes == s0.disputes);
            assert forall|other: ContentIdView| #[trigger]
                self@.escalated_sessions.contains_key(
                    other,
                ) implies self@.escalated_sessions[other].fits(self@.config) by {
                if other != content_id@ {
                    assert(s0.escalated_sessions.contains_key(other));
                }
            }
        }
        Ok(())
    }

    /// Records `jurors` as the jurors selected for `content_id`.  Refused where
    /// they are more than a dispute may have.
    pub fn insert_jury_selection(&mut self, content_id: ContentId, jurors: Vec<Did>) -> (r: Result<
        (),
        Error,
    >)
        requires
            old(self).wf(),
        ensures
            final(self).wf(),
            match r {
                Ok(()) => jurors@.len() <= old(self)@.config.max_jurors_per_dispute && final(self)@
                    == (CourtView {
                    jury_selection: old(self)@.jury_selection.insert(
                        content_id@,
                        jurors.deep_view(),
                    ),
                    ..old(self)@
                }),
                Err(e) => jurors@.len() > old(self)@.config.max_jurors_per_dispute && e
                    == Error::StorageOverflow && final(self)@ == old(self)@,
            },
    {
        let ghost s0 = self@;
        if jurors.len() > self.config.max_jurors_per_dispute as usize {
            return Err(Error::StorageOverflow);
        }
        self.jury_selection.insert(content_id, jurors);
        proof {
            assert(self@.disputes == s0.disputes);
            assert(self@.escalated_sessions == s0.escalated_sessions);
            assert forall|other: ContentIdView| #[trigger]
                self@.jury_selection.contains_key(other) implies self@.jury_selection[other].len()
                <= self@.config.max_jurors_per_dispute by {
                if other != content_id@ {
                    assert(s0.jury_selection.contains_key(other));
                }
            }
        }
        Ok(())
    }

    /// Marks `did` as on duty for `content_id`.
    pub fn insert_jury_duty(&mut self, did: Did, content_id: ContentId)
        requires
            old(self).wf(),
        ensures
            final(self).wf(),
            final(self)@ == (CourtView {
                jury_duty: old(self)@.jury_duty.insert((did.deep_view(), content_id@), true),
                ..old(self)@
            }),
    {
        let ghost s0 = self@;
        self.jury_duty.insert((did, content_id), true);
        proof {
            assert(self@.disputes == s0.disputes);
            assert(self@.jury_selection == s0.jury_selection);
            assert(self@.escalated_sessions == s0.escalated_sessions);
        }
    }

    /// Records that `count` jurors were summoned to `content_id`.
    pub fn insert_jury_summoned(&mut self, content_id: ContentId, count: u32)
        requires
            old(self).wf(),
        ensures
            final(self).wf(),
            final(self)@ == (CourtView {
                jury_summoned: old(self)@.jury_summoned.insert(content_id@, count),
                ..old(self)@
            }),
    {
        let ghost s0 = self@;
        self.jury_summoned.insert(content_id, count);
        proof {
            assert(self@.disputes == s0.disputes);
            assert(self@.jury_selection == s0.jury_selection);
            assert(self@.escalated_sessions == s0.escalated_sessions);
        }
    }
}

} // verus!
