//! The life of a dispute before its tally: it is opened, its jury is
//! completed, jurors may be excused, deliberation starts, and jurors vote.

use vstd::prelude::*;
use crate::context_court::ledger::{fee_call, Fortitude, LedgerCall, Precision, Preservation};
use crate::context_court::summon::{summon_attempt, summon_error, summon_next};
use crate::context_court::{
    capability_error, check_capability, has_voted, juror_voted, CourtSession, CourtView, Error,
    Pallet, SessionView, Verdict, VerdictView, Vote, VoteRegistry, VoteView,
};
use crate::lists::{contains, remove_first, without_first};
use crate::traits::DidManager;
use crate::types::{AccountId, BaseRight, BlockNumber, ContentId, ContentIdView, Did};

verus! {

/// The session of a dispute that was just opened.
pub open spec fn opened(context: Seq<u8>, expires_at: BlockNumber) -> SessionView {
    SessionView {
        jurors: Seq::empty(),
        started_at: None,
        ended_at: None,
        verdict: VerdictView::fresh(),
        context,
        expires_at,
    }
}

/// Why no dispute over `id` can be opened, if none can; `answer` is what the
/// identity registry said of the caller.
pub open spec fn dispute_error(
    s: CourtView,
    id: ContentIdView,
    context: Seq<u8>,
    answer: Option<bool>,
    random: Seq<u8>,
) -> Option<Error> {
    if s.disputes.contains_key(id) {
        Some(Error::ContentAlreadyExists)
    } else if capability_error(answer) is Some {
        capability_error(answer)
    } else if context.len() > s.config.max_context_length {
        Some(Error::StorageOverflow)
    } else {
        summon_error(s, id, random)
    }
}

/// The court after a dispute over `id` was opened: a first draw has summoned
/// jurors, and the session is recorded, not started.
pub open spec fn dispute_next(
    s: CourtView,
    id: ContentIdView,
    context: Seq<u8>,
    expires_at: BlockNumber,
    random: Seq<u8>,
) -> CourtView {
    let summoned = summon_next(s, id, random);
    CourtView { disputes: summoned.disputes.insert(id, opened(context, expires_at)), ..summoned }
}

/// Why the deliberation on `id` cannot start at block `now`, if it cannot.
pub open spec fn start_error(s: CourtView, id: ContentIdView, now: BlockNumber) -> Option<Error> {
    if !s.disputes.contains_key(id) {
        Some(Error::SessionNotFound)
    } else if now >= s.disputes[id].expires_at {
        Some(Error::SessionHasEnded)
    } else if s.disputes[id].started_at is Some {
        Some(Error::SessionALreadyStarted)
    } else if s.summoned(id) < s.config.min_jurors_per_dispute {
        Some(Error::JuryReqNotMet)
    } else {
        None
    }
}

/// The court after the deliberation on `id` started at block `now`: the
/// selected jurors are the jurors of the session, and no selection is left.
pub open spec fn start_next(s: CourtView, id: ContentIdView, now: BlockNumber) -> CourtView {
    let session = s.disputes[id];
    CourtView {
        disputes: s.disputes.insert(
            id,
            SessionView { jurors: s.selection(id), started_at: Some(now), ..session },
        ),
        jury_selection: s.jury_selection.remove(id),
        ..s
    }
}

/// The court after an attempt to start the deliberation on `id`.  Where too
/// few jurors were summoned, the attempt summons more by the draw `random`
/// and is refused; any other refusal changes nothing.
pub open spec fn start_attempt(
    s: CourtView,
    id: ContentIdView,
    now: BlockNumber,
    random: Seq<u8>,
) -> CourtView {
    match start_error(s, id, now) {
        None => start_next(s, id, now),
        Some(Error::JuryReqNotMet) => summon_attempt(s, id, random),
        Some(_) => s,
    }
}

/// Why `did` cannot be excused from `id` at block `now`, if it cannot.
pub open spec fn exclude_error(
    s: CourtView,
    id: ContentIdView,
    now: BlockNumber,
    answer: Option<bool>,
) -> Option<Error> {
    if capability_error(answer) is Some {
        capability_error(answer)
    } else if !s.disputes.contains_key(id) {
        Some(Error::SessionNotFound)
    } else if now >= s.disputes[id].expires_at {
        Some(Error::SessionHasEnded)
    } else if s.disputes[id].started_at is Some {
        Some(Error::SessionALreadyStarted)
    } else {
        None
    }
}

/// The court after `did` was excused from `id`: the juror is not on duty for
/// `id` and not selected, and one juror fewer counts as summoned (none
/// fewer where the count is zero).
pub open spec fn exclude_next(s: CourtView, id: ContentIdView, did: Seq<u8>) -> CourtView {
    CourtView {
        jury_duty: s.jury_duty.remove((did, id)),
        jury_summoned: s.jury_summoned.insert(
            id,
            if s.summoned(id) > 0 {
                (s.summoned(id) - 1) as u32
            } else {
                0
            },
        ),
        jury_selection: s.jury_selection.insert(id, without_first(s.selection(id), did)),
        ..s
    }
}

/// Why `did` cannot vote on `id`, if it cannot.
pub open spec fn vote_error(
    s: CourtView,
    id: ContentIdView,
    did: Seq<u8>,
    answer: Option<bool>,
) -> Option<Error> {
    if capability_error(answer) is Some {
        capability_error(answer)
    } else if !s.disputes.contains_key(id) {
        Some(Error::SessionNotFound)
    } else if s.disputes[id].started_at is None {
        Some(Error::SessionHasNotStarted)
    } else if !s.disputes[id].jurors.contains(did) {
        Some(Error::JurorNotInSession)
    } else if has_voted(s.disputes[id].verdict.votes, did) {
        Some(Error::JurorAlreadyVoted)
    } else if s.disputes[id].verdict.votes.len() >= s.config.max_jurors_per_dispute {
        Some(Error::StorageOverflow)
    } else {
        None
    }
}

/// The court after `did` voted on `id`: the vote is the last of the session.
pub open spec fn vote_next(s: CourtView, id: ContentIdView, did: Seq<u8>, vote: Vote) -> CourtView {
    let session = s.disputes[id];
    CourtView {
        disputes: s.disputes.insert(
            id,
            SessionView {
                verdict: VerdictView {
                    votes: session.verdict.votes.push(VoteView { juror: did, vote }),
                    ..session.verdict
                },
                ..session
            },
        ),
        ..s
    }
}

/// A dispute over a content with a session is refused because the content
/// is disputed already, whoever asks, whatever the context and the draw.
pub proof fn lemma_disputed_content_is_refused(
    s: CourtView,
    id: ContentIdView,
    context: Seq<u8>,
    answer: Option<bool>,
    random: Seq<u8>,
)
    requires
        s.disputes.contains_key(id),
    ensures
        dispute_error(s, id, context, answer, random) == Some(Error::ContentAlreadyExists),
{
}

/// A content has at most one session: the sessions are a map from content
/// identifiers, and once a dispute over a content is open, opening one
/// again is refused because the content is disputed already, whoever asks
/// and whatever the draw.
pub proof fn lemma_dispute_once(
    s: CourtView,
    id: ContentIdView,
    context: Seq<u8>,
    expires_at: BlockNumber,
    random: Seq<u8>,
    again_context: Seq<u8>,
    again_answer: Option<bool>,
    again_random: Seq<u8>,
)
    requires
        dispute_error(s, id, context, Some(true), random) is None,
    ensures
        dispute_error(
            dispute_next(s, id, context, expires_at, random),
            id,
            again_context,
            again_answer,
            again_random,
        ) == Some(Error::ContentAlreadyExists),
{
}

/// A juror with a vote in a started session is refused a further one
/// because the juror has voted, whenever the caller holds the right to
/// dispute.
pub proof fn lemma_voter_is_refused(s: CourtView, id: ContentIdView, did: Seq<u8>)
    requires
        s.disputes.contains_key(id),
        s.disputes[id].started_at is Some,
        s.disputes[id].jurors.contains(did),
        has_voted(s.disputes[id].verdict.votes, did),
    ensures
        vote_error(s, id, did, Some(true)) == Some(Error::JurorAlreadyVoted),
{
}

/// A juror votes once in a session: after its vote went through, a further
/// vote of a caller with the right to dispute is refused because the juror
/// has voted.
pub proof fn lemma_vote_once(s: CourtView, id: ContentIdView, did: Seq<u8>, vote: Vote)
    requires
        vote_error(s, id, did, Some(true)) is None,
    ensures
        vote_error(vote_next(s, id, did, vote), id, did, Some(true)) == Some(
            Error::JurorAlreadyVoted,
        ),
{
    let votes = vote_next(s, id, did, vote).disputes[id].verdict.votes;
    assert(votes[votes.len() - 1].juror == did);
}

/// A vote that goes through keeps the votes of the session distinct by juror.
pub proof fn lemma_vote_keeps_distinct(s: CourtView, id: ContentIdView, did: Seq<u8>, vote: Vote)
    requires
        s.inv(),
        vote_error(s, id, did, Some(true)) is None,
    ensures
        vote_next(s, id, did, vote).disputes[id].fits(s.config),
{
}

/// Below the quorum a deliberation does not start: on a session that is
/// open, not expired and not started, with fewer jurors summoned than the
/// minimum, the attempt is refused because the jury requirement is not met,
/// and the session stays without a start.
pub proof fn lemma_start_needs_quorum(
    s: CourtView,
    id: ContentIdView,
    now: BlockNumber,
    random: Seq<u8>,
)
    requires
        s.disputes.contains_key(id),
        now < s.disputes[id].expires_at,
        s.disputes[id].started_at is None,
        s.summoned(id) < s.config.min_jurors_per_dispute,
    ensures
        start_error(s, id, now) == Some(Error::JuryReqNotMet),
        start_attempt(s, id, now, random).disputes.contains_key(id),
        start_attempt(s, id, now, random).disputes[id].started_at is None,
{
}

impl Pallet {
    /// Opens a dispute over `content_id` on behalf of `did` and summons its
    /// first jurors by the draw `random`.  The caller `who` must hold the right
    /// to dispute for `did`; a content is disputed once.
    pub fn dispute_content<R: DidManager>(
        &mut self,
        registry: &R,
        now: BlockNumber,
        who: AccountId,
        did: Did,
        content_id: ContentId,
        context: Vec<u8>,
        expires_at: BlockNumber,
        random: &[u8],
    ) -> (r: Result<(), Error>)
        requires
            old(self).wf(),
            registry.wf(),
        ensures
            final(self).wf(),
            ({
                let answer = registry.signer_valid(now, who, did.deep_view(), BaseRight::Dispute);
                let error = dispute_error(
                    old(self)@,
                    content_id@,
                    context.deep_view(),
                    answer,
                    random@,
                );
                match r {
                    Ok(()) => error is None && final(self)@ == dispute_next(
                        old(self)@,
                        content_id@,
                        context.deep_view(),
                        expires_at,
                        random@,
                    ),
                    Err(e) => error == Some(e) && final(self)@ == old(self)@,
                }
            }),
    {
        let ghost s0 = self@;
        let ghost id = content_id@;
        if self.disputes.contains_key(&content_id) {
            return Err(Error::ContentAlreadyExists);
        }
        match check_capability(registry, now, who, &did) {
            Err(e) => {
                return Err(e);
            },
            Ok(()) => {},
        }
        if context.len() > self.config.max_context_length as usize {
            return Err(Error::StorageOverflow);
        }
        let session = CourtSession {
            jurors: Vec::new(),
            started_at: None,
            ended_at: None,
            verdict: Verdict::new(),
            context,
            expires_at,
        };
        assert(session@ =~= opened(context.deep_view(), expires_at)) by {
            assert(session@.jurors =~= Seq::empty());
        }
        match self.summon_jurors(&content_id, random) {
            Err(e) => {
                return Err(e);
            },
            Ok(()) => {},
        }
        let ghost s1 = self@;
        self.disputes.insert(content_id, session);
        proof {
            assert(self@.jury_selection == s1.jury_selection);
            assert(self@.escalated_sessions == s1.escalated_sessions);
            assert(opened(context.deep_view(), expires_at).fits(s0.config));
            assert forall|other: ContentIdView| #[trigger]
                self@.disputes.contains_key(other) implies self@.disputes[other].fits(
                self@.config,
            ) by {
                if other != id {
                    assert(s1.disputes.contains_key(other));
                }
            }
        }
        Ok(())
    }

    /// Starts the deliberation on `content_id` at block `now`.  Where fewer
    /// jurors were summoned than the minimum, more are summoned by the draw
    /// `random` and the start is refused.
    pub fn start_deliberation(&mut self, now: BlockNumber, content_id: ContentId, random: &[u8]) -> (r:
        Result<(), Error>)
        requires
            old(self).wf(),
        ensures
            final(self).wf(),
            final(self)@ == start_attempt(old(self)@, content_id@, now, random@),
            match r {
                Ok(()) => start_error(old(self)@, content_id@, now) is None,
                Err(e) => start_error(old(self)@, content_id@, now) == Some(e),
            },
    {
        let ghost s0 = self@;
        let ghost id = content_id@;
        match self.disputes.get(&content_id) {
            None => {
                return Err(Error::SessionNotFound);
            },
            Some(session) => {
                if now >= session.expires_at {
                    return Err(Error::SessionHasEnded);
                }
                if session.started_at.is_some() {
                    return Err(Error::SessionALreadyStarted);
                }
            },
        }
        let count: u32 = match self.jury_summoned.get(&content_id) {
            Some(n) => *n,
            None => 0,
        };
        if count < self.config.min_jurors_per_dispute {
            let _attempt = self.summon_jurors(&content_id, random);
            return Err(Error::JuryReqNotMet);
        }
        let selected = match self.jury_selection.remove(&content_id) {
            Some(list) => list,
            None => Vec::new(),
        };
        assert(selected.deep_view() =~= s0.selection(id));
        match self.disputes.remove(&content_id) {
            Some(mut session) => {
                session.jurors = selected;
                session.started_at = Some(now);
                self.disputes.insert(content_id, session);
            },
            None => {},
        }
        proof {
            let session = s0.disputes[id];
            let started = SessionView { jurors: s0.selection(id), started_at: Some(now), ..session };
            assert(self@.disputes =~= s0.disputes.insert(id, started));
            assert(self@.escalated_sessions == s0.escalated_sessions);
            assert(started.fits(s0.config)) by {
                if s0.jury_selection.contains_key(id) {
                }
            }
            assert forall|other: ContentIdView| #[trigger]
                self@.disputes.contains_key(other) implies self@.disputes[other].fits(
                self@.config,
            ) by {
                if other != id {
                    assert(s0.disputes.contains_key(other));
                }
            }
            assert forall|other: ContentIdView| #[trigger]
                self@.jury_selection.contains_key(other) implies self@.jury_selection[other].len()
                <= self@.config.max_jurors_per_dispute by {
                assert(s0.jury_selection.contains_key(other));
            }
        }
        Ok(())
    }

    /// Excuses `did` from its duty for `content_id`, before the deliberation
    /// starts.  The caller `who` must hold the right to dispute for `did` and
    /// pays the exclusion fee: the call that burns it is handed out.
    pub fn exclude_from_duty<R: DidManager>(
        &mut self,
        registry: &R,
        now: BlockNumber,
        who: AccountId,
        did: Did,
        content_id: ContentId,
    ) -> (r: Result<LedgerCall, Error>)
        requires
            old(self).wf(),
            registry.wf(),
        ensures
            final(self).wf(),
            ({
                let answer = registry.signer_valid(now, who, did.deep_view(), BaseRight::Dispute);
                match r {
                    Ok(call) => exclude_error(old(self)@, content_id@, now, answer) is None
                        && final(self)@ == exclude_next(old(self)@, content_id@, did.deep_view())
                        && call == fee_call(who, old(self)@.config.exclusion_fee),
                    Err(e) => exclude_error(old(self)@, content_id@, now, answer) == Some(e)
                        && final(self)@ == old(self)@,
                }
            }),
    {
        let ghost s0 = self@;
        let ghost id = content_id@;
        match check_capability(registry, now, who, &did) {
            Err(e) => {
                return Err(e);
            },
            Ok(()) => {},
        }
        match self.disputes.get(&content_id) {
            None => {
                return Err(Error::SessionNotFound);
            },
            Some(session) => {
                if now >= session.expires_at {
                    return Err(Error::SessionHasEnded);
                }
                if session.started_at.is_some() {
                    return Err(Error::SessionALreadyStarted);
                }
            },
        }
        let count: u32 = match self.jury_summoned.get(&content_id) {
            Some(n) => *n,
            None => 0,
        };
        let fewer: u32 = if count > 0 {
            count - 1
        } else {
            0
        };
        self.jury_summoned.insert(content_id, fewer);
        let mut selected = match self.jury_selection.remove(&content_id) {
            Some(list) => list,
            None => Vec::new(),
        };
        assert(selected.deep_view() =~= s0.selection(id));
        remove_first(&mut selected, &did);
        self.jury_selection.insert(content_id, selected);
        let key = (did, content_id);
        let _was = self.jury_duty.remove(&key);
        proof {
            assert(self@.jury_selection =~= s0.jury_selection.insert(
                id,
                without_first(s0.selection(id), did.deep_view()),
            ));
            assert(self@.disputes == s0.disputes);
            assert(self@.escalated_sessions == s0.escalated_sessions);
            assert forall|other: ContentIdView| #[trigger]
                self@.jury_selection.contains_key(other) implies self@.jury_selection[other].len()
                <= self@.config.max_jurors_per_dispute by {
                if other != id {
                    assert(s0.jury_selection.contains_key(other));
                } else if s0.jury_selection.contains_key(id) {
                }
            }
        }
        Ok(
            LedgerCall::BurnFrom {
                who,
                amount: self.config.exclusion_fee,
                preservation: Preservation::Expendable,
                precision: Precision::BestEffort,
                fortitude: Fortitude::Polite,
            },
        )
    }

    /// Casts the vote of the juror `did` on `content_id`.  The caller `who`
    /// must hold the right to dispute for `did`; the deliberation must have
    /// started with `did` among the jurors, and a juror votes once.
    pub fn cast_vote<R: DidManager>(
        &mut self,
        registry: &R,
        now: BlockNumber,
        who: AccountId,
        did: Did,
        content_id: ContentId,
        vote: Vote,
    ) -> (r: Result<(), Error>)
        requires
            old(self).wf(),
            registry.wf(),
        ensures
            final(self).wf(),
            ({
                let answer = registry.signer_valid(now, who, did.deep_view(), BaseRight::Dispute);
                match r {
                    Ok(()) => vote_error(old(self)@, content_id@, did.deep_view(), answer) is None
                        && final(self)@ == vote_next(
                        old(self)@,
                        content_id@,
                        did.deep_view(),
                        vote,
                    ),
                    Err(e) => vote_error(old(self)@, content_id@, did.deep_view(), answer) == Some(
                        e,
                    ) && final(self)@ == old(self)@,
                }
            }),
    {
        let ghost s0 = self@;
        let ghost id = content_id@;
        match check_capability(registry, now, who, &did) {
            Err(e) => {
                return Err(e);
            },
            Ok(()) => {},
        }
        match self.disputes.get(&content_id) {
            None => {
                return Err(Error::SessionNotFound);
            },
            Some(session) => {
                if session.started_at.is_none() {
                    return Err(Error::SessionHasNotStarted);
                }
                if !contains(&session.jurors, &did) {
                    return Err(Error::JurorNotInSession);
                }
                if juror_voted(&session.verdict.votes, &did) {
                    return Err(Error::JurorAlreadyVoted);
                }
                if session.verdict.votes.len() >= self.config.max_jurors_per_dispute as usize {
                    return Err(Error::StorageOverflow);
                }
            },
        }
        match self.disputes.remove(&content_id) {
            Some(mut session) => {
                let ghost votes = session.verdict.votes.deep_view();
                session.verdict.votes.push(VoteRegistry { juror: did, vote });
                assert(session.verdict.votes.deep_view() =~= votes.push(
                    VoteView { juror: did.deep_view(), vote },
                ));
                self.disputes.insert(content_id, session);
            },
            None => {},
        }
        proof {
            let after = vote_next(s0, id, did.deep_view(), vote);
            assert(self@.disputes =~= after.disputes);
            assert(self@.jury_selection == s0.jury_selection);
            assert(self@.escalated_sessions == s0.escalated_sessions);
            lemma_vote_keeps_distinct(s0, id, did.deep_view(), vote);
            assert forall|other: ContentIdView| #[trigger]
                self@.disputes.contains_key(other) implies self@.disputes[other].fits(
                self@.config,
            ) by {
                if other != id {
                    assert(s0.disputes.contains_key(other));
                }
            }
        }
        Ok(())
    }
}

} // verus!
