//! Dispute arbitration: a roster of jurors is summoned to disputes over
//! content, votes, and is rewarded or slashed afterwards.

use vstd::prelude::*;
use crate::table::Table;
use crate::traits::DidManager;
use crate::types::{AccountId, Balance, BaseRight, BlockNumber, ContentId, ContentIdView, Did};

pub mod escalation;
pub mod juror;
pub mod ledger;
pub mod session;
pub mod settlement;
pub mod storage;
pub mod summon;
pub mod verdict;

verus! {

/// How a dispute was decided.
#[derive(Clone, Copy, PartialEq, Eq, Structural, Debug)]
pub enum Decision {
    Convict,
    Acquittal,
    Pending,
}

impl Default for Decision {
    fn default() -> (d: Self)
        ensures
            d == Decision::Pending,
    {
        Decision::Pending
    }
}

impl View for Decision {
    type V = Decision;

    open spec fn view(&self) -> Decision {
        *self
    }
}

impl DeepView for Decision {
    type V = Decision;

    open spec fn deep_view(&self) -> Decision {
        *self
    }
}

/// A juror's ballot.
#[derive(Clone, Copy, PartialEq, Eq, Structural, Debug)]
pub enum Vote {
    Yay,
    Nay,
    Abstain,
}

/// Why an amount is held on an account.
#[derive(Clone, Copy, PartialEq, Eq, Structural, Debug)]
pub enum HoldReason {
    JurorAccountCreation,
    CallCreation,
}

/// The model of a [`VoteRegistry`].
pub struct VoteView {
    pub juror: Seq<u8>,
    pub vote: Vote,
}

/// One juror's vote in a session.
#[derive(Clone, PartialEq, Eq, Debug)]
pub struct VoteRegistry {
    pub juror: Did,
    pub vote: Vote,
}

impl View for VoteRegistry {
    type V = VoteView;

    open spec fn view(&self) -> VoteView {
        VoteView { juror: self.juror.deep_view(), vote: self.vote }
    }
}

impl DeepView for VoteRegistry {
    type V = VoteView;

    open spec fn deep_view(&self) -> VoteView {
        self@
    }
}

/// The model of a [`Verdict`].
pub struct VerdictView {
    pub escalated: bool,
    pub decision: Decision,
    pub votes: Seq<VoteView>,
    pub rewarded_and_slashed: bool,
}

/// The votes of a session and what became of them.
#[derive(Clone, PartialEq, Debug)]
pub struct Verdict {
    pub escalated: bool,
    pub decision: Decision,
    pub votes: Vec<VoteRegistry>,
    pub rewarded_and_slashed: bool,
}

impl View for Verdict {
    type V = VerdictView;

    open spec fn view(&self) -> VerdictView {
        VerdictView {
            escalated: self.escalated,
            decision: self.decision,
            votes: self.votes.deep_view(),
            rewarded_and_slashed: self.rewarded_and_slashed,
        }
    }
}

impl Verdict {
    /// A verdict without votes: pending, not escalated, not settled.
    pub fn new() -> (v: Self)
        ensures
            v@ == VerdictView::fresh(),
    {
        let v = Verdict {
            escalated: false,
            decision: Decision::Pending,
            votes: Vec::new(),
            rewarded_and_slashed: false,
        };
        assert(v@.votes =~= Seq::empty());
        v
    }
}

impl VerdictView {
    /// The verdict of a session on which nobody has voted.
    pub open spec fn fresh() -> VerdictView {
        VerdictView {
            escalated: false,
            decision: Decision::Pending,
            votes: Seq::empty(),
            rewarded_and_slashed: false,
        }
    }
}

/// The model of a [`CourtSession`].
pub struct SessionView {
    pub jurors: Seq<Seq<u8>>,
    pub started_at: Option<BlockNumber>,
    pub ended_at: Option<BlockNumber>,
    pub verdict: VerdictView,
    pub context: Seq<u8>,
    pub expires_at: BlockNumber,
}

/// The record of one dispute.
#[derive(Clone, PartialEq, Debug)]
pub struct CourtSession {
    pub jurors: Vec<Did>,
    pub started_at: Option<BlockNumber>,
    pub ended_at: Option<BlockNumber>,
    pub verdict: Verdict,
    pub context: Vec<u8>,
    pub expires_at: BlockNumber,
}

impl View for CourtSession {
    type V = SessionView;

    open spec fn view(&self) -> SessionView {
        SessionView {
            jurors: self.jurors.deep_view(),
            started_at: self.started_at,
            ended_at: self.ended_at,
            verdict: self.verdict@,
            context: self.context.deep_view(),
            expires_at: self.expires_at,
        }
    }
}

impl DeepView for CourtSession {
    type V = SessionView;

    open spec fn deep_view(&self) -> SessionView {
        self@
    }
}

/// The model of an [`Escalated`] session.
pub struct EscalatedView {
    pub escalated_at: Option<BlockNumber>,
    pub decision_at: Option<BlockNumber>,
    pub decision: Decision,
    pub votes: Seq<VoteView>,
}

/// The full-roster round that follows a tie.
#[derive(Clone, PartialEq, Eq, Debug)]
pub struct Escalated {
    pub escalated_at: Option<BlockNumber>,
    pub decision_at: Option<BlockNumber>,
    pub decision: Decision,
    pub votes: Vec<VoteRegistry>,
}

impl View for Escalated {
    type V = EscalatedView;

    open spec fn view(&self) -> EscalatedView {
        EscalatedView {
            escalated_at: self.escalated_at,
            decision_at: self.decision_at,
            decision: self.decision,
            votes: self.votes.deep_view(),
        }
    }
}

impl DeepView for Escalated {
    type V = EscalatedView;

    open spec fn deep_view(&self) -> EscalatedView {
        self@
    }
}

/// The model of an [`Event`].
pub enum EventView {
    SomethingStored { block_number: BlockNumber, who: AccountId },
    JurorRegistered { block_number: BlockNumber, did: Seq<u8>, admin: AccountId },
}

/// What the court reports to the outside.
#[derive(Clone, PartialEq, Eq, Debug)]
pub enum Event {
    SomethingStored { block_number: BlockNumber, who: AccountId },
    JurorRegistered { block_number: BlockNumber, did: Did, admin: AccountId },
}

impl View for Event {
    type V = EventView;

    open spec fn view(&self) -> EventView {
        match self {
            Event::SomethingStored { block_number, who } => EventView::SomethingStored {
                block_number: *block_number,
                who: *who,
            },
            Event::JurorRegistered { block_number, did, admin } => EventView::JurorRegistered {
                block_number: *block_number,
                did: did.deep_view(),
                admin: *admin,
            },
        }
    }
}

/// Why an operation of the court was refused.
#[derive(Clone, Copy, PartialEq, Eq, Structural, Debug)]
pub enum Error {
    NoneValue,
    /// A bounded list is full.
    StorageOverflow,
    /// The signer lacks the right to act for the DID.
    SignerDoesNotHaveRight,
    /// The identity registry gave no answer.
    CouldNotGetResponse,
    /// The DID is already a juror.
    DidAlreadyExists,
    /// More jurors were summoned than a dispute may have.
    MaxJurorsReached,
    /// The content is already disputed.
    ContentAlreadyExists,
    SessionNotFound,
    SessionHasEnded,
    /// Too few jurors have been summoned to start.
    JuryReqNotMet,
    SessionALreadyStarted,
    SessionHasNotStarted,
    JurorNotInSession,
    JurorAlreadyVoted,
    SessionInProgress,
    SessionEscalated,
    NotEnoughVotes,
    NoRewardForEscalatedSession,
    SessionHasBeenRewarded,
}

/// The limits and amounts that a court is set up with.
#[derive(Clone, Copy, PartialEq, Eq, Structural, Debug)]
pub struct Config {
    /// How many jurors the roster holds.
    pub max_jurors: u32,
    /// How many jurors one dispute may have.
    pub max_jurors_per_dispute: u32,
    /// How many jurors must be summoned before deliberation starts.
    pub min_jurors_per_dispute: u32,
    /// How long the context of a dispute may be, in bytes.
    pub max_context_length: u32,
    /// Held on an account when it registers a juror.
    pub hold_amount: Balance,
    /// Burned from a juror who did not vote.
    pub slash_amount: Balance,
    /// Minted to a juror who voted.
    pub reward_amount: Balance,
    /// Burned from an account that excludes a juror from duty.
    pub exclusion_fee: Balance,
    /// How many blocks an escalated round is open for votes.
    pub escalated_voting_period: BlockNumber,
    /// How many jurors each settlement queue holds.
    pub max_rewards_number: u32,
    /// How many queue entries one block settles.
    pub batch_reward_size: u32,
}

/// Whether no two votes of `votes` come from the same juror.
pub open spec fn distinct_voters(votes: Seq<VoteView>) -> bool {
    forall|i: int, j: int| 0 <= i < j < votes.len() ==> votes[i].juror != votes[j].juror
}

/// Whether some vote of `votes` comes from `juror`.
pub open spec fn has_voted(votes: Seq<VoteView>, juror: Seq<u8>) -> bool {
    exists|i: int| 0 <= i < votes.len() && votes[i].juror == juror
}

/// Why a caller may not act, given what the identity registry answered to
/// the question whether the caller holds the right to dispute.
pub open spec fn capability_error(answer: Option<bool>) -> Option<Error> {
    match answer {
        None => Some(Error::CouldNotGetResponse),
        Some(false) => Some(Error::SignerDoesNotHaveRight),
        Some(true) => None,
    }
}

/// Asks `registry` whether `who` may dispute on behalf of `did`.
pub fn check_capability<R: DidManager>(
    registry: &R,
    now: BlockNumber,
    who: AccountId,
    did: &Did,
) -> (r: Result<(), Error>)
    requires
        registry.wf(),
    ensures
        match r {
            Ok(()) => capability_error(
                registry.signer_valid(now, who, did.deep_view(), BaseRight::Dispute),
            ) is None,
            Err(e) => capability_error(
                registry.signer_valid(now, who, did.deep_view(), BaseRight::Dispute),
            ) == Some(e),
        },
{
    match registry.is_signer_valid(now, &who, did, &BaseRight::Dispute) {
        Err(_) => Err(Error::CouldNotGetResponse),
        Ok(false) => Err(Error::SignerDoesNotHaveRight),
        Ok(true) => Ok(()),
    }
}

/// Whether `did` has a vote among `votes`.
pub fn juror_voted(votes: &Vec<VoteRegistry>, did: &Did) -> (voted: bool)
    ensures
        voted == has_voted(votes.deep_view(), did.deep_view()),
{
    let mut i: usize = 0;
    while i < votes.len()
        invariant
            i <= votes@.len(),
            forall|j: int| 0 <= j < i ==> votes.deep_view()[j].juror != did.deep_view(),
        decreases votes@.len() - i,
    {
        if crate::table::Key::same(&votes[i].juror, did) {
            assert(votes.deep_view()[i as int].juror == did.deep_view());
            return true;
        }
        i += 1;
    }
    false
}

impl SessionView {
    /// Whether the session keeps within the limits of `config` and holds at
    /// most one vote of each juror.
    pub open spec fn fits(self, config: Config) -> bool {
        &&& self.jurors.len() <= config.max_jurors_per_dispute
        &&& self.verdict.votes.len() <= config.max_jurors_per_dispute
        &&& self.context.len() <= config.max_context_length
        &&& distinct_voters(self.verdict.votes)
    }
}

impl EscalatedView {
    /// Whether the round keeps within the limits of `config` and holds at
    /// most one vote of each juror.
    pub open spec fn fits(self, config: Config) -> bool {
        &&& self.votes.len() <= config.max_jurors
        &&& distinct_voters(self.votes)
    }
}

/// The model of a court: what the court knows, as maps and sequences.
pub struct CourtView {
    pub config: Config,
    /// The roster, in the order of registration.
    pub jurors: Seq<Seq<u8>>,
    /// The disputes whose escalated round is open.
    pub escalated_disputes: Seq<ContentIdView>,
    /// The account that answers for each juror.
    pub juror_admins: Map<Seq<u8>, AccountId>,
    /// The pairs of a juror and a dispute that the juror is on duty for.
    pub jury_duty: Map<(Seq<u8>, ContentIdView), bool>,
    /// How many jurors were summoned to each dispute.
    pub jury_summoned: Map<ContentIdView, u32>,
    /// The jurors summoned to a dispute that has not started.
    pub jury_selection: Map<ContentIdView, Seq<Seq<u8>>>,
    pub disputes: Map<ContentIdView, SessionView>,
    pub decisions: Map<ContentIdView, Decision>,
    pub escalated_sessions: Map<ContentIdView, EscalatedView>,
    /// The jurors that wait to be slashed; the last one is served first.
    pub pending_slashes: Seq<Seq<u8>>,
    /// The jurors that wait to be rewarded; the last one is served first.
    pub pending_rewards: Seq<Seq<u8>>,
}

impl CourtView {
    /// A court that knows nothing yet.
    pub open spec fn empty(config: Config) -> CourtView {
        CourtView {
            config,
            jurors: Seq::empty(),
            escalated_disputes: Seq::empty(),
            juror_admins: Map::empty(),
            jury_duty: Map::empty(),
            jury_summoned: Map::empty(),
            jury_selection: Map::empty(),
            disputes: Map::empty(),
            decisions: Map::empty(),
            escalated_sessions: Map::empty(),
            pending_slashes: Seq::empty(),
            pending_rewards: Seq::empty(),
        }
    }

    /// How many jurors were summoned to `id`.
    pub open spec fn summoned(self, id: ContentIdView) -> u32 {
        if self.jury_summoned.contains_key(id) {
            self.jury_summoned[id]
        } else {
            0
        }
    }

    /// The jurors summoned to `id` that wait for the deliberation to start.
    pub open spec fn selection(self, id: ContentIdView) -> Seq<Seq<u8>> {
        if self.jury_selection.contains_key(id) {
            self.jury_selection[id]
        } else {
            Seq::empty()
        }
    }

    /// Whether `did` is on duty for `id`.
    pub open spec fn on_duty(self, did: Seq<u8>, id: ContentIdView) -> bool {
        self.jury_duty.contains_key((did, id))
    }

    /// What holds of every court: the lists keep within their limits, no
    /// juror is on the roster twice, and no session holds two votes of one
    /// juror.
    pub open spec fn inv(self) -> bool {
        &&& self.jurors.len() <= self.config.max_jurors
        &&& self.jurors.no_duplicates()
        &&& self.escalated_disputes.len() <= self.config.max_jurors
        &&& forall|id: ContentIdView| #[trigger]
            self.jury_selection.contains_key(id) ==> self.jury_selection[id].len()
                <= self.config.max_jurors_per_dispute
        &&& forall|id: ContentIdView| #[trigger]
            self.disputes.contains_key(id) ==> self.disputes[id].fits(self.config)
        &&& forall|id: ContentIdView| #[trigger]
            self.escalated_sessions.contains_key(id) ==> self.escalated_sessions[id].fits(
                self.config,
            )
        &&& self.pending_slashes.len() <= self.config.max_rewards_number
        &&& self.pending_rewards.len() <= self.config.max_rewards_number
    }
}

/// The court: its configuration and everything it has recorded.
#[derive(Clone, PartialEq, Debug)]
pub struct Pallet {
    pub(crate) config: Config,
    pub(crate) jurors: Vec<Did>,
    pub(crate) escalated_disputes: Vec<ContentId>,
    pub(crate) juror_admins: Table<Did, AccountId>,
    pub(crate) jury_duty: Table<(Did, ContentId), bool>,
    pub(crate) jury_summoned: Table<ContentId, u32>,
    pub(crate) jury_selection: Table<ContentId, Vec<Did>>,
    pub(crate) disputes: Table<ContentId, CourtSession>,
    pub(crate) decisions: Table<ContentId, Decision>,
    pub(crate) escalated_sessions: Table<ContentId, Escalated>,
    pub(crate) pending_slashes: Vec<Did>,
    pub(crate) pending_rewards: Vec<Did>,
}

impl View for Pallet {
    type V = CourtView;

    open(crate) spec fn view(&self) -> CourtView {
        CourtView {
            config: self.config,
            jurors: self.jurors.deep_view(),
            escalated_disputes: self.escalated_disputes.deep_view(),
            juror_admins: self.juror_admins.model(),
            jury_duty: self.jury_duty.model(),
            jury_summoned: self.jury_summoned.model(),
            jury_selection: self.jury_selection.model(),
            disputes: self.disputes.model(),
            decisions: self.decisions.model(),
            escalated_sessions: self.escalated_sessions.model(),
            pending_slashes: self.pending_slashes.deep_view(),
            pending_rewards: self.pending_rewards.deep_view(),
        }
    }
}

impl Pallet {
    /// Whether the court is in a state that its operations can work on.
    pub open(crate) spec fn wf(&self) -> bool {
        &&& self.juror_admins.wf()
        &&& self.jury_duty.wf()
        &&& self.jury_summoned.wf()
        &&& self.jury_selection.wf()
        &&& self.disputes.wf()
        &&& self.decisions.wf()
        &&& self.escalated_sessions.wf()
        &&& self@.inv()
    }

    /// A court that its operations can work on keeps the rules of
    /// [`CourtView::inv`]: no session of it, and no escalated round, holds two
    /// votes of one juror.
    pub proof fn lemma_inv(&self)
        requires
            self.wf(),
        ensures
            self@.inv(),
            forall|id: ContentIdView| #[trigger]
                self@.disputes.contains_key(id) ==> distinct_voters(
                    self@.disputes[id].verdict.votes,
                ),
            forall|id: ContentIdView| #[trigger]
                self@.escalated_sessions.contains_key(id) ==> distinct_voters(
                    self@.escalated_sessions[id].votes,
                ),
    {
    }

    /// A court with the given configuration and nothing recorded.
    pub fn new(config: Config) -> (court: Self)
        ensures
            court.wf(),
            court@ == CourtView::empty(config),
    {
        let court = Pallet {
            config,
            jurors: Vec::new(),
            escalated_disputes: Vec::new(),
            juror_admins: Table::new(),
            jury_duty: Table::new(),
            jury_summoned: Table::new(),
            jury_selection: Table::new(),
            disputes: Table::new(),
            decisions: Table::new(),
            escalated_sessions: Table::new(),
            pending_slashes: Vec::new(),
            pending_rewards: Vec::new(),
        };
        assert(court@.jurors =~= Seq::empty());
        assert(court@.escalated_disputes =~= Seq::empty());
        assert(court@.pending_slashes =~= Seq::empty());
        assert(court@.pending_rewards =~= Seq::empty());
        court
    }

    /// The configuration that the court was set up with.
    pub fn config(&self) -> (c: Config)
        ensures
            c == self@.config,
    {
        self.config
    }
}

} // verus!
