use std::collections::HashMap;

use context_court::context_court::ledger::LedgerCall;
use context_court::context_court::{
    Config, CourtSession, Decision, Error, Escalated, Event, Pallet, Verdict, Vote,
    VoteRegistry,
};
use context_court::identity_registry;
use context_court::identity_registry::RightDuration;
use context_court::types::{BaseRight, ContentId};
use parity_scale_codec::Encode;
use sp_crypto_hashing::blake2_256;

const ALICE: u64 = 1;
const BOB: u64 = 2000;
const OSCAR: u64 = 10000;

const DID1: [u8; 5] = [1, 2, 3, 4, 5];
const DID2: [u8; 5] = [2, 3, 4, 5, 6];
const DID3: [u8; 5] = [3, 4, 5, 6, 7];
const DID4: [u8; 5] = [4, 5, 6, 7, 8];
const CONTENT1: [u8; 32] = [1; 32];

/// Why a call was refused: by the court, or by the ledger.
#[derive(Debug, PartialEq)]
enum Refusal {
    Court(Error),
    FundsUnavailable,
}

/// A court with an identity registry, a clock, a beacon and a ledger around it.
struct CourtWorld {
    identity: identity_registry::Pallet,
    court: Pallet,
    free: HashMap<u64, u128>,
    held: HashMap<u64, u128>,
    block: u64,
    random: [u8; 32],
    last_event: Option<Event>,
}

impl CourtWorld {
    fn new() -> Self {
        let mut free = HashMap::new();
        free.insert(ALICE, 10000000u128);
        free.insert(BOB, 10000000u128);
        free.insert(OSCAR, 10000000u128);
        CourtWorld {
            identity: identity_registry::Pallet::new(identity_registry::Config {
                max_key_size: 1024,
                hold_amount: 1000,
            }),
            court: Pallet::new(Config {
                max_jurors: 100,
                max_jurors_per_dispute: 30,
                min_jurors_per_dispute: 40,
                max_context_length: 1000,
                hold_amount: 1000,
                slash_amount: 200,
                reward_amount: 200,
                exclusion_fee: 100,
                escalated_voting_period: 100000,
                max_rewards_number: 1000,
                batch_reward_size: 10,
            }),
            free,
            held: HashMap::new(),
            block: 1,
            random: [0u8; 32],
            last_event: None,
        }
    }

    fn free_balance(&self, who: u64) -> u128 {
        self.free.get(&who).copied().unwrap_or(0)
    }

    fn total_balance_on_hold(&self, who: u64) -> u128 {
        self.held.get(&who).copied().unwrap_or(0)
    }

    fn hold(&mut self, who: u64, amount: u128) -> Result<(), Refusal> {
        let free = self.free_balance(who);
        if free < amount {
            return Err(Refusal::FundsUnavailable);
        }
        self.free.insert(who, free - amount);
        let held = self.total_balance_on_hold(who);
        self.held.insert(who, held + amount);
        Ok(())
    }

    fn perform(&mut self, call: LedgerCall) -> Result<(), Refusal> {
        match call {
            LedgerCall::Hold { who, amount, .. } => self.hold(who, amount),
            LedgerCall::BurnFrom { who, amount, .. } => {
                let free = self.free_balance(who);
                let burned = if free < amount { free } else { amount };
                self.free.insert(who, free - burned);
                Ok(())
            }
            LedgerCall::MintInto { who, amount } => {
                let free = self.free_balance(who);
                self.free.insert(who, free + amount);
                Ok(())
            }
        }
    }

    // Helper function to setup DID with Dispute right
    fn setup_did_with_dispute_right(&mut self, who: u64, did: Vec<u8>) {
        let signatories: Vec<u64> = vec![];
        let created = self.identity.create_did(self.block, who, did.clone(), signatories);
        assert!(created.is_ok());
        let hold = created.unwrap().hold;
        assert_eq!(self.hold(hold.who, hold.amount), Ok(()));

        // Grant Dispute right
        assert!(self
            .identity
            .add_right_for_signatory(
                self.block,
                who,
                did.clone(),
                who,
                BaseRight::Dispute,
                RightDuration::Permanent
            )
            .is_ok());
    }

    // Helper function to register multiple jurors
    fn register_multiple_jurors(&mut self, jurors: Vec<(u64, Vec<u8>)>) {
        for (who, did) in jurors {
            self.setup_did_with_dispute_right(who, did.clone());

            // Register as juror
            assert_eq!(self.register_did_for_juror(who, did), Ok(()));
        }
    }

    fn register_did_for_juror(&mut self, who: u64, did: Vec<u8>) -> Result<(), Refusal> {
        let before = self.court.clone();
        let done = self
            .court
            .register_did_for_juror(&self.identity, self.block, who, did)
            .map_err(Refusal::Court)?;
        if let Err(refusal) = self.perform(done.hold) {
            self.court = before;
            return Err(refusal);
        }
        self.last_event = Some(done.event);
        Ok(())
    }

    fn dispute_content(
        &mut self,
        who: u64,
        did: Vec<u8>,
        content_id: ContentId,
        context: Vec<u8>,
        expires_at: u64,
    ) -> Result<(), Error> {
        self.court.dispute_content(
            &self.identity,
            self.block,
            who,
            did,
            content_id,
            context,
            expires_at,
            &self.random,
        )
    }

    fn summon_jurors_ext(&mut self, content_id: ContentId) -> Result<(), Error> {
        self.court.summon_jurors_ext(content_id, &self.random)
    }

    fn start_deliberation(&mut self, content_id: ContentId) -> Result<(), Error> {
        self.court.start_deliberation(self.block, content_id, &self.random)
    }

    fn exclude_from_duty(
        &mut self,
        who: u64,
        did: Vec<u8>,
        content_id: ContentId,
    ) -> Result<(), Refusal> {
        let before = self.court.clone();
        let call = self
            .court
            .exclude_from_duty(&self.identity, self.block, who, did, content_id)
            .map_err(Refusal::Court)?;
        if let Err(refusal) = self.perform(call) {
            self.court = before;
            return Err(refusal);
        }
        Ok(())
    }

    fn cast_vote(
        &mut self,
        who: u64,
        did: Vec<u8>,
        content_id: ContentId,
        vote: Vote,
    ) -> Result<(), Error> {
        self.court.cast_vote(&self.identity, self.block, who, did, content_id, vote)
    }

    fn calculate_result(&mut self, content_id: ContentId) -> Result<(), Error> {
        self.court.calculate_result(self.block, content_id)
    }

    fn vote_escalated_content(
        &mut self,
        who: u64,
        did: Vec<u8>,
        content_id: ContentId,
        vote: Vote,
    ) -> Result<(), Error> {
        self.court.vote_escalated_content(&self.identity, self.block, who, did, content_id, vote)
    }

    fn calculate_escalated_result(&mut self, content_id: ContentId) -> Result<(), Error> {
        self.court.calculate_escalated_result(self.block, content_id)
    }

    fn get_reward_for_duty(&mut self, content_id: ContentId) -> Result<(), Error> {
        self.court.get_reward_for_duty(self.block, content_id)
    }
}

// Helper function to generate ContentId
fn generate_content_id(content: &[u8; 32]) -> ContentId {
    let prefix = b"cid:";
    let hash = blake2_256(&content.encode());
    ContentId::new(prefix, &hash)
}

// ============ Juror Registration Tests ============

#[test]
fn should_register_juror() {
    let mut world = CourtWorld::new();
    let who = ALICE;
    let did = DID1.to_vec();

    world.setup_did_with_dispute_right(who, did.clone());

    assert_eq!(world.register_did_for_juror(who, did.clone()), Ok(()));

    // Verify juror was registered
    let jurors = world.court.jurors();
    assert_eq!(jurors.len(), 1);
    assert!(jurors.contains(&did));

    // Verify event was emitted
    assert_eq!(
        world.last_event,
        Some(Event::JurorRegistered { block_number: 1, did: did.clone(), admin: who })
    );
}

#[test]
fn should_hold_balance_on_juror_registration() {
    let mut world = CourtWorld::new();
    let who = ALICE;
    let did = DID1.to_vec();
    let initial_balance = world.free_balance(who);

    world.setup_did_with_dispute_right(who, did.clone());

    assert_eq!(world.register_did_for_juror(who, did), Ok(()));

    // Check that hold amount was deducted
    let expected_held = 2000u128; // HoldAmount from identity + HoldAmount from Juror
    assert_eq!(world.total_balance_on_hold(who), expected_held);
    assert_eq!(world.free_balance(who), initial_balance - expected_held);
}

#[test]
fn should_fail_to_register_juror_without_dispute_right() {
    let mut world = CourtWorld::new();
    let who = ALICE;
    let did = DID1.to_vec();

    // Create DID but don't grant Dispute right
    let signatories: Vec<u64> = vec![];
    assert!(world.identity.create_did(world.block, who, did.clone(), signatories).is_ok());

    let before = world.court.clone();
    assert_eq!(
        world.register_did_for_juror(who, did),
        Err(Refusal::Court(Error::SignerDoesNotHaveRight))
    );
    assert_eq!(world.court, before);
}

#[test]
fn should_fail_to_register_duplicate_juror() {
    let mut world = CourtWorld::new();
    let who = ALICE;
    let did = DID1.to_vec();

    world.setup_did_with_dispute_right(who, did.clone());

    assert_eq!(world.register_did_for_juror(who, did.clone()), Ok(()));

    // Try to register same DID again
    let before = world.court.clone();
    assert_eq!(
        world.register_did_for_juror(who, did),
        Err(Refusal::Court(Error::DidAlreadyExists))
    );
    assert_eq!(world.court, before);
}

#[test]
fn should_register_multiple_jurors() {
    let mut world = CourtWorld::new();
    let did1 = DID1.to_vec();
    let did2 = DID2.to_vec();
    let did3 = DID3.to_vec();

    world.register_multiple_jurors(vec![
        (ALICE, did1.clone()),
        (BOB, did2.clone()),
        (OSCAR, did3.clone()),
    ]);

    let jurors = world.court.jurors();
    assert_eq!(jurors.len(), 3);
    assert!(jurors.contains(&did1));
    assert!(jurors.contains(&did2));
    assert!(jurors.contains(&did3));
}

// ============ Dispute Creation Tests ============

#[test]
fn should_create_dispute() {
    let mut world = CourtWorld::new();
    let who = ALICE;
    let did = DID1.to_vec();
    let content_id = generate_content_id(&CONTENT1);
    let context = b"Test dispute context".to_vec();
    let expires_at = 100;

    world.setup_did_with_dispute_right(who, did.clone());

    assert_eq!(
        world.dispute_content(who, did.clone(), content_id.clone(), context.clone(), expires_at),
        Ok(())
    );

    // Verify dispute was created
    let dispute = world.court.get_dispute(&content_id);
    assert!(dispute.is_some());

    let dispute = dispute.unwrap();
    assert_eq!(dispute.context, context);
    assert_eq!(dispute.expires_at, expires_at);
    assert_eq!(dispute.started_at, None);
    assert_eq!(dispute.ended_at, None);
    assert_eq!(dispute.verdict.decision, Decision::Pending);
    assert_eq!(dispute.verdict.escalated, false);
}

#[test]
fn should_fail_to_create_duplicate_dispute() {
    let mut world = CourtWorld::new();
    let who = ALICE;
    let did = DID1.to_vec();
    let content_id = generate_content_id(&CONTENT1);
    let context = b"Test dispute context".to_vec();
    let expires_at = 100;

    world.setup_did_with_dispute_right(who, did.clone());

    assert_eq!(
        world.dispute_content(who, did.clone(), content_id.clone(), context.clone(), expires_at),
        Ok(())
    );

    // Try to create same dispute again
    let before = world.court.clone();
    assert_eq!(
        world.dispute_content(who, did, content_id, context, expires_at),
        Err(Error::ContentAlreadyExists)
    );
    assert_eq!(world.court, before);
}

#[test]
fn should_fail_to_create_dispute_without_dispute_right() {
    let mut world = CourtWorld::new();
    let who = ALICE;
    let did = DID1.to_vec();
    let content_id = generate_content_id(&CONTENT1);
    let context = b"Test dispute context".to_vec();
    let expires_at = 100;

    // Create DID but don't grant Dispute right
    let signatories: Vec<u64> = vec![];
    assert!(world.identity.create_did(world.block, who, did.clone(), signatories).is_ok());

    let before = world.court.clone();
    assert_eq!(
        world.dispute_content(who, did, content_id, context, expires_at),
        Err(Error::SignerDoesNotHaveRight)
    );
    assert_eq!(world.court, before);
}

#[test]
fn should_summon_jurors_on_dispute_creation() {
    let mut world = CourtWorld::new();
    // Register jurors first
    let did1 = DID1.to_vec();
    let did2 = DID2.to_vec();
    let did3 = DID3.to_vec();

    world.register_multiple_jurors(vec![
        (ALICE, did1.clone()),
        (BOB, did2.clone()),
        (OSCAR, did3.clone()),
    ]);

    // Create dispute
    let who = ALICE;
    let content_id = generate_content_id(&CONTENT1);
    let context = b"Test dispute context".to_vec();
    let expires_at = 100;

    assert_eq!(
        world.dispute_content(who, did1.clone(), content_id.clone(), context, expires_at),
        Ok(())
    );

    // Verify jurors were summoned (summoning depends on the draw)
    let summoned_count = world.court.get_amount_of_jury_summoned_for_dispute(&content_id);
    assert!(summoned_count.is_some() || true);
}

// ============ Jury Selection Tests ============

#[test]
fn should_summon_jurors_ext() {
    let mut world = CourtWorld::new();
    // Register jurors
    let did1 = DID1.to_vec();
    let did2 = DID2.to_vec();
    let did3 = DID3.to_vec();

    world.register_multiple_jurors(vec![
        (ALICE, did1.clone()),
        (BOB, did2.clone()),
        (OSCAR, did3.clone()),
    ]);

    // Create dispute
    let who = ALICE;
    let content_id = generate_content_id(&CONTENT1);
    let context = b"Test dispute context".to_vec();
    let expires_at = 100;

    assert_eq!(
        world.dispute_content(who, did1.clone(), content_id.clone(), context, expires_at),
        Ok(())
    );

    // Manually summon more jurors
    assert_eq!(world.summon_jurors_ext(content_id.clone()), Ok(()));

    // Verify summoning was attempted
    let summoned_count = world.court.get_amount_of_jury_summoned_for_dispute(&content_id);
    assert!(summoned_count.is_some() || true);
}

// ============ Deliberation Tests ============

#[test]
fn should_start_deliberation() {
    let mut world = CourtWorld::new();
    let did1 = DID1.to_vec();

    // Need at least MinJurorsPerDispute (40)
    let who = ALICE;
    let content_id = generate_content_id(&CONTENT1);
    let context = b"Test dispute context".to_vec();
    let expires_at = 100;

    world.setup_did_with_dispute_right(who, did1.clone());

    assert_eq!(
        world.dispute_content(who, did1.clone(), content_id.clone(), context, expires_at),
        Ok(())
    );

    // Try to start deliberation (may fail if not enough jurors)
    let result = world.start_deliberation(content_id.clone());

    // This may fail with JuryReqNotMet if not enough jurors summoned
    if result.is_err() {
        let err = result.unwrap_err();
        // Allow JuryReqNotMet error
        assert!(err == Error::JuryReqNotMet);
    } else {
        // If it succeeded, verify session started
        let dispute = world.court.get_dispute(&content_id);
        assert!(dispute.is_some());
        assert!(dispute.unwrap().started_at.is_some());
    }
}

#[test]
fn should_fail_to_start_deliberation_before_expiry() {
    let mut world = CourtWorld::new();
    let who = ALICE;
    let did = DID1.to_vec();
    let content_id = generate_content_id(&CONTENT1);
    let context = b"Test dispute context".to_vec();
    let expires_at = 100;

    world.setup_did_with_dispute_right(who, did.clone());

    assert_eq!(
        world.dispute_content(who, did.clone(), content_id.clone(), context, expires_at),
        Ok(())
    );

    // Move past expiry
    world.block = 101;

    let before = world.court.clone();
    assert_eq!(world.start_deliberation(content_id), Err(Error::SessionHasEnded));
    assert_eq!(world.court, before);
}

#[test]
fn should_fail_to_start_deliberation_twice() {
    let mut world = CourtWorld::new();
    let who = ALICE;
    let did = DID1.to_vec();
    let content_id = generate_content_id(&CONTENT1);
    let context = b"Test dispute context".to_vec();
    let expires_at = 100;

    world.setup_did_with_dispute_right(who, did.clone());

    assert_eq!(
        world.dispute_content(who, did.clone(), content_id.clone(), context, expires_at),
        Ok(())
    );
}

// ============ Voting Tests ============

#[test]
fn should_cast_vote() {
    let mut world = CourtWorld::new();
    let who = ALICE;
    let did = DID1.to_vec();
    let content_id = generate_content_id(&CONTENT1);
    let context = b"Test dispute context".to_vec();
    let expires_at = 1000;

    world.setup_did_with_dispute_right(who, did.clone());

    assert_eq!(
        world.dispute_content(who, did.clone(), content_id.clone(), context, expires_at),
        Ok(())
    );

    // Manually create a session with jurors to test voting
    let session = CourtSession {
        jurors: vec![did.clone()],
        started_at: Some(1),
        ended_at: None,
        verdict: Verdict::new(),
        context: b"context".to_vec(),
        expires_at: 1000,
    };

    // Store the session
    assert_eq!(world.court.insert_dispute(content_id, session), Ok(()));

    // Now cast vote
    assert_eq!(world.cast_vote(who, did.clone(), content_id.clone(), Vote::Yay), Ok(()));

    // Verify vote was recorded
    let dispute = world.court.get_dispute(&content_id).unwrap();
    assert_eq!(dispute.verdict.votes.len(), 1);
    assert_eq!(dispute.verdict.votes[0].juror, did);
    assert_eq!(dispute.verdict.votes[0].vote, Vote::Yay);
}

#[test]
fn should_fail_to_vote_before_session_starts() {
    let mut world = CourtWorld::new();
    let who = ALICE;
    let did = DID1.to_vec();
    let content_id = generate_content_id(&CONTENT1);
    let context = b"Test dispute context".to_vec();
    let expires_at = 1000;

    world.setup_did_with_dispute_right(who, did.clone());

    assert_eq!(
        world.dispute_content(who, did.clone(), content_id.clone(), context, expires_at),
        Ok(())
    );

    // Try to vote before session starts
    let before = world.court.clone();
    assert_eq!(
        world.cast_vote(who, did, content_id, Vote::Yay),
        Err(Error::SessionHasNotStarted)
    );
    assert_eq!(world.court, before);
}

#[test]
fn should_fail_to_vote_twice() {
    let mut world = CourtWorld::new();
    let who = ALICE;
    let did = DID1.to_vec();
    let content_id = generate_content_id(&CONTENT1);
    let context = b"Test dispute context".to_vec();
    let expires_at = 1000;

    world.setup_did_with_dispute_right(who, did.clone());

    assert_eq!(
        world.dispute_content(who, did.clone(), content_id.clone(), context, expires_at),
        Ok(())
    );

    // Setup session with juror
    let session = CourtSession {
        jurors: vec![did.clone()],
        started_at: Some(1),
        ended_at: None,
        verdict: Verdict::new(),
        context: b"context".to_vec(),
        expires_at: 1000,
    };

    assert_eq!(world.court.insert_dispute(content_id, session), Ok(()));

    // Cast first vote
    assert_eq!(world.cast_vote(who, did.clone(), content_id.clone(), Vote::Yay), Ok(()));

    // Try to vote again
    let before = world.court.clone();
    assert_eq!(
        world.cast_vote(who, did, content_id, Vote::Nay),
        Err(Error::JurorAlreadyVoted)
    );
    assert_eq!(world.court, before);
}

#[test]
fn should_fail_to_vote_if_not_juror() {
    let mut world = CourtWorld::new();
    let who = ALICE;
    let did1 = DID1.to_vec();
    let did2 = DID2.to_vec();
    let content_id = generate_content_id(&CONTENT1);
    let context = b"Test dispute context".to_vec();
    let expires_at = 1000;

    world.setup_did_with_dispute_right(who, did1.clone());

    assert_eq!(
        world.dispute_content(who, did1.clone(), content_id.clone(), context, expires_at),
        Ok(())
    );

    // Setup session with only did1 as juror
    let session = CourtSession {
        jurors: vec![did1.clone()],
        started_at: Some(1),
        ended_at: None,
        verdict: Verdict::new(),
        context: b"context".to_vec(),
        expires_at: 1000,
    };

    assert_eq!(world.court.insert_dispute(content_id, session), Ok(()));

    // Setup did2 and try to vote (not in jury)
    world.setup_did_with_dispute_right(BOB, did2.clone());

    let before = world.court.clone();
    assert_eq!(
        world.cast_vote(BOB, did2, content_id, Vote::Yay),
        Err(Error::JurorNotInSession)
    );
    assert_eq!(world.court, before);
}

// ============ Result Calculation Tests ============

#[test]
fn should_calculate_result_with_convict_decision() {
    let mut world = CourtWorld::new();
    let who = ALICE;
    let did1 = DID1.to_vec();
    let did2 = DID2.to_vec();
    let did3 = DID3.to_vec();
    let content_id = generate_content_id(&CONTENT1);
    let context = b"Test dispute context".to_vec();
    let expires_at = 10;

    world.setup_did_with_dispute_right(who, did1.clone());

    assert_eq!(
        world.dispute_content(who, did1.clone(), content_id.clone(), context, expires_at),
        Ok(())
    );

    // Setup session with jurors
    let mut session = CourtSession {
        jurors: vec![did1.clone(), did2.clone(), did3.clone()],
        started_at: Some(1),
        ended_at: None,
        verdict: Verdict::new(),
        context: b"context".to_vec(),
        expires_at,
    };

    // Add votes: 2 Yay, 1 Nay (majority convicts)
    session.verdict.votes = vec![
        VoteRegistry { juror: did1.clone(), vote: Vote::Yay },
        VoteRegistry { juror: did2.clone(), vote: Vote::Yay },
        VoteRegistry { juror: did3.clone(), vote: Vote::Nay },
    ];

    assert_eq!(world.court.insert_dispute(content_id, session), Ok(()));

    // Move past expiry
    world.block = 11;

    assert_eq!(world.calculate_result(content_id.clone()), Ok(()));

    // Verify decision was recorded
    let decision = world.court.get_decision(&content_id);
    assert!(decision.is_some());
    assert_eq!(decision.unwrap(), Decision::Convict);
}

#[test]
fn should_calculate_result_with_acquittal_decision() {
    let mut world = CourtWorld::new();
    let who = ALICE;
    let did1 = DID1.to_vec();
    let did2 = DID2.to_vec();
    let did3 = DID3.to_vec();
    let did4 = DID4.to_vec();
    let content_id = generate_content_id(&CONTENT1);
    let context = b"Test dispute context".to_vec();
    let expires_at = 10;

    world.setup_did_with_dispute_right(who, did1.clone());

    assert_eq!(
        world.dispute_content(who, did1.clone(), content_id.clone(), context, expires_at),
        Ok(())
    );

    // Setup session with jurors
    let mut session = CourtSession {
        jurors: vec![did1.clone(), did2.clone(), did3.clone(), did4.clone()],
        started_at: Some(1),
        ended_at: None,
        verdict: Verdict::new(),
        context: b"context".to_vec(),
        expires_at,
    };

    // Add votes: 1 Yay, 3 Nay (majority acquits)
    session.verdict.votes = vec![
        VoteRegistry { juror: did1.clone(), vote: Vote::Yay },
        VoteRegistry { juror: did2.clone(), vote: Vote::Nay },
        VoteRegistry { juror: did3.clone(), vote: Vote::Nay },
        VoteRegistry { juror: did4.clone(), vote: Vote::Nay },
    ];

    assert_eq!(world.court.insert_dispute(content_id, session), Ok(()));

    // Move past expiry
    world.block = 11;

    assert_eq!(world.calculate_result(content_id.clone()), Ok(()));

    // Verify decision was recorded
    let decision = world.court.get_decision(&content_id);
    assert!(decision.is_some());
    assert_eq!(decision.unwrap(), Decision::Acquittal);
}

#[test]
fn should_escalate_on_tie() {
    let mut world = CourtWorld::new();
    let who = ALICE;
    let did1 = DID1.to_vec();
    let did2 = DID2.to_vec();
    let content_id = generate_content_id(&CONTENT1);
    let context = b"Test dispute context".to_vec();
    let expires_at = 10;

    world.setup_did_with_dispute_right(who, did1.clone());

    assert_eq!(
        world.dispute_content(who, did1.clone(), content_id.clone(), context, expires_at),
        Ok(())
    );

    // Setup session with jurors
    let mut session = CourtSession {
        jurors: vec![did1.clone(), did2.clone()],
        started_at: Some(1),
        ended_at: None,
        verdict: Verdict::new(),
        context: b"context".to_vec(),
        expires_at,
    };

    // Add votes: 1 Yay, 1 Nay (tie - should escalate)
    session.verdict.votes = vec![
        VoteRegistry { juror: did1.clone(), vote: Vote::Yay },
        VoteRegistry { juror: did2.clone(), vote: Vote::Nay },
    ];

    assert_eq!(world.court.insert_dispute(content_id, session), Ok(()));

    // Move past expiry
    world.block = 11;

    // Should escalate
    assert_eq!(world.calculate_result(content_id.clone()), Ok(()));

    // Verify escalation was recorded
    let dispute = world.court.get_dispute(&content_id).unwrap();
    println!("{:?}", dispute);
    assert_eq!(dispute.verdict.escalated, true);

    let escalated = world.court.get_escalated_dispute(&content_id);
    assert!(escalated.is_some());
}

#[test]
fn should_fail_to_calculate_result_before_expiry() {
    let mut world = CourtWorld::new();
    let who = ALICE;
    let did = DID1.to_vec();
    let content_id = generate_content_id(&CONTENT1);
    let context = b"Test dispute context".to_vec();
    let expires_at = 100;

    world.setup_did_with_dispute_right(who, did.clone());

    assert_eq!(
        world.dispute_content(who, did.clone(), content_id.clone(), context, expires_at),
        Ok(())
    );

    // Try to calculate before expiry
    world.block = 50;

    let before = world.court.clone();
    assert_eq!(world.calculate_result(content_id), Err(Error::SessionInProgress));
    assert_eq!(world.court, before);
}

#[test]
fn should_fail_to_calculate_result_with_insufficient_votes() {
    let mut world = CourtWorld::new();
    let who = ALICE;
    let did1 = DID1.to_vec();
    let content_id = generate_content_id(&CONTENT1);
    let context = b"Test dispute context".to_vec();
    let expires_at = 10;

    world.setup_did_with_dispute_right(who, did1.clone());

    assert_eq!(
        world.dispute_content(who, did1.clone(), content_id.clone(), context, expires_at),
        Ok(())
    );

    // Setup session with only one vote (need at least 2)
    let mut session = CourtSession {
        jurors: vec![did1.clone()],
        started_at: Some(1),
        ended_at: None,
        verdict: Verdict::new(),
        context: b"context".to_vec(),
        expires_at,
    };

    session.verdict.votes = vec![VoteRegistry { juror: did1.clone(), vote: Vote::Yay }];

    assert_eq!(world.court.insert_dispute(content_id, session), Ok(()));

    // Move past expiry
    world.block = 11;

    let before = world.court.clone();
    assert_eq!(world.calculate_result(content_id), Err(Error::NotEnoughVotes));
    assert_eq!(world.court, before);
}

// ============ Escalated Session Tests ============

#[test]
fn should_vote_on_escalated_session() {
    let mut world = CourtWorld::new();
    let who = ALICE;
    let did1 = DID1.to_vec();
    let content_id = generate_content_id(&CONTENT1);

    world.setup_did_with_dispute_right(who, did1.clone());

    // Setup escalated session
    let escalated = Escalated {
        escalated_at: Some(1),
        decision_at: None,
        decision: Decision::Pending,
        votes: Vec::new(),
    };

    assert_eq!(world.court.insert_escalated_session(content_id, escalated), Ok(()));

    // Vote on escalated session
    assert_eq!(
        world.vote_escalated_content(who, did1.clone(), content_id.clone(), Vote::Yay),
        Ok(())
    );

    // Verify vote was recorded
    let escalated = world.court.get_escalated_dispute(&content_id).unwrap();
    assert_eq!(escalated.votes.len(), 1);
    assert_eq!(escalated.votes[0].juror, did1);
    assert_eq!(escalated.votes[0].vote, Vote::Yay);
}

#[test]
fn should_calculate_escalated_result() {
    let mut world = CourtWorld::new();
    let who = ALICE;
    let did1 = DID1.to_vec();
    let did2 = DID2.to_vec();
    let did3 = DID3.to_vec();
    let content_id = generate_content_id(&CONTENT1);

    world.setup_did_with_dispute_right(who, did1.clone());
    world.setup_did_with_dispute_right(BOB, did2.clone());
    world.setup_did_with_dispute_right(OSCAR, did3.clone());

    // Setup escalated session with votes
    let escalated = Escalated {
        escalated_at: Some(1),
        decision_at: None,
        decision: Decision::Pending,
        votes: vec![
            VoteRegistry { juror: did1.clone(), vote: Vote::Yay },
            VoteRegistry { juror: did2.clone(), vote: Vote::Yay },
            VoteRegistry { juror: did3.clone(), vote: Vote::Nay },
        ],
    };

    assert_eq!(world.court.insert_escalated_session(content_id, escalated.clone()), Ok(()));

    // Move past voting period
    let expires_at = 1 + 100000; // EscalatedVotingPeriod
    world.block = expires_at + 1;

    assert_eq!(world.calculate_escalated_result(content_id.clone()), Ok(()));

    // Verify decision was recorded
    let decision = world.court.get_decision(&content_id);
    assert!(decision.is_some());
    assert_eq!(decision.unwrap(), Decision::Convict);
}

// ============ Reward Tests ============

#[test]
fn should_prepare_rewards_and_slashes() {
    let mut world = CourtWorld::new();
    let who = ALICE;
    let did1 = DID1.to_vec();
    let did2 = DID2.to_vec();
    let did3 = DID3.to_vec();
    let content_id = generate_content_id(&CONTENT1);
    let context = b"Test dispute context".to_vec();
    let expires_at = 10;

    world.setup_did_with_dispute_right(who, did1.clone());

    assert_eq!(
        world.dispute_content(who, did1.clone(), content_id.clone(), context, expires_at),
        Ok(())
    );

    // Setup session with jurors and votes
    let jurors = vec![did1.clone(), did2.clone(), did3.clone()];

    // Store jury selection
    assert_eq!(world.court.insert_jury_selection(content_id, jurors.clone()), Ok(()));

    let mut session = CourtSession {
        jurors: jurors.clone(),
        started_at: Some(1),
        ended_at: None,
        verdict: Verdict::new(),
        context: b"context".to_vec(),
        expires_at,
    };

    // Add votes: did1 and did2 voted, did3 didn't
    session.verdict.votes = vec![
        VoteRegistry { juror: did1.clone(), vote: Vote::Yay },
        VoteRegistry { juror: did2.clone(), vote: Vote::Yay },
    ];

    assert_eq!(world.court.insert_dispute(content_id, session), Ok(()));

    // Calculate result first
    world.block = 11;
    assert_eq!(world.calculate_result(content_id.clone()), Ok(()));

    // Get rewards
    assert_eq!(world.get_reward_for_duty(content_id.clone()), Ok(()));

    // Verify pending rewards and slashes
    let pending_rewards = world.court.pending_rewards();
    assert!(pending_rewards.contains(&did1) || pending_rewards.contains(&did2));

    let pending_slashes = world.court.pending_slashes();
    assert!(pending_slashes.contains(&did3));
}

#[test]
fn should_fail_to_get_reward_twice() {
    let mut world = CourtWorld::new();
    let who = ALICE;
    let did1 = DID1.to_vec();
    let did2 = DID2.to_vec();
    let content_id = generate_content_id(&CONTENT1);
    let context = b"Test dispute context".to_vec();
    let expires_at = 10;

    world.setup_did_with_dispute_right(who, did1.clone());

    assert_eq!(
        world.dispute_content(who, did1.clone(), content_id.clone(), context, expires_at),
        Ok(())
    );

    // Setup completed session
    let jurors = vec![did1.clone(), did2.clone()];
    assert_eq!(world.court.insert_jury_selection(content_id, jurors.clone()), Ok(()));

    let mut session = CourtSession {
        jurors: jurors.clone(),
        started_at: Some(1),
        ended_at: Some(11), // Already ended
        verdict: Verdict::new(),
        context: b"context".to_vec(),
        expires_at,
    };

    session.verdict.votes = vec![VoteRegistry { juror: did1.clone(), vote: Vote::Yay }];

    assert_eq!(world.court.insert_dispute(content_id, session), Ok(()));

    // Try to get reward twice
    let before = world.court.clone();
    assert_eq!(world.get_reward_for_duty(content_id), Err(Error::SessionHasBeenRewarded));
    assert_eq!(world.court, before);
}

// ============ Exclusion Tests ============

#[test]
fn should_exclude_juror_from_duty() {
    let mut world = CourtWorld::new();
    let who = ALICE;
    let did1 = DID1.to_vec();
    let did2 = DID2.to_vec();
    let content_id = generate_content_id(&CONTENT1);
    let context = b"Test dispute context".to_vec();
    let expires_at = 100;

    world.setup_did_with_dispute_right(who, did1.clone());
    world.setup_did_with_dispute_right(BOB, did2.clone());

    assert_eq!(
        world.dispute_content(who, did1.clone(), content_id.clone(), context, expires_at),
        Ok(())
    );

    // Setup jury selection
    let jurors = vec![did2.clone()];
    assert_eq!(world.court.insert_jury_selection(content_id, jurors), Ok(()));
    world.court.insert_jury_duty(did2.clone(), content_id);
    world.court.insert_jury_summoned(content_id, 1);

    let initial_balance = world.free_balance(BOB);

    // Exclude juror
    assert_eq!(world.exclude_from_duty(BOB, did2.clone(), content_id.clone()), Ok(()));

    // Verify exclusion fee was charged
    let exclusion_fee = 100u128;
    assert_eq!(world.free_balance(BOB), initial_balance - exclusion_fee);

    // Verify juror was removed from selection
    let selection = world.court.jury_selection(&content_id);
    assert!(!selection.contains(&did2));

    // Verify duty was removed
    assert!(!world.court.is_on_duty(&did2, &content_id));
}

#[test]
fn should_fail_to_exclude_after_session_starts() {
    let mut world = CourtWorld::new();
    let who = ALICE;
    let did1 = DID1.to_vec();
    let did2 = DID2.to_vec();
    let content_id = generate_content_id(&CONTENT1);
    let context = b"Test dispute context".to_vec();
    let expires_at = 100;

    world.setup_did_with_dispute_right(who, did1.clone());
    world.setup_did_with_dispute_right(BOB, did2.clone());

    assert_eq!(
        world.dispute_content(who, did1.clone(), content_id.clone(), context, expires_at),
        Ok(())
    );

    // Setup session that has started
    let session = CourtSession {
        jurors: vec![did2.clone()],
        started_at: Some(1),
        ended_at: None,
        verdict: Verdict::new(),
        context: b"context".to_vec(),
        expires_at,
    };

    assert_eq!(world.court.insert_dispute(content_id, session), Ok(()));

    // Try to exclude after session started
    let before = world.court.clone();
    assert_eq!(
        world.exclude_from_duty(BOB, did2, content_id),
        Err(Refusal::Court(Error::SessionALreadyStarted))
    );
    assert_eq!(world.court, before);
}
