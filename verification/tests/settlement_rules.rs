use context_court::context_court::ledger::{Fortitude, LedgerCall, Precision, Preservation};
use context_court::context_court::settlement::Transfer;
use context_court::context_court::{
    Config, CourtSession, Error, Pallet, Verdict, Vote, VoteRegistry,
};
use context_court::identity_registry;
use context_court::identity_registry::RightDuration;
use context_court::types::{BaseRight, ContentId};

const ANN: u64 = 7;

/// A draw whose bytes add up to an even number: the block slashes.
const SLASH: [u8; 2] = [3, 5];

/// A draw whose bytes add up to an odd number: the block rewards.
const REWARD: [u8; 3] = [2, 4, 255];

fn settle_config() -> Config {
    Config {
        max_jurors: 8,
        max_jurors_per_dispute: 6,
        min_jurors_per_dispute: 1,
        max_context_length: 8,
        hold_amount: 1000,
        slash_amount: 200,
        reward_amount: 300,
        exclusion_fee: 100,
        escalated_voting_period: 50,
        max_rewards_number: 6,
        batch_reward_size: 3,
    }
}

fn juror(n: u8) -> Vec<u8> {
    vec![b'j', n]
}

fn case(n: u8) -> ContentId {
    ContentId::new(b"cid:", &[n; 32])
}

/// A court whose roster holds the jurors 0 to `jurors - 1`; the juror `n`
/// answers to the account `100 + n`.
fn court_with_jurors(jurors: u8) -> Pallet {
    let mut ids = identity_registry::Pallet::new(identity_registry::Config {
        max_key_size: 16,
        hold_amount: 1000,
    });
    let mut court = Pallet::new(settle_config());
    for n in 0..jurors {
        let who = 100 + n as u64;
        assert!(ids.create_did(1, ANN, juror(n), vec![]).is_ok());
        assert!(ids
            .add_right_for_signatory(
                1,
                ANN,
                juror(n),
                who,
                BaseRight::Dispute,
                RightDuration::Permanent
            )
            .is_ok());
        assert!(court.register_did_for_juror(&ids, 1, who, juror(n)).is_ok());
    }
    court
}

fn session_of(jurors: Vec<Vec<u8>>, voters: Vec<Vec<u8>>, escalated: bool) -> CourtSession {
    let mut verdict = Verdict::new();
    verdict.escalated = escalated;
    verdict.votes = voters.into_iter().map(|j| VoteRegistry { juror: j, vote: Vote::Yay }).collect();
    CourtSession {
        jurors,
        started_at: Some(1),
        ended_at: None,
        verdict,
        context: vec![],
        expires_at: 10,
    }
}

/// Settles a session with the given jurors, of which `voters` voted.
fn settle(court: &mut Pallet, n: u8, jurors: Vec<Vec<u8>>, voters: Vec<Vec<u8>>) {
    assert_eq!(court.insert_dispute(case(n), session_of(jurors, voters, false)), Ok(()));
    assert_eq!(court.get_reward_for_duty(20, case(n)), Ok(()));
}

#[test]
fn settlement_queues_absentees_and_voters_in_order() {
    let mut court = court_with_jurors(4);
    let jurors = vec![juror(3), juror(1), juror(2), juror(0)];
    let voters = vec![juror(2), juror(0)];
    assert_eq!(court.insert_dispute(case(1), session_of(jurors, voters, false)), Ok(()));
    assert_eq!(court.get_reward_for_duty(20, case(1)), Ok(()));
    assert_eq!(court.pending_slashes(), &vec![juror(1), juror(3)]);
    assert_eq!(court.pending_rewards(), &vec![juror(0), juror(2)]);
    assert_eq!(court.get_dispute(&case(1)).unwrap().ended_at, Some(20));
}

#[test]
fn settlement_is_made_once() {
    let mut court = court_with_jurors(2);
    let session = session_of(vec![juror(0), juror(1)], vec![juror(0)], false);
    assert_eq!(court.insert_dispute(case(1), session), Ok(()));
    assert_eq!(court.get_reward_for_duty(20, case(1)), Ok(()));
    let before = court.clone();
    assert_eq!(court.get_reward_for_duty(21, case(1)), Err(Error::SessionHasBeenRewarded));
    assert_eq!(court, before);
    assert_eq!(court.get_reward_for_duty(21, case(2)), Err(Error::SessionNotFound));
}

#[test]
fn escalated_session_rewards_nobody() {
    let mut court = court_with_jurors(3);
    let session = session_of(vec![juror(0), juror(1), juror(2)], vec![juror(1)], true);
    assert_eq!(court.insert_dispute(case(1), session), Ok(()));
    assert_eq!(court.get_reward_for_duty(20, case(1)), Ok(()));
    assert_eq!(court.pending_slashes(), &vec![juror(0), juror(2)]);
    assert_eq!(court.pending_rewards(), &Vec::<Vec<u8>>::new());
    assert_eq!(court.get_dispute(&case(1)).unwrap().ended_at, Some(20));
}

#[test]
fn settlement_counts_a_juror_once() {
    let mut court = court_with_jurors(2);
    let session = session_of(vec![juror(1), juror(1), juror(0)], vec![], false);
    assert_eq!(court.insert_dispute(case(1), session), Ok(()));
    assert_eq!(court.get_reward_for_duty(20, case(1)), Ok(()));
    assert_eq!(court.pending_slashes(), &vec![juror(0), juror(1)]);
}

#[test]
fn full_queue_refuses_the_settlement() {
    let mut court = court_with_jurors(6);
    let all: Vec<Vec<u8>> = (0..6).map(juror).collect();
    settle(&mut court, 1, all[..4].to_vec(), vec![]);
    let session = session_of(all[..3].to_vec(), vec![], false);
    assert_eq!(court.insert_dispute(case(2), session), Ok(()));
    let before = court.clone();
    assert_eq!(court.get_reward_for_duty(20, case(2)), Err(Error::StorageOverflow));
    assert_eq!(court, before);
    // Two more fit.
    let session = session_of(all[..2].to_vec(), vec![], false);
    assert_eq!(court.insert_dispute(case(3), session), Ok(()));
    assert_eq!(court.get_reward_for_duty(20, case(3)), Ok(()));
    assert_eq!(court.pending_slashes().len(), 6);
}

#[test]
fn block_serves_at_most_the_batch() {
    let mut court = court_with_jurors(5);
    let all: Vec<Vec<u8>> = (0..5).map(juror).collect();
    settle(&mut court, 1, all.clone(), all.clone());
    assert_eq!(court.pending_rewards(), &all);
    let plan = court.settlement_plan(&REWARD);
    assert_eq!(
        plan,
        vec![
            Transfer { juror: juror(4), call: LedgerCall::MintInto { who: 104, amount: 300 } },
            Transfer { juror: juror(3), call: LedgerCall::MintInto { who: 103, amount: 300 } },
            Transfer { juror: juror(2), call: LedgerCall::MintInto { who: 102, amount: 300 } },
        ]
    );
    assert_eq!(court.on_initialize(&REWARD, &[true, true, true, true, true]), 3);
    assert_eq!(court.pending_rewards(), &vec![juror(0), juror(1)]);
    assert_eq!(court.on_initialize(&REWARD, &[true, true, true]), 2);
    assert_eq!(court.pending_rewards(), &Vec::<Vec<u8>>::new());
    assert_eq!(court.on_initialize(&REWARD, &[true, true, true]), 0);
}

#[test]
fn failed_reward_goes_back_to_the_queue() {
    let mut court = court_with_jurors(5);
    let all: Vec<Vec<u8>> = (0..5).map(juror).collect();
    settle(&mut court, 1, all.clone(), all.clone());
    let roster = court.jurors().clone();
    // The mints for the jurors 4 and 2 fail.
    assert_eq!(court.on_initialize(&REWARD, &[false, true, false]), 3);
    assert_eq!(court.pending_rewards(), &vec![juror(0), juror(1), juror(4), juror(2)]);
    assert_eq!(court.jurors(), &roster);
    assert_eq!(court.pending_slashes(), &Vec::<Vec<u8>>::new());
}

#[test]
fn failed_slash_purges_the_juror() {
    let mut court = court_with_jurors(5);
    let all: Vec<Vec<u8>> = (0..5).map(juror).collect();
    settle(&mut court, 1, all.clone(), vec![]);
    let plan = court.settlement_plan(&SLASH);
    assert_eq!(
        plan[0],
        Transfer {
            juror: juror(4),
            call: LedgerCall::BurnFrom {
                who: 104,
                amount: 200,
                preservation: Preservation::Expendable,
                precision: Precision::BestEffort,
                fortitude: Fortitude::Force,
            }
        }
    );
    assert_eq!(plan.len(), 3);
    // The burn for the juror 3 fails.
    assert_eq!(court.on_initialize(&SLASH, &[true, false, true]), 3);
    assert_eq!(court.pending_slashes(), &vec![juror(0), juror(1)]);
    assert_eq!(court.jurors(), &vec![juror(0), juror(1), juror(2), juror(4)]);
    assert_eq!(court.pending_rewards(), &Vec::<Vec<u8>>::new());
}

#[test]
fn block_serves_one_queue() {
    let mut court = court_with_jurors(4);
    let all: Vec<Vec<u8>> = (0..4).map(juror).collect();
    settle(&mut court, 1, all.clone(), all[..2].to_vec());
    assert_eq!(court.on_initialize(&SLASH, &[true, true]), 2);
    assert_eq!(court.pending_slashes(), &Vec::<Vec<u8>>::new());
    assert_eq!(court.pending_rewards(), &vec![juror(0), juror(1)]);
    // An empty draw adds up to zero: the block slashes.
    assert_eq!(court.on_initialize(&[], &[true, true]), 0);
    assert_eq!(court.on_initialize(&[1], &[true, true]), 2);
    assert_eq!(court.pending_rewards(), &Vec::<Vec<u8>>::new());
}

#[test]
fn juror_without_an_account_leaves_the_queue() {
    let mut court = court_with_jurors(2);
    let stranger = vec![b'x'];
    settle(&mut court, 1, vec![juror(0), stranger.clone(), juror(1)], vec![]);
    assert_eq!(court.pending_slashes(), &vec![juror(0), juror(1), stranger]);
    let plan = court.settlement_plan(&SLASH);
    assert_eq!(plan.len(), 2);
    assert_eq!(plan[0].juror, juror(1));
    assert_eq!(plan[1].juror, juror(0));
    assert_eq!(court.on_initialize(&SLASH, &[true, true]), 3);
    assert_eq!(court.pending_slashes(), &Vec::<Vec<u8>>::new());
}

#[test]
fn block_stops_where_outcomes_run_out() {
    let mut court = court_with_jurors(3);
    let all: Vec<Vec<u8>> = (0..3).map(juror).collect();
    settle(&mut court, 1, all.clone(), vec![]);
    assert_eq!(court.on_initialize(&SLASH, &[true]), 1);
    assert_eq!(court.pending_slashes(), &vec![juror(0), juror(1)]);
    assert_eq!(court.on_initialize(&SLASH, &[]), 0);
    assert_eq!(court.pending_slashes(), &vec![juror(0), juror(1)]);
    assert_eq!(court.jurors().len(), 3);
}
