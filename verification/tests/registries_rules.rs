use context_court::content_registry;
use context_court::identity_registry::{
    Config, Duration, Error, Pallet, RightDuration, Rights,
};
use context_court::traits::{Answered, DidManager, NoAnswer};
use context_court::types::BaseRight;

const EVE: u64 = 5;

fn tight() -> Pallet {
    Pallet::new(Config { max_key_size: 2, hold_amount: 10 })
}

#[test]
fn creation_hands_out_the_hold() {
    let mut ids = tight();
    let created = ids.create_did(3, EVE, vec![1], vec![8, 9]).unwrap();
    assert_eq!(created.hold.who, EVE);
    assert_eq!(created.hold.amount, 10);
    assert_eq!(
        ids.get_signatory_rights(&vec![1], &EVE),
        Some(vec![Rights { right: BaseRight::Update, duration: RightDuration::Permanent }])
    );
    assert_eq!(ids.get_signatory_rights(&vec![1], &8), None);
}

#[test]
fn creation_refuses_too_many_signatories() {
    let mut ids = tight();
    let before = ids.clone();
    assert_eq!(
        ids.create_did(3, EVE, vec![1], vec![7, 8, 9]).map(|_| ()),
        Err(Error::StorageOverflow)
    );
    assert_eq!(ids, before);
}

#[test]
fn rights_and_devices_stop_at_the_limit() {
    let mut ids = tight();
    assert!(ids.create_did(3, EVE, vec![1], vec![]).is_ok());
    assert!(ids
        .add_right_for_signatory(3, EVE, vec![1], EVE, BaseRight::Dispute, RightDuration::Permanent)
        .is_ok());
    let before = ids.clone();
    assert_eq!(
        ids.add_right_for_signatory(
            3,
            EVE,
            vec![1],
            EVE,
            BaseRight::Impersonate,
            RightDuration::Permanent
        )
        .map(|_| ()),
        Err(Error::TooManyRights)
    );
    assert_eq!(ids, before);
    assert!(ids.register_device(3, EVE, vec![1], vec![50]).is_ok());
    assert!(ids.register_device(3, EVE, vec![1], vec![51]).is_ok());
    assert_eq!(
        ids.register_device(3, EVE, vec![1], vec![52]).map(|_| ()),
        Err(Error::TooManyDevices)
    );
    assert_eq!(ids.read_did_devices(&vec![1]), Ok(vec![vec![50], vec![51]]));
    assert_eq!(ids.read_did_devices(&vec![2]), Ok(vec![]));
}

#[test]
fn removal_takes_every_copy() {
    let mut ids = Pallet::new(Config { max_key_size: 8, hold_amount: 10 });
    assert!(ids.create_did(3, EVE, vec![1], vec![]).is_ok());
    for device in [vec![50u8], vec![51], vec![50], vec![52]] {
        assert!(ids.register_device(3, EVE, vec![1], device).is_ok());
    }
    assert!(ids.remove_device(3, EVE, vec![1], vec![50]).is_ok());
    assert_eq!(ids.get_did_devices(&vec![1]), Some(&vec![vec![51], vec![52]]));
    assert_eq!(ids.remove_device(3, 6, vec![1], vec![51]).map(|_| ()), Err(Error::SignerDoesNotHaveRight));
}

#[test]
fn temporary_right_holds_between_its_ends() {
    let mut ids = tight();
    assert!(ids.create_did(3, EVE, vec![1], vec![]).is_ok());
    let span = RightDuration::Temporary(Duration { valid_from_block: 5, valid_to_block: 5 });
    assert!(ids.add_right_for_signatory(3, EVE, vec![1], 6, BaseRight::Dispute, span).is_ok());
    assert_eq!(ids.is_signer_valid(4, &6, &vec![1], &BaseRight::Dispute), Ok(false));
    assert_eq!(ids.is_signer_valid(5, &6, &vec![1], &BaseRight::Dispute), Ok(true));
    assert_eq!(ids.is_signer_valid(6, &6, &vec![1], &BaseRight::Dispute), Ok(false));
    assert_eq!(ids.is_signer_valid(5, &6, &vec![1], &BaseRight::Update), Ok(false));
    assert!(Rights { right: BaseRight::Dispute, duration: span }.is_granting(BaseRight::Dispute, 5));
}

#[test]
fn prepared_answers_are_given_back() {
    let answers = Answered { signer: Some(true), devices: Some(vec![vec![1, 2]]) };
    assert_eq!(answers.is_signer_valid(0, &1, &vec![], &BaseRight::Update), Ok(true));
    assert_eq!(answers.read_did_devices(&vec![9]), Ok(vec![vec![1, 2]]));
    let silent = Answered { signer: None, devices: None };
    assert_eq!(silent.is_signer_valid(0, &1, &vec![], &BaseRight::Update), Err(NoAnswer));
    assert_eq!(silent.read_did_devices(&vec![9]), Err(NoAnswer));
}

#[test]
fn content_needs_answers_and_room() {
    let mut registry = content_registry::Pallet::new(content_registry::Config { max_content_in_vec: 1 });
    let silent = Answered { signer: None, devices: None };
    let create = |registry: &mut content_registry::Pallet, ids: &Answered, content: Vec<u8>| {
        registry
            .create_content(ids, 1, EVE, vec![1], content, vec![], vec![], vec![], vec![50])
            .map(|_| ())
    };
    assert_eq!(create(&mut registry, &silent, vec![1]), Err(content_registry::Error::CouldNotGetResponse));
    let no_devices = Answered { signer: Some(true), devices: None };
    assert_eq!(
        create(&mut registry, &no_devices, vec![1]),
        Err(content_registry::Error::CouldNotGetResponse)
    );
    let ready = Answered { signer: Some(true), devices: Some(vec![vec![50]]) };
    assert_eq!(create(&mut registry, &ready, vec![1]), Ok(()));
    let before = registry.clone();
    assert_eq!(
        create(&mut registry, &ready, vec![2]),
        Err(content_registry::Error::CouldNotPushContent)
    );
    assert_eq!(registry, before);
    assert_eq!(
        create(&mut registry, &ready, vec![1]),
        Err(content_registry::Error::ContentAlreadyExists)
    );
}

#[test]
fn content_is_recorded_under_a_given_name() {
    let mut registry = content_registry::Pallet::new(content_registry::Config { max_content_in_vec: 4 });
    let ready = Answered { signer: Some(true), devices: Some(vec![vec![50]]) };
    let id = context_court::types::ContentId::new(b"cid:", &[3; 32]);
    let event = registry
        .record_content(&ready, 8, EVE, vec![1], id, vec![9], vec![1], vec![2], vec![3], vec![50])
        .unwrap();
    assert_eq!(
        event,
        content_registry::Event::ContentStored {
            block_number: 8,
            who: EVE,
            content_id: id,
            content: vec![9],
            did: vec![1]
        }
    );
    let proof = registry.get_content(&id).unwrap();
    assert_eq!(proof.exists_from, 8);
    assert_eq!(proof.content_metadata, vec![3]);
    assert_eq!(registry.get_did_contents(&vec![1]), vec![id]);
    assert!(!registry.does_did_have_content(&vec![2], &id));
}
