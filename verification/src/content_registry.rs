//! The content registry: proof that a content existed, by whom and from
//! which device it was registered.

use vstd::prelude::*;
use crate::hashing::{content_id, content_id_of};
use crate::lists::{clone_did, contains};
use crate::table::Table;
use crate::traits::DidManager;
use crate::types::{AccountId, BaseRight, BlockNumber, ContentId, ContentIdView, Device, Did};

verus! {

/// Why an operation of the registry was refused.
#[derive(Clone, Copy, PartialEq, Eq, Structural, Debug)]
pub enum Error {
    NoneValue,
    StorageOverflow,
    /// The signer lacks the right to impersonate the DID.
    SignerDoesNotHaveRight,
    /// The identity registry gave no answer.
    CouldNotGetResponse,
    /// The content is registered already.
    ContentAlreadyExists,
    /// The DID has as many contents as it may.
    CouldNotPushContent,
    /// The device is not one of the DID.
    DeviceNotOwned,
}

/// The model of a [`Proof`].
pub struct ProofView {
    pub content_id: ContentIdView,
    pub exists_from: BlockNumber,
    pub did: Seq<u8>,
    pub signer: AccountId,
    pub content: Seq<u8>,
    pub content_type: Seq<u8>,
    pub content_description: Seq<u8>,
    pub content_metadata: Seq<u8>,
    pub device: Seq<u8>,
}

/// The record of a content: what it is, and who registered it when.
#[derive(Clone, PartialEq, Eq, Debug)]
pub struct Proof {
    pub content_id: ContentId,
    pub exists_from: BlockNumber,
    pub did: Did,
    pub signer: AccountId,
    /// The encoded content.
    pub content: Vec<u8>,
    pub content_type: Vec<u8>,
    pub content_description: Vec<u8>,
    pub content_metadata: Vec<u8>,
    pub device: Device,
}

impl View for Proof {
    type V = ProofView;

    open spec fn view(&self) -> ProofView {
        ProofView {
            content_id: self.content_id@,
            exists_from: self.exists_from,
            did: self.did.deep_view(),
            signer: self.signer,
            content: self.content.deep_view(),
            content_type: self.content_type.deep_view(),
            content_description: self.content_description.deep_view(),
            content_metadata: self.content_metadata.deep_view(),
            device: self.device.deep_view(),
        }
    }
}

impl DeepView for Proof {
    type V = ProofView;

    open spec fn deep_view(&self) -> ProofView {
        self@
    }
}

/// The model of an [`Event`].
pub enum EventView {
    SomethingStored { block_number: BlockNumber, who: AccountId },
    ContentStored {
        block_number: BlockNumber,
        who: AccountId,
        content_id: ContentIdView,
        content: Seq<u8>,
        did: Seq<u8>,
    },
}

/// What the registry reports to the outside.
#[derive(Clone, PartialEq, Eq, Debug)]
pub enum Event {
    SomethingStored { block_number: BlockNumber, who: AccountId },
    ContentStored {
        block_number: BlockNumber,
        who: AccountId,
        content_id: ContentId,
        content: Vec<u8>,
        did: Did,
    },
}

impl View for Event {
    type V = EventView;

    open spec fn view(&self) -> EventView {
        match self {
            Event::SomethingStored { block_number, who } => EventView::SomethingStored {
                block_number: *block_number,
                who: *who,
            },
            Event::ContentStored {
                block_number,
                who,
                content_id,
                content,
                did,
            } => EventView::ContentStored {
                block_number: *block_number,
                who: *who,
                content_id: content_id@,
                content: content.deep_view(),
                did: did.deep_view(),
            },
        }
    }
}

/// The limit that a registry is set up with.
#[derive(Clone, Copy, PartialEq, Eq, Structural, Debug)]
pub struct Config {
    /// How many contents one DID has at most.
    pub max_content_in_vec: u32,
}

/// The model of a registry.
pub struct RegistryView {
    pub config: Config,
    /// The contents of each DID, in the order of registration.
    pub did_contents: Map<Seq<u8>, Seq<ContentIdView>>,
    /// The pairs of a DID and a content that the DID registered.
    pub did_content_exists: Map<(Seq<u8>, ContentIdView), bool>,
    /// The record of each content.
    pub proofs: Map<ContentIdView, ProofView>,
}

impl RegistryView {
    /// A registry that knows nothing yet.
    pub open spec fn empty(config: Config) -> RegistryView {
        RegistryView {
            config,
            did_contents: Map::empty(),
            did_content_exists: Map::empty(),
            proofs: Map::empty(),
        }
    }

    /// The contents of `did`.
    pub open spec fn contents(self, did: Seq<u8>) -> Seq<ContentIdView> {
        if self.did_contents.contains_key(did) {
            self.did_contents[did]
        } else {
            Seq::empty()
        }
    }

    /// Whether `did` registered the content `id`.
    pub open spec fn has_content(self, did: Seq<u8>, id: ContentIdView) -> bool {
        self.did_content_exists.contains_key((did, id)) && self.did_content_exists[(did, id)]
    }

    /// What holds of every registry: no DID has more contents than it may.
    pub open spec fn inv(self) -> bool {
        forall|did: Seq<u8>| #[trigger]
            self.did_contents.contains_key(did) ==> self.did_contents[did].len()
                <= self.config.max_content_in_vec
    }
}

/// Why `device` of `did` cannot register the content `id`, if it cannot;
/// `answer` is what the identity registry said of the caller's right to
/// impersonate the DID, `devices` what it said of the DID's devices.
pub open spec fn record_error(
    s: RegistryView,
    did: Seq<u8>,
    id: ContentIdView,
    device: Seq<u8>,
    answer: Option<bool>,
    devices: Option<Seq<Seq<u8>>>,
) -> Option<Error> {
    if answer is None {
        Some(Error::CouldNotGetResponse)
    } else if answer == Some(false) {
        Some(Error::SignerDoesNotHaveRight)
    } else if devices is None {
        Some(Error::CouldNotGetResponse)
    } else if !devices->0.contains(device) {
        Some(Error::DeviceNotOwned)
    } else if s.proofs.contains_key(id) {
        Some(Error::ContentAlreadyExists)
    } else if s.contents(did).len() >= s.config.max_content_in_vec {
        Some(Error::CouldNotPushContent)
    } else {
        None
    }
}

/// The registry after the content of `record` was recorded.
pub open spec fn record_next(s: RegistryView, record: ProofView) -> RegistryView {
    RegistryView {
        proofs: s.proofs.insert(record.content_id, record),
        did_content_exists: s.did_content_exists.insert((record.did, record.content_id), true),
        did_contents: s.did_contents.insert(
            record.did,
            s.contents(record.did).push(record.content_id),
        ),
        ..s
    }
}

/// A content is registered once: after it was recorded, recording it again
/// for any DID with the right and the device is refused because the content
/// exists.
pub proof fn lemma_record_once(
    s: RegistryView,
    record: ProofView,
    did: Seq<u8>,
    device: Seq<u8>,
    devices: Seq<Seq<u8>>,
)
    requires
        devices.contains(device),
    ensures
        record_error(
            record_next(s, record),
            did,
            record.content_id,
            device,
            Some(true),
            Some(devices),
        ) == Some(Error::ContentAlreadyExists),
{
}

/// The registry: its configuration and everything it has recorded.
#[derive(Clone, PartialEq, Eq, Debug)]
pub struct Pallet {
    pub(crate) config: Config,
    pub(crate) did_contents: Table<Did, Vec<ContentId>>,
    pub(crate) did_content_exists: Table<(Did, ContentId), bool>,
    pub(crate) proofs: Table<ContentId, Proof>,
}

impl View for Pallet {
    type V = RegistryView;

    open(crate) spec fn view(&self) -> RegistryView {
        RegistryView {
            config: self.config,
            did_contents: self.did_contents.model(),
            did_content_exists: self.did_content_exists.model(),
            proofs: self.proofs.model(),
        }
    }
}

impl Pallet {
    /// Whether the registry is in a state that its operations can work on.
    pub open(crate) spec fn wf(&self) -> bool {
        &&& self.did_contents.wf()
        &&& self.did_content_exists.wf()
        &&& self.proofs.wf()
        &&& self@.inv()
    }

    /// A registry that its operations can work on keeps the rules of
    /// [`RegistryView::inv`].
    pub proof fn lemma_inv(&self)
        requires
            self.wf(),
        ensures
            self@.inv(),
    {
    }

    /// A registry with the given configuration and nothing recorded.
    pub fn new(config: Config) -> (registry: Self)
        ensures
            registry.wf(),
            registry@ == RegistryView::empty(config),
    {
        Pallet {
            config,
            did_contents: Table::new(),
            did_content_exists: Table::new(),
            proofs: Table::new(),
        }
    }

    /// Records the content named `content_id` for `did`, registered from
    /// `device` at block `now`.  The caller `who` must hold the right to
    /// impersonate `did`, and `device` must be one of its devices.
    pub fn record_content<R: DidManager>(
        &mut self,
        registry: &R,
        now: BlockNumber,
        who: AccountId,
        did: Did,
        content_id: ContentId,
        content: Vec<u8>,
        content_type: Vec<u8>,
        content_description: Vec<u8>,
        content_metadata: Vec<u8>,
        device: Device,
    ) -> (r: Result<Event, Error>)
        requires
            old(self).wf(),
            registry.wf(),
        ensures
            final(self).wf(),
            ({
                let answer = registry.signer_valid(
                    now,
                    who,
                    did.deep_view(),
                    BaseRight::Impersonate,
                );
                let devices = registry.devices(did.deep_view());
                let error = record_error(
                    old(self)@,
                    did.deep_view(),
                    content_id@,
                    device.deep_view(),
                    answer,
                    devices,
                );
                match r {
                    Ok(event) => error is None && final(self)@ == record_next(
                        old(self)@,
                        ProofView {
                            content_id: content_id@,
                            exists_from: now,
                            did: did.deep_view(),
                            signer: who,
                            content: content.deep_view(),
                            content_type: content_type.deep_view(),
                            content_description: content_description.deep_view(),
                            content_metadata: content_metadata.deep_view(),
                            device: device.deep_view(),
                        },
                    ) && event@ == (EventView::ContentStored {
                        block_number: now,
                        who,
                        content_id: content_id@,
                        content: content.deep_view(),
                        did: did.deep_view(),
                    }),
                    Err(e) => error == Some(e) && final(self)@ == old(self)@,
                }
            }),
    {
        let ghost s0 = self@;
        match registry.is_signer_valid(now, &who, &did, &BaseRight::Impersonate) {
            Err(_) => {
                return Err(Error::CouldNotGetResponse);
            },
            Ok(false) => {
                return Err(Error::SignerDoesNotHaveRight);
            },
            Ok(true) => {},
        }
        match registry.read_did_devices(&did) {
            Err(_) => {
                return Err(Error::CouldNotGetResponse);
            },
            Ok(devices) => {
                if !contains(&devices, &device) {
                    return Err(Error::DeviceNotOwned);
                }
            },
        }
        if self.proofs.contains_key(&content_id) {
            return Err(Error::ContentAlreadyExists);
        }
        let count = match self.did_contents.get(&did) {
            Some(list) => list.len(),
            None => 0,
        };
        if count >= self.config.max_content_in_vec as usize {
            return Err(Error::CouldNotPushContent);
        }
        let mut contents = match self.did_contents.remove(&did) {
            Some(list) => list,
            None => Vec::new(),
        };
        assert(contents.deep_view() =~= s0.contents(did.deep_view()));
        let ghost listed = contents.deep_view();
        contents.push(content_id);
        assert(contents.deep_view() =~= listed.push(content_id@));
        self.did_contents.insert(clone_did(&did), contents);
        self.did_content_exists.insert((clone_did(&did), content_id), true);
        let event = Event::ContentStored {
            block_number: now,
            who,
            content_id,
            content: clone_did(&content),
            did: clone_did(&did),
        };
        let record = Proof {
            content_id,
            exists_from: now,
            did,
            signer: who,
            content,
            content_type,
            content_description,
            content_metadata,
            device,
        };
        self.proofs.insert(content_id, record);
        proof {
            assert(self@.did_contents =~= s0.did_contents.insert(
                did.deep_view(),
                s0.contents(did.deep_view()).push(content_id@),
            ));
            assert forall|d: Seq<u8>| #[trigger]
                self@.did_contents.contains_key(d) implies self@.did_contents[d].len()
                <= self@.config.max_content_in_vec by {
                if d != did.deep_view() {
                    assert(s0.did_contents.contains_key(d));
                }
            }
        }
        Ok(event)
    }

    /// Registers `content`, given by its encoding, for `did` from `device` at
    /// block `now`.  The content is named by the prefix `cid:` and the digest
    /// of its encoding, and recorded as [`Pallet::record_content`] does.
    pub fn create_content<R: DidManager>(
        &mut self,
        registry: &R,
        now: BlockNumber,
        who: AccountId,
        did: Did,
        content: Vec<u8>,
        content_type: Vec<u8>,
        content_description: Vec<u8>,
        content_metadata: Vec<u8>,
        device: Device,
    ) -> (r: Result<Event, Error>)
        requires
            old(self).wf(),
            registry.wf(),
        ensures
            final(self).wf(),
            ({
                let id = content_id_of(content.deep_view());
                let answer = registry.signer_valid(
                    now,
                    who,
                    did.deep_view(),
                    BaseRight::Impersonate,
                );
                let devices = registry.devices(did.deep_view());
                let error = record_error(
                    old(self)@,
                    did.deep_view(),
                    id,
                    device.deep_view(),
                    answer,
                    devices,
                );
                match r {
                    Ok(event) => error is None && final(self)@ == record_next(
                        old(self)@,
                        ProofView {
                            content_id: id,
                            exists_from: now,
                            did: did.deep_view(),
                            signer: who,
                            content: content.deep_view(),
                            content_type: content_type.deep_view(),
                            content_description: content_description.deep_view(),
                            content_metadata: content_metadata.deep_view(),
                            device: device.deep_view(),
                        },
                    ) && event@ == (EventView::ContentStored {
                        block_number: now,
                        who,
                        content_id: id,
                        content: content.deep_view(),
                        did: did.deep_view(),
                    }),
                    Err(e) => error == Some(e) && final(self)@ == old(self)@,
                }
            }),
    {
        let id = content_id(content.as_slice());
        assert(content@ =~= content.deep_view());
        self.record_content(
            registry,
            now,
            who,
            did,
            id,
            content,
            content_type,
            content_description,
            content_metadata,
            device,
        )
    }

    /// The contents of `did`, in the order of registration.
    pub fn get_did_contents(&self, did: &Did) -> (list: Vec<ContentId>)
        requires
            self.wf(),
        ensures
            list.deep_view() == self@.contents(did.deep_view()),
    {
        let mut list: Vec<ContentId> = Vec::new();
        match self.did_contents.get(did) {
            Some(stored) => {
                let mut i: usize = 0;
                while i < stored.len()
                    invariant
                        i <= stored@.len(),
                        list@.len() == i,
                        forall|j: int| 0 <= j < i ==> list@[j] == stored@[j],
                    decreases stored@.len() - i,
                {
                    list.push(stored[i]);
                    i += 1;
                }
                assert(list.deep_view() =~= stored.deep_view());
            },
            None => {
                assert(list.deep_view() =~= Seq::<ContentIdView>::empty());
            },
        }
        list
    }

    /// Whether `did` registered the content `content_id`.
    pub fn does_did_have_content(&self, did: &Did, content_id: &ContentId) -> (has: bool)
        requires
            self.wf(),
        ensures
            has == self@.has_content(did.deep_view(), content_id@),
    {
        let key = (clone_did(did), *content_id);
        match self.did_content_exists.get(&key) {
            Some(flag) => *flag,
            None => false,
        }
    }

    /// Whether the content `content_id` is recorded.
    pub fn check_proof_of_reality(&self, content_id: &ContentId) -> (recorded: bool)
        requires
            self.wf(),
        ensures
            recorded == self@.proofs.contains_key(content_id@),
    {
        self.proofs.contains_key(content_id)
    }

    /// The record of the content `content_id`.
    pub fn get_content(&self, content_id: &ContentId) -> (r: Option<&Proof>)
        requires
            self.wf(),
        ensures
            match r {
                Some(record) => self@.proofs.contains_key(content_id@) && record@
                    == self@.proofs[content_id@],
                None => !self@.proofs.contains_key(content_id@),
            },
    {
        self.proofs.get(content_id)
    }
}

} // verus!
