//! The identity registry: DIDs, the rights that accounts hold for them, and
//! their devices.

use vstd::prelude::*;
use crate::lists::{clone_did, clone_dids};
use crate::table::{Key, Table};
use crate::traits::DidManager;
use crate::types::{AccountId, Balance, BaseRight, BlockNumber, Device, Did};

verus! {

/// Why an amount is held on an account.
#[derive(Clone, Copy, PartialEq, Eq, Structural, Debug)]
pub enum HoldReason {
    AccountCreation,
}

/// The blocks during which a temporary right holds, both ends included.
#[derive(Clone, Copy, PartialEq, Eq, Structural, Debug)]
pub struct Duration {
    pub valid_from_block: BlockNumber,
    pub valid_to_block: BlockNumber,
}

/// For how long a right is granted.
#[derive(Clone, Copy, PartialEq, Eq, Structural, Debug)]
pub enum RightDuration {
    Permanent,
    Temporary(Duration),
}

/// A right granted to an account, with its duration.
#[derive(Clone, Copy, PartialEq, Eq, Structural, Debug)]
pub struct Rights {
    pub right: BaseRight,
    pub duration: RightDuration,
}

impl View for Rights {
    type V = Rights;

    open spec fn view(&self) -> Rights {
        *self
    }
}

impl DeepView for Rights {
    type V = Rights;

    open spec fn deep_view(&self) -> Rights {
        *self
    }
}

impl Rights {
    /// Whether this is the right `right`, in force at block `now`.
    pub open spec fn grants(self, right: BaseRight, now: BlockNumber) -> bool {
        self.right == right && match self.duration {
            RightDuration::Permanent => true,
            RightDuration::Temporary(span) => span.valid_from_block <= now <= span.valid_to_block,
        }
    }

    /// Whether this is the right `right`, in force at block `now`.
    pub fn is_granting(&self, right: BaseRight, now: BlockNumber) -> (b: bool)
        ensures
            b == self.grants(right, now),
    {
        self.right == right && match self.duration {
            RightDuration::Permanent => true,
            RightDuration::Temporary(span) => span.valid_from_block <= now && now
                <= span.valid_to_block,
        }
    }
}

/// Why an operation of the registry was refused.
#[derive(Clone, Copy, PartialEq, Eq, Structural, Debug)]
pub enum Error {
    NoneValue,
    /// A bounded list is full.
    StorageOverflow,
    /// The account holds as many rights for the DID as it may.
    TooManyRights,
    /// The signer lacks the right to update the DID.
    SignerDoesNotHaveRight,
    /// The DID exists already.
    DidAlreadyExists,
    /// The DID has as many devices as it may.
    TooManyDevices,
}

/// The model of an [`Event`].
#[allow(inconsistent_fields)]
pub enum EventView {
    RightAdded { block_number: BlockNumber, who: AccountId, did: Seq<u8>, right: Rights },
    DidCreated { block_number: BlockNumber, creator: AccountId, did: Seq<u8> },
    RightRemoved { block_number: BlockNumber, who: AccountId, did: Seq<u8>, right: BaseRight },
    DeviceRegistered { block_number: BlockNumber, who: AccountId, did: Seq<u8>, device: Seq<u8> },
    DeviceRemoved { block_number: BlockNumber, who: AccountId, did: Seq<u8>, device: Seq<u8> },
}

/// What the registry reports to the outside.
#[allow(inconsistent_fields)]
#[derive(Clone, PartialEq, Eq, Debug)]
pub enum Event {
    RightAdded { block_number: BlockNumber, who: AccountId, did: Did, right: Rights },
    DidCreated { block_number: BlockNumber, creator: AccountId, did: Did },
    RightRemoved { block_number: BlockNumber, who: AccountId, did: Did, right: BaseRight },
    DeviceRegistered { block_number: BlockNumber, who: AccountId, did: Did, device: Device },
    DeviceRemoved { block_number: BlockNumber, who: AccountId, did: Did, device: Device },
}

impl View for Event {
    type V = EventView;

    open spec fn view(&self) -> EventView {
        match self {
            Event::RightAdded { block_number, who, did, right } => EventView::RightAdded {
                block_number: *block_number,
                who: *who,
                did: did.deep_view(),
                right: *right,
            },
            Event::DidCreated { block_number, creator, did } => EventView::DidCreated {
                block_number: *block_number,
                creator: *creator,
                did: did.deep_view(),
            },
            Event::RightRemoved { block_number, who, did, right } => EventView::RightRemoved {
                block_number: *block_number,
                who: *who,
                did: did.deep_view(),
                right: *right,
            },
            Event::DeviceRegistered {
                block_number,
                who,
                did,
                device,
            } => EventView::DeviceRegistered {
                block_number: *block_number,
                who: *who,
                did: did.deep_view(),
                device: device.deep_view(),
            },
            Event::DeviceRemoved { block_number, who, did, device } => EventView::DeviceRemoved {
                block_number: *block_number,
                who: *who,
                did: did.deep_view(),
                device: device.deep_view(),
            },
        }
    }
}

/// A hold that the registry asks the ledger to place.
#[derive(Clone, Copy, PartialEq, Eq, Structural, Debug)]
pub struct Hold {
    pub reason: HoldReason,
    pub who: AccountId,
    pub amount: Balance,
}

/// What the creation of a DID hands out: the hold of the deposit on the
/// creator's account, and the event to publish.
#[derive(Clone, PartialEq, Eq, Debug)]
pub struct Created {
    pub hold: Hold,
    pub event: Event,
}

/// The limits and amounts that a registry is set up with.
#[derive(Clone, Copy, PartialEq, Eq, Structural, Debug)]
pub struct Config {
    /// How many signatories or devices a DID has, and how many rights an
    /// account holds for a DID, at most.
    pub max_key_size: u32,
    /// Held on an account when it creates a DID.
    pub hold_amount: Balance,
}

/// The model of a registry.
pub struct RegistryView {
    pub config: Config,
    /// The signatories that each DID was created with.
    pub signatories: Map<Seq<u8>, Seq<AccountId>>,
    /// The rights that an account holds for a DID.
    pub signatory_rights: Map<(Seq<u8>, AccountId), Seq<Rights>>,
    /// The devices of each DID.
    pub did_devices: Map<Seq<u8>, Seq<Seq<u8>>>,
}

impl RegistryView {
    /// A registry that knows nothing yet.
    pub open spec fn empty(config: Config) -> RegistryView {
        RegistryView {
            config,
            signatories: Map::empty(),
            signatory_rights: Map::empty(),
            did_devices: Map::empty(),
        }
    }

    /// The rights that `who` holds for `did`.
    pub open spec fn rights(self, did: Seq<u8>, who: AccountId) -> Seq<Rights> {
        if self.signatory_rights.contains_key((did, who)) {
            self.signatory_rights[(did, who)]
        } else {
            Seq::empty()
        }
    }

    /// The devices of `did`.
    pub open spec fn devices(self, did: Seq<u8>) -> Seq<Seq<u8>> {
        if self.did_devices.contains_key(did) {
            self.did_devices[did]
        } else {
            Seq::empty()
        }
    }

    /// Whether `who` holds `right` for `did` at block `now`.
    pub open spec fn valid_signatory(
        self,
        did: Seq<u8>,
        who: AccountId,
        right: BaseRight,
        now: BlockNumber,
    ) -> bool {
        exists|i: int|
            0 <= i < self.rights(did, who).len() && (#[trigger] self.rights(did, who)[i]).grants(
                right,
                now,
            )
    }

    /// What holds of every registry: its lists keep within the limit.
    pub open spec fn inv(self) -> bool {
        &&& forall|did: Seq<u8>| #[trigger]
            self.signatories.contains_key(did) ==> self.signatories[did].len()
                <= self.config.max_key_size
        &&& forall|k: (Seq<u8>, AccountId)| #[trigger]
            self.signatory_rights.contains_key(k) ==> self.signatory_rights[k].len()
                <= self.config.max_key_size
        &&& forall|did: Seq<u8>| #[trigger]
            self.did_devices.contains_key(did) ==> self.did_devices[did].len()
                <= self.config.max_key_size
    }
}

impl Key for (Vec<u8>, AccountId) {
    fn same(&self, other: &Self) -> (b: bool) {
        self.1 == other.1 && self.0.same(&other.0)
    }
}

/// The registry: its configuration and everything it has recorded.
#[derive(Clone, PartialEq, Eq, Debug)]
pub struct Pallet {
    pub(crate) config: Config,
    pub(crate) signatories: Table<Did, Vec<AccountId>>,
    pub(crate) signatory_rights: Table<(Did, AccountId), Vec<Rights>>,
    pub(crate) did_devices: Table<Did, Vec<Device>>,
}

impl View for Pallet {
    type V = RegistryView;

    open(crate) spec fn view(&self) -> RegistryView {
        RegistryView {
            config: self.config,
            signatories: self.signatories.model(),
            signatory_rights: self.signatory_rights.model(),
            did_devices: self.did_devices.model(),
        }
    }
}

/// The rights of `rights` other than `right`.
pub open spec fn rights_without(rights: Seq<Rights>, right: BaseRight) -> Seq<Rights> {
    rights.filter(|r: Rights| r.right != right)
}

/// The devices of `devices` other than `device`.
pub open spec fn devices_without(devices: Seq<Seq<u8>>, device: Seq<u8>) -> Seq<Seq<u8>> {
    devices.filter(|d: Seq<u8>| d != device)
}

/// Why `who` cannot create `did` with these signatories, if it cannot.
pub open spec fn create_error(
    s: RegistryView,
    did: Seq<u8>,
    who: AccountId,
    signatories: Seq<AccountId>,
) -> Option<Error> {
    if s.signatories.contains_key(did) {
        Some(Error::DidAlreadyExists)
    } else if signatories.len() > s.config.max_key_size {
        Some(Error::StorageOverflow)
    } else if s.rights(did, who).len() >= s.config.max_key_size {
        Some(Error::TooManyRights)
    } else {
        None
    }
}

/// The right that the creator of a DID holds for it.
pub open spec fn creator_right() -> Rights {
    Rights { right: BaseRight::Update, duration: RightDuration::Permanent }
}

/// The registry after `who` created `did`: the DID has its signatories, and
/// `who` holds the permanent right to update it.
pub open spec fn create_next(
    s: RegistryView,
    did: Seq<u8>,
    who: AccountId,
    signatories: Seq<AccountId>,
) -> RegistryView {
    RegistryView {
        signatories: s.signatories.insert(did, signatories),
        signatory_rights: s.signatory_rights.insert(
            (did, who),
            s.rights(did, who).push(creator_right()),
        ),
        ..s
    }
}

/// Why `who` cannot change `did` at block `now`, if it cannot: it lacks the
/// right to update it.
pub open spec fn update_error(s: RegistryView, did: Seq<u8>, who: AccountId, now: BlockNumber) -> Option<
    Error,
> {
    if !s.valid_signatory(did, who, BaseRight::Update, now) {
        Some(Error::SignerDoesNotHaveRight)
    } else {
        None
    }
}

/// Why `who` cannot grant `target` a right for `did` at block `now`, if it
/// cannot.
pub open spec fn add_right_error(
    s: RegistryView,
    did: Seq<u8>,
    who: AccountId,
    target: AccountId,
    now: BlockNumber,
) -> Option<Error> {
    if update_error(s, did, who, now) is Some {
        update_error(s, did, who, now)
    } else if s.rights(did, target).len() >= s.config.max_key_size {
        Some(Error::TooManyRights)
    } else {
        None
    }
}

/// The registry after `target` was granted `right` for `did`.
pub open spec fn add_right_next(s: RegistryView, did: Seq<u8>, target: AccountId, right: Rights) -> RegistryView {
    RegistryView {
        signatory_rights: s.signatory_rights.insert(
            (did, target),
            s.rights(did, target).push(right),
        ),
        ..s
    }
}

/// The registry after every grant of `right` for `did` was taken from
/// `target`.
pub open spec fn remove_right_next(
    s: RegistryView,
    did: Seq<u8>,
    target: AccountId,
    right: BaseRight,
) -> RegistryView {
    RegistryView {
        signatory_rights: s.signatory_rights.insert(
            (did, target),
            rights_without(s.rights(did, target), right),
        ),
        ..s
    }
}

/// Why `who` cannot register a device for `did` at block `now`, if it cannot.
pub open spec fn register_device_error(
    s: RegistryView,
    did: Seq<u8>,
    who: AccountId,
    now: BlockNumber,
) -> Option<Error> {
    if update_error(s, did, who, now) is Some {
        update_error(s, did, who, now)
    } else if s.devices(did).len() >= s.config.max_key_size {
        Some(Error::TooManyDevices)
    } else {
        None
    }
}

/// The registry after `device` was registered for `did`.
pub open spec fn register_device_next(s: RegistryView, did: Seq<u8>, device: Seq<u8>) -> RegistryView {
    RegistryView { did_devices: s.did_devices.insert(did, s.devices(did).push(device)), ..s }
}

/// The registry after `device` was removed from `did`.
pub open spec fn remove_device_next(s: RegistryView, did: Seq<u8>, device: Seq<u8>) -> RegistryView {
    RegistryView {
        did_devices: s.did_devices.insert(did, devices_without(s.devices(did), device)),
        ..s
    }
}

/// A copy of `rights`.
fn clone_rights(rights: &Vec<Rights>) -> (copy: Vec<Rights>)
    ensures
        copy.deep_view() == rights.deep_view(),
{
    let mut copy: Vec<Rights> = Vec::new();
    let mut i: usize = 0;
    while i < rights.len()
        invariant
            i <= rights@.len(),
            copy@.len() == i,
            forall|j: int| 0 <= j < i ==> copy@[j] == rights@[j],
        decreases rights@.len() - i,
    {
        copy.push(rights[i]);
        i += 1;
    }
    assert(copy.deep_view() =~= rights.deep_view());
    copy
}

/// The rights of `rights` other than `right`.
fn retain_other_rights(rights: &Vec<Rights>, right: BaseRight) -> (kept: Vec<Rights>)
    ensures
        kept.deep_view() == rights_without(rights.deep_view(), right),
        kept@.len() <= rights@.len(),
{
    let ghost all = rights.deep_view();
    let mut kept: Vec<Rights> = Vec::new();
    let mut i: usize = 0;
    assert(kept.deep_view() =~= rights_without(all.take(0), right)) by {
        reveal(Seq::filter);
    }
    while i < rights.len()
        invariant
            i <= rights@.len(),
            all == rights.deep_view(),
            kept@.len() <= i,
            kept.deep_view() == rights_without(all.take(i as int), right),
        decreases rights@.len() - i,
    {
        let ghost so_far = kept.deep_view();
        reveal(Seq::filter);
        assert(all.take(i + 1).drop_last() =~= all.take(i as int));
        assert(all.take(i + 1).last() == all[i as int]);
        if rights[i].right != right {
            kept.push(rights[i]);
            assert(kept.deep_view() =~= so_far.push(all[i as int]));
        }
        i += 1;
    }
    assert(all.take(rights@.len() as int) =~= all);
    kept
}

/// The devices of `devices` other than `device`.
fn retain_other_devices(devices: &Vec<Device>, device: &Device) -> (kept: Vec<Device>)
    ensures
        kept.deep_view() == devices_without(devices.deep_view(), device.deep_view()),
        kept@.len() <= devices@.len(),
{
    let ghost all = devices.deep_view();
    let mut kept: Vec<Device> = Vec::new();
    let mut i: usize = 0;
    assert(kept.deep_view() =~= devices_without(all.take(0), device.deep_view())) by {
        reveal(Seq::filter);
    }
    while i < devices.len()
        invariant
            i <= devices@.len(),
            all == devices.deep_view(),
            kept@.len() <= i,
            kept.deep_view() == devices_without(all.take(i as int), device.deep_view()),
        decreases devices@.len() - i,
    {
        let ghost so_far = kept.deep_view();
        reveal(Seq::filter);
        assert(all.take(i + 1).drop_last() =~= all.take(i as int));
        assert(all.take(i + 1).last() == all[i as int]);
        if !devices[i].same(device) {
            kept.push(clone_did(&devices[i]));
            assert(kept.deep_view() =~= so_far.push(all[i as int]));
        }
        i += 1;
    }
    assert(all.take(devices@.len() as int) =~= all);
    kept
}

impl Pallet {
    /// Whether the registry is in a state that its operations can work on.
    pub open(crate) spec fn wf(&self) -> bool {
        &&& self.signatories.wf()
        &&& self.signatory_rights.wf()
        &&& self.did_devices.wf()
        &&& self@.inv()
    }

    /// A registry that its operations can work on keeps the rules of
    /// [`RegistryView::inv`].
    pub proof fn lemma_inv(&self)
        requires
            self.wf(),
        ensures
            self@.inv(),
    {
    }

    /// A registry with the given configuration and nothing recorded.
    pub fn new(config: Config) -> (registry: Self)
        ensures
            registry.wf(),
            registry@ == RegistryView::empty(config),
    {
        Pallet {
            config,
            signatories: Table::new(),
            signatory_rights: Table::new(),
            did_devices: Table::new(),
        }
    }

    /// The rights that `who` holds for `did`.
    fn rights_of(&self, did: &Did, who: AccountId) -> (rights: Vec<Rights>)
        requires
            self.wf(),
        ensures
            rights.deep_view() == self@.rights(did.deep_view(), who),
            rights@.len() <= self@.config.max_key_size,
    {
        let key = (clone_did(did), who);
        match self.signatory_rights.get(&key) {
            Some(rights) => clone_rights(rights),
            None => {
                let rights: Vec<Rights> = Vec::new();
                assert(rights.deep_view() =~= Seq::<Rights>::empty());
                rights
            },
        }
    }

    /// The devices of `did`.
    fn devices_of(&self, did: &Did) -> (devices: Vec<Device>)
        requires
            self.wf(),
        ensures
            devices.deep_view() == self@.devices(did.deep_view()),
            devices@.len() <= self@.config.max_key_size,
    {
        match self.did_devices.get(did) {
            Some(devices) => clone_dids(devices),
            None => {
                let devices: Vec<Device> = Vec::new();
                assert(devices.deep_view() =~= Seq::<Seq<u8>>::empty());
                devices
            },
        }
    }

    /// Whether `who` holds `right` for `did` at block `now`.
    pub fn is_valid_signatory(&self, did: &Did, who: &AccountId, right: &BaseRight, now: BlockNumber) -> (valid:
        bool)
        requires
            self.wf(),
        ensures
            valid == self@.valid_signatory(did.deep_view(), *who, *right, now),
    {
        let rights = self.rights_of(did, *who);
        let mut i: usize = 0;
        while i < rights.len()
            invariant
                i <= rights@.len(),
                rights.deep_view() == self@.rights(did.deep_view(), *who),
                forall|j: int| 0 <= j < i ==> !(#[trigger] rights.deep_view()[j]).grants(*right, now),
            decreases rights@.len() - i,
        {
            if rights[i].is_granting(*right, now) {
                assert(rights.deep_view()[i as int].grants(*right, now));
                return true;
            }
            i += 1;
        }
        false
    }

    /// Creates `did` with the given signatories.  The creator `who` receives
    /// the permanent right to update it.  Hands out the hold of the deposit on
    /// `who` and the event of the creation.
    pub fn create_did(&mut self, now: BlockNumber, who: AccountId, did: Did, signatories: Vec<AccountId>) -> (r:
        Result<Created, Error>)
        requires
            old(self).wf(),
        ensures
            final(self).wf(),
            match r {
                Ok(done) => create_error(old(self)@, did.deep_view(), who, signatories.deep_view())
                    is None && final(self)@ == create_next(
                    old(self)@,
                    did.deep_view(),
                    who,
                    signatories.deep_view(),
                ) && done.hold == (Hold {
                    reason: HoldReason::AccountCreation,
                    who,
                    amount: old(self)@.config.hold_amount,
                }) && done.event@ == (EventView::DidCreated {
                    block_number: now,
                    creator: who,
                    did: did.deep_view(),
                }),
                Err(e) => create_error(old(self)@, did.deep_view(), who, signatories.deep_view())
                    == Some(e) && final(self)@ == old(self)@,
            },
    {
        let ghost s0 = self@;
        let cap = self.config.max_key_size as usize;
        if self.signatories.contains_key(&did) {
            return Err(Error::DidAlreadyExists);
        }
        if signatories.len() > cap {
            return Err(Error::StorageOverflow);
        }
        let mut rights = self.rights_of(&did, who);
        if rights.len() >= cap {
            return Err(Error::TooManyRights);
        }
        let ghost held = rights.deep_view();
        rights.push(Rights { right: BaseRight::Update, duration: RightDuration::Permanent });
        assert(rights.deep_view() =~= held.push(creator_right()));
        self.signatory_rights.insert((clone_did(&did), who), rights);
        self.signatories.insert(clone_did(&did), signatories);
        proof {
            assert(self@.did_devices == s0.did_devices);
            assert forall|k: (Seq<u8>, AccountId)| #[trigger]
                self@.signatory_rights.contains_key(k) implies self@.signatory_rights[k].len()
                <= self@.config.max_key_size by {
                if k != (did.deep_view(), who) {
                    assert(s0.signatory_rights.contains_key(k));
                }
            }
            assert forall|d: Seq<u8>| #[trigger]
                self@.signatories.contains_key(d) implies self@.signatories[d].len()
                <= self@.config.max_key_size by {
                if d != did.deep_view() {
                    assert(s0.signatories.contains_key(d));
                }
            }
        }
        Ok(
            Created {
                hold: Hold {
                    reason: HoldReason::AccountCreation,
                    who,
                    amount: self.config.hold_amount,
                },
                event: Event::DidCreated { block_number: now, creator: who, did },
            },
        )
    }

    /// Grants `target` the right `right` for `did`, for `duration`.  The
    /// caller `who` must hold the right to update `did`.
    pub fn add_right_for_signatory(
        &mut self,
        now: BlockNumber,
        who: AccountId,
        did: Did,
        target: AccountId,
        right: BaseRight,
        duration: RightDuration,
    ) -> (r: Result<Event, Error>)
        requires
            old(self).wf(),
        ensures
            final(self).wf(),
            match r {
                Ok(event) => add_right_error(old(self)@, did.deep_view(), who, target, now) is None
                    && final(self)@ == add_right_next(
                    old(self)@,
                    did.deep_view(),
                    target,
                    Rights { right, duration },
                ) && event@ == (EventView::RightAdded {
                    block_number: now,
                    who,
                    did: did.deep_view(),
                    right: Rights { right, duration },
                }),
                Err(e) => add_right_error(old(self)@, did.deep_view(), who, target, now) == Some(e)
                    && final(self)@ == old(self)@,
            },
    {
        let ghost s0 = self@;
        if !self.is_valid_signatory(&did, &who, &BaseRight::Update, now) {
            return Err(Error::SignerDoesNotHaveRight);
        }
        let mut rights = self.rights_of(&did, target);
        if rights.len() >= self.config.max_key_size as usize {
            return Err(Error::TooManyRights);
        }
        let granted = Rights { right, duration };
        let ghost held = rights.deep_view();
        rights.push(granted);
        assert(rights.deep_view() =~= held.push(granted));
        self.signatory_rights.insert((clone_did(&did), target), rights);
        proof {
            assert(self@.did_devices == s0.did_devices);
            assert(self@.signatories == s0.signatories);
            assert forall|k: (Seq<u8>, AccountId)| #[trigger]
                self@.signatory_rights.contains_key(k) implies self@.signatory_rights[k].len()
                <= self@.config.max_key_size by {
                if k != (did.deep_view(), target) {
                    assert(s0.signatory_rights.contains_key(k));
                }
            }
        }
        Ok(Event::RightAdded { block_number: now, who, did, right: granted })
    }

    /// Takes every grant of `right` for `did` from `target`.  The caller `who`
    /// must hold the right to update `did`.
    pub fn remove_right_for_signatory(
        &mut self,
        now: BlockNumber,
        who: AccountId,
        did: Did,
        target: AccountId,
        right: BaseRight,
    ) -> (r: Result<Event, Error>)
        requires
            old(self).wf(),
        ensures
            final(self).wf(),
            match r {
                Ok(event) => update_error(old(self)@, did.deep_view(), who, now) is None && final(self)@ == remove_right_next(old(self)@, did.deep_view(), target, right) && event@ == (
                EventView::RightRemoved { block_number: now, who, did: did.deep_view(), right }),
                Err(e) => update_error(old(self)@, did.deep_view(), who, now) == Some(e) && final(self)@ == old(self)@,
            },
    {
        let ghost s0 = self@;
        if !self.is_valid_signatory(&did, &who, &BaseRight::Update, now) {
            return Err(Error::SignerDoesNotHaveRight);
        }
        let rights = self.rights_of(&did, target);
        let kept = retain_other_rights(&rights, right);
        self.signatory_rights.insert((clone_did(&did), target), kept);
        proof {
            assert(self@.did_devices == s0.did_devices);
            assert(self@.signatories == s0.signatories);
            assert forall|k: (Seq<u8>, AccountId)| #[trigger]
                self@.signatory_rights.contains_key(k) implies self@.signatory_rights[k].len()
                <= self@.config.max_key_size by {
                if k != (did.deep_view(), target) {
                    assert(s0.signatory_rights.contains_key(k));
                }
            }
        }
        Ok(Event::RightRemoved { block_number: now, who, did, right })
    }

    /// Registers `device` for `did`.  The caller `who` must hold the right to
    /// update `did`.
    pub fn register_device(&mut self, now: BlockNumber, who: AccountId, did: Did, device: Device) -> (r:
        Result<Event, Error>)
        requires
            old(self).wf(),
        ensures
            final(self).wf(),
            match r {
                Ok(event) => register_device_error(old(self)@, did.deep_view(), who, now) is None
                    && final(self)@ == register_device_next(
                    old(self)@,
                    did.deep_view(),
                    device.deep_view(),
                ) && event@ == (EventView::DeviceRegistered {
                    block_number: now,
                    who,
                    did: did.deep_view(),
                    device: device.deep_view(),
                }),
                Err(e) => register_device_error(old(self)@, did.deep_view(), who, now) == Some(e)
                    && final(self)@ == old(self)@,
            },
    {
        let ghost s0 = self@;
        if !self.is_valid_signatory(&did, &who, &BaseRight::Update, now) {
            return Err(Error::SignerDoesNotHaveRight);
        }
        let mut devices = self.devices_of(&did);
        if devices.len() >= self.config.max_key_size as usize {
            return Err(Error::TooManyDevices);
        }
        let ghost held = devices.deep_view();
        devices.push(clone_did(&device));
        assert(devices.deep_view() =~= held.push(device.deep_view()));
        self.did_devices.insert(clone_did(&did), devices);
        proof {
            assert(self@.signatory_rights == s0.signatory_rights);
            assert(self@.signatories == s0.signatories);
            assert forall|d: Seq<u8>| #[trigger]
                self@.did_devices.contains_key(d) implies self@.did_devices[d].len()
                <= self@.config.max_key_size by {
                if d != did.deep_view() {
                    assert(s0.did_devices.contains_key(d));
                }
            }
        }
        Ok(Event::DeviceRegistered { block_number: now, who, did, device })
    }

    /// Removes `device` from `did`.  The caller `who` must hold the right to
    /// update `did`.
    pub fn remove_device(&mut self, now: BlockNumber, who: AccountId, did: Did, device: Device) -> (r:
        Result<Event, Error>)
        requires
            old(self).wf(),
        ensures
            final(self).wf(),
            match r {
                Ok(event) => update_error(old(self)@, did.deep_view(), who, now) is None && final(self)@ == remove_device_next(old(self)@, did.deep_view(), device.deep_view())
                    && event@ == (EventView::DeviceRemoved {
                    block_number: now,
                    who,
                    did: did.deep_view(),
                    device: device.deep_view(),
                }),
                Err(e) => update_error(old(self)@, did.deep_view(), who, now) == Some(e) && final(self)@ == old(self)@,
            },
    {
        let ghost s0 = self@;
        if !self.is_valid_signatory(&did, &who, &BaseRight::Update, now) {
            return Err(Error::SignerDoesNotHaveRight);
        }
        let devices = self.devices_of(&did);
        let kept = retain_other_devices(&devices, &device);
        self.did_devices.insert(clone_did(&did), kept);
        proof {
            assert(self@.signatory_rights == s0.signatory_rights);
            assert(self@.signatories == s0.signatories);
            assert forall|d: Seq<u8>| #[trigger]
                self@.did_devices.contains_key(d) implies self@.did_devices[d].len()
                <= self@.config.max_key_size by {
                if d != did.deep_view() {
                    assert(s0.did_devices.contains_key(d));
                }
            }
        }
        Ok(Event::DeviceRemoved { block_number: now, who, did, device })
    }

    /// The signatories that `did` was created with.
    pub fn get_signatories(&self, did: &Did) -> (r: Option<&Vec<AccountId>>)
        requires
            self.wf(),
        ensures
            match r {
                Some(list) => self@.signatories.contains_key(did.deep_view()) && list.deep_view()
                    == self@.signatories[did.deep_view()],
                None => !self@.signatories.contains_key(did.deep_view()),
            },
    {
        self.signatories.get(did)
    }

    /// The rights recorded for `who` on `did`.
    pub fn get_signatory_rights(&self, did: &Did, who: &AccountId) -> (r: Option<Vec<Rights>>)
        requires
            self.wf(),
        ensures
            match r {
                Some(list) => self@.signatory_rights.contains_key((did.deep_view(), *who))
                    && list.deep_view() == self@.signatory_rights[(did.deep_view(), *who)],
                None => !self@.signatory_rights.contains_key((did.deep_view(), *who)),
            },
    {
        let key = (clone_did(did), *who);
        match self.signatory_rights.get(&key) {
            Some(rights) => Some(clone_rights(rights)),
            None => None,
        }
    }

    /// The devices recorded for `did`.
    pub fn get_did_devices(&self, did: &Did) -> (r: Option<&Vec<Device>>)
        requires
            self.wf(),
        ensures
            match r {
                Some(list) => self@.did_devices.contains_key(did.deep_view()) && list.deep_view()
                    == self@.did_devices[did.deep_view()],
                None => !self@.did_devices.contains_key(did.deep_view()),
            },
    {
        self.did_devices.get(did)
    }
}

impl DidManager for Pallet {
    type Error = Error;

    open(crate) spec fn wf(&self) -> bool {
        Pallet::wf(self)
    }

    open spec fn devices(&self, did: Seq<u8>) -> Option<Seq<Seq<u8>>> {
        Some(self@.devices(did))
    }

    open spec fn signer_valid(
        &self,
        now: BlockNumber,
        who: AccountId,
        did: Seq<u8>,
        right: BaseRight,
    ) -> Option<bool> {
        Some(self@.valid_signatory(did, who, right, now))
    }

    /// The devices registered for `did`; none where the DID has none.
    fn read_did_devices(&self, did: &Did) -> (r: Result<Vec<Device>, Error>) {
        Ok(self.devices_of(did))
    }

    /// Whether `who` holds `right` for `did` at block `now`.
    fn is_signer_valid(&self, now: BlockNumber, who: &AccountId, did: &Did, right: &BaseRight) -> (r:
        Result<bool, Error>) {
        Ok(self.is_valid_signatory(did, who, right, now))
    }
}

} // verus!
