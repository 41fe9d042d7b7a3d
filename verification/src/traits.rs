//! What the court and the content registry ask of an identity registry.

use vstd::prelude::*;
use crate::lists::clone_dids;
use crate::types::{AccountId, BaseRight, BlockNumber, Device, Did};

verus! {

/// An identity registry: it knows the devices of a DID and which accounts
/// may act for it.
///
/// The two spec functions say what the registry answers; an implementation
/// proves that its methods return just that.
pub trait DidManager {
    /// Why the registry gave no answer.
    type Error;

    /// Whether the registry is in a state that it can be asked in.
    spec fn wf(&self) -> bool;

    /// The devices of `did`, or `None` where the registry gives no answer.
    spec fn devices(&self, did: Seq<u8>) -> Option<Seq<Seq<u8>>>;

    /// Whether `who` holds `right` for `did` at block `now`, or `None` where
    /// the registry gives no answer.
    spec fn signer_valid(
        &self,
        now: BlockNumber,
        who: AccountId,
        did: Seq<u8>,
        right: BaseRight,
    ) -> Option<bool>;

    /// The devices registered for `did`.
    fn read_did_devices(&self, did: &Did) -> (r: Result<Vec<Device>, Self::Error>)
        requires
            self.wf(),
        ensures
            match r {
                Ok(list) => self.devices(did.deep_view()) == Some(list.deep_view()),
                Err(_) => self.devices(did.deep_view()) is None,
            },
    ;

    /// Whether `who` holds `right` for `did` at block `now`.
    fn is_signer_valid(&self, now: BlockNumber, who: &AccountId, did: &Did, right: &BaseRight) -> (r:
        Result<bool, Self::Error>)
        requires
            self.wf(),
        ensures
            match r {
                Ok(valid) => self.signer_valid(now, *who, did.deep_view(), *right) == Some(valid),
                Err(_) => self.signer_valid(now, *who, did.deep_view(), *right) is None,
            },
    ;
}

/// The error of a registry that gave no answer.
#[derive(Clone, Copy, PartialEq, Eq, Structural, Debug)]
pub struct NoAnswer;

/// An identity registry that was asked beforehand: it holds the answers of
/// another registry about one caller and one DID, and gives them to every
/// question.
#[derive(Clone, PartialEq, Eq, Debug)]
pub struct Answered {
    /// Whether the caller holds the right, or `None` for no answer.
    pub signer: Option<bool>,
    /// The devices of the DID, or `None` for no answer.
    pub devices: Option<Vec<Device>>,
}

impl DidManager for Answered {
    type Error = NoAnswer;

    open spec fn wf(&self) -> bool {
        true
    }

    open spec fn devices(&self, did: Seq<u8>) -> Option<Seq<Seq<u8>>> {
        match self.devices {
            Some(list) => Some(list.deep_view()),
            None => None,
        }
    }

    open spec fn signer_valid(
        &self,
        now: BlockNumber,
        who: AccountId,
        did: Seq<u8>,
        right: BaseRight,
    ) -> Option<bool> {
        self.signer
    }

    fn read_did_devices(&self, did: &Did) -> (r: Result<Vec<Device>, NoAnswer>) {
        match &self.devices {
            Some(list) => Ok(clone_dids(list)),
            None => Err(NoAnswer),
        }
    }

    fn is_signer_valid(&self, now: BlockNumber, who: &AccountId, did: &Did, right: &BaseRight) -> (r:
        Result<bool, NoAnswer>) {
        match self.signer {
            Some(valid) => Ok(valid),
            None => Err(NoAnswer),
        }
    }
}

} // verus!
