//! The roster: who is a juror, and which account answers for each.

use vstd::prelude::*;
use crate::context_court::ledger::LedgerCall;
use crate::context_court::{
    capability_error, check_capability, CourtView, Error, Event, EventView, HoldReason, Pallet,
};
use crate::lists::{clone_did, contains};
use crate::traits::DidManager;
use crate::types::{AccountId, BaseRight, BlockNumber, Did};

verus! {

/// What a registration hands out: the hold that the ledger is to place on
/// the caller's account, and the event to publish.
#[derive(Clone, PartialEq, Eq, Debug)]
pub struct Registered {
    pub hold: LedgerCall,
    pub event: Event,
}

/// Why `did` cannot become a juror, if it cannot; `answer` is what the
/// identity registry said of the caller.
pub open spec fn register_error(s: CourtView, did: Seq<u8>, answer: Option<bool>) -> Option<Error> {
    if capability_error(answer) is Some {
        capability_error(answer)
    } else if s.jurors.contains(did) {
        Some(Error::DidAlreadyExists)
    } else if s.jurors.len() >= s.config.max_jurors {
        Some(Error::StorageOverflow)
    } else {
        None
    }
}

/// The court after `did` became a juror at the request of `who`: the juror
/// is the last of the roster, and `who` answers for it.
pub open spec fn register_next(s: CourtView, did: Seq<u8>, who: AccountId) -> CourtView {
    CourtView { jurors: s.jurors.push(did), juror_admins: s.juror_admins.insert(did, who), ..s }
}

/// A DID is a juror once: after it was registered, registering it again
/// with the right to dispute is refused because the DID exists.
pub proof fn lemma_register_once(s: CourtView, did: Seq<u8>, who: AccountId)
    requires
        register_error(s, did, Some(true)) is None,
    ensures
        register_error(register_next(s, did, who), did, Some(true)) == Some(
            Error::DidAlreadyExists,
        ),
{
    assert(register_next(s, did, who).jurors[s.jurors.len() as int] == did);
}

impl Pallet {
    /// Makes `did` a juror.  The caller `who` must hold the right to dispute
    /// for `did` and answers for the juror from then on.  Hands out the hold of
    /// the deposit on `who` and the event of the registration.
    pub fn register_did_for_juror<R: DidManager>(
        &mut self,
        registry: &R,
        now: BlockNumber,
        who: AccountId,
        did: Did,
    ) -> (r: Result<Registered, Error>)
        requires
            old(self).wf(),
            registry.wf(),
        ensures
            final(self).wf(),
            ({
                let answer = registry.signer_valid(now, who, did.deep_view(), BaseRight::Dispute);
                match r {
                    Ok(done) => register_error(old(self)@, did.deep_view(), answer) is None
                        && final(self)@ == register_next(old(self)@, did.deep_view(), who)
                        && done.hold == (LedgerCall::Hold {
                        reason: HoldReason::JurorAccountCreation,
                        who,
                        amount: old(self)@.config.hold_amount,
                    }) && done.event@ == (EventView::JurorRegistered {
                        block_number: now,
                        did: did.deep_view(),
                        admin: who,
                    }),
                    Err(e) => register_error(old(self)@, did.deep_view(), answer) == Some(e)
                        && final(self)@ == old(self)@,
                }
            }),
    {
        let ghost s0 = self@;
        match check_capability(registry, now, who, &did) {
            Err(e) => {
                return Err(e);
            },
            Ok(()) => {},
        }
        if contains(&self.jurors, &did) {
            return Err(Error::DidAlreadyExists);
        }
        if self.jurors.len() >= self.config.max_jurors as usize {
            return Err(Error::StorageOverflow);
        }
        self.jurors.push(clone_did(&did));
        self.juror_admins.insert(clone_did(&did), who);
        proof {
            assert(self@.jurors =~= s0.jurors.push(did.deep_view()));
            assert(self@.disputes == s0.disputes);
            assert(self@.jury_selection == s0.jury_selection);
            assert(self@.escalated_sessions == s0.escalated_sessions);
            assert forall|a: int, b: int|
                0 <= a < self@.jurors.len() && 0 <= b < self@.jurors.len() && a
                    != b implies self@.jurors[a] != self@.jurors[b] by {
                if a < s0.jurors.len() && b < s0.jurors.len() {
                    assert(s0.jurors[a] != s0.jurors[b]);
                } else if a < s0.jurors.len() {
                    assert(s0.jurors.contains(s0.jurors[a]));
                } else if b < s0.jurors.len() {
                    assert(s0.jurors.contains(s0.jurors[b]));
                }
            }
        }
        Ok(
            Registered {
                hold: LedgerCall::Hold {
                    reason: HoldReason::JurorAccountCreation,
                    who,
                    amount: self.config.hold_amount,
                },
                event: Event::JurorRegistered { block_number: now, did, admin: who },
            },
        )
    }
}

} // verus!
