//! Identifiers and rights shared by the registries and the court.

use vstd::prelude::*;
use crate::table::Key;

verus! {

/// A ledger account.
pub type AccountId = u64;

/// A block height.
pub type BlockNumber = u64;

/// An amount of the native token.
pub type Balance = u128;

/// A decentralized identifier, as raw bytes.
pub type Did = Vec<u8>;

/// A device identifier, as raw bytes.
pub type Device = Vec<u8>;

/// What an account may do on behalf of a DID.
#[derive(Clone, Copy, PartialEq, Eq, Structural, Debug)]
pub enum BaseRight {
    Update,
    Impersonate,
    Dispute,
}

impl Default for BaseRight {
    fn default() -> (r: Self)
        ensures
            r == BaseRight::Update,
    {
        BaseRight::Update
    }
}

impl View for BaseRight {
    type V = BaseRight;

    open spec fn view(&self) -> BaseRight {
        *self
    }
}

impl DeepView for BaseRight {
    type V = BaseRight;

    open spec fn deep_view(&self) -> BaseRight {
        *self
    }
}

/// The model of a [`ContentId`]: its two byte strings.
pub struct ContentIdView {
    pub prefix: Seq<u8>,
    pub hash: Seq<u8>,
}

/// Names a piece of content: a four-byte prefix and a 32-byte hash.
#[derive(Clone, Copy, PartialEq, Eq, Debug)]
pub struct ContentId {
    prefix: [u8; 4],
    hash: [u8; 32],
}

impl View for ContentId {
    type V = ContentIdView;

    closed spec fn view(&self) -> ContentIdView {
        ContentIdView { prefix: self.prefix@, hash: self.hash@ }
    }
}

impl DeepView for ContentId {
    type V = ContentIdView;

    open spec fn deep_view(&self) -> ContentIdView {
        self@
    }
}

impl ContentId {
    /// Builds the identifier from a four-byte prefix and a 32-byte hash.
    pub fn new(prefix: &[u8], hash: &[u8]) -> (id: Self)
        requires
            prefix@.len() == 4,
            hash@.len() == 32,
        ensures
            id@.prefix == prefix@,
            id@.hash == hash@,
    {
        let mut p = [0u8;4];
        let mut h = [0u8;32];
        let mut i: usize = 0;
        while i < 4
            invariant
                i <= 4,
                prefix@.len() == 4,
                forall|j: int| 0 <= j < i ==> p@[j] == prefix@[j],
            decreases 4 - i,
        {
            p[i] = prefix[i];
            i += 1;
        }
        let mut k: usize = 0;
        while k < 32
            invariant
                k <= 32,
                hash@.len() == 32,
                forall|j: int| 0 <= j < k ==> h@[j] == hash@[j],
            decreases 32 - k,
        {
            h[k] = hash[k];
            k += 1;
        }
        assert(p@ =~= prefix@);
        assert(h@ =~= hash@);
        ContentId { prefix: p, hash: h }
    }

    /// The four prefix bytes.
    pub fn prefix(&self) -> (p: [u8; 4])
        ensures
            p@ == self@.prefix,
    {
        self.prefix
    }

    /// The 32 hash bytes.
    pub fn hash(&self) -> (h: [u8; 32])
        ensures
            h@ == self@.hash,
    {
        self.hash
    }

    /// An identifier always holds four prefix bytes and 32 hash bytes.
    pub proof fn lemma_lengths(&self)
        ensures
            self@.prefix.len() == 4,
            self@.hash.len() == 32,
    {
    }
}

impl Default for ContentId {
    fn default() -> (id: Self)
        ensures
            id@.prefix == Seq::new(4, |i: int| 0u8),
            id@.hash == Seq::new(32, |i: int| 0u8),
    {
        let id = ContentId { prefix: [0u8;4], hash: [0u8;32] };
        assert(id@.prefix =~= Seq::new(4, |i: int| 0u8));
        assert(id@.hash =~= Seq::new(32, |i: int| 0u8));
        id
    }
}

impl Key for ContentId {
    fn same(&self, other: &Self) -> (b: bool) {
        let mut i: usize = 0;
        while i < 4
            invariant
                i <= 4,
                forall|j: int| 0 <= j < i ==> self.prefix@[j] == other.prefix@[j],
            decreases 4 - i,
        {
            if self.prefix[i] != other.prefix[i] {
                return false;
            }
            i += 1;
        }
        let mut k: usize = 0;
        while k < 32
            invariant
                k <= 32,
                forall|j: int| 0 <= j < k ==> self.hash@[j] == other.hash@[j],
            decreases 32 - k,
        {
            if self.hash[k] != other.hash[k] {
                return false;
            }
            k += 1;
        }
        assert(self.prefix@ =~= other.prefix@);
        assert(self.hash@ =~= other.hash@);
        true
    }
}

impl Key for (Vec<u8>, ContentId) {
    fn same(&self, other: &Self) -> (b: bool) {
        self.0.same(&other.0) && self.1.same(&other.1)
    }
}

impl Key for Vec<u8> {
    fn same(&self, other: &Self) -> (b: bool) {
        if self.len() != other.len() {
            assert(self.deep_view().len() != other.deep_view().len());
            return false;
        }
        let mut i: usize = 0;
        while i < self.len()
            invariant
                i <= self@.len(),
                self@.len() == other@.len(),
                forall|j: int| 0 <= j < i ==> self@[j] == other@[j],
            decreases self@.len() - i,
        {
            if self[i] != other[i] {
                assert(self.deep_view()[i as int] != other.deep_view()[i as int]);
                return false;
            }
            i += 1;
        }
        assert(self@ =~= other@);
        true
    }
}

} // verus!
