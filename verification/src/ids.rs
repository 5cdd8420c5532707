//! What peers, topics, messages and addresses are told apart by.
use libp2p_identity::PeerId;
use vstd::prelude::*;

verus! {

/// `libp2p_identity::PeerId`, by which the network names a peer. It is carried around and compared,
/// and never looked into.
#[verifier::external_type_specification]
#[verifier::external_body]
pub struct ExPeerId(libp2p_identity::PeerId);

/// Calls `<libp2p_identity::PeerId as PartialEq>::eq`, which compares the code and the digest of
/// the two multihashes. The contract claims that this tells peers apart: the call answers `true`
/// for a peer and itself, and for no two different peers.
#[verifier::external_body]
fn peer_eq(a: &PeerId, b: &PeerId) -> (r: bool)
    ensures
        r == (*a == *b),
{
    a == b
}

/// Something that entries of a [`crate::Table`] are looked up by.
pub trait Key: Sized {
    /// What a key stands for: two keys are the same where these are equal.
    type Id;

    /// What this key stands for.
    spec fn id(&self) -> Self::Id;

    /// Whether two keys stand for the same thing.
    fn same(&self, other: &Self) -> (r: bool)
        ensures
            r == (self.id() == other.id()),
    ;

    /// A second key that stands for the same thing.
    fn duplicate(&self) -> (r: Self)
        ensures
            r.id() == self.id(),
    ;
}

impl Key for PeerId {
    type Id = PeerId;

    open spec fn id(&self) -> PeerId {
        *self
    }

    fn same(&self, other: &Self) -> (r: bool) {
        peer_eq(self, other)
    }

    fn duplicate(&self) -> (r: Self) {
        *self
    }
}

/// The address that a peer connects from: the address bits of either version of the protocol.
#[derive(Clone, Copy, PartialEq, Eq, Structural, Debug)]
pub enum IpAddr {
    V4(u32),
    V6(u128),
}

impl Key for IpAddr {
    type Id = IpAddr;

    open spec fn id(&self) -> IpAddr {
        *self
    }

    fn same(&self, other: &Self) -> (r: bool) {
        *self == *other
    }

    fn duplicate(&self) -> (r: Self) {
        *self
    }
}

/// The hash that names a topic.
#[derive(Debug)]
pub struct TopicHash {
    pub hash: String,
}

impl View for TopicHash {
    type V = Seq<char>;

    open spec fn view(&self) -> Seq<char> {
        self.hash@
    }
}

impl Key for TopicHash {
    type Id = Seq<char>;

    open spec fn id(&self) -> Seq<char> {
        self@
    }

    fn same(&self, other: &Self) -> (r: bool) {
        self.hash == other.hash
    }

    fn duplicate(&self) -> (r: Self) {
        TopicHash { hash: self.hash.clone() }
    }
}

/// The bytes that name a message.
#[derive(Debug)]
pub struct MessageId(pub Vec<u8>);

impl View for MessageId {
    type V = Seq<u8>;

    open spec fn view(&self) -> Seq<u8> {
        self.0@
    }
}

impl Key for MessageId {
    type Id = Seq<u8>;

    open spec fn id(&self) -> Seq<u8> {
        self@
    }

    fn same(&self, other: &Self) -> (r: bool) {
        if self.0.len() != other.0.len() {
            return false;
        }
        let mut i: usize = 0;
        while i < self.0.len()
            invariant
                i <= self.0.len(),
                self.0.len() == other.0.len(),
                forall|j: int| 0 <= j < i ==> self.0@[j] == other.0@[j],
            decreases self.0.len() - i,
        {
            if self.0[i] != other.0[i] {
                return false;
            }
            i = i + 1;
        }
        assert(self@ =~= other@);
        true
    }

    fn duplicate(&self) -> (r: Self) {
        let bytes = self.0.clone();
        assert(bytes@ =~= self.0@);
        MessageId(bytes)
    }
}

} // verus!
