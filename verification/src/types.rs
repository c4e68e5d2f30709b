//! The plain values that the peer manager speaks of: identities, addresses,
//! reasons and directions.

use vstd::prelude::*;

verus! {

/// The identity of a peer: 32 bytes whose meaning the manager does not read,
/// held as four words.
#[derive(Clone, Copy, Debug, PartialEq, Eq, Hash, Structural)]
pub struct PeerId {
    pub w0: u64,
    pub w1: u64,
    pub w2: u64,
    pub w3: u64,
}

/// The word that the eight bytes from `at` on spell, lowest byte first.
pub open spec fn word_at(bytes: Seq<u8>, at: int) -> int {
    bytes[at] as int + 0x100 * bytes[at + 1] as int + 0x1_0000 * bytes[at + 2] as int + 0x100_0000
        * bytes[at + 3] as int + 0x1_0000_0000 * bytes[at + 4] as int + 0x100_0000_0000 * bytes[at
        + 5] as int + 0x1_0000_0000_0000 * bytes[at + 6] as int + 0x100_0000_0000_0000 * bytes[at
        + 7] as int
}

/// The byte of `word` at place `place`, counted from the lowest.
pub open spec fn byte_of(word: u64, place: int) -> u8 {
    ((word as int / place_weight(place)) % 0x100) as u8
}

/// The weight of the byte at place `place` of a word: 256 to the power of
/// `place`.
pub open spec fn place_weight(place: int) -> int {
    if place <= 0 {
        0x1
    } else if place == 1 {
        0x100
    } else if place == 2 {
        0x1_0000
    } else if place == 3 {
        0x100_0000
    } else if place == 4 {
        0x1_0000_0000
    } else if place == 5 {
        0x100_0000_0000
    } else if place == 6 {
        0x1_0000_0000_0000
    } else {
        0x100_0000_0000_0000
    }
}

fn write_word(bytes: &mut [u8; 32], at: usize, word: u64)
    requires
        at + 8 <= 32,
    ensures
        forall|k: int| 0 <= k < 8 ==> final(bytes)@[at + k] == byte_of(word, k),
        forall|k: int| 0 <= k < 32 && !(at <= k < at + 8) ==> final(bytes)@[k] == old(bytes)@[k],
{
    bytes[at] = (word % 0x100) as u8;
    bytes[at + 1] = ((word / 0x100) % 0x100) as u8;
    bytes[at + 2] = ((word / 0x1_0000) % 0x100) as u8;
    bytes[at + 3] = ((word / 0x100_0000) % 0x100) as u8;
    bytes[at + 4] = ((word / 0x1_0000_0000) % 0x100) as u8;
    bytes[at + 5] = ((word / 0x100_0000_0000) % 0x100) as u8;
    bytes[at + 6] = ((word / 0x1_0000_0000_0000) % 0x100) as u8;
    bytes[at + 7] = ((word / 0x100_0000_0000_0000) % 0x100) as u8;
}

fn read_word(bytes: &[u8; 32], at: usize) -> (word: u64)
    requires
        at + 8 <= 32,
    ensures
        word == word_at(bytes@, at as int),
{
    (bytes[at] as u64) + 0x100 * (bytes[at + 1] as u64) + 0x1_0000 * (bytes[at + 2] as u64)
        + 0x100_0000 * (bytes[at + 3] as u64) + 0x1_0000_0000 * (bytes[at + 4] as u64)
        + 0x100_0000_0000 * (bytes[at + 5] as u64) + 0x1_0000_0000_0000 * (bytes[at + 6] as u64)
        + 0x100_0000_0000_0000 * (bytes[at + 7] as u64)
}

impl PeerId {
    /// The identity that 32 bytes spell.
    pub open spec fn spec_from_bytes(bytes: Seq<u8>) -> PeerId {
        PeerId {
            w0: word_at(bytes, 0) as u64,
            w1: word_at(bytes, 8) as u64,
            w2: word_at(bytes, 16) as u64,
            w3: word_at(bytes, 24) as u64,
        }
    }

    /// The 32 bytes of this identity.
    pub open spec fn spec_to_bytes(&self) -> Seq<u8> {
        Seq::new(
            32,
            |i: int|
                if i < 8 {
                    byte_of(self.w0, i)
                } else if i < 16 {
                    byte_of(self.w1, i - 8)
                } else if i < 24 {
                    byte_of(self.w2, i - 16)
                } else {
                    byte_of(self.w3, i - 24)
                },
        )
    }

    /// The identity that 32 bytes spell.
    pub fn from_bytes(bytes: &[u8; 32]) -> (id: PeerId)
        ensures
            id == PeerId::spec_from_bytes(bytes@),
    {
        PeerId {
            w0: read_word(bytes, 0),
            w1: read_word(bytes, 8),
            w2: read_word(bytes, 16),
            w3: read_word(bytes, 24),
        }
    }
}

impl PeerId {
    /// The 32 bytes of this identity.
    pub fn to_bytes(&self) -> (bytes: [u8; 32])
        ensures
            bytes@ == self.spec_to_bytes(),
    {
        let mut bytes = [0u8; 32];
        write_word(&mut bytes, 0, self.w0);
        write_word(&mut bytes, 8, self.w1);
        write_word(&mut bytes, 16, self.w2);
        write_word(&mut bytes, 24, self.w3);
        assert(bytes@ =~= self.spec_to_bytes());
        bytes
    }
}

/// The bytes of a word spell the word.
pub proof fn lemma_word_of_bytes(word: u64, bytes: Seq<u8>, at: int)
    requires
        0 <= at,
        at + 8 <= bytes.len(),
        forall|k: int| 0 <= k < 8 ==> bytes[at + k] == byte_of(word, k),
    ensures
        word_at(bytes, at) == word,
{
    assert(word == (word % 0x100) + 0x100 * ((word / 0x100) % 0x100) + 0x1_0000 * ((word / 0x1_0000)
        % 0x100) + 0x100_0000 * ((word / 0x100_0000) % 0x100) + 0x1_0000_0000 * ((word
        / 0x1_0000_0000) % 0x100) + 0x100_0000_0000 * ((word / 0x100_0000_0000) % 0x100)
        + 0x1_0000_0000_0000 * ((word / 0x1_0000_0000_0000) % 0x100) + 0x100_0000_0000_0000 * ((word
        / 0x100_0000_0000_0000) % 0x100)) by (bit_vector);
    assert(bytes[at] == byte_of(word, 0));
    assert(bytes[at + 1] == byte_of(word, 1));
    assert(bytes[at + 2] == byte_of(word, 2));
    assert(bytes[at + 3] == byte_of(word, 3));
    assert(bytes[at + 4] == byte_of(word, 4));
    assert(bytes[at + 5] == byte_of(word, 5));
    assert(bytes[at + 6] == byte_of(word, 6));
    assert(bytes[at + 7] == byte_of(word, 7));
}

/// An identity is the one that its bytes spell.
pub proof fn lemma_peer_id_round_trip(id: PeerId)
    ensures
        PeerId::spec_from_bytes(id.spec_to_bytes()) == id,
{
    let bytes = id.spec_to_bytes();
    lemma_word_of_bytes(id.w0, bytes, 0);
    lemma_word_of_bytes(id.w1, bytes, 8);
    lemma_word_of_bytes(id.w2, bytes, 16);
    lemma_word_of_bytes(id.w3, bytes, 24);
}

/// An IP address, as the number that its bytes spell.
#[derive(Clone, Copy, Debug, PartialEq, Eq, Hash, Structural)]
pub enum IpAddress {
    V4(u32),
    V6(u128),
}

/// The address at which a peer was reached or says it listens.
///
/// `encoded` is the address in its binary form. `ip` is the first IP
/// component of the address, where it has one.
#[derive(Clone, Debug)]
pub struct Multiaddr {
    pub ip: Option<IpAddress>,
    pub encoded: Vec<u8>,
}

/// What a [`Multiaddr`] holds.
pub struct MultiaddrView {
    pub ip: Option<IpAddress>,
    pub encoded: Seq<u8>,
}

impl View for Multiaddr {
    type V = MultiaddrView;

    open spec fn view(&self) -> MultiaddrView {
        MultiaddrView { ip: self.ip, encoded: self.encoded@ }
    }
}

impl Multiaddr {
    /// Whether two addresses are the same.
    pub fn same(&self, other: &Multiaddr) -> (same: bool)
        ensures
            same == (self@ == other@),
    {
        let same_ip = match (self.ip, other.ip) {
            (Some(a), Some(b)) => a == b,
            (None, None) => true,
            _ => false,
        };
        let same = same_ip && bytes_equal(&self.encoded, &other.encoded);
        proof {
            if same {
                assert(self.encoded@ =~= other.encoded@);
            }
        }
        same
    }
}

/// Whether two runs of bytes are the same.
pub fn bytes_equal(a: &Vec<u8>, b: &Vec<u8>) -> (same: bool)
    ensures
        same == (a@ == b@),
{
    if a.len() != b.len() {
        return false;
    }
    let mut i: usize = 0;
    while i < a.len()
        invariant
            i <= a.len(),
            a.len() == b.len(),
            forall|k: int| 0 <= k < i ==> a@[k] == b@[k],
        decreases a.len() - i,
    {
        if a[i] != b[i] {
            return false;
        }
        i += 1;
    }
    assert(a@ =~= b@);
    true
}

/// Whether two lists of addresses are the same, place by place.
pub fn addresses_equal(a: &Vec<Multiaddr>, b: &Vec<Multiaddr>) -> (same: bool)
    ensures
        same == (a@.map_values(|m: Multiaddr| m@) == b@.map_values(|m: Multiaddr| m@)),
{
    let ghost left = a@.map_values(|m: Multiaddr| m@);
    let ghost right = b@.map_values(|m: Multiaddr| m@);
    if a.len() != b.len() {
        assert(left.len() != right.len());
        return false;
    }
    let mut i: usize = 0;
    while i < a.len()
        invariant
            i <= a.len(),
            a.len() == b.len(),
            left == a@.map_values(|m: Multiaddr| m@),
            right == b@.map_values(|m: Multiaddr| m@),
            forall|k: int| 0 <= k < i ==> left[k] == right[k],
        decreases a.len() - i,
    {
        if !a[i].same(&b[i]) {
            assert(left[i as int] != right[i as int]);
            return false;
        }
        i += 1;
    }
    assert(left =~= right);
    true
}

/// A node record, in its encoded form. The manager keeps the last one it was
/// given for a peer and reads nothing in it.
#[derive(Clone, Debug)]
pub struct Enr {
    pub encoded: Vec<u8>,
}

impl View for Enr {
    type V = Seq<u8>;

    open spec fn view(&self) -> Seq<u8> {
        self.encoded@
    }
}

/// Why a peer is told goodbye.
#[derive(Clone, Copy, Debug, PartialEq, Eq, Structural)]
pub enum GoodbyeReason {
    /// This node shuts down.
    ClientShutdown,
    /// The peer is on another network.
    IrrelevantNetwork,
    /// An error or a fault.
    Fault,
    /// The peer's network could not be verified.
    UnableToVerifyNetwork,
    /// The node has more peers than it wants.
    TooManyPeers,
    /// The peer's score is too low.
    BadScore,
    /// The peer is banned.
    Banned,
    /// The peer's IP address is banned.
    BannedIP,
    /// No reason that is known.
    Unknown,
}

/// Which part of the node reported a peer.
#[derive(Clone, Copy, Debug, PartialEq, Eq, Structural)]
pub enum ReportSource {
    Gossipsub,
    RPC,
    Processor,
    SyncService,
    PeerManager,
}

/// Who opened a connection.
#[derive(Clone, Copy, Debug, PartialEq, Eq, Structural)]
pub enum ConnectionDirection {
    /// The peer dialed this node.
    Incoming,
    /// This node dialed the peer.
    Outgoing,
}

/// How far a peer's chain is, compared with this node's.
#[derive(Clone, Copy, Debug, PartialEq, Eq, Structural)]
pub enum SyncStatus {
    /// The peer is at the same point.
    Synced,
    /// The peer is ahead.
    Advanced,
    /// The peer is behind.
    Behind,
    /// The peer is on another network or fork.
    IrrelevantPeer,
    /// Nothing is known yet.
    Unknown,
}

} // verus!
