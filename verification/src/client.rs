//! Which implementation a peer runs, as far as its agent string tells.

use vstd::prelude::*;
use vstd::string::StringSliceAdditionalSpecFns;

verus! {

/// The implementations that are told apart.
#[derive(Clone, Copy, Debug, PartialEq, Eq, Hash, Structural)]
pub enum ClientKind {
    Lighthouse,
    Nimbus,
    Teku,
    Prysm,
    Lodestar,
    /// Any other agent, and a peer that has not named its agent yet.
    Unknown,
}

/// The byte that parts the fields of an agent string: `/`.
pub const AGENT_SEPARATOR: u8 = 47;

/// The bytes of an agent string before its first separator; all of them
/// where it has none.
pub open spec fn leading_field(agent: Seq<u8>) -> Seq<u8>
    decreases agent.len(),
{
    if agent.len() == 0 || agent[0] == AGENT_SEPARATOR {
        Seq::empty()
    } else {
        seq![agent[0]] + leading_field(agent.subrange(1, agent.len() as int))
    }
}

/// The implementation that names itself by the given leading field.
pub open spec fn kind_of_field(field: Seq<u8>) -> ClientKind {
    if field == "Lighthouse".spec_bytes() {
        ClientKind::Lighthouse
    } else if field == "teku".spec_bytes() {
        ClientKind::Teku
    } else if field == "github.com".spec_bytes() || field == "Prysm".spec_bytes() {
        ClientKind::Prysm
    } else if field == "nimbus".spec_bytes() || field == "nim-libp2p".spec_bytes() {
        ClientKind::Nimbus
    } else if field == "js-libp2p".spec_bytes() {
        ClientKind::Lodestar
    } else {
        ClientKind::Unknown
    }
}

/// The implementation behind an agent string: the one that the leading field
/// of its bytes names.
pub open spec fn kind_of_agent(agent: Seq<char>) -> ClientKind {
    kind_of_field(leading_field(vstd::utf8::encode_utf8(agent)))
}

/// A peer's implementation and the agent string it was read from.
#[derive(Clone, Debug)]
pub struct Client {
    pub kind: ClientKind,
    pub agent_version: String,
}

/// What a [`Client`] holds.
pub struct ClientView {
    pub kind: ClientKind,
    pub agent_version: Seq<char>,
}

impl View for Client {
    type V = ClientView;

    open spec fn view(&self) -> ClientView {
        ClientView { kind: self.kind, agent_version: self.agent_version@ }
    }
}

impl ClientKind {
    /// Every kind, in the order in which they are reported.
    pub open spec fn all_kinds() -> Seq<ClientKind> {
        seq![
            ClientKind::Lighthouse,
            ClientKind::Nimbus,
            ClientKind::Teku,
            ClientKind::Prysm,
            ClientKind::Lodestar,
            ClientKind::Unknown,
        ]
    }

    /// Every kind, in the order in which they are reported.
    pub fn all() -> (kinds: Vec<ClientKind>)
        ensures
            kinds@ == ClientKind::all_kinds(),
    {
        let mut kinds: Vec<ClientKind> = Vec::new();
        kinds.push(ClientKind::Lighthouse);
        kinds.push(ClientKind::Nimbus);
        kinds.push(ClientKind::Teku);
        kinds.push(ClientKind::Prysm);
        kinds.push(ClientKind::Lodestar);
        kinds.push(ClientKind::Unknown);
        assert(kinds@ =~= ClientKind::all_kinds());
        kinds
    }

    /// The place of this kind in [`ClientKind::all`].
    pub fn index(&self) -> (place: usize)
        ensures
            place < 6,
            place == self.spec_index(),
    {
        match self {
            ClientKind::Lighthouse => 0,
            ClientKind::Nimbus => 1,
            ClientKind::Teku => 2,
            ClientKind::Prysm => 3,
            ClientKind::Lodestar => 4,
            ClientKind::Unknown => 5,
        }
    }

    /// The place of this kind in [`ClientKind::all`].
    pub open spec fn spec_index(&self) -> nat {
        match self {
            ClientKind::Lighthouse => 0,
            ClientKind::Nimbus => 1,
            ClientKind::Teku => 2,
            ClientKind::Prysm => 3,
            ClientKind::Lodestar => 4,
            ClientKind::Unknown => 5,
        }
    }
}

fn field_is(agent: &[u8], end: usize, name: &str) -> (same: bool)
    requires
        end <= agent@.len(),
    ensures
        same == (agent@.subrange(0, end as int) == name.spec_bytes()),
{
    let wanted = name.as_bytes();
    if wanted.len() != end {
        return false;
    }
    let mut i: usize = 0;
    while i < end
        invariant
            i <= end,
            end <= agent@.len(),
            wanted@.len() == end,
            wanted@ == name.spec_bytes(),
            forall|k: int| 0 <= k < i ==> agent@[k] == wanted@[k],
        decreases end - i,
    {
        if agent[i] != wanted[i] {
            assert(agent@.subrange(0, end as int)[i as int] != wanted@[i as int]);
            return false;
        }
        i += 1;
    }
    assert(agent@.subrange(0, end as int) =~= wanted@);
    true
}

/// Up to the first separator, the leading field is what was read.
proof fn lemma_leading_field(agent: Seq<u8>, end: int)
    requires
        0 <= end <= agent.len(),
        forall|k: int| 0 <= k < end ==> agent[k] != AGENT_SEPARATOR,
        end == agent.len() || agent[end] == AGENT_SEPARATOR,
    ensures
        leading_field(agent) == agent.subrange(0, end),
    decreases agent.len(),
{
    if end == 0 {
        assert(agent.subrange(0, 0) =~= Seq::<u8>::empty());
    } else {
        let rest = agent.subrange(1, agent.len() as int);
        assert forall|k: int| 0 <= k < end - 1 implies rest[k] != AGENT_SEPARATOR by {
            assert(rest[k] == agent[k + 1]);
        }
        lemma_leading_field(rest, end - 1);
        assert(agent.subrange(0, end) =~= seq![agent[0]] + rest.subrange(0, end - 1));
    }
}

impl Client {
    /// The client of a peer that has not named its agent.
    pub fn unknown() -> (client: Client)
        ensures
            client@ == (ClientView { kind: ClientKind::Unknown, agent_version: Seq::empty() }),
    {
        Client { kind: ClientKind::Unknown, agent_version: String::new() }
    }

    /// Reads the implementation off an agent string and keeps the string.
    pub fn from_agent_version(agent_version: String) -> (client: Client)
        ensures
            client@ == (ClientView {
                kind: kind_of_agent(agent_version@),
                agent_version: agent_version@,
            }),
    {
        let kind = client_kind(agent_version.as_str());
        Client { kind, agent_version }
    }
}

/// The implementation behind an agent string.
pub fn client_kind(agent_version: &str) -> (kind: ClientKind)
    ensures
        kind == kind_of_agent(agent_version@),
{
    let agent = agent_version.as_bytes();
    let mut end: usize = 0;
    while end < agent.len() && agent[end] != AGENT_SEPARATOR
        invariant
            end <= agent@.len(),
            forall|k: int| 0 <= k < end ==> agent@[k] != AGENT_SEPARATOR,
        decreases agent@.len() - end,
    {
        end += 1;
    }
    proof {
        lemma_leading_field(agent@, end as int);
    }
    if field_is(agent, end, "Lighthouse") {
        ClientKind::Lighthouse
    } else if field_is(agent, end, "teku") {
        ClientKind::Teku
    } else if field_is(agent, end, "github.com") || field_is(agent, end, "Prysm") {
        ClientKind::Prysm
    } else if field_is(agent, end, "nimbus") || field_is(agent, end, "nim-libp2p") {
        ClientKind::Nimbus
    } else if field_is(agent, end, "js-libp2p") {
        ClientKind::Lodestar
    } else {
        ClientKind::Unknown
    }
}

} // verus!
