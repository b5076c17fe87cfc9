use vstd::prelude::*;

verus! {

/// The kinds of control message carried over the Mumble TCP channel, in the
/// order the protocol numbers them (the first kind has number 0).
#[derive(Clone, Copy, Debug, PartialEq, Eq, Structural)]
pub enum NetworkMessage {
    Version,
    UDPTunnel,
    Authenticate,
    Ping,
    Reject,
    ServerSync,
    ChannelRemove,
    ChannelState,
    UserRemove,
    UserState,
    BanList,
    TextMessage,
    PermissionDenied,
    ACL,
    QueryUsers,
    CryptSetup,
    ContextActionModify,
    ContextAction,
    UserList,
    VoiceTarget,
    PermissionQuery,
    CodecVersion,
    UserStats,
    RequestBlob,
    ServerConfig,
    SuggestConfig,
    PluginDataTransmission,
}

/// Number of message kinds the protocol defines.
pub open spec fn kind_count() -> nat {
    27
}

impl NetworkMessage {
    /// The wire number of a message kind.
    pub open spec fn number(self) -> u16 {
        match self {
            NetworkMessage::Version => 0,
            NetworkMessage::UDPTunnel => 1,
            NetworkMessage::Authenticate => 2,
            NetworkMessage::Ping => 3,
            NetworkMessage::Reject => 4,
            NetworkMessage::ServerSync => 5,
            NetworkMessage::ChannelRemove => 6,
            NetworkMessage::ChannelState => 7,
            NetworkMessage::UserRemove => 8,
            NetworkMessage::UserState => 9,
            NetworkMessage::BanList => 10,
            NetworkMessage::TextMessage => 11,
            NetworkMessage::PermissionDenied => 12,
            NetworkMessage::ACL => 13,
            NetworkMessage::QueryUsers => 14,
            NetworkMessage::CryptSetup => 15,
            NetworkMessage::ContextActionModify => 16,
            NetworkMessage::ContextAction => 17,
            NetworkMessage::UserList => 18,
            NetworkMessage::VoiceTarget => 19,
            NetworkMessage::PermissionQuery => 20,
            NetworkMessage::CodecVersion => 21,
            NetworkMessage::UserStats => 22,
            NetworkMessage::RequestBlob => 23,
            NetworkMessage::ServerConfig => 24,
            NetworkMessage::SuggestConfig => 25,
            NetworkMessage::PluginDataTransmission => 26,
        }
    }

    /// The message kind a wire number names, if any.
    pub open spec fn from_number(n: u16) -> Option<NetworkMessage> {
        if n == 0 { Some(NetworkMessage::Version) }
        else if n == 1 { Some(NetworkMessage::UDPTunnel) }
        else if n == 2 { Some(NetworkMessage::Authenticate) }
        else if n == 3 { Some(NetworkMessage::Ping) }
        else if n == 4 { Some(NetworkMessage::Reject) }
        else if n == 5 { Some(NetworkMessage::ServerSync) }
        else if n == 6 { Some(NetworkMessage::ChannelRemove) }
        else if n == 7 { Some(NetworkMessage::ChannelState) }
        else if n == 8 { Some(NetworkMessage::UserRemove) }
        else if n == 9 { Some(NetworkMessage::UserState) }
        else if n == 10 { Some(NetworkMessage::BanList) }
        else if n == 11 { Some(NetworkMessage::TextMessage) }
        else if n == 12 { Some(NetworkMessage::PermissionDenied) }
        else if n == 13 { Some(NetworkMessage::ACL) }
        else if n == 14 { Some(NetworkMessage::QueryUsers) }
        else if n == 15 { Some(NetworkMessage::CryptSetup) }
        else if n == 16 { Some(NetworkMessage::ContextActionModify) }
        else if n == 17 { Some(NetworkMessage::ContextAction) }
        else if n == 18 { Some(NetworkMessage::UserList) }
        else if n == 19 { Some(NetworkMessage::VoiceTarget) }
        else if n == 20 { Some(NetworkMessage::PermissionQuery) }
        else if n == 21 { Some(NetworkMessage::CodecVersion) }
        else if n == 22 { Some(NetworkMessage::UserStats) }
        else if n == 23 { Some(NetworkMessage::RequestBlob) }
        else if n == 24 { Some(NetworkMessage::ServerConfig) }
        else if n == 25 { Some(NetworkMessage::SuggestConfig) }
        else if n == 26 { Some(NetworkMessage::PluginDataTransmission) }
        else { None }
    }

    /// The wire number of this message kind.
    pub fn to_u16(self) -> (n: u16)
        ensures
            n == self.number(),
    {
        match self {
            NetworkMessage::Version => 0,
            NetworkMessage::UDPTunnel => 1,
            NetworkMessage::Authenticate => 2,
            NetworkMessage::Ping => 3,
            NetworkMessage::Reject => 4,
            NetworkMessage::ServerSync => 5,
            NetworkMessage::ChannelRemove => 6,
            NetworkMessage::ChannelState => 7,
            NetworkMessage::UserRemove => 8,
            NetworkMessage::UserState => 9,
            NetworkMessage::BanList => 10,
            NetworkMessage::TextMessage => 11,
            NetworkMessage::PermissionDenied => 12,
            NetworkMessage::ACL => 13,
            NetworkMessage::QueryUsers => 14,
            NetworkMessage::CryptSetup => 15,
            NetworkMessage::ContextActionModify => 16,
            NetworkMessage::ContextAction => 17,
            NetworkMessage::UserList => 18,
            NetworkMessage::VoiceTarget => 19,
            NetworkMessage::PermissionQuery => 20,
            NetworkMessage::CodecVersion => 21,
            NetworkMessage::UserStats => 22,
            NetworkMessage::RequestBlob => 23,
            NetworkMessage::ServerConfig => 24,
            NetworkMessage::SuggestConfig => 25,
            NetworkMessage::PluginDataTransmission => 26,
        }
    }

    /// The message kind a received wire number names; `None` for a number
    /// the protocol does not define.
    pub fn from_u16(n: u16) -> (m: Option<NetworkMessage>)
        ensures
            m == NetworkMessage::from_number(n),
            m is None <==> n >= kind_count(),
    {
        match n {
            0 => Some(NetworkMessage::Version),
            1 => Some(NetworkMessage::UDPTunnel),
            2 => Some(NetworkMessage::Authenticate),
            3 => Some(NetworkMessage::Ping),
            4 => Some(NetworkMessage::Reject),
            5 => Some(NetworkMessage::ServerSync),
            6 => Some(NetworkMessage::ChannelRemove),
            7 => Some(NetworkMessage::ChannelState),
            8 => Some(NetworkMessage::UserRemove),
            9 => Some(NetworkMessage::UserState),
            10 => Some(NetworkMessage::BanList),
            11 => Some(NetworkMessage::TextMessage),
            12 => Some(NetworkMessage::PermissionDenied),
            13 => Some(NetworkMessage::ACL),
            14 => Some(NetworkMessage::QueryUsers),
            15 => Some(NetworkMessage::CryptSetup),
            16 => Some(NetworkMessage::ContextActionModify),
            17 => Some(NetworkMessage::ContextAction),
            18 => Some(NetworkMessage::UserList),
            19 => Some(NetworkMessage::VoiceTarget),
            20 => Some(NetworkMessage::PermissionQuery),
            21 => Some(NetworkMessage::CodecVersion),
            22 => Some(NetworkMessage::UserStats),
            23 => Some(NetworkMessage::RequestBlob),
            24 => Some(NetworkMessage::ServerConfig),
            25 => Some(NetworkMessage::SuggestConfig),
            26 => Some(NetworkMessage::PluginDataTransmission),
            _ => None,
        }
    }
}

/// Every message kind survives the trip to its wire number and back.
pub proof fn lemma_kind_number_roundtrip(m: NetworkMessage)
    ensures
        NetworkMessage::from_number(m.number()) == Some(m),
        m.number() < kind_count(),
{
}

/// A wire number that names a kind is that kind's number: no two kinds
/// share a number.
pub proof fn lemma_number_kind_roundtrip(n: u16)
    ensures
        NetworkMessage::from_number(n) matches Some(m) ==> m.number() == n,
{
}

/// The message kinds in the order the protocol declares them.
pub open spec fn declaration_order() -> Seq<NetworkMessage> {
    seq![
        NetworkMessage::Version,
        NetworkMessage::UDPTunnel,
        NetworkMessage::Authenticate,
        NetworkMessage::Ping,
        NetworkMessage::Reject,
        NetworkMessage::ServerSync,
        NetworkMessage::ChannelRemove,
        NetworkMessage::ChannelState,
        NetworkMessage::UserRemove,
        NetworkMessage::UserState,
        NetworkMessage::BanList,
        NetworkMessage::TextMessage,
        NetworkMessage::PermissionDenied,
        NetworkMessage::ACL,
        NetworkMessage::QueryUsers,
        NetworkMessage::CryptSetup,
        NetworkMessage::ContextActionModify,
        NetworkMessage::ContextAction,
        NetworkMessage::UserList,
        NetworkMessage::VoiceTarget,
        NetworkMessage::PermissionQuery,
        NetworkMessage::CodecVersion,
        NetworkMessage::UserStats,
        NetworkMessage::RequestBlob,
        NetworkMessage::ServerConfig,
        NetworkMessage::SuggestConfig,
        NetworkMessage::PluginDataTransmission,
    ]
}

/// Each kind's wire number is its position in the protocol's declaration:
/// the kind at position `i` has number `i`, and every kind stands at the
/// position of its number.
pub proof fn lemma_numbers_follow_declaration()
    ensures
        declaration_order().len() == kind_count(),
        forall|i: int| 0 <= i < kind_count() ==> #[trigger] declaration_order()[i].number() == i,
        forall|m: NetworkMessage| #[trigger] declaration_order()[m.number() as int] == m,
{
    let d = declaration_order();
    assert forall|i: int| 0 <= i < kind_count() implies #[trigger] d[i].number() == i by {
        assert(0 <= i < 27);
    }
    assert forall|m: NetworkMessage| #[trigger] d[m.number() as int] == m by {
    }
}

} // verus!
