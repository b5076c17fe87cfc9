//! The client's parser state: the channel table, the reading of message
//! headers, the entry to the receive loop, and
//! the dispatch of each message by its kind.

use vstd::prelude::*;
use std::collections::HashMap;
use vstd::std_specs::hash::spec_keys_iter;
use vstd::std_specs::iter::IteratorSpec;
use vstd::string::StringExecFns;
use crate::proto::{ChannelState, channel_state_fields};
use crate::schema::{decode_message, decoded_fields, has_required_fields, message_decodes, DecodedField};
use crate::wire::FieldView;
use crate::message_kind::{lemma_kind_number_roundtrip, NetworkMessage};
use crate::frame::{be16_at, be32_at, read_be_u16, read_be_u32_at, METADATA_SIZE};
use crate::receive::{frames_view, receive, MessageStream, StopModel};

verus! {

broadcast use vstd::std_specs::hash::group_hash_axioms;

/// A voice channel on the server.
#[derive(Debug, Clone)]
pub struct MumbleChannel {
    pub name: String,
}

/// The kind number and payload length read from a message header.
#[derive(Debug, Clone, Copy, PartialEq, Eq, Structural)]
pub struct MessageInfo {
    pub message_type: u16,
    pub length: usize,
}

/// `Vec<u8>`'s debug rendering: in current std the byte values in
/// decimal, comma separated, in square brackets. std's documentation does
/// not promise that form (its `Debug` output is not stable across
/// versions), so the rendering is named rather than spelled out.
pub uninterp spec fn debug_rendering(buffer: Seq<u8>) -> Seq<char>;

/// `format!` of a byte vector with its `Debug` rendering, which is named
/// rather than spelled out.
#[verifier::external_body]
fn debug_bytes(buffer: &Vec<u8>) -> (text: String)
    ensures
        text@ == debug_rendering(buffer@),
{
    format!("{:?}", buffer)
}

/// The text of the error for a header that is too short: a fixed
/// sentence, then the buffer in debug notation.
pub open spec fn short_header_text(buffer: Seq<u8>) -> Seq<char> {
    "Message to short to be processed: "@ + debug_rendering(buffer)
}

/// Builds the error text for a header that is too short.
fn short_header_error(buffer: &Vec<u8>) -> (text: String)
    ensures
        text@ == short_header_text(buffer@),
{
    let rendering = debug_bytes(buffer);
    "Message to short to be processed: ".to_owned().concat(rendering.as_str())
}

/// Whether `list` holds the channels of the table `m` in the order of
/// `ids`: the ids are those of the table, each once, and the i-th listed
/// channel has the name of the channel with the i-th id.
pub open spec fn lists_each_channel_once(
    list: Seq<MumbleChannel>,
    ids: Seq<u32>,
    m: Map<u32, MumbleChannel>,
) -> bool {
    &&& ids.no_duplicates()
    &&& ids.to_set() == m.dom()
    &&& list.len() == ids.len()
    &&& forall|i: int| 0 <= i < list.len() ==> #[trigger] list[i].name@ == m[ids[i]].name@
}

/// Any two lists that each list the channels of one table once are
/// rearrangements of each other: the same channels, the same number of
/// times, perhaps in another order. So two calls of `get_channels` on one
/// parser give the same channels.
pub proof fn lemma_channel_lists_rearranged(
    l1: Seq<MumbleChannel>,
    ids1: Seq<u32>,
    l2: Seq<MumbleChannel>,
    ids2: Seq<u32>,
    m: Map<u32, MumbleChannel>,
)
    requires
        lists_each_channel_once(l1, ids1, m),
        lists_each_channel_once(l2, ids2, m),
    ensures
        l1.len() == l2.len(),
        exists|perm: Seq<int>|
            #![trigger perm.len()]
            perm.len() == l1.len() && perm.no_duplicates() && forall|i: int|
                0 <= i < l1.len() ==> 0 <= #[trigger] perm[i] < l2.len() && l1[i].name@
                    == l2[perm[i]].name@,
{
    ids1.unique_seq_to_set();
    ids2.unique_seq_to_set();
    let perm = Seq::new(l1.len(), |i: int| ids2.index_of(ids1[i]));
    assert forall|i: int| 0 <= i < l1.len() implies 0 <= #[trigger] perm[i] < l2.len()
        && ids2[perm[i]] == ids1[i] && l1[i].name@ == l2[perm[i]].name@ by {
        assert(ids1.to_set().contains(ids1[i]));
        assert(ids2.to_set().contains(ids1[i]));
        assert(ids2.contains(ids1[i]));
    }
    assert forall|i: int, j: int| 0 <= i < perm.len() && 0 <= j < perm.len() && i != j implies perm[i]
        != perm[j] by {
        assert(ids2[perm[i]] == ids1[i]);
        assert(ids2[perm[j]] == ids1[j]);
    }
    assert(perm.len() == l1.len());
}

/// What the parser made of one received message.
#[derive(Debug, PartialEq, Eq)]
pub enum MessageAction {
    /// Voice data tunnelled over TCP, which the client does not handle.
    UnsupportedTunnel,
    /// A message of a kind the client shows without acting on it, with
    /// the fields it was decoded to.
    Report(NetworkMessage, Vec<DecodedField>),
    /// A channel-state message that was decoded and handed to
    /// `update_channel`: whether that accepted it (returned `Some`).
    ChannelUpdate(bool),
    /// A message of a handled kind whose payload could not be decoded.
    Malformed(NetworkMessage),
    /// A kind number the client does not handle.
    Unhandled(u16),
}

/// What the parser made of one received message, as plain values.
pub enum ActionView {
    UnsupportedTunnel,
    Report(NetworkMessage, Seq<(u32, FieldView)>),
    ChannelUpdate(bool),
    Malformed(NetworkMessage),
    Unhandled(u16),
}

impl View for MessageAction {
    type V = ActionView;

    open spec fn view(&self) -> ActionView {
        match self {
            MessageAction::UnsupportedTunnel => ActionView::UnsupportedTunnel,
            MessageAction::Report(kind, fields) => ActionView::Report(
                *kind,
                fields@.map_values(|f: DecodedField| f@),
            ),
            MessageAction::ChannelUpdate(b) => ActionView::ChannelUpdate(*b),
            MessageAction::Malformed(kind) => ActionView::Malformed(*kind),
            MessageAction::Unhandled(n) => ActionView::Unhandled(*n),
        }
    }
}

/// What `update_channel` returns for a channel table, a channel id and
/// whether the message names the channel.
pub open spec fn channel_update_result(
    channels: Map<u32, MumbleChannel>,
    channel_id: Option<u32>,
    has_name: bool,
) -> Option<()> {
    match channel_id {
        None => None,
        Some(id) => if channels.contains_key(id) || has_name {
            Some(())
        } else {
            None
        },
    }
}

/// Whether the client shows messages of this kind without acting on them.
pub open spec fn is_reported_kind(kind: NetworkMessage) -> bool {
    match kind {
        NetworkMessage::Version | NetworkMessage::CryptSetup | NetworkMessage::CodecVersion
        | NetworkMessage::PermissionQuery | NetworkMessage::UserState | NetworkMessage::ServerSync
        | NetworkMessage::ServerConfig | NetworkMessage::TextMessage
        | NetworkMessage::UserRemove => true,
        _ => false,
    }
}

/// What the parser makes of a message of kind number `message_type` with
/// payload `data`.
pub open spec fn message_action(
    channels: Map<u32, MumbleChannel>,
    message_type: u16,
    data: Seq<u8>,
) -> ActionView {
    match NetworkMessage::from_number(message_type) {
        Some(NetworkMessage::UDPTunnel) => ActionView::UnsupportedTunnel,
        Some(NetworkMessage::ChannelState) => match channel_state_fields(data) {
            Some((id, name)) => ActionView::ChannelUpdate(
                channel_update_result(channels, id, name is Some) is Some,
            ),
            None => ActionView::Malformed(NetworkMessage::ChannelState),
        },
        Some(kind) => if is_reported_kind(kind) {
            match decoded_fields(kind, data) {
                Some(fs) => if has_required_fields(kind, fs) {
                    ActionView::Report(kind, fs)
                } else {
                    ActionView::Malformed(kind)
                },
                None => ActionView::Malformed(kind),
            }
        } else {
            ActionView::Unhandled(message_type)
        },
        None => ActionView::Unhandled(message_type),
    }
}

/// The client's view of the server: the channels it knows, by id.
pub struct MumbleParser {
    channels: HashMap<u32, MumbleChannel>,
}

impl MumbleParser {
    /// The channel table, by channel id.
    pub closed spec fn channel_map(&self) -> Map<u32, MumbleChannel> {
        self.channels@
    }

    /// A parser that knows no channel.
    pub fn new() -> (p: Self)
        ensures
            p.channel_map() == Map::<u32, MumbleChannel>::empty(),
    {
        MumbleParser { channels: HashMap::new() }
    }

    /// A copy of every known channel, in the order the table yields them:
    /// the listed channels are those of the table, one for each channel
    /// id, each id once.
    pub fn get_channels(&self) -> (r: Vec<MumbleChannel>)
        ensures
            exists|ids: Seq<u32>| #[trigger] lists_each_channel_once(r@, ids, self.channel_map()),
    {
        let ghost ks = spec_keys_iter(&self.channels).remaining().unref();
        proof {
            let raw = spec_keys_iter(&self.channels).remaining();
            assert forall|i: int, j: int| 0 <= i < ks.len() && 0 <= j < ks.len() && i != j
                implies ks[i] != ks[j] by {
                assert(raw[i] != raw[j]);
            }
        }
        let mut out: Vec<MumbleChannel> = Vec::new();
        for k in it: self.channels.keys()
            invariant
                it.seq().unref() == ks,
                ks.to_set() == self.channel_map().dom(),
                out@.len() == it.index(),
                forall|j: int|
                    0 <= j < out@.len() ==> #[trigger] out@[j].name@ == self.channel_map()[ks[j]].name@,
        {
            assert(ks[it.index()] == *k);
            assert(ks.to_set().contains(*k));
            match self.channels.get(k) {
                Some(c) => {
                    out.push(MumbleChannel { name: c.name.clone() });
                },
                None => {
                    proof {
                        assert(false);
                    }
                },
            }
        }
        assert(lists_each_channel_once(out@, ks, self.channel_map()));
        out
    }

    /// Reads the kind number and payload length from a message header;
    /// an error naming the buffer when it is shorter than a header.
    pub fn message_metadata(&self, buffer: &Vec<u8>) -> (r: Result<MessageInfo, String>)
        ensures
            buffer@.len() >= METADATA_SIZE ==> r == Ok::<MessageInfo, String>(
                MessageInfo {
                    message_type: be16_at(buffer@, 0) as u16,
                    length: be32_at(buffer@, 2) as usize,
                },
            ),
            buffer@.len() < METADATA_SIZE ==> (r matches Err(text) && text@ == short_header_text(
                buffer@,
            )),
    {
        if buffer.len() >= METADATA_SIZE {
            let message: u16 = read_be_u16(buffer.as_slice());
            let length: u32 = read_be_u32_at(buffer.as_slice(), 2);
            Ok(MessageInfo { message_type: message, length: length as usize })
        } else {
            Err(short_header_error(buffer))
        }
    }

    /// Hands the receive loop the next piece of bytes read from the
    /// connection: the messages it sends before it waits for the next
    /// piece, in order, and the error text when it stops instead on a
    /// header it cannot read.
    pub fn parse_message(&self, stream: &mut MessageStream, incoming: Vec<u8>) -> (r: (
        Vec<(u16, Vec<u8>)>,
        Option<String>,
    ))
        requires
            receive(old(stream)@, incoming@) is Some,
        ensures
            receive(old(stream)@, incoming@) matches Some((sent, stop, m)) && frames_view(r.0@)
                == sent && final(stream)@ == m && match stop {
                StopModel::Paused => r.1 is None,
                StopModel::Failed(text) => r.1 matches Some(e) && e@ == text,
            },
    {
        match stream.run(self, incoming) {
            Some(r) => r,
            None => {
                proof {
                    assert(false);
                }
                (Vec::new(), None)
            },
        }
    }

    /// Like `parse_message`, for any piece: `None` exactly when the receive
    /// loop would panic on this piece.
    pub fn try_parse_message(&self, stream: &mut MessageStream, incoming: Vec<u8>) -> (r: Option<
        (Vec<(u16, Vec<u8>)>, Option<String>),
    >)
        ensures
            r is None <==> receive(old(stream)@, incoming@) is None,
            receive(old(stream)@, incoming@) matches Some((sent, stop, m)) ==> (r matches Some(
                (frames, err),
            ) && frames_view(frames@) == sent && final(stream)@ == m && match stop {
                StopModel::Paused => err is None,
                StopModel::Failed(text) => err matches Some(e) && e@ == text,
            }),
    {
        stream.run(self, incoming)
    }

    /// What the parser makes of a channel-state message: nothing when it
    /// names no channel; success for a channel it knows already; for a new
    /// channel, success when the message names the channel, nothing when
    /// it does not. The channel table is left as it is.
    pub fn update_channel(&self, channel_info: ChannelState) -> (r: Option<()>)
        ensures
            r == channel_update_result(
                self.channel_map(),
                channel_info.channel_id,
                channel_info.name is Some,
            ),
    {
        let channel_id: u32 = match channel_info.channel_id {
            Some(id) => id,
            None => return None,
        };
        if self.channels.contains_key(&channel_id) {
            Some(())
        } else {
            match channel_info.name {
                Some(_) => Some(()),
                None => None,
            }
        }
    }

    /// Handles one received message: tunnelled voice is not supported;
    /// version, crypt setup, codec version, permission query, user state,
    /// server sync, server config, text and user-remove messages are shown,
    /// with their fields, when their bytes decode as a message of their kind (every field read
    /// by its declared type, every required field present), and reported
    /// malformed when not; a channel-state message is decoded
    /// and applied with `update_channel`, or reported malformed; every
    /// other kind is left unhandled.
    pub fn process_message(&self, message_type: u16, data: Vec<u8>) -> (r: MessageAction)
        ensures
            r@ == message_action(self.channel_map(), message_type, data@),
    {
        match NetworkMessage::from_u16(message_type) {
            Some(NetworkMessage::UDPTunnel) => MessageAction::UnsupportedTunnel,
            Some(NetworkMessage::ChannelState) => match ChannelState::parse_from_bytes(
                data.as_slice(),
            ) {
                Ok(info) => MessageAction::ChannelUpdate(self.update_channel(info).is_some()),
                Err(_) => MessageAction::Malformed(NetworkMessage::ChannelState),
            },
            Some(kind) => {
                let reported: bool = match kind {
                    NetworkMessage::Version | NetworkMessage::CryptSetup
                    | NetworkMessage::CodecVersion | NetworkMessage::PermissionQuery
                    | NetworkMessage::UserState | NetworkMessage::ServerSync
                    | NetworkMessage::ServerConfig | NetworkMessage::TextMessage
                    | NetworkMessage::UserRemove => true,
                    _ => false,
                };
                if !reported {
                    MessageAction::Unhandled(message_type)
                } else {
                    match decode_message(kind, data.as_slice()) {
                        Some(fields) => MessageAction::Report(kind, fields),
                        None => MessageAction::Malformed(kind),
                    }
                }
            },
            _ => MessageAction::Unhandled(message_type),
        }
    }
}

/// Version, crypt setup, codec version, permission query, user state,
/// server sync, server config, text and user-remove messages are shown:
/// one that decodes as its kind is reported with the fields it decodes to,
/// and one that does not is reported malformed.
pub proof fn lemma_shown_kinds_are_reported(
    channels: Map<u32, MumbleChannel>,
    kind: NetworkMessage,
    data: Seq<u8>,
)
    requires
        kind == NetworkMessage::Version || kind == NetworkMessage::CryptSetup || kind
            == NetworkMessage::CodecVersion || kind == NetworkMessage::PermissionQuery || kind
            == NetworkMessage::UserState || kind == NetworkMessage::ServerSync || kind
            == NetworkMessage::ServerConfig || kind == NetworkMessage::TextMessage || kind
            == NetworkMessage::UserRemove,
    ensures
        message_decodes(kind, data) ==> (decoded_fields(kind, data) matches Some(fs)
            && message_action(channels, kind.number(), data) == ActionView::Report(kind, fs)),
        !message_decodes(kind, data) ==> message_action(channels, kind.number(), data)
            == ActionView::Malformed(kind),
{
    lemma_kind_number_roundtrip(kind);
}

/// A message whose number names no kind, or a kind other than tunnelled
/// voice, channel state and the shown kinds (version, crypt setup, codec
/// version, permission query, user state, server sync, server config, text
/// and user remove), is left unhandled, whatever the payload.
pub proof fn lemma_other_kinds_unhandled(
    channels: Map<u32, MumbleChannel>,
    message_type: u16,
    data: Seq<u8>,
)
    requires
        NetworkMessage::from_number(message_type) != Some(NetworkMessage::UDPTunnel),
        NetworkMessage::from_number(message_type) != Some(NetworkMessage::ChannelState),
        NetworkMessage::from_number(message_type) != Some(NetworkMessage::Version),
        NetworkMessage::from_number(message_type) != Some(NetworkMessage::CryptSetup),
        NetworkMessage::from_number(message_type) != Some(NetworkMessage::CodecVersion),
        NetworkMessage::from_number(message_type) != Some(NetworkMessage::PermissionQuery),
        NetworkMessage::from_number(message_type) != Some(NetworkMessage::UserState),
        NetworkMessage::from_number(message_type) != Some(NetworkMessage::ServerSync),
        NetworkMessage::from_number(message_type) != Some(NetworkMessage::ServerConfig),
        NetworkMessage::from_number(message_type) != Some(NetworkMessage::TextMessage),
        NetworkMessage::from_number(message_type) != Some(NetworkMessage::UserRemove),
    ensures
        message_action(channels, message_type, data) == ActionView::Unhandled(message_type),
{
}

} // verus!
