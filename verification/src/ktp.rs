//! KTP wire codec: the logical packet variants and their exact byte
//! encodings. Encoding is total; decoding is the inverse of encoding for
//! the matching tag and fails, without panicking, on anything else.
use vstd::prelude::*;
use vstd::bytes::{
    lemma_auto_spec_u64_to_from_le_bytes, spec_u64_from_le_bytes, spec_u64_to_le_bytes,
    u64_from_le_bytes, u64_to_le_bytes,
};
use vstd::utf8::{
    decode_utf8, encode_utf8, encode_utf8_decode_utf8, encode_utf8_valid_utf8, valid_utf8,
};
use vstd::string::StringSliceAdditionalSpecFns;

verus! {

/// Identifier: eight random bytes, handled as one 64-bit value and laid
/// out on the wire in little-endian order.
pub type Id = u64;

/// Wire discriminator of a packet variant.
pub type Tag = u8;

/// Zero-based index of a fragment.
pub type SeqNum = u8;

/// Zero-based index of the last fragment of a logical packet.
pub type Total = u8;

/// A logical packet of the chat transport.
#[derive(Clone, Debug)]
pub enum Packet {
    Message { id: Id, message_text: String },
    PresenceBroadcastRequest,
    PresenceInformation { id: Id, is_join: bool, username: String },
    Disconnect(Id),
}

/// Spec-level image of a [`Packet`], with text as character sequences.
#[verifier::ext_equal]
pub enum PacketView {
    Message { id: Id, message_text: Seq<char> },
    PresenceBroadcastRequest,
    PresenceInformation { id: Id, is_join: bool, username: Seq<char> },
    Disconnect(Id),
}

impl View for Packet {
    type V = PacketView;

    open spec fn view(&self) -> PacketView {
        match self {
            Packet::Message { id, message_text } => (
                PacketView::Message { id: *id, message_text: message_text@ }
            ),
            Packet::PresenceBroadcastRequest => PacketView::PresenceBroadcastRequest,
            Packet::PresenceInformation { id, is_join, username } => (
                PacketView::PresenceInformation {
                    id: *id,
                    is_join: *is_join,
                    username: username@,
                }
            ),
            Packet::Disconnect(id) => PacketView::Disconnect(*id),
        }
    }
}

impl PartialEq for Packet {
    fn eq(&self, other: &Self) -> (r: bool) {
        match (self, other) {
            (
                Packet::Message { id: a, message_text: x },
                Packet::Message { id: b, message_text: y },
            ) => *a == *b && <String as PartialEq>::eq(x, y),
            (Packet::PresenceBroadcastRequest, Packet::PresenceBroadcastRequest) => true,
            (
                Packet::PresenceInformation { id: a, is_join: j, username: x },
                Packet::PresenceInformation { id: b, is_join: k, username: y },
            ) => *a == *b && *j == *k && <String as PartialEq>::eq(x, y),
            (Packet::Disconnect(a), Packet::Disconnect(b)) => *a == *b,
            _ => false,
        }
    }
}

impl vstd::std_specs::cmp::PartialEqSpecImpl for Packet {
    open spec fn obeys_eq_spec() -> bool {
        true
    }

    open spec fn eq_spec(&self, other: &Self) -> bool {
        self@ == other@
    }
}

/// What `smaz::compress` returns for the given bytes.
pub uninterp spec fn smaz_compress_spec(b: Seq<u8>) -> Seq<u8>;

/// What `smaz::decompress` returns for the given bytes: the recovered
/// text, or nothing when the input is not well-formed compressed data.
pub uninterp spec fn smaz_decompress_spec(b: Seq<u8>) -> Option<Seq<u8>>;

/// True from position `i` on when scanning the verbatim markers of
/// smaz-compressed data never runs past the end of the input. The marker
/// byte 254 announces one following verbatim byte, 255 a counted block.
pub open spec fn smaz_safe_from(b: Seq<u8>, i: int) -> bool
    decreases b.len() - i,
{
    if i >= b.len() || i < 0 {
        true
    } else if b[i] == 254 {
        i + 1 < b.len() && smaz_safe_from(b, i + 2)
    } else if b[i] == 255 {
        i + 1 < b.len() && (i + b[i + 1] + 2 >= b.len() || smaz_safe_from(b, i + b[i + 1] + 3))
    } else {
        smaz_safe_from(b, i + 1)
    }
}

/// True when the input never leaves a verbatim marker's payload dangling
/// past the end; only such inputs may be handed to the decompressor.
pub open spec fn smaz_safe(b: Seq<u8>) -> bool {
    smaz_safe_from(b, 0)
}

/// Decides [`smaz_safe`] by one pass over the marker structure.
pub fn smaz_input_safe(data: &[u8]) -> (r: bool)
    ensures
        r == smaz_safe(data@),
{
    broadcast use vstd::slice::group_slice_axioms;

    let n = data.len();
    let mut i: usize = 0;
    while i < n
        invariant
            i <= n,
            n == data@.len(),
            smaz_safe(data@) == smaz_safe_from(data@, i as int),
        decreases n - i,
    {
        let b = *vstd::slice::slice_index_get(data, i);
        if b == 254 {
            if i + 1 >= n {
                return false;
            }
            i = i + 2;
        } else if b == 255 {
            if i + 1 >= n {
                return false;
            }
            let cnt = *vstd::slice::slice_index_get(data, i + 1) as usize;
            if n - i <= cnt + 2 {
                return true;
            }
            i = i + cnt + 3;
        } else {
            i = i + 1;
        }
    }
    true
}

/// Relies on smaz::compress: deterministic dictionary compression of the
/// given bytes; its output is well-formed for the decompressor and
/// decompresses back to the input.
#[verifier::external_body]
fn smaz_compress(data: &[u8]) -> (r: Vec<u8>)
    ensures
        r@ == smaz_compress_spec(data@),
        smaz_safe(r@),
        smaz_decompress_spec(r@) == Some(data@),
{
    smaz::compress(data)
}

/// Relies on smaz::decompress: deterministic inverse of the compressor,
/// failing on malformed input; inputs with a dangling verbatim marker are
/// kept out because the decompressor indexes past the end on them.
#[verifier::external_body]
fn smaz_decompress(data: &[u8]) -> (r: Option<Vec<u8>>)
    requires
        smaz_safe(data@),
    ensures
        r is Some <==> smaz_decompress_spec(data@) is Some,
        r matches Some(v) ==> smaz_decompress_spec(data@) == Some(v@),
{
    smaz::decompress(data).ok()
}

/// Relies on String::from_utf8: succeeds exactly on valid UTF-8 and
/// yields its decoding, as vstd's own UTF-8 model states it.
#[verifier::external_body]
fn string_from_utf8(bytes: Vec<u8>) -> (r: Option<String>)
    ensures
        r is Some <==> valid_utf8(bytes@),
        r matches Some(s) ==> s@ == decode_utf8(bytes@),
{
    String::from_utf8(bytes).ok()
}

/// Relies on rand::random: a fresh random identifier; nothing is assumed
/// of its value.
#[verifier::external_body]
pub fn generate_id() -> Id {
    rand::random()
}

/// The fixed discriminator of each packet variant.
pub open spec fn spec_tag(p: PacketView) -> Tag {
    match p {
        PacketView::Message { .. } => 0,
        PacketView::PresenceBroadcastRequest => 1,
        PacketView::PresenceInformation { .. } => 2,
        PacketView::Disconnect(_) => 3,
    }
}

/// The exact body bytes of each packet variant: sender id, then the
/// variant's own payload. Correlation framing is the frame adapter's job.
pub open spec fn spec_serialize(p: PacketView) -> Seq<u8> {
    match p {
        PacketView::Message { id, message_text } => (
            spec_u64_to_le_bytes(id) + smaz_compress_spec(encode_utf8(message_text))
        ),
        PacketView::PresenceBroadcastRequest => Seq::empty(),
        PacketView::PresenceInformation { id, is_join, username } => (
            spec_u64_to_le_bytes(id) + seq![if is_join { 1u8 } else { 0u8 }] + encode_utf8(username)
        ),
        PacketView::Disconnect(id) => spec_u64_to_le_bytes(id),
    }
}

/// The packet a body decodes to under the given tag: the exact inverse
/// of [`spec_serialize`] on encoded bodies, nothing on truncated input,
/// malformed compressed data, invalid UTF-8 or an unknown tag.
pub open spec fn spec_deserialize(tag: Tag, data: Seq<u8>) -> Option<PacketView> {
    if tag == 0 {
        if data.len() < 8 {
            None
        } else if !smaz_safe(data.skip(8)) {
            None
        } else {
            match smaz_decompress_spec(data.skip(8)) {
                Some(raw) => if valid_utf8(raw) {
                    Some(
                        PacketView::Message {
                            id: spec_u64_from_le_bytes(data.subrange(0, 8)),
                            message_text: decode_utf8(raw),
                        },
                    )
                } else {
                    None
                },
                None => None,
            }
        }
    } else if tag == 1 {
        Some(PacketView::PresenceBroadcastRequest)
    } else if tag == 2 {
        if data.len() < 9 {
            None
        } else if valid_utf8(data.skip(9)) {
            Some(
                PacketView::PresenceInformation {
                    id: spec_u64_from_le_bytes(data.subrange(0, 8)),
                    is_join: data[8] > 0,
                    username: decode_utf8(data.skip(9)),
                },
            )
        } else {
            None
        }
    } else if tag == 3 {
        if data.len() == 8 {
            Some(PacketView::Disconnect(spec_u64_from_le_bytes(data)))
        } else {
            None
        }
    } else {
        None
    }
}

impl Packet {
    /// The wire discriminator of this packet.
    pub fn tag(&self) -> (t: Tag)
        ensures
            t == spec_tag(self@),
    {
        match self {
            Packet::Message { .. } => 0,
            Packet::PresenceBroadcastRequest => 1,
            Packet::PresenceInformation { .. } => 2,
            Packet::Disconnect(_) => 3,
        }
    }

    /// Encodes this packet's body; decoding the result under this
    /// packet's tag gives the packet back.
    pub fn serialize(&self) -> (r: Vec<u8>)
        ensures
            r@ == spec_serialize(self@),
            spec_deserialize(spec_tag(self@), r@) == Some(self@),
    {
        proof {
            lemma_auto_spec_u64_to_from_le_bytes();
        }
        match self {
            Packet::Message { id, message_text } => {
                proof {
                    encode_utf8_valid_utf8(message_text@);
                    encode_utf8_decode_utf8(message_text@);
                }
                let mut out = u64_to_le_bytes(*id);
                let mut compressed = smaz_compress(message_text.as_str().as_bytes());
                out.append(&mut compressed);
                proof {
                    assert(out@ =~= spec_serialize(self@));
                    assert(out@.subrange(0, 8) =~= spec_u64_to_le_bytes(*id));
                    assert(out@.skip(8) =~= smaz_compress_spec(encode_utf8(message_text@)));
                    assert(spec_deserialize(spec_tag(self@), out@) matches Some(q) && q =~= self@);
                }
                out
            },
            Packet::PresenceBroadcastRequest => {
                let out = Vec::new();
                proof {
                    assert(out@ =~= spec_serialize(self@));
                }
                out
            },
            Packet::PresenceInformation { id, is_join, username } => {
                proof {
                    encode_utf8_valid_utf8(username@);
                    encode_utf8_decode_utf8(username@);
                }
                let mut out = u64_to_le_bytes(*id);
                out.push(if *is_join { 1 } else { 0 });
                let mut name_bytes = username.as_str().as_bytes_vec();
                out.append(&mut name_bytes);
                proof {
                    assert(out@ =~= spec_serialize(self@));
                    assert(out@.subrange(0, 8) =~= spec_u64_to_le_bytes(*id));
                    assert(out@.skip(9) =~= encode_utf8(username@));
                    assert(spec_deserialize(spec_tag(self@), out@) matches Some(q) && q =~= self@);
                }
                out
            },
            Packet::Disconnect(id) => {
                let out = u64_to_le_bytes(*id);
                proof {
                    assert(spec_deserialize(spec_tag(self@), out@) matches Some(q) && q =~= self@);
                }
                out
            },
        }
    }

    /// Decodes a body under the given tag; never panics, whatever the
    /// input.
    pub fn deserialize(tag: Tag, data: &[u8]) -> (r: Option<Packet>)
        ensures
            r matches Some(p) ==> spec_deserialize(tag, data@) == Some(p@),
            r is None ==> spec_deserialize(tag, data@) is None,
    {
        broadcast use vstd::slice::group_slice_axioms;

        if tag == 0 {
            if data.len() < 8 {
                return None;
            }
            let (id_bytes, rest) = data.split_at(8);
            let id = u64_from_le_bytes(id_bytes);
            proof {
                assert(rest@ =~= data@.skip(8));
                assert(id_bytes@ =~= data@.subrange(0, 8));
            }
            if !smaz_input_safe(rest) {
                return None;
            }
            let raw = match smaz_decompress(rest) {
                Some(raw) => raw,
                None => {
                    return None;
                },
            };
            match string_from_utf8(raw) {
                Some(text) => Some(Packet::Message { id, message_text: text }),
                None => None,
            }
        } else if tag == 1 {
            Some(Packet::PresenceBroadcastRequest)
        } else if tag == 2 {
            if data.len() < 9 {
                return None;
            }
            let (head, name_bytes) = data.split_at(9);
            let (id_bytes, join_byte) = head.split_at(8);
            let id = u64_from_le_bytes(id_bytes);
            let is_join = *vstd::slice::slice_index_get(join_byte, 0) > 0;
            proof {
                assert(id_bytes@ =~= data@.subrange(0, 8));
                assert(join_byte@[0] == data@[8]);
                assert(name_bytes@ =~= data@.skip(9));
            }
            let mut owned = vstd::slice::slice_to_vec(name_bytes);
            match string_from_utf8(owned) {
                Some(name) => Some(Packet::PresenceInformation { id, is_join, username: name }),
                None => None,
            }
        } else if tag == 3 {
            if data.len() != 8 {
                return None;
            }
            Some(Packet::Disconnect(u64_from_le_bytes(data)))
        } else {
            None
        }
    }
}

} // verus!
