//! The disguised-frame layout: one fragment of a logical packet is
//! carried as the protocol-address fields of a synthetic request inside
//! a broadcast Ethernet frame. Building and parsing are exact inverses.
use vstd::prelude::*;
use vstd::bytes::{
    spec_u64_from_le_bytes, spec_u64_to_le_bytes, u64_from_le_bytes, u64_to_le_bytes,
    lemma_auto_spec_u64_to_from_le_bytes,
};
use crate::ether_type::EtherType;
use crate::ktp::{Id, SeqNum, Tag, Total};

verus! {

/// Hardware-address length marker: six bytes of hardware address.
pub const HARDWARE_ADDRESS_LENGTH: u8 = 6;

/// Bytes of fragment header: three of magic prefix, tag, fragment index,
/// last fragment index, eight of correlation id.
pub const PACKET_HEADER_SIZE: usize = 14;

/// Largest chunk one fragment can carry: the one-byte length field tops
/// the whole fragment data at 255, less the header.
pub const PACKET_DATA_SIZE: usize = 241;

/// The magic prefix announcing this application's fragments.
pub open spec fn spec_packet_prefix() -> Seq<u8> {
    seq![0x6bu8, 0x74u8, 0x70u8]
}

/// Hardware-type marker of the synthetic header.
pub open spec fn spec_hardware_type() -> Seq<u8> {
    seq![0x00u8, 0x01u8]
}

/// Opcode field, fixed to a request.
pub open spec fn spec_opcode_request() -> Seq<u8> {
    seq![0x00u8, 0x01u8]
}

/// The Ethernet type under which the disguised frames travel.
pub open spec fn spec_ethertype_arp() -> Seq<u8> {
    seq![0x08u8, 0x06u8]
}

/// The broadcast hardware address every frame is sent to.
pub open spec fn spec_broadcast_mac() -> Seq<u8> {
    seq![0xffu8, 0xffu8, 0xffu8, 0xffu8, 0xffu8, 0xffu8]
}

/// One physical unit of a logical packet: header fields and the carried
/// slice of the encoded body.
pub struct Fragment {
    pub tag: Tag,
    pub seq_no: SeqNum,
    pub total: Total,
    pub id: Id,
    pub chunk: Vec<u8>,
}

/// Spec-level image of a [`Fragment`].
#[verifier::ext_equal]
pub struct FragmentView {
    pub tag: Tag,
    pub seq_no: SeqNum,
    pub total: Total,
    pub id: Id,
    pub chunk: Seq<u8>,
}

impl View for Fragment {
    type V = FragmentView;

    open spec fn view(&self) -> FragmentView {
        FragmentView {
            tag: self.tag,
            seq_no: self.seq_no,
            total: self.total,
            id: self.id,
            chunk: self.chunk@,
        }
    }
}

/// The fragment data: magic prefix, tag, fragment index, last index,
/// correlation id, then the chunk.
pub open spec fn spec_fragment_data(f: FragmentView) -> Seq<u8> {
    spec_packet_prefix() + seq![f.tag, f.seq_no, f.total] + spec_u64_to_le_bytes(f.id) + f.chunk
}

/// The synthetic request: hardware type, the application's discriminator
/// in the protocol-type field, length markers, opcode, own hardware
/// address, then the fragment data in both protocol-address fields with
/// a zeroed target hardware address between them.
pub open spec fn spec_arp_payload(ether_type: Seq<u8>, src_mac: Seq<u8>, data: Seq<u8>) -> Seq<u8> {
    spec_hardware_type() + ether_type + seq![HARDWARE_ADDRESS_LENGTH, data.len() as u8]
        + spec_opcode_request() + src_mac + data + seq![0u8, 0u8, 0u8, 0u8, 0u8, 0u8] + data
}

/// The whole Ethernet frame: broadcast destination, own source address,
/// the Ethernet type of the disguise, then the synthetic request.
pub open spec fn spec_frame(ether_type: Seq<u8>, src_mac: Seq<u8>, f: FragmentView) -> Seq<u8> {
    spec_broadcast_mac() + src_mac + spec_ethertype_arp()
        + spec_arp_payload(ether_type, src_mac, spec_fragment_data(f))
}

/// The fragment a captured frame carries, if any: foreign traffic, bad
/// markers, a short frame or a missing prefix all parse to nothing.
pub open spec fn spec_parse_frame(frame: Seq<u8>) -> Option<FragmentView> {
    if frame.len() < 14 {
        None
    } else {
        let payload = frame.skip(14);
        if frame[12] != 0x08 || frame[13] != 0x06 {
            None
        } else if payload.len() < 8 {
            None
        } else if payload[6] != 0x00 || payload[7] != 0x01 {
            None
        } else if payload[0] != 0x00 || payload[1] != 0x01 {
            None
        } else if payload[4] != HARDWARE_ADDRESS_LENGTH {
            None
        } else if payload.len() < 14 + payload[5] {
            None
        } else {
            let data = payload.subrange(14, 14 + payload[5]);
            if data.len() < PACKET_HEADER_SIZE {
                None
            } else if data[0] != 0x6b || data[1] != 0x74 || data[2] != 0x70 {
                None
            } else {
                Some(
                    FragmentView {
                        tag: data[3],
                        seq_no: data[4],
                        total: data[5],
                        id: spec_u64_from_le_bytes(data.subrange(6, 14)),
                        chunk: data.skip(14),
                    },
                )
            }
        }
    }
}

/// Builds the one frame that carries the given fragment; the receive
/// path parses it back to exactly that fragment.
pub fn build_frame(
    ether_type: EtherType,
    src_mac: &[u8],
    tag: Tag,
    seq_no: SeqNum,
    total: Total,
    id: Id,
    chunk: &[u8],
) -> (r: Vec<u8>)
    requires
        src_mac@.len() == 6,
        chunk@.len() <= PACKET_DATA_SIZE,
    ensures
        r@ == spec_frame(
            ether_type.spec_bytes(),
            src_mac@,
            FragmentView { tag, seq_no, total, id, chunk: chunk@ },
        ),
        spec_parse_frame(r@) == Some(FragmentView { tag, seq_no, total, id, chunk: chunk@ }),
{
    broadcast use vstd::slice::group_slice_axioms;

    proof {
        lemma_auto_spec_u64_to_from_le_bytes();
        lemma_frame_parses(
            ether_type.spec_bytes(),
            src_mac@,
            FragmentView { tag, seq_no, total, id, chunk: chunk@ },
        );
    }
    let ghost fv = FragmentView { tag, seq_no, total, id, chunk: chunk@ };

    let mut data: Vec<u8> = Vec::new();
    data.push(0x6b);
    data.push(0x74);
    data.push(0x70);
    data.push(tag);
    data.push(seq_no);
    data.push(total);
    let mut id_bytes = u64_to_le_bytes(id);
    data.append(&mut id_bytes);
    data.extend_from_slice(chunk);
    proof {
        assert(data@ =~= spec_fragment_data(fv));
    }

    let et = ether_type.bytes();
    let mut payload: Vec<u8> = Vec::new();
    payload.push(0x00);
    payload.push(0x01);
    payload.push(et[0]);
    payload.push(et[1]);
    payload.push(HARDWARE_ADDRESS_LENGTH);
    payload.push(data.len() as u8);
    payload.push(0x00);
    payload.push(0x01);
    payload.extend_from_slice(src_mac);
    payload.extend_from_slice(data.as_slice());
    payload.push(0x00);
    payload.push(0x00);
    payload.push(0x00);
    payload.push(0x00);
    payload.push(0x00);
    payload.push(0x00);
    payload.extend_from_slice(data.as_slice());
    proof {
        assert(et@ =~= ether_type.spec_bytes());
        assert(payload@ =~= spec_arp_payload(ether_type.spec_bytes(), src_mac@,
            spec_fragment_data(fv)));
    }

    let mut frame: Vec<u8> = Vec::new();
    frame.push(0xff);
    frame.push(0xff);
    frame.push(0xff);
    frame.push(0xff);
    frame.push(0xff);
    frame.push(0xff);
    frame.extend_from_slice(src_mac);
    frame.push(0x08);
    frame.push(0x06);
    frame.append(&mut payload);
    proof {
        assert(frame@ =~= spec_frame(ether_type.spec_bytes(), src_mac@, fv));
    }
    frame
}

/// A frame built from a fragment parses back to exactly that fragment,
/// whatever discriminator and source address it was built with.
pub proof fn lemma_frame_parses(ether_type: Seq<u8>, src_mac: Seq<u8>, f: FragmentView)
    requires
        ether_type.len() == 2,
        src_mac.len() == 6,
        f.chunk.len() <= PACKET_DATA_SIZE,
    ensures
        spec_parse_frame(spec_frame(ether_type, src_mac, f)) == Some(f),
{
    lemma_auto_spec_u64_to_from_le_bytes();
    let data = spec_fragment_data(f);
    assert(spec_u64_to_le_bytes(f.id).len() == 8);
    assert(data.len() == 14 + f.chunk.len());
    let payload = spec_arp_payload(ether_type, src_mac, data);
    let frame = spec_frame(ether_type, src_mac, f);
    assert(frame.skip(14) =~= payload);
    assert(frame[12] == 0x08 && frame[13] == 0x06);
    assert(payload[0] == 0x00 && payload[1] == 0x01);
    assert(payload[4] == HARDWARE_ADDRESS_LENGTH);
    assert(payload[5] == data.len() as u8);
    assert(payload[6] == 0x00 && payload[7] == 0x01);
    assert(payload.len() == 20 + 2 * data.len());
    assert(payload.subrange(14, 14 + payload[5]) =~= data);
    assert(data[0] == 0x6b && data[1] == 0x74 && data[2] == 0x70);
    assert(data[3] == f.tag && data[4] == f.seq_no && data[5] == f.total);
    assert(data.subrange(6, 14) =~= spec_u64_to_le_bytes(f.id));
    assert(data.skip(14) =~= f.chunk);
    assert(spec_parse_frame(frame) matches Some(g) && g =~= f);
}

/// Reads a captured frame back into a fragment; never panics, whatever
/// arrived on the wire.
pub fn parse_frame(frame: &[u8]) -> (r: Option<Fragment>)
    ensures
        r matches Some(f) ==> spec_parse_frame(frame@) == Some(f@),
        r is None ==> spec_parse_frame(frame@) is None,
{
    broadcast use vstd::slice::group_slice_axioms;

    if frame.len() < 14 {
        return None;
    }
    let (_, payload) = frame.split_at(14);
    proof {
        assert(payload@ =~= frame@.skip(14));
    }
    if !(*vstd::slice::slice_index_get(frame, 12) == 0x08
        && *vstd::slice::slice_index_get(frame, 13) == 0x06) {
        return None;
    }
    if payload.len() < 8 {
        return None;
    }
    if !(*vstd::slice::slice_index_get(payload, 6) == 0x00
        && *vstd::slice::slice_index_get(payload, 7) == 0x01) {
        return None;
    }
    if !(*vstd::slice::slice_index_get(payload, 0) == 0x00
        && *vstd::slice::slice_index_get(payload, 1) == 0x01) {
        return None;
    }
    if *vstd::slice::slice_index_get(payload, 4) != HARDWARE_ADDRESS_LENGTH {
        return None;
    }
    let data_len = *vstd::slice::slice_index_get(payload, 5) as usize;
    if payload.len() < 14 + data_len {
        return None;
    }
    let (_, rest) = payload.split_at(14);
    let (data, _) = rest.split_at(data_len);
    proof {
        assert(data@ =~= frame@.skip(14).subrange(14, 14 + data_len));
    }
    if data.len() < PACKET_HEADER_SIZE {
        return None;
    }
    if !(*vstd::slice::slice_index_get(data, 0) == 0x6b
        && *vstd::slice::slice_index_get(data, 1) == 0x74
        && *vstd::slice::slice_index_get(data, 2) == 0x70) {
        return None;
    }
    let tag = *vstd::slice::slice_index_get(data, 3);
    let seq_no = *vstd::slice::slice_index_get(data, 4);
    let total = *vstd::slice::slice_index_get(data, 5);
    let (head, chunk_slice) = data.split_at(14);
    let (_, id_slice) = head.split_at(6);
    proof {
        assert(id_slice@ =~= data@.subrange(6, 14));
        assert(chunk_slice@ =~= data@.skip(14));
    }
    let id = u64_from_le_bytes(id_slice);
    let chunk = vstd::slice::slice_to_vec(chunk_slice);
    let f = Fragment { tag, seq_no, total, id, chunk };
    proof {
        assert(spec_parse_frame(frame@) matches Some(g) && g =~= f@);
    }
    Some(f)
}

} // verus!
