//! Netlink messages and their attributes, on bytes.
use crate::bytes::{
    align, align4, copy_bytes, host_bytes, host_value, lemma_pow256, push_bytes, push_host,
    read_host, ByteOrder,
};
use vstd::prelude::*;

verus! {

/// The length of a message's header.
pub const MESSAGE_HEADER: usize = 16;

/// The end of a dump.
pub const NLMSG_DONE: u16 = 3;

/// An acknowledgement or an error.
pub const NLMSG_ERROR: u16 = 2;

/// The dump was disturbed and is not consistent.
pub const NLM_F_DUMP_INTR: u16 = 16;

pub const NLM_F_REQUEST: u16 = 1;

pub const NLM_F_MULTI: u16 = 2;

pub const NLM_F_DUMP: u16 = 0x300;

// ---------------------------------------------------------------------------
// Attributes
// ---------------------------------------------------------------------------

/// An attribute: its type as it stands, and its value.
#[derive(Clone, Debug)]
pub struct Attr {
    pub kind: u16,
    pub value: Vec<u8>,
}

/// How a run of attributes ends.
#[derive(Clone, Copy, Debug, PartialEq, Eq, Structural)]
pub enum AttrEnd {
    /// At the end of the bytes.
    Whole,
    /// With fewer bytes than a header takes.
    Leftover,
    /// With an attribute whose length is not possible.
    BadLength,
}

/// The attributes of a run and how it ends.
#[derive(Clone, Debug)]
pub struct AttrList {
    pub items: Vec<Attr>,
    pub end: AttrEnd,
}

/// An attribute as a plain value.
pub open spec fn attr_view(attr: Attr) -> (u16, Seq<u8>) {
    (attr.kind, attr.value@)
}

/// Attributes as plain values.
pub open spec fn attr_views(items: Seq<Attr>) -> Seq<(u16, Seq<u8>)> {
    items.map_values(|attr: Attr| attr_view(attr))
}

/// The length that the attribute at `at` claims.
pub open spec fn attr_len(order: ByteOrder, s: Seq<u8>, at: int) -> nat {
    host_value(order, s.subrange(at, at + 2))
}

/// The type of the attribute at `at`.
pub open spec fn attr_kind(order: ByteOrder, s: Seq<u8>, at: int) -> u16 {
    host_value(order, s.subrange(at + 2, at + 4)) as u16
}

/// How the run of attributes from `at` on ends.
pub open spec fn attrs_end(order: ByteOrder, s: Seq<u8>, at: int) -> AttrEnd
    decreases s.len() + 4 - at,
{
    if at + 4 > s.len() {
        if at >= s.len() {
            AttrEnd::Whole
        } else {
            AttrEnd::Leftover
        }
    } else if attr_len(order, s, at) < 4 || at + attr_len(order, s, at) > s.len() {
        AttrEnd::BadLength
    } else {
        attrs_end(order, s, at + align4(attr_len(order, s, at) as int))
    }
}

/// The attributes from `at` on, up to where the run ends.
pub open spec fn attrs(order: ByteOrder, s: Seq<u8>, at: int) -> Seq<(u16, Seq<u8>)>
    decreases s.len() + 4 - at,
{
    if at + 4 > s.len() || attr_len(order, s, at) < 4 || at + attr_len(order, s, at) > s.len() {
        Seq::empty()
    } else {
        seq![
            (
                attr_kind(order, s, at),
                s.subrange(at + 4, at + attr_len(order, s, at)),
            ),
        ] + attrs(order, s, at + align4(attr_len(order, s, at) as int))
    }
}

/// Reads the attributes from `start` on.
pub fn read_attrs(order: ByteOrder, data: &[u8], start: usize) -> (list: AttrList)
    requires
        data.len() <= usize::MAX - 0x1_0000,
        start <= data.len(),
    ensures
        attr_views(list.items@) == attrs(order, data@, start as int),
        list.end == attrs_end(order, data@, start as int),
{
    let mut items: Vec<Attr> = Vec::new();
    let mut at: usize = start;
    assert(attr_views(items@) + attrs(order, data@, at as int) =~= attrs(order, data@, at as int));
    loop
        invariant
            data.len() <= usize::MAX - 0x1_0000,
            at <= data.len() + 3,
            attr_views(items@) + attrs(order, data@, at as int) == attrs(
                order,
                data@,
                start as int,
            ),
            attrs_end(order, data@, at as int) == attrs_end(order, data@, start as int),
        decreases data.len() + 4 - at,
    {
        if at + 4 > data.len() {
            let end = if at >= data.len() {
                AttrEnd::Whole
            } else {
                AttrEnd::Leftover
            };
            assert(attr_views(items@) + Seq::<(u16, Seq<u8>)>::empty() =~= attr_views(items@));
            return AttrList { items, end };
        }
        proof {
            lemma_pow256();
        }
        let len: usize = read_host(order, data, at, 2) as usize;
        let kind: u16 = read_host(order, data, at + 2, 2) as u16;
        if len < 4 || len > data.len() - at {
            assert(attr_views(items@) + Seq::<(u16, Seq<u8>)>::empty() =~= attr_views(items@));
            return AttrList { items, end: AttrEnd::BadLength };
        }
        let value = copy_bytes(data, at + 4, at + len);
        let ghost before = attr_views(items@);
        let ghost rest = attrs(order, data@, at + align4(len as int));
        let attr = Attr { kind, value };
        let ghost view = attr_view(attr);
        items.push(attr);
        assert(attr_views(items@) =~= before.push(view));
        assert(before + (seq![view] + rest) =~= before.push(view) + rest);
        at = at + align(len);
    }
}

/// Appends an attribute and pads it to a multiple of four.
pub open spec fn attr_bytes(order: ByteOrder, kind: u16, payload: Seq<u8>, pad: nat) -> Seq<u8> {
    host_bytes(order, (4 + payload.len()) % 0x1_0000, 2) + host_bytes(order, kind as nat, 2)
        + payload + Seq::new(pad, |i: int| 0u8)
}

/// Appends an attribute; the whole buffer is padded to a multiple of four.
pub fn push_attr(order: ByteOrder, buf: &mut Vec<u8>, kind: u16, payload: &[u8])
    requires
        old(buf).len() + payload.len() <= usize::MAX - 8,
    ensures
        exists|pad: nat|
            #![trigger attr_bytes(order, kind, payload@, pad)]
            pad < 4 && (old(buf).len() + 4 + payload.len() + pad) % 4 == 0 && final(buf)@ == old(
                buf,
            )@ + attr_bytes(order, kind, payload@, pad),
{
    let ghost start = buf@;
    proof {
        crate::bytes::lemma_le_bytes_len(((4 + payload@.len()) % 0x1_0000) as nat, 2);
        crate::bytes::lemma_be_bytes_len(((4 + payload@.len()) % 0x1_0000) as nat, 2);
        crate::bytes::lemma_le_bytes_len(kind as nat, 2);
        crate::bytes::lemma_be_bytes_len(kind as nat, 2);
    }
    let len: usize = 4 + payload.len();
    push_host(order, buf, (len % 0x1_0000) as u64, 2);
    push_host(order, buf, kind as u64, 2);
    push_bytes(buf, payload);
    let ghost body = buf@;
    let ghost mut pad: nat = 0;
    assert(body + Seq::new(0, |i: int| 0u8) =~= body);
    while buf.len() % 4 != 0
        invariant
            buf@ == body + Seq::new(pad, |i: int| 0u8),
            body.len() == start.len() + 4 + payload@.len(),
            body.len() <= usize::MAX - 4,
            pad <= 3,
            forall|k: int| 0 <= k < pad ==> (#[trigger] (body.len() + k)) % 4 != 0,
        decreases 4 - pad,
    {
        assert((body.len() + pad) % 4 != 0);
        buf.push(0);
        proof {
            assert(pad < 3) by {
                if pad == 3 {
                    assert((body.len() + 0) % 4 != 0);
                    assert((body.len() + 1) % 4 != 0);
                    assert((body.len() + 2) % 4 != 0);
                    assert((body.len() + 3) % 4 != 0);
                }
            }
            pad = pad + 1;
        }
        assert(buf@ =~= body + Seq::new(pad, |i: int| 0u8));
    }
    assert(buf@ =~= start + attr_bytes(order, kind, payload@, pad));
}

// ---------------------------------------------------------------------------
// Message headers
// ---------------------------------------------------------------------------

/// The header of a netlink message.
#[derive(Clone, Copy, Debug, PartialEq, Eq, Structural)]
pub struct MessageHeader {
    pub len: u32,
    pub kind: u16,
    pub flags: u16,
    pub seq: u32,
    pub pid: u32,
}

/// The header at `at`.
pub open spec fn header_at(order: ByteOrder, s: Seq<u8>, at: int) -> MessageHeader {
    MessageHeader {
        len: host_value(order, s.subrange(at, at + 4)) as u32,
        kind: host_value(order, s.subrange(at + 4, at + 6)) as u16,
        flags: host_value(order, s.subrange(at + 6, at + 8)) as u16,
        seq: host_value(order, s.subrange(at + 8, at + 12)) as u32,
        pid: host_value(order, s.subrange(at + 12, at + 16)) as u32,
    }
}

/// Reads the header at `at`.
pub fn read_header(order: ByteOrder, bytes: &[u8], at: usize) -> (header: MessageHeader)
    requires
        at + 16 <= bytes.len(),
    ensures
        header == header_at(order, bytes@, at as int),
{
    proof {
        lemma_pow256();
    }
    MessageHeader {
        len: read_host(order, bytes, at, 4) as u32,
        kind: read_host(order, bytes, at + 4, 2) as u16,
        flags: read_host(order, bytes, at + 6, 2) as u16,
        seq: read_host(order, bytes, at + 8, 4) as u32,
        pid: read_host(order, bytes, at + 12, 4) as u32,
    }
}

/// The bytes of a header.
pub open spec fn header_bytes(order: ByteOrder, header: MessageHeader) -> Seq<u8> {
    host_bytes(order, header.len as nat, 4) + host_bytes(order, header.kind as nat, 2)
        + host_bytes(order, header.flags as nat, 2) + host_bytes(order, header.seq as nat, 4)
        + host_bytes(order, header.pid as nat, 4)
}

/// Appends a header.
pub fn push_header(order: ByteOrder, out: &mut Vec<u8>, header: &MessageHeader)
    ensures
        final(out)@ == old(out)@ + header_bytes(order, *header),
{
    push_host(order, out, header.len as u64, 4);
    push_host(order, out, header.kind as u64, 2);
    push_host(order, out, header.flags as u64, 2);
    push_host(order, out, header.seq as u64, 4);
    push_host(order, out, header.pid as u64, 4);
    assert(out@ =~= old(out)@ + header_bytes(order, *header));
}

/// A header reads back as it was written.
pub proof fn law_header_round_trip(order: ByteOrder, header: MessageHeader, rest: Seq<u8>)
    ensures
        header_bytes(order, header).len() == 16,
        header_at(order, header_bytes(order, header) + rest, 0) == header,
{
    lemma_pow256();
    crate::bytes::law_host_round_trip(order, header.len as nat, 4);
    crate::bytes::law_host_round_trip(order, header.kind as nat, 2);
    crate::bytes::law_host_round_trip(order, header.flags as nat, 2);
    crate::bytes::law_host_round_trip(order, header.seq as nat, 4);
    crate::bytes::law_host_round_trip(order, header.pid as nat, 4);
    let s = header_bytes(order, header) + rest;
    assert(s.subrange(0, 4) =~= host_bytes(order, header.len as nat, 4));
    assert(s.subrange(4, 6) =~= host_bytes(order, header.kind as nat, 2));
    assert(s.subrange(6, 8) =~= host_bytes(order, header.flags as nat, 2));
    assert(s.subrange(8, 12) =~= host_bytes(order, header.seq as nat, 4));
    assert(s.subrange(12, 16) =~= host_bytes(order, header.pid as nat, 4));
}

/// A header has its length in its first four bytes, and behind it the kind, the flags, the
/// number of the request and the sender.
pub proof fn law_header_has_its_places(order: ByteOrder, header: MessageHeader)
    ensures
        ({
            let s = header_bytes(order, header);
            &&& s.len() == 16
            &&& host_value(order, s.subrange(0, 4)) == header.len
            &&& host_value(order, s.subrange(4, 6)) == header.kind
            &&& host_value(order, s.subrange(6, 8)) == header.flags
            &&& host_value(order, s.subrange(8, 12)) == header.seq
            &&& host_value(order, s.subrange(12, 16)) == header.pid
        }),
{
    lemma_pow256();
    crate::bytes::law_host_round_trip(order, header.len as nat, 4);
    crate::bytes::law_host_round_trip(order, header.kind as nat, 2);
    crate::bytes::law_host_round_trip(order, header.flags as nat, 2);
    crate::bytes::law_host_round_trip(order, header.seq as nat, 4);
    crate::bytes::law_host_round_trip(order, header.pid as nat, 4);
    let s = header_bytes(order, header);
    assert(s.subrange(0, 4) =~= host_bytes(order, header.len as nat, 4));
    assert(s.subrange(4, 6) =~= host_bytes(order, header.kind as nat, 2));
    assert(s.subrange(6, 8) =~= host_bytes(order, header.flags as nat, 2));
    assert(s.subrange(8, 12) =~= host_bytes(order, header.seq as nat, 4));
    assert(s.subrange(12, 16) =~= host_bytes(order, header.pid as nat, 4));
}

/// An attribute that is written and padded reads back, alone in its bytes.
pub proof fn law_attribute_reads_back(order: ByteOrder, kind: u16, payload: Seq<u8>, pad: nat)
    requires
        payload.len() < 0x8000,
        pad < 4,
        (4 + payload.len() + pad) % 4 == 0,
    ensures
        attrs(order, attr_bytes(order, kind, payload, pad), 0) == seq![(kind, payload)],
        attrs_end(order, attr_bytes(order, kind, payload, pad), 0) == AttrEnd::Whole,
{
    lemma_pow256();
    let s = attr_bytes(order, kind, payload, pad);
    let len = (4 + payload.len()) as nat;
    crate::bytes::law_host_round_trip(order, len, 2);
    crate::bytes::law_host_round_trip(order, kind as nat, 2);
    assert(len % 0x1_0000 == len);
    assert(s.subrange(0, 2) =~= host_bytes(order, len, 2));
    assert(s.subrange(2, 4) =~= host_bytes(order, kind as nat, 2));
    assert(s.subrange(4, len as int) =~= payload);
    let next = align4(len as int);
    assert(next == s.len());
    reveal_with_fuel(attrs, 2);
    reveal_with_fuel(attrs_end, 2);
    assert(attrs(order, s, next) =~= Seq::<(u16, Seq<u8>)>::empty());
    assert(attrs(order, s, 0) =~= seq![(kind, payload)]);
}

/// Bytes that are too few for an attribute, and an attribute that claims fewer bytes than its
/// header has or more than there are, end a run.
pub proof fn law_broken_attributes_end_a_run(order: ByteOrder, s: Seq<u8>, at: int)
    requires
        0 <= at,
    ensures
        at >= s.len() ==> attrs_end(order, s, at) == AttrEnd::Whole && attrs(order, s, at).len()
            == 0,
        at < s.len() < at + 4 ==> attrs_end(order, s, at) == AttrEnd::Leftover && attrs(
            order,
            s,
            at,
        ).len() == 0,
        at + 4 <= s.len() && (host_value(order, s.subrange(at, at + 2)) < 4 || at + host_value(
            order,
            s.subrange(at, at + 2),
        ) > s.len()) ==> attrs_end(order, s, at) == AttrEnd::BadLength && attrs(order, s, at).len()
            == 0,
{
}

} // verus!
