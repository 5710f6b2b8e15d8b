//! The file that flows are kept in over a restart.
use super::flow::{FlowKey, FlowValue};
use crate::bytes::{
    copy_bytes, law_le_round_trip, le_bytes, le_value, lemma_le_bytes_len, lemma_pow256, pow256,
    push_bytes, push_le, read_le,
};
use crate::digest::{same_bytes, sha256, sha256_digest};
use crate::text::utf8_text;
use vstd::prelude::*;
use vstd::utf8::{decode_utf8, encode_utf8, valid_utf8};

verus! {

/// The version of the file.
pub const FORMAT_VERSION: u32 = 1;

/// The version of what stands in it.
pub const FLOW_MAP_ABI_VERSION: u32 = 1;

/// A flow, and how long before the file was written it was last seen.
#[derive(Clone, Copy, Debug, PartialEq, Eq, Structural)]
pub struct SnapshotEntry {
    pub key: FlowKey,
    pub value: FlowValue,
    pub last_seen_age_ns: u64,
}

/// What the file holds.
#[derive(Clone, Debug)]
pub struct Snapshot {
    pub saved_at_unix_ns: u64,
    pub node_name: String,
    pub config_digest: [u8; 32],
    pub entries: Vec<SnapshotEntry>,
}

/// What the file holds, as plain values.
pub struct SnapshotView {
    pub saved_at_unix_ns: u64,
    pub node_name: Seq<char>,
    pub config_digest: Seq<u8>,
    pub entries: Seq<SnapshotEntry>,
}

impl View for Snapshot {
    type V = SnapshotView;

    open spec fn view(&self) -> SnapshotView {
        SnapshotView {
            saved_at_unix_ns: self.saved_at_unix_ns,
            node_name: self.node_name@,
            config_digest: self.config_digest@,
            entries: self.entries@,
        }
    }
}

/// Why a file is not written or not read.
#[derive(Clone, Copy, Debug, PartialEq, Eq, Structural)]
pub enum SnapshotError {
    NodeNameTooLong,
    TooManyEntries,
    TooShort,
    Checksum,
    Magic,
    Version(u32),
    Abi(u32),
    Truncated,
    NotUtf8,
    Trailing,
}

// ---------------------------------------------------------------------------
// Writing
// ---------------------------------------------------------------------------

/// The first bytes of the file.
pub open spec fn magic() -> Seq<u8> {
    seq![0x45u8, 0x4cu8, 0x42u8, 0x46u8, 0x4cu8, 0x4fu8, 0x57u8, 0x31u8]
}

/// The bytes of a key.
pub open spec fn key_bytes(key: FlowKey) -> Seq<u8> {
    le_bytes(key.src as nat, 4) + le_bytes(key.dst as nat, 4) + le_bytes(key.sport as nat, 2)
        + le_bytes(key.dport as nat, 2) + le_bytes(key.proto as nat, 1)
}

/// The bytes of a value; when the flow was last seen is not among them.
pub open spec fn value_bytes(value: FlowValue) -> Seq<u8> {
    le_bytes(value.listener_id as nat, 4) + le_bytes(value.target_id as nat, 4) + le_bytes(
        value.vip as nat,
        4,
    ) + le_bytes(value.target as nat, 4) + le_bytes(value.vip_port as nat, 2) + le_bytes(
        value.target_port as nat,
        2,
    ) + le_bytes(value.timeout_secs as nat, 4)
}

/// The bytes of an entry.
pub open spec fn entry_bytes(entry: SnapshotEntry) -> Seq<u8> {
    key_bytes(entry.key) + value_bytes(entry.value) + le_bytes(entry.last_seen_age_ns as nat, 8)
}

/// The bytes of entries.
pub open spec fn entries_bytes(entries: Seq<SnapshotEntry>) -> Seq<u8>
    decreases entries.len(),
{
    if entries.len() == 0 {
        Seq::empty()
    } else {
        entries_bytes(entries.drop_last()) + entry_bytes(entries.last())
    }
}

/// The bytes ahead of the entries.
pub open spec fn head_bytes(snapshot: SnapshotView) -> Seq<u8> {
    let node = encode_utf8(snapshot.node_name);
    magic() + le_bytes(FORMAT_VERSION as nat, 4) + le_bytes(FLOW_MAP_ABI_VERSION as nat, 4)
        + le_bytes(snapshot.saved_at_unix_ns as nat, 8) + le_bytes(node.len(), 2) + node
        + snapshot.config_digest + le_bytes(snapshot.entries.len(), 4)
}

/// The bytes of the file but for the checksum.
pub open spec fn payload(snapshot: SnapshotView) -> Seq<u8> {
    head_bytes(snapshot) + entries_bytes(snapshot.entries)
}

/// The bytes of the file.
pub open spec fn encoded(snapshot: SnapshotView) -> Result<Seq<u8>, SnapshotError> {
    if encode_utf8(snapshot.node_name).len() > u16::MAX {
        Err(SnapshotError::NodeNameTooLong)
    } else if snapshot.entries.len() > u32::MAX {
        Err(SnapshotError::TooManyEntries)
    } else {
        Ok(payload(snapshot) + sha256(payload(snapshot)))
    }
}

fn push_key(out: &mut Vec<u8>, key: FlowKey)
    ensures
        final(out)@ == old(out)@ + key_bytes(key),
{
    push_le(out, key.src as u64, 4);
    push_le(out, key.dst as u64, 4);
    push_le(out, key.sport as u64, 2);
    push_le(out, key.dport as u64, 2);
    push_le(out, key.proto as u64, 1);
    assert(out@ =~= old(out)@ + key_bytes(key));
}

fn push_value(out: &mut Vec<u8>, value: FlowValue)
    ensures
        final(out)@ == old(out)@ + value_bytes(value),
{
    push_le(out, value.listener_id as u64, 4);
    push_le(out, value.target_id as u64, 4);
    push_le(out, value.vip as u64, 4);
    push_le(out, value.target as u64, 4);
    push_le(out, value.vip_port as u64, 2);
    push_le(out, value.target_port as u64, 2);
    push_le(out, value.timeout_secs as u64, 4);
    assert(out@ =~= old(out)@ + value_bytes(value));
}

fn encode_entry(out: &mut Vec<u8>, entry: SnapshotEntry)
    ensures
        final(out)@ == old(out)@ + entry_bytes(entry),
{
    push_key(out, entry.key);
    push_value(out, entry.value);
    push_le(out, entry.last_seen_age_ns, 8);
    assert(out@ =~= old(out)@ + entry_bytes(entry));
}

fn push_magic(out: &mut Vec<u8>)
    ensures
        final(out)@ == old(out)@ + magic(),
{
    out.push(0x45);
    out.push(0x4c);
    out.push(0x42);
    out.push(0x46);
    out.push(0x4c);
    out.push(0x4f);
    out.push(0x57);
    out.push(0x31);
    assert(out@ =~= old(out)@ + magic());
}

/// Writes the file. Reading it gives back what was written, but for when each
/// flow was last seen: its age tells.
pub fn encode_snapshot(snapshot: &Snapshot) -> (bytes: Result<Vec<u8>, SnapshotError>)
    ensures
        match (bytes, encoded(snapshot@)) {
            (Ok(bytes), Ok(list)) => bytes@ == list,
            (Err(error), Err(fault)) => error == fault,
            _ => false,
        },
        bytes matches Ok(bytes) ==> decoded(bytes@) == Ok::<SnapshotView, SnapshotError>(
            unstamped(snapshot@),
        ),
{
    let node = snapshot.node_name.as_str().as_bytes();
    if node.len() > 65535 {
        return Err(SnapshotError::NodeNameTooLong);
    }
    let count: usize = snapshot.entries.len();
    if count > 0xffff_ffff {
        return Err(SnapshotError::TooManyEntries);
    }
    let mut out: Vec<u8> = Vec::new();
    push_magic(&mut out);
    assert(out@ =~= magic());
    push_le(&mut out, FORMAT_VERSION as u64, 4);
    push_le(&mut out, FLOW_MAP_ABI_VERSION as u64, 4);
    push_le(&mut out, snapshot.saved_at_unix_ns, 8);
    push_le(&mut out, node.len() as u64, 2);
    push_bytes(&mut out, node);
    push_bytes(&mut out, snapshot.config_digest.as_slice());
    push_le(&mut out, count as u64, 4);
    assert(out@ == head_bytes(snapshot@));
    let ghost head = out@;
    let mut i: usize = 0;
    assert(head + entries_bytes(snapshot.entries@.take(0)) =~= head);
    while i < count
        invariant
            i <= count == snapshot.entries.len(),
            out@ == head + entries_bytes(snapshot.entries@.take(i as int)),
        decreases count - i,
    {
        let ghost done = snapshot.entries@.take(i as int);
        assert(snapshot.entries@.take(i + 1).drop_last() =~= done);
        assert(snapshot.entries@.take(i + 1).last() == snapshot.entries@[i as int]);
        encode_entry(&mut out, snapshot.entries[i]);
        assert(out@ =~= head + (entries_bytes(done) + entry_bytes(snapshot.entries@[i as int])));
        i += 1;
    }
    assert(snapshot.entries@.take(count as int) =~= snapshot.entries@);
    let sum = sha256_digest(out.as_slice());
    let ghost body = out@;
    push_bytes(&mut out, sum.as_slice());
    proof {
        lemma_parsed_payload(snapshot@);
        assert(out@.take(out@.len() - 32) =~= body);
        assert(out@.skip(out@.len() - 32) =~= sum@);
    }
    Ok(out)
}

// ---------------------------------------------------------------------------
// Reading
// ---------------------------------------------------------------------------

/// The number of `len` bytes at `at`.
pub open spec fn field(bytes: Seq<u8>, at: int, len: int) -> nat {
    le_value(bytes.subrange(at, at + len))
}

/// The size of an entry.
pub const ENTRY_LEN: usize = 45;

/// The entry whose bytes begin at `at`.
pub open spec fn entry_at(bytes: Seq<u8>, at: int) -> SnapshotEntry {
    SnapshotEntry {
        key: FlowKey {
            src: field(bytes, at, 4) as u32,
            dst: field(bytes, at + 4, 4) as u32,
            sport: field(bytes, at + 8, 2) as u16,
            dport: field(bytes, at + 10, 2) as u16,
            proto: field(bytes, at + 12, 1) as u8,
        },
        value: FlowValue {
            listener_id: field(bytes, at + 13, 4) as u32,
            target_id: field(bytes, at + 17, 4) as u32,
            vip: field(bytes, at + 21, 4) as u32,
            target: field(bytes, at + 25, 4) as u32,
            vip_port: field(bytes, at + 29, 2) as u16,
            target_port: field(bytes, at + 31, 2) as u16,
            timeout_secs: field(bytes, at + 33, 4) as u32,
            last_seen_ns: 0,
        },
        last_seen_age_ns: field(bytes, at + 37, 8) as u64,
    }
}

/// The entries whose bytes begin at `at`.
pub open spec fn entries_at(bytes: Seq<u8>, at: int, count: nat) -> Seq<SnapshotEntry> {
    Seq::new(count, |i: int| entry_at(bytes, at + ENTRY_LEN * i))
}

/// What the bytes ahead of the checksum hold.
pub open spec fn parsed(bytes: Seq<u8>) -> Result<SnapshotView, SnapshotError> {
    let node_len = field(bytes, 24, 2) as int;
    let node = bytes.subrange(26, 26 + node_len);
    let at = 26 + node_len;
    let count = field(bytes, at + 32, 4);
    if bytes.len() < 8 {
        Err(SnapshotError::Truncated)
    } else if bytes.take(8) != magic() {
        Err(SnapshotError::Magic)
    } else if bytes.len() < 12 {
        Err(SnapshotError::Truncated)
    } else if field(bytes, 8, 4) != FORMAT_VERSION {
        Err(SnapshotError::Version(field(bytes, 8, 4) as u32))
    } else if bytes.len() < 16 {
        Err(SnapshotError::Truncated)
    } else if field(bytes, 12, 4) != FLOW_MAP_ABI_VERSION {
        Err(SnapshotError::Abi(field(bytes, 12, 4) as u32))
    } else if bytes.len() < 26 || bytes.len() < at {
        Err(SnapshotError::Truncated)
    } else if !valid_utf8(node) {
        Err(SnapshotError::NotUtf8)
    } else if bytes.len() < at + 36 || bytes.len() < at + 36 + ENTRY_LEN * count {
        Err(SnapshotError::Truncated)
    } else if bytes.len() > at + 36 + ENTRY_LEN * count {
        Err(SnapshotError::Trailing)
    } else {
        Ok(
            SnapshotView {
                saved_at_unix_ns: field(bytes, 16, 8) as u64,
                node_name: decode_utf8(node),
                config_digest: bytes.subrange(at, at + 32),
                entries: entries_at(bytes, at + 36, count),
            },
        )
    }
}

/// What a file holds.
pub open spec fn decoded(bytes: Seq<u8>) -> Result<SnapshotView, SnapshotError> {
    if bytes.len() < 40 {
        Err(SnapshotError::TooShort)
    } else if sha256(bytes.take(bytes.len() - 32)) != bytes.skip(bytes.len() - 32) {
        Err(SnapshotError::Checksum)
    } else {
        parsed(bytes.take(bytes.len() - 32))
    }
}

fn read_u32(bytes: &[u8], at: usize) -> (n: u32)
    requires
        at + 4 <= bytes.len(),
    ensures
        n == field(bytes@, at as int, 4),
{
    proof {
        lemma_pow256();
    }
    read_le(bytes, at, 4) as u32
}

fn read_u16(bytes: &[u8], at: usize) -> (n: u16)
    requires
        at + 2 <= bytes.len(),
    ensures
        n == field(bytes@, at as int, 2),
{
    proof {
        lemma_pow256();
    }
    read_le(bytes, at, 2) as u16
}

fn decode_entry(bytes: &[u8], at: usize) -> (entry: SnapshotEntry)
    requires
        at + ENTRY_LEN <= bytes.len(),
    ensures
        entry == entry_at(bytes@, at as int),
{
    let key = FlowKey {
        src: read_u32(bytes, at),
        dst: read_u32(bytes, at + 4),
        sport: read_u16(bytes, at + 8),
        dport: read_u16(bytes, at + 10),
        proto: read_le(bytes, at + 12, 1) as u8,
    };
    let value = FlowValue {
        listener_id: read_u32(bytes, at + 13),
        target_id: read_u32(bytes, at + 17),
        vip: read_u32(bytes, at + 21),
        target: read_u32(bytes, at + 25),
        vip_port: read_u16(bytes, at + 29),
        target_port: read_u16(bytes, at + 31),
        timeout_secs: read_u32(bytes, at + 33),
        last_seen_ns: 0,
    };
    let last_seen_age_ns: u64 = read_le(bytes, at + 37, 8);
    SnapshotEntry { key, value, last_seen_age_ns }
}

fn decode_entries(bytes: &[u8], at: usize, count: usize) -> (entries: Vec<SnapshotEntry>)
    requires
        at + ENTRY_LEN * count <= bytes.len(),
    ensures
        entries@ == entries_at(bytes@, at as int, count as nat),
{
    let mut entries: Vec<SnapshotEntry> = Vec::new();
    let mut i: usize = 0;
    let mut offset: usize = at;
    while i < count
        invariant
            i <= count,
            at + ENTRY_LEN * count <= bytes.len(),
            offset == at + ENTRY_LEN * i,
            entries@ == entries_at(bytes@, at as int, i as nat),
        decreases count - i,
    {
        entries.push(decode_entry(bytes, offset));
        i += 1;
        offset = offset + ENTRY_LEN;
        assert(entries@ =~= entries_at(bytes@, at as int, i as nat));
    }
    entries
}

fn read_digest(bytes: &[u8], at: usize) -> (digest: [u8; 32])
    requires
        at + 32 <= bytes.len(),
    ensures
        digest@ == bytes@.subrange(at as int, at + 32),
{
    let mut digest: [u8; 32] = [0u8; 32];
    let mut i: usize = 0;
    while i < 32
        invariant
            i <= 32,
            at + 32 <= bytes.len(),
            forall|j: int| 0 <= j < i ==> digest@[j] == bytes@[at + j],
        decreases 32 - i,
    {
        digest[i] = bytes[at + i];
        i += 1;
    }
    assert(digest@ =~= bytes@.subrange(at as int, at + 32));
    digest
}

fn has_magic(bytes: &[u8]) -> (b: bool)
    requires
        bytes.len() >= 8,
    ensures
        b == (bytes@.take(8) == magic()),
{
    let mut wanted: Vec<u8> = Vec::new();
    push_magic(&mut wanted);
    assert(wanted@ =~= magic());
    let first = copy_bytes(bytes, 0, 8);
    assert(first@ =~= bytes@.take(8));
    same_bytes(first.as_slice(), wanted.as_slice())
}

fn parse_body(bytes: &[u8]) -> (snapshot: Result<Snapshot, SnapshotError>)
    requires
        bytes.len() >= 26,
        bytes@.take(8) == magic(),
        field(bytes@, 8, 4) == FORMAT_VERSION,
        field(bytes@, 12, 4) == FLOW_MAP_ABI_VERSION,
    ensures
        match (snapshot, parsed(bytes@)) {
            (Ok(snapshot), Ok(view)) => snapshot@ == view,
            (Err(error), Err(fault)) => error == fault,
            _ => false,
        },
{
    let saved_at_unix_ns: u64 = read_le(bytes, 16, 8);
    let node_len: usize = read_u16(bytes, 24) as usize;
    if bytes.len() - 26 < node_len {
        return Err(SnapshotError::Truncated);
    }
    let at: usize = 26 + node_len;
    let node_name = match utf8_text(copy_bytes(bytes, 26, at)) {
        Some(name) => name,
        None => {
            return Err(SnapshotError::NotUtf8);
        },
    };
    if bytes.len() - at < 36 {
        return Err(SnapshotError::Truncated);
    }
    let config_digest = read_digest(bytes, at);
    let count: usize = read_u32(bytes, at + 32) as usize;
    let left: usize = bytes.len() - at - 36;
    if left / ENTRY_LEN < count {
        return Err(SnapshotError::Truncated);
    }
    if left > ENTRY_LEN * count {
        return Err(SnapshotError::Trailing);
    }
    let entries = decode_entries(bytes, at + 36, count);
    Ok(Snapshot { saved_at_unix_ns, node_name, config_digest, entries })
}

fn parse(bytes: &[u8]) -> (snapshot: Result<Snapshot, SnapshotError>)
    ensures
        match (snapshot, parsed(bytes@)) {
            (Ok(snapshot), Ok(view)) => snapshot@ == view,
            (Err(error), Err(fault)) => error == fault,
            _ => false,
        },
{
    if bytes.len() < 8 {
        return Err(SnapshotError::Truncated);
    }
    if !has_magic(bytes) {
        return Err(SnapshotError::Magic);
    }
    if bytes.len() < 12 {
        return Err(SnapshotError::Truncated);
    }
    let version: u32 = read_u32(bytes, 8);
    if version != FORMAT_VERSION {
        return Err(SnapshotError::Version(version));
    }
    if bytes.len() < 16 {
        return Err(SnapshotError::Truncated);
    }
    let abi: u32 = read_u32(bytes, 12);
    if abi != FLOW_MAP_ABI_VERSION {
        return Err(SnapshotError::Abi(abi));
    }
    if bytes.len() < 26 {
        return Err(SnapshotError::Truncated);
    }
    parse_body(bytes)
}

/// Reads the file.
pub fn decode_snapshot(bytes: &[u8]) -> (snapshot: Result<Snapshot, SnapshotError>)
    ensures
        match (snapshot, decoded(bytes@)) {
            (Ok(snapshot), Ok(view)) => snapshot@ == view,
            (Err(error), Err(fault)) => error == fault,
            _ => false,
        },
{
    if bytes.len() < 40 {
        return Err(SnapshotError::TooShort);
    }
    let split: usize = bytes.len() - 32;
    let body = copy_bytes(bytes, 0, split);
    assert(body@ =~= bytes@.take(split as int));
    let sum = copy_bytes(bytes, split, bytes.len());
    assert(sum@ =~= bytes@.skip(split as int));
    let wanted = sha256_digest(body.as_slice());
    if !same_bytes(wanted.as_slice(), sum.as_slice()) {
        return Err(SnapshotError::Checksum);
    }
    parse(body.as_slice())
}

// ---------------------------------------------------------------------------
// What was written is what is read
// ---------------------------------------------------------------------------

/// An entry without when the flow was last seen.
pub open spec fn unstamped_entry(entry: SnapshotEntry) -> SnapshotEntry {
    SnapshotEntry { value: FlowValue { last_seen_ns: 0, ..entry.value }, ..entry }
}

/// What the file holds without when each flow was last seen.
pub open spec fn unstamped(snapshot: SnapshotView) -> SnapshotView {
    SnapshotView {
        entries: snapshot.entries.map_values(|entry: SnapshotEntry| unstamped_entry(entry)),
        ..snapshot
    }
}

proof fn lemma_field(bytes: Seq<u8>, at: int, off: int, len: nat, part: Seq<u8>, n: nat)
    requires
        0 <= at <= at + part.len() <= bytes.len(),
        bytes.subrange(at, at + part.len()) == part,
        0 <= off <= off + len <= part.len(),
        part.subrange(off, off + len) == le_bytes(n, len),
        n < pow256(len),
    ensures
        field(bytes, at + off, len as int) == n,
{
    law_le_round_trip(n, len);
    assert(bytes.subrange(at + off, at + off + len) =~= part.subrange(off, off + len));
}

proof fn lemma_key(bytes: Seq<u8>, at: int, key: FlowKey)
    requires
        0 <= at <= at + key_bytes(key).len() <= bytes.len(),
        bytes.subrange(at, at + key_bytes(key).len()) == key_bytes(key),
    ensures
        key_bytes(key).len() == 13,
        field(bytes, at, 4) == key.src,
        field(bytes, at + 4, 4) == key.dst,
        field(bytes, at + 8, 2) == key.sport,
        field(bytes, at + 10, 2) == key.dport,
        field(bytes, at + 12, 1) == key.proto,
{
    let part = key_bytes(key);
    lemma_pow256();
    lemma_le_bytes_len(key.src as nat, 4);
    lemma_le_bytes_len(key.dst as nat, 4);
    lemma_le_bytes_len(key.sport as nat, 2);
    lemma_le_bytes_len(key.dport as nat, 2);
    lemma_le_bytes_len(key.proto as nat, 1);
    assert(part.subrange(0, 4) =~= le_bytes(key.src as nat, 4));
    assert(part.subrange(4, 8) =~= le_bytes(key.dst as nat, 4));
    assert(part.subrange(8, 10) =~= le_bytes(key.sport as nat, 2));
    assert(part.subrange(10, 12) =~= le_bytes(key.dport as nat, 2));
    assert(part.subrange(12, 13) =~= le_bytes(key.proto as nat, 1));
    lemma_field(bytes, at, 0, 4, part, key.src as nat);
    lemma_field(bytes, at, 4, 4, part, key.dst as nat);
    lemma_field(bytes, at, 8, 2, part, key.sport as nat);
    lemma_field(bytes, at, 10, 2, part, key.dport as nat);
    lemma_field(bytes, at, 12, 1, part, key.proto as nat);
}

proof fn lemma_value(bytes: Seq<u8>, at: int, value: FlowValue)
    requires
        0 <= at <= at + value_bytes(value).len() <= bytes.len(),
        bytes.subrange(at, at + value_bytes(value).len()) == value_bytes(value),
    ensures
        value_bytes(value).len() == 24,
        field(bytes, at, 4) == value.listener_id,
        field(bytes, at + 4, 4) == value.target_id,
        field(bytes, at + 8, 4) == value.vip,
        field(bytes, at + 12, 4) == value.target,
        field(bytes, at + 16, 2) == value.vip_port,
        field(bytes, at + 18, 2) == value.target_port,
        field(bytes, at + 20, 4) == value.timeout_secs,
{
    let part = value_bytes(value);
    lemma_pow256();
    lemma_le_bytes_len(value.listener_id as nat, 4);
    lemma_le_bytes_len(value.target_id as nat, 4);
    lemma_le_bytes_len(value.vip as nat, 4);
    lemma_le_bytes_len(value.target as nat, 4);
    lemma_le_bytes_len(value.vip_port as nat, 2);
    lemma_le_bytes_len(value.target_port as nat, 2);
    lemma_le_bytes_len(value.timeout_secs as nat, 4);
    assert(part.subrange(0, 4) =~= le_bytes(value.listener_id as nat, 4));
    assert(part.subrange(4, 8) =~= le_bytes(value.target_id as nat, 4));
    assert(part.subrange(8, 12) =~= le_bytes(value.vip as nat, 4));
    assert(part.subrange(12, 16) =~= le_bytes(value.target as nat, 4));
    assert(part.subrange(16, 18) =~= le_bytes(value.vip_port as nat, 2));
    assert(part.subrange(18, 20) =~= le_bytes(value.target_port as nat, 2));
    assert(part.subrange(20, 24) =~= le_bytes(value.timeout_secs as nat, 4));
    lemma_field(bytes, at, 0, 4, part, value.listener_id as nat);
    lemma_field(bytes, at, 4, 4, part, value.target_id as nat);
    lemma_field(bytes, at, 8, 4, part, value.vip as nat);
    lemma_field(bytes, at, 12, 4, part, value.target as nat);
    lemma_field(bytes, at, 16, 2, part, value.vip_port as nat);
    lemma_field(bytes, at, 18, 2, part, value.target_port as nat);
    lemma_field(bytes, at, 20, 4, part, value.timeout_secs as nat);
}

proof fn lemma_entry_len(entry: SnapshotEntry)
    ensures
        key_bytes(entry.key).len() == 13,
        value_bytes(entry.value).len() == 24,
        entry_bytes(entry).len() == ENTRY_LEN,
{
    lemma_le_bytes_len(entry.key.src as nat, 4);
    lemma_le_bytes_len(entry.key.dst as nat, 4);
    lemma_le_bytes_len(entry.key.sport as nat, 2);
    lemma_le_bytes_len(entry.key.dport as nat, 2);
    lemma_le_bytes_len(entry.key.proto as nat, 1);
    lemma_le_bytes_len(entry.value.listener_id as nat, 4);
    lemma_le_bytes_len(entry.value.target_id as nat, 4);
    lemma_le_bytes_len(entry.value.vip as nat, 4);
    lemma_le_bytes_len(entry.value.target as nat, 4);
    lemma_le_bytes_len(entry.value.vip_port as nat, 2);
    lemma_le_bytes_len(entry.value.target_port as nat, 2);
    lemma_le_bytes_len(entry.value.timeout_secs as nat, 4);
    lemma_le_bytes_len(entry.last_seen_age_ns as nat, 8);
}

proof fn lemma_entry(bytes: Seq<u8>, at: int, entry: SnapshotEntry)
    requires
        0 <= at <= at + ENTRY_LEN <= bytes.len(),
        bytes.subrange(at, at + ENTRY_LEN) == entry_bytes(entry),
    ensures
        entry_at(bytes, at) == unstamped_entry(entry),
{
    let part = entry_bytes(entry);
    lemma_entry_len(entry);
    lemma_pow256();
    lemma_le_bytes_len(entry.last_seen_age_ns as nat, 8);
    assert(bytes.subrange(at, at + 13) =~= part.subrange(0, 13));
    assert(part.subrange(0, 13) =~= key_bytes(entry.key));
    lemma_key(bytes, at, entry.key);
    assert(bytes.subrange(at + 13, at + 37) =~= part.subrange(13, 37));
    assert(part.subrange(13, 37) =~= value_bytes(entry.value));
    lemma_value(bytes, at + 13, entry.value);
    assert(part.subrange(37, 45) =~= le_bytes(entry.last_seen_age_ns as nat, 8));
    lemma_field(bytes, at, 37, 8, part, entry.last_seen_age_ns as nat);
}

proof fn lemma_entries(entries: Seq<SnapshotEntry>, i: int)
    requires
        0 <= i <= entries.len(),
    ensures
        entries_bytes(entries).len() == ENTRY_LEN * entries.len(),
        i < entries.len() ==> entries_bytes(entries).subrange(
            ENTRY_LEN * i,
            ENTRY_LEN * i + ENTRY_LEN,
        ) == entry_bytes(entries[i]),
    decreases entries.len(),
{
    if entries.len() > 0 {
        let front = entries.drop_last();
        let whole = entries_bytes(entries);
        lemma_entry_len(entries.last());
        if i < front.len() {
            lemma_entries(front, i);
            assert(whole.subrange(ENTRY_LEN * i, ENTRY_LEN * i + ENTRY_LEN) =~= entries_bytes(
                front,
            ).subrange(ENTRY_LEN * i, ENTRY_LEN * i + ENTRY_LEN));
        } else {
            lemma_entries(front, front.len() as int);
            if i == front.len() {
                assert(whole.subrange(ENTRY_LEN * i, ENTRY_LEN * i + ENTRY_LEN) =~= entry_bytes(
                    entries.last(),
                ));
            }
        }
    }
}

proof fn lemma_head(snapshot: SnapshotView)
    requires
        snapshot.config_digest.len() == 32,
        encode_utf8(snapshot.node_name).len() <= u16::MAX,
        snapshot.entries.len() <= u32::MAX,
    ensures
        ({
            let head = head_bytes(snapshot);
            let node = encode_utf8(snapshot.node_name);
            &&& head.len() == 62 + node.len()
            &&& head.take(8) == magic()
            &&& field(head, 8, 4) == FORMAT_VERSION
            &&& field(head, 12, 4) == FLOW_MAP_ABI_VERSION
            &&& field(head, 16, 8) == snapshot.saved_at_unix_ns
            &&& field(head, 24, 2) == node.len()
            &&& head.subrange(26, 26 + node.len() as int) == node
            &&& head.subrange(26 + node.len() as int, 58 + node.len() as int) == snapshot.config_digest
            &&& field(head, 58 + node.len() as int, 4) == snapshot.entries.len()
        }),
{
    let head = head_bytes(snapshot);
    let node = encode_utf8(snapshot.node_name);
    let n = node.len() as int;
    lemma_pow256();
    law_le_round_trip(FORMAT_VERSION as nat, 4);
    law_le_round_trip(FLOW_MAP_ABI_VERSION as nat, 4);
    law_le_round_trip(snapshot.saved_at_unix_ns as nat, 8);
    law_le_round_trip(node.len(), 2);
    law_le_round_trip(snapshot.entries.len(), 4);
    assert(head.take(8) =~= magic());
    assert(head.subrange(8, 12) =~= le_bytes(FORMAT_VERSION as nat, 4));
    assert(head.subrange(12, 16) =~= le_bytes(FLOW_MAP_ABI_VERSION as nat, 4));
    assert(head.subrange(16, 24) =~= le_bytes(snapshot.saved_at_unix_ns as nat, 8));
    assert(head.subrange(24, 26) =~= le_bytes(node.len(), 2));
    assert(head.subrange(26, 26 + n) =~= node);
    assert(head.subrange(26 + n, 58 + n) =~= snapshot.config_digest);
    assert(head.subrange(58 + n, 62 + n) =~= le_bytes(snapshot.entries.len(), 4));
}

proof fn lemma_front(head: Seq<u8>, tail: Seq<u8>, at: int, len: int)
    requires
        0 <= at,
        0 <= len,
        at + len <= head.len(),
    ensures
        (head + tail).subrange(at, at + len) == head.subrange(at, at + len),
        field(head + tail, at, len) == field(head, at, len),
{
    assert((head + tail).subrange(at, at + len) =~= head.subrange(at, at + len));
}

proof fn lemma_parsed_payload(snapshot: SnapshotView)
    requires
        snapshot.config_digest.len() == 32,
        encode_utf8(snapshot.node_name).len() <= u16::MAX,
        snapshot.entries.len() <= u32::MAX,
    ensures
        parsed(payload(snapshot)) == Ok::<SnapshotView, SnapshotError>(unstamped(snapshot)),
        payload(snapshot).len() >= 62,
{
    let head = head_bytes(snapshot);
    let tail = entries_bytes(snapshot.entries);
    let node = encode_utf8(snapshot.node_name);
    let n = node.len() as int;
    let whole = payload(snapshot);
    lemma_head(snapshot);
    lemma_entries(snapshot.entries, 0);
    lemma_front(head, tail, 8, 4);
    lemma_front(head, tail, 12, 4);
    lemma_front(head, tail, 16, 8);
    lemma_front(head, tail, 24, 2);
    lemma_front(head, tail, 26, n);
    lemma_front(head, tail, 26 + n, 32);
    lemma_front(head, tail, 58 + n, 4);
    assert(whole.take(8) =~= head.take(8));
    vstd::utf8::encode_utf8_valid_utf8(snapshot.node_name);
    vstd::utf8::encode_utf8_decode_utf8(snapshot.node_name);
    let read = entries_at(whole, 62 + n, snapshot.entries.len());
    let wanted = unstamped(snapshot).entries;
    assert forall|i: int| 0 <= i < snapshot.entries.len() implies read[i] == wanted[i] by {
        lemma_entries(snapshot.entries, i);
        let at = ENTRY_LEN * i;
        assert(at + ENTRY_LEN <= tail.len());
        assert(whole.subrange(62 + n + at, 62 + n + at + ENTRY_LEN) =~= tail.subrange(
            at,
            at + ENTRY_LEN,
        ));
        lemma_entry(whole, 62 + n + at, snapshot.entries[i]);
    }
    assert(read =~= wanted);
}

// ---------------------------------------------------------------------------
// Laws
// ---------------------------------------------------------------------------

/// Reading a file gives back every field of what was written. Only when each flow was last
/// seen is left out: its age says so.
pub proof fn law_file_reads_back(snapshot: SnapshotView, bytes: Seq<u8>, i: int)
    requires
        snapshot.config_digest.len() == 32,
    ensures
        encoded(snapshot) == Ok::<Seq<u8>, SnapshotError>(bytes) && sha256(payload(snapshot)).len()
            == 32 ==> match decoded(bytes) {
            Err(_) => false,
            Ok(read) => {
                &&& read.saved_at_unix_ns == snapshot.saved_at_unix_ns
                &&& read.node_name == snapshot.node_name
                &&& read.config_digest == snapshot.config_digest
                &&& read.entries.len() == snapshot.entries.len()
                &&& 0 <= i < snapshot.entries.len() ==> {
                    let was = snapshot.entries[i];
                    let is = read.entries[i];
                    &&& is.key.src == was.key.src
                    &&& is.key.dst == was.key.dst
                    &&& is.key.sport == was.key.sport
                    &&& is.key.dport == was.key.dport
                    &&& is.key.proto == was.key.proto
                    &&& is.value.listener_id == was.value.listener_id
                    &&& is.value.target_id == was.value.target_id
                    &&& is.value.vip == was.value.vip
                    &&& is.value.target == was.value.target
                    &&& is.value.vip_port == was.value.vip_port
                    &&& is.value.target_port == was.value.target_port
                    &&& is.value.timeout_secs == was.value.timeout_secs
                    &&& is.value.last_seen_ns == 0
                    &&& is.last_seen_age_ns == was.last_seen_age_ns
                }
            },
        },
{
    let body = payload(snapshot);
    if encoded(snapshot) == Ok::<Seq<u8>, SnapshotError>(bytes) && sha256(body).len() == 32 {
        lemma_parsed_payload(snapshot);
        assert(bytes.take(bytes.len() - 32) =~= body);
        assert(bytes.skip(bytes.len() - 32) =~= sha256(body));
    }
}

/// A file is written for every node name of up to 65535 bytes and every number of flows of
/// up to 4294967295. It begins with `ELBFLOW1` and the two versions, and takes 45 bytes for
/// each flow.
pub proof fn law_file_has_its_form(snapshot: SnapshotView, i: int)
    requires
        snapshot.config_digest.len() == 32,
    ensures
        encoded(snapshot) is Ok <==> encode_utf8(snapshot.node_name).len() <= 65535
            && snapshot.entries.len() <= 4294967295,
        encoded(snapshot) matches Ok(bytes) ==> {
            &&& bytes.len() == 62 + encode_utf8(snapshot.node_name).len() + 45
                * snapshot.entries.len() + sha256(payload(snapshot)).len()
            &&& 0 <= i < 8 ==> bytes[i] == "ELBFLOW1"@[i] as u8
            &&& bytes.subrange(8, 12) == seq![1u8, 0u8, 0u8, 0u8]
            &&& bytes.subrange(12, 16) == seq![1u8, 0u8, 0u8, 0u8]
        },
{
    reveal_strlit("ELBFLOW1");
    if let Ok(bytes) = encoded(snapshot) {
        let head = head_bytes(snapshot);
        lemma_head(snapshot);
        lemma_entries(snapshot.entries, 0);
        reveal_with_fuel(le_bytes, 5);
        lemma_le_bytes_len(1, 4);
        assert(bytes.subrange(8, 12) =~= le_bytes(FORMAT_VERSION as nat, 4));
        assert(bytes.subrange(12, 16) =~= le_bytes(FLOW_MAP_ABI_VERSION as nat, 4));
        assert(le_bytes(1, 4) =~= seq![1u8, 0u8, 0u8, 0u8]);
        if 0 <= i < 8 {
            assert(bytes[i] == head.take(8)[i]);
        }
    }
}

/// A file whose checksum is not that of its bytes is refused, and so is one that begins
/// otherwise or that has another version.
pub proof fn law_damaged_file_is_refused(bytes: Seq<u8>)
    ensures
        bytes.len() >= 40 && bytes.skip(bytes.len() - 32) != sha256(bytes.take(bytes.len() - 32))
            ==> decoded(bytes) is Err,
        bytes.len() < 40 ==> decoded(bytes) is Err,
        decoded(bytes) is Ok ==> bytes.take(bytes.len() - 32).take(8) == seq![
            0x45u8,
            0x4cu8,
            0x42u8,
            0x46u8,
            0x4cu8,
            0x4fu8,
            0x57u8,
            0x31u8,
        ] && le_value(bytes.take(bytes.len() - 32).subrange(8, 12)) == 1 && le_value(
            bytes.take(bytes.len() - 32).subrange(12, 16),
        ) == 1,
{
}

/// A flow stands in a file with the addresses, ports and protocol of its key first, then the
/// listener, the target, the addresses and ports of both, the timeout, and its age.
pub proof fn law_flow_has_its_places(entry: SnapshotEntry)
    ensures
        ({
            let s = entry_bytes(entry);
            &&& s.len() == 45
            &&& le_value(s.subrange(0, 4)) == entry.key.src
            &&& le_value(s.subrange(4, 8)) == entry.key.dst
            &&& le_value(s.subrange(8, 10)) == entry.key.sport
            &&& le_value(s.subrange(10, 12)) == entry.key.dport
            &&& le_value(s.subrange(12, 13)) == entry.key.proto
            &&& le_value(s.subrange(13, 17)) == entry.value.listener_id
            &&& le_value(s.subrange(17, 21)) == entry.value.target_id
            &&& le_value(s.subrange(21, 25)) == entry.value.vip
            &&& le_value(s.subrange(25, 29)) == entry.value.target
            &&& le_value(s.subrange(29, 31)) == entry.value.vip_port
            &&& le_value(s.subrange(31, 33)) == entry.value.target_port
            &&& le_value(s.subrange(33, 37)) == entry.value.timeout_secs
            &&& le_value(s.subrange(37, 45)) == entry.last_seen_age_ns
        }),
{
    lemma_pow256();
    let s = entry_bytes(entry);
    law_le_round_trip(entry.key.src as nat, 4);
    law_le_round_trip(entry.key.dst as nat, 4);
    law_le_round_trip(entry.key.sport as nat, 2);
    law_le_round_trip(entry.key.dport as nat, 2);
    law_le_round_trip(entry.key.proto as nat, 1);
    law_le_round_trip(entry.value.listener_id as nat, 4);
    law_le_round_trip(entry.value.target_id as nat, 4);
    law_le_round_trip(entry.value.vip as nat, 4);
    law_le_round_trip(entry.value.target as nat, 4);
    law_le_round_trip(entry.value.vip_port as nat, 2);
    law_le_round_trip(entry.value.target_port as nat, 2);
    law_le_round_trip(entry.value.timeout_secs as nat, 4);
    law_le_round_trip(entry.last_seen_age_ns as nat, 8);
    assert(s.subrange(0, 4) =~= le_bytes(entry.key.src as nat, 4));
    assert(s.subrange(4, 8) =~= le_bytes(entry.key.dst as nat, 4));
    assert(s.subrange(8, 10) =~= le_bytes(entry.key.sport as nat, 2));
    assert(s.subrange(10, 12) =~= le_bytes(entry.key.dport as nat, 2));
    assert(s.subrange(12, 13) =~= le_bytes(entry.key.proto as nat, 1));
    assert(s.subrange(13, 17) =~= le_bytes(entry.value.listener_id as nat, 4));
    assert(s.subrange(17, 21) =~= le_bytes(entry.value.target_id as nat, 4));
    assert(s.subrange(21, 25) =~= le_bytes(entry.value.vip as nat, 4));
    assert(s.subrange(25, 29) =~= le_bytes(entry.value.target as nat, 4));
    assert(s.subrange(29, 31) =~= le_bytes(entry.value.vip_port as nat, 2));
    assert(s.subrange(31, 33) =~= le_bytes(entry.value.target_port as nat, 2));
    assert(s.subrange(33, 37) =~= le_bytes(entry.value.timeout_secs as nat, 4));
    assert(s.subrange(37, 45) =~= le_bytes(entry.last_seen_age_ns as nat, 8));
}

} // verus!
