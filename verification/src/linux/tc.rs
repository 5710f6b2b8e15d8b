//! Traffic filters of a device: requests to the kernel and its answers.
use crate::bytes::{
    align, align4, copy_bytes, host_bytes, host_value, law_host_round_trip, lemma_pow256,
    push_bytes, push_host, read_host, read_i32, signed32, ByteOrder,
};
use crate::nla::{
    attr_view, attr_views, attrs, attrs_end, header_at, header_bytes, law_header_round_trip,
    push_header, read_attrs, read_header, AttrEnd, MessageHeader, NLMSG_DONE, NLMSG_ERROR,
    NLM_F_MULTI,
};
use crate::text::{
    cstr_lossy, decimal, join, joined, opt_text, push_decimal, strings, utf8_lossy, without_nuls,
};
use vstd::prelude::*;

verus! {

pub const RTM_NEWQDISC: u16 = 36;

pub const RTM_DELQDISC: u16 = 37;

pub const RTM_NEWTFILTER: u16 = 44;

pub const RTM_DELTFILTER: u16 = 45;

pub const RTM_GETTFILTER: u16 = 46;

pub const TCA_KIND: u16 = 1;

pub const TCA_OPTIONS: u16 = 2;

pub const TCA_BPF_NAME: u16 = 7;

pub const TCA_BPF_ID: u16 = 11;

pub const TC_H_CLSACT: u32 = 0xffff_fff1;

pub const TC_H_INGRESS: u32 = 0xffff_fff1;

pub const TC_H_UNSPEC: u32 = 0;

pub const TC_H_MIN_INGRESS: u32 = 0xfff2;

pub const TC_H_MIN_EGRESS: u32 = 0xfff3;

/// A request that creates, does not replace, and is acknowledged.
pub const CREATE_FLAGS: u16 = 0x605;

/// A request that is acknowledged.
pub const CHANGE_FLAGS: u16 = 5;

/// A request for a list.
pub const DUMP_FLAGS: u16 = 0x301;

/// Why an answer could not be read.
#[derive(Clone, Copy, Debug, PartialEq, Eq, Structural)]
pub enum TcError {
    /// The bytes of an attribute end too soon.
    ShortAttributes,
    /// An attribute has a length that cannot be.
    BadAttribute,
    /// The kernel answered with an error.
    Kernel(i32),
}

/// Where on a device a filter stands.
#[derive(Clone, Copy, Debug, PartialEq, Eq, Structural)]
pub enum Direction {
    Ingress,
    Egress,
}

/// A traffic filter.
#[derive(Clone, Debug)]
pub struct FilterInfo {
    pub pref: u16,
    pub handle: u32,
    pub kind: String,
    pub name: Option<String>,
    pub prog_id: Option<u32>,
}

// ---------------------------------------------------------------------------
// In words
// ---------------------------------------------------------------------------

/// A filter in words.
pub open spec fn filter_words(filter: FilterInfo) -> Seq<char> {
    "filter pref "@ + decimal(filter.pref as nat) + " handle "@ + decimal(filter.handle as nat)
        + " "@ + filter.kind@ + " name "@ + (match filter.name {
        Some(name) => name@,
        None => Seq::empty(),
    }) + " id "@ + (match filter.prog_id {
        Some(id) => decimal(id as nat),
        None => "-"@,
    })
}

/// Filters in words, one line each.
pub open spec fn filters_words(filters: Seq<FilterInfo>) -> Seq<char> {
    joined(filters.map_values(|filter: FilterInfo| filter_words(filter)), "\n"@)
}

fn describe(filter: &FilterInfo) -> (text: String)
    ensures
        text@ == filter_words(*filter),
{
    let mut text = "filter pref ".to_owned();
    push_decimal(&mut text, filter.pref as u64);
    text.append(" handle ");
    push_decimal(&mut text, filter.handle as u64);
    text.append(" ");
    text.append(filter.kind.as_str());
    text.append(" name ");
    let ghost before = text@;
    if let Some(name) = &filter.name {
        text.append(name.as_str());
    }
    assert(filter.name is None ==> before + Seq::<char>::empty() =~= before);
    text.append(" id ");
    match filter.prog_id {
        Some(id) => push_decimal(&mut text, id as u64),
        None => text.append("-"),
    }
    text
}

/// The filters on ingress in words.
pub fn show_ingress(filters: &[FilterInfo]) -> (text: String)
    ensures
        text@ == filters_words(filters@),
{
    let mut lines: Vec<String> = Vec::new();
    let ghost words = filters@.map_values(|filter: FilterInfo| filter_words(filter));
    let mut i: usize = 0;
    while i < filters.len()
        invariant
            i <= filters.len(),
            words == filters@.map_values(|filter: FilterInfo| filter_words(filter)),
            strings(lines@) == words.take(i as int),
        decreases filters.len() - i,
    {
        let ghost before = lines@;
        lines.push(describe(&filters[i]));
        assert(strings(lines@) =~= strings(before).push(words[i as int]));
        assert(words.take(i + 1) =~= words.take(i as int).push(words[i as int]));
        i += 1;
    }
    assert(words.take(words.len() as int) =~= words);
    join(lines.as_slice(), "\n")
}

// ---------------------------------------------------------------------------
// Requests
// ---------------------------------------------------------------------------

/// A handle made of the upper half of one number and the lower half of another.
pub open spec fn handle_of(major: u32, minor: u32) -> u32 {
    (major / 0x1_0000 * 0x1_0000 + minor % 0x1_0000) as u32
}

/// Makes a handle of the upper half of one number and the lower half of another.
pub fn tc_handler_make(major: u32, minor: u32) -> (handle: u32)
    ensures
        handle == handle_of(major, minor),
{
    major / 0x1_0000 * 0x1_0000 + minor % 0x1_0000
}

/// The parent of the filters of a direction.
pub open spec fn parent_of(direction: Direction) -> u32 {
    match direction {
        Direction::Ingress => handle_of(TC_H_CLSACT, TC_H_MIN_INGRESS),
        Direction::Egress => handle_of(TC_H_CLSACT, TC_H_MIN_EGRESS),
    }
}

/// The parent of the filters of a direction.
pub fn tc_parent(direction: Direction) -> (parent: u32)
    ensures
        parent == parent_of(direction),
{
    match direction {
        Direction::Ingress => tc_handler_make(TC_H_CLSACT, TC_H_MIN_INGRESS),
        Direction::Egress => tc_handler_make(TC_H_CLSACT, TC_H_MIN_EGRESS),
    }
}

/// What a request asks for.
#[derive(Clone, Copy, Debug, PartialEq, Eq, Structural)]
pub struct TcRequest {
    pub kind: u16,
    pub flags: u16,
    pub ifindex: u32,
    pub handle: u32,
    pub parent: u32,
    pub info: u32,
}

/// The fixed part of a request, for a message of `len` bytes.
pub open spec fn request_head(order: ByteOrder, request: TcRequest, len: nat) -> Seq<u8> {
    header_bytes(
        order,
        MessageHeader {
            len: len as u32,
            kind: request.kind,
            flags: request.flags,
            seq: 0,
            pid: 0,
        },
    ) + host_bytes(order, 0, 4) + host_bytes(order, request.ifindex as nat, 4) + host_bytes(
        order,
        request.handle as nat,
        4,
    ) + host_bytes(order, request.parent as nat, 4) + host_bytes(order, request.info as nat, 4)
}

/// A request without attributes.
pub open spec fn bare_request(order: ByteOrder, request: TcRequest) -> Seq<u8> {
    request_head(order, request, 36)
}

/// A request that names a kind in a padded attribute.
pub open spec fn kind_request(order: ByteOrder, request: TcRequest, kind: Seq<u8>) -> Seq<u8> {
    let attr_len = 4 + kind.len();
    let padded = align4(attr_len as int);
    request_head(order, request, (36 + padded) as nat) + host_bytes(order, attr_len, 2)
        + host_bytes(order, TCA_KIND as nat, 2) + kind + Seq::new(
        (padded - attr_len) as nat,
        |i: int| 0u8,
    )
}

fn push_head(order: ByteOrder, out: &mut Vec<u8>, request: &TcRequest, len: u32)
    ensures
        final(out)@ == old(out)@ + request_head(order, *request, len as nat),
{
    let header = MessageHeader {
        len,
        kind: request.kind,
        flags: request.flags,
        seq: 0,
        pid: 0,
    };
    push_header(order, out, &header);
    push_host(order, out, 0, 4);
    push_host(order, out, request.ifindex as u64, 4);
    push_host(order, out, request.handle as u64, 4);
    push_host(order, out, request.parent as u64, 4);
    push_host(order, out, request.info as u64, 4);
    assert(out@ =~= old(out)@ + request_head(order, *request, len as nat));
}

fn encode_bare(order: ByteOrder, request: &TcRequest) -> (out: Vec<u8>)
    ensures
        out@ == bare_request(order, *request),
{
    let mut out: Vec<u8> = Vec::new();
    push_head(order, &mut out, request, 36);
    assert(out@ =~= bare_request(order, *request));
    out
}

fn encode_kind(order: ByteOrder, request: &TcRequest, kind: &[u8]) -> (out: Vec<u8>)
    requires
        kind.len() <= 100,
    ensures
        out@ == kind_request(order, *request, kind@),
{
    let attr_len: usize = 4 + kind.len();
    let padded: usize = align(attr_len);
    let mut out: Vec<u8> = Vec::new();
    push_head(order, &mut out, request, (36 + padded) as u32);
    push_host(order, &mut out, attr_len as u64, 2);
    push_host(order, &mut out, TCA_KIND as u64, 2);
    push_bytes(&mut out, kind);
    let ghost body = out@;
    let mut i: usize = attr_len;
    while i < padded
        invariant
            attr_len <= i <= padded,
            out@ == body + Seq::new((i - attr_len) as nat, |i: int| 0u8),
        decreases padded - i,
    {
        out.push(0);
        i += 1;
        assert(out@ =~= body + Seq::new((i - attr_len) as nat, |i: int| 0u8));
    }
    assert(out@ =~= kind_request(order, *request, kind@));
    out
}

/// The name of the qdisc that carries classifiers in both directions.
pub open spec fn clsact_name() -> Seq<u8> {
    seq![99u8, 108, 115, 97, 99, 116, 0]
}

/// The name of the BPF classifier.
pub open spec fn bpf_name() -> Seq<u8> {
    seq![98u8, 112, 102, 0]
}

/// Asks to add the qdisc that carries classifiers.
pub open spec fn add_clsact_request(ifindex: u32) -> TcRequest {
    TcRequest {
        kind: RTM_NEWQDISC,
        flags: CREATE_FLAGS,
        ifindex,
        handle: handle_of(TC_H_CLSACT, TC_H_UNSPEC),
        parent: handle_of(TC_H_CLSACT, TC_H_INGRESS),
        info: 0,
    }
}

/// Asks to delete the qdisc that carries classifiers.
pub open spec fn delete_clsact_request(ifindex: u32) -> TcRequest {
    TcRequest {
        kind: RTM_DELQDISC,
        flags: CHANGE_FLAGS,
        ifindex,
        handle: handle_of(TC_H_CLSACT, TC_H_UNSPEC),
        parent: handle_of(TC_H_CLSACT, TC_H_INGRESS),
        info: 0,
    }
}

/// Asks to delete one filter.
pub open spec fn delete_filter_request(
    ifindex: u32,
    direction: Direction,
    pref: u16,
    handle: u32,
) -> TcRequest {
    TcRequest {
        kind: RTM_DELTFILTER,
        flags: CHANGE_FLAGS,
        ifindex,
        handle,
        parent: parent_of(direction),
        info: (pref * 0x1_0000) as u32,
    }
}

/// Asks for the filters of a direction.
pub open spec fn dump_request(ifindex: u32, direction: Direction) -> TcRequest {
    TcRequest {
        kind: RTM_GETTFILTER,
        flags: DUMP_FLAGS,
        ifindex,
        handle: 0,
        parent: parent_of(direction),
        info: 0,
    }
}

/// The request that adds the qdisc; it fails where the qdisc stands already.
pub fn add_clsact(order: ByteOrder, ifindex: u32) -> (request: Vec<u8>)
    ensures
        request@ == kind_request(order, add_clsact_request(ifindex), clsact_name()),
{
    let request = TcRequest {
        kind: RTM_NEWQDISC,
        flags: CREATE_FLAGS,
        ifindex,
        handle: tc_handler_make(TC_H_CLSACT, TC_H_UNSPEC),
        parent: tc_handler_make(TC_H_CLSACT, TC_H_INGRESS),
        info: 0,
    };
    let mut name: Vec<u8> = Vec::new();
    name.push(99);
    name.push(108);
    name.push(115);
    name.push(97);
    name.push(99);
    name.push(116);
    name.push(0);
    assert(name@ =~= clsact_name());
    encode_kind(order, &request, name.as_slice())
}

/// The request that deletes the qdisc.
pub fn delete_clsact(order: ByteOrder, ifindex: u32) -> (request: Vec<u8>)
    ensures
        request@ == bare_request(order, delete_clsact_request(ifindex)),
{
    let request = TcRequest {
        kind: RTM_DELQDISC,
        flags: CHANGE_FLAGS,
        ifindex,
        handle: tc_handler_make(TC_H_CLSACT, TC_H_UNSPEC),
        parent: tc_handler_make(TC_H_CLSACT, TC_H_INGRESS),
        info: 0,
    };
    encode_bare(order, &request)
}

/// The requests that see to it that the qdisc is there. Whether the kernel
/// accepts them does not matter.
pub fn add_clsact_best_effort(order: ByteOrder, ifindex: u32) -> (requests: Vec<Vec<u8>>)
    ensures
        requests.len() == 1,
        requests@[0]@ == kind_request(order, add_clsact_request(ifindex), clsact_name()),
{
    let mut requests: Vec<Vec<u8>> = Vec::new();
    requests.push(add_clsact(order, ifindex));
    requests
}

/// The requests that put a fresh qdisc in place of one that may be there.
pub fn replace_clsact_best_effort(order: ByteOrder, ifindex: u32) -> (requests: Vec<Vec<u8>>)
    ensures
        requests.len() == 2,
        requests@[0]@ == bare_request(order, delete_clsact_request(ifindex)),
        requests@[1]@ == kind_request(order, add_clsact_request(ifindex), clsact_name()),
{
    let mut requests: Vec<Vec<u8>> = Vec::new();
    requests.push(delete_clsact(order, ifindex));
    requests.push(add_clsact(order, ifindex));
    requests
}

/// The requests that remove the qdisc if it is there.
pub fn delete_clsact_best_effort(order: ByteOrder, ifindex: u32) -> (requests: Vec<Vec<u8>>)
    ensures
        requests.len() == 1,
        requests@[0]@ == bare_request(order, delete_clsact_request(ifindex)),
{
    let mut requests: Vec<Vec<u8>> = Vec::new();
    requests.push(delete_clsact(order, ifindex));
    requests
}

fn delete_filter(order: ByteOrder, ifindex: u32, direction: Direction, pref: u16, handle: u32) -> (
    request: Vec<u8>)
    ensures
        request@ == kind_request(
            order,
            delete_filter_request(ifindex, direction, pref, handle),
            bpf_name(),
        ),
{
    let request = TcRequest {
        kind: RTM_DELTFILTER,
        flags: CHANGE_FLAGS,
        ifindex,
        handle,
        parent: tc_parent(direction),
        info: pref as u32 * 0x1_0000,
    };
    let mut name: Vec<u8> = Vec::new();
    name.push(98);
    name.push(112);
    name.push(102);
    name.push(0);
    assert(name@ =~= bpf_name());
    encode_kind(order, &request, name.as_slice())
}

/// The handles of the filters at a priority, in order.
pub open spec fn handles_at(filters: Seq<FilterInfo>, pref: u16) -> Seq<u32>
    decreases filters.len(),
{
    if filters.len() == 0 {
        Seq::empty()
    } else {
        let before = handles_at(filters.drop_last(), pref);
        if filters.last().pref == pref {
            before.push(filters.last().handle)
        } else {
            before
        }
    }
}

/// Requests that delete filters by their handles.
pub open spec fn delete_requests(
    order: ByteOrder,
    ifindex: u32,
    direction: Direction,
    pref: u16,
    handles: Seq<u32>,
) -> Seq<Seq<u8>> {
    handles.map_values(
        |handle: u32|
            kind_request(
                order,
                delete_filter_request(ifindex, direction, pref, handle),
                bpf_name(),
            ),
    )
}

/// The contents of a list of requests.
pub open spec fn request_views(requests: Seq<Vec<u8>>) -> Seq<Seq<u8>> {
    requests.map_values(|request: Vec<u8>| request@)
}

/// The requests that delete every filter at a priority, and no other.
pub fn delete_pref(
    order: ByteOrder,
    ifindex: u32,
    direction: Direction,
    pref: u16,
    filters: &[FilterInfo],
) -> (requests: Vec<Vec<u8>>)
    ensures
        request_views(requests@) == delete_requests(
            order,
            ifindex,
            direction,
            pref,
            handles_at(filters@, pref),
        ),
{
    let mut requests: Vec<Vec<u8>> = Vec::new();
    let mut i: usize = 0;
    assert(request_views(requests@) =~= delete_requests(
        order,
        ifindex,
        direction,
        pref,
        handles_at(filters@.take(0), pref),
    ));
    while i < filters.len()
        invariant
            i <= filters.len(),
            request_views(requests@) == delete_requests(
                order,
                ifindex,
                direction,
                pref,
                handles_at(filters@.take(i as int), pref),
            ),
        decreases filters.len() - i,
    {
        assert(filters@.take(i + 1).drop_last() =~= filters@.take(i as int));
        if filters[i].pref == pref {
            let ghost before = requests@;
            let ghost handles = handles_at(filters@.take(i as int), pref);
            let handle: u32 = filters[i].handle;
            let request = delete_filter(order, ifindex, direction, pref, handle);
            let ghost view = request@;
            requests.push(request);
            assert(request_views(requests@) =~= request_views(before).push(view));
            assert(delete_requests(order, ifindex, direction, pref, handles.push(handle))
                =~= delete_requests(order, ifindex, direction, pref, handles).push(view));
        }
        i += 1;
    }
    assert(filters@.take(filters@.len() as int) =~= filters@);
    requests
}

/// The requests that delete the ingress filters at a priority, as far as the
/// filters could be listed.
pub fn delete_ingress_pref_best_effort(
    order: ByteOrder,
    ifindex: u32,
    pref: u16,
    filters: &Option<Vec<FilterInfo>>,
) -> (requests: Vec<Vec<u8>>)
    ensures
        request_views(requests@) == match filters {
            Some(filters) => delete_requests(
                order,
                ifindex,
                Direction::Ingress,
                pref,
                handles_at(filters@, pref),
            ),
            None => Seq::empty(),
        },
{
    match filters {
        Some(filters) => delete_pref(order, ifindex, Direction::Ingress, pref, filters.as_slice()),
        None => {
            let requests: Vec<Vec<u8>> = Vec::new();
            assert(request_views(requests@) =~= Seq::<Seq<u8>>::empty());
            requests
        },
    }
}

/// The requests that delete the egress filters at a priority, as far as the
/// filters could be listed.
pub fn delete_egress_pref_best_effort(
    order: ByteOrder,
    ifindex: u32,
    pref: u16,
    filters: &Option<Vec<FilterInfo>>,
) -> (requests: Vec<Vec<u8>>)
    ensures
        request_views(requests@) == match filters {
            Some(filters) => delete_requests(
                order,
                ifindex,
                Direction::Egress,
                pref,
                handles_at(filters@, pref),
            ),
            None => Seq::empty(),
        },
{
    match filters {
        Some(filters) => delete_pref(order, ifindex, Direction::Egress, pref, filters.as_slice()),
        None => {
            let requests: Vec<Vec<u8>> = Vec::new();
            assert(request_views(requests@) =~= Seq::<Seq<u8>>::empty());
            requests
        },
    }
}

/// The request for the filters of a direction.
pub fn dump_filters_request(order: ByteOrder, ifindex: u32, direction: Direction) -> (request: Vec<
    u8,
>)
    ensures
        request@ == bare_request(order, dump_request(ifindex, direction)),
{
    let request = TcRequest {
        kind: RTM_GETTFILTER,
        flags: DUMP_FLAGS,
        ifindex,
        handle: 0,
        parent: tc_parent(direction),
        info: 0,
    };
    encode_bare(order, &request)
}

// ---------------------------------------------------------------------------
// Filters in an answer
// ---------------------------------------------------------------------------

/// A filter as plain values.
pub struct FilterView {
    pub pref: u16,
    pub handle: u32,
    pub kind: Seq<char>,
    pub name: Option<Seq<char>>,
    pub prog_id: Option<u32>,
}

/// A filter as plain values.
pub open spec fn filter_view(filter: FilterInfo) -> FilterView {
    FilterView {
        pref: filter.pref,
        handle: filter.handle,
        kind: filter.kind@,
        name: opt_text(filter.name),
        prog_id: filter.prog_id,
    }
}

/// The fault of a run of attributes.
pub open spec fn attrs_fault(end: AttrEnd) -> Option<TcError> {
    match end {
        AttrEnd::Whole => None,
        AttrEnd::Leftover => Some(TcError::ShortAttributes),
        AttrEnd::BadLength => Some(TcError::BadAttribute),
    }
}

/// What one option of a classifier adds.
pub open spec fn filter_with_option(
    order: ByteOrder,
    filter: FilterView,
    attr: (u16, Seq<u8>),
) -> FilterView {
    let kind = attr.0 % 0x4000;
    if kind == TCA_BPF_NAME {
        FilterView { name: Some(without_nuls(utf8_lossy(attr.1))), ..filter }
    } else if kind == TCA_BPF_ID && attr.1.len() >= 4 {
        FilterView { prog_id: Some(host_value(order, attr.1.subrange(0, 4)) as u32), ..filter }
    } else {
        filter
    }
}

/// What options of a classifier add, in order.
pub open spec fn filter_with_options(
    order: ByteOrder,
    filter: FilterView,
    list: Seq<(u16, Seq<u8>)>,
) -> FilterView
    decreases list.len(),
{
    if list.len() == 0 {
        filter
    } else {
        filter_with_option(order, filter_with_options(order, filter, list.drop_last()), list.last())
    }
}

/// What one attribute of a filter adds.
pub open spec fn filter_with(
    order: ByteOrder,
    filter: FilterView,
    attr: (u16, Seq<u8>),
) -> Result<FilterView, TcError> {
    let kind = attr.0 % 0x4000;
    if kind == TCA_KIND {
        Ok(FilterView { kind: without_nuls(utf8_lossy(attr.1)), ..filter })
    } else if kind == TCA_OPTIONS {
        match attrs_fault(attrs_end(order, attr.1, 0)) {
            Some(error) => Err(error),
            None => Ok(filter_with_options(order, filter, attrs(order, attr.1, 0))),
        }
    } else {
        Ok(filter)
    }
}

/// What attributes of a filter add, in order.
pub open spec fn filter_with_all(
    order: ByteOrder,
    filter: FilterView,
    list: Seq<(u16, Seq<u8>)>,
) -> Result<FilterView, TcError>
    decreases list.len(),
{
    if list.len() == 0 {
        Ok(filter)
    } else {
        match filter_with_all(order, filter, list.drop_last()) {
            Ok(so_far) => filter_with(order, so_far, list.last()),
            Err(error) => Err(error),
        }
    }
}

/// The filter that a message holds; a message without the fixed part holds none.
pub open spec fn filter_of(order: ByteOrder, data: Seq<u8>) -> Result<Option<FilterView>, TcError> {
    if data.len() < 20 {
        Ok(None)
    } else {
        let start = FilterView {
            pref: (host_value(order, data.subrange(16, 20)) as u32 / 0x1_0000) as u16,
            handle: host_value(order, data.subrange(8, 12)) as u32,
            kind: Seq::empty(),
            name: None,
            prog_id: None,
        };
        match filter_with_all(order, start, attrs(order, data, 20)) {
            Err(error) => Err(error),
            Ok(filter) => match attrs_fault(attrs_end(order, data, 20)) {
                Some(error) => Err(error),
                None => Ok(Some(filter)),
            },
        }
    }
}

proof fn lemma_filter_stays_err(
    order: ByteOrder,
    filter: FilterView,
    list: Seq<(u16, Seq<u8>)>,
    n: int,
)
    requires
        0 <= n <= list.len(),
        filter_with_all(order, filter, list.take(n)) is Err,
    ensures
        filter_with_all(order, filter, list) == filter_with_all(order, filter, list.take(n)),
    decreases list.len() - n,
{
    if n < list.len() {
        assert(list.take(n + 1).drop_last() =~= list.take(n));
        lemma_filter_stays_err(order, filter, list, n + 1);
    } else {
        assert(list.take(n) =~= list);
    }
}

fn end_fault(end: AttrEnd) -> (fault: Option<TcError>)
    ensures
        fault == attrs_fault(end),
{
    match end {
        AttrEnd::Whole => None,
        AttrEnd::Leftover => Some(TcError::ShortAttributes),
        AttrEnd::BadLength => Some(TcError::BadAttribute),
    }
}

fn read_options(order: ByteOrder, filter: &mut FilterInfo, data: &[u8]) -> (ok: Result<(), TcError>)
    requires
        data.len() <= usize::MAX - 0x1_0000,
    ensures
        match ok {
            Err(error) => attrs_fault(attrs_end(order, data@, 0)) == Some(error),
            Ok(()) => attrs_fault(attrs_end(order, data@, 0)) is None && filter_view(*final(filter))
                == filter_with_options(order, filter_view(*old(filter)), attrs(order, data@, 0)),
        },
{
    let list = read_attrs(order, data, 0);
    if let Some(error) = end_fault(list.end) {
        return Err(error);
    }
    let ghost start = filter_view(*filter);
    let ghost views = attr_views(list.items@);
    let mut i: usize = 0;
    while i < list.items.len()
        invariant
            i <= list.items.len(),
            views == attr_views(list.items@),
            filter_view(*filter) == filter_with_options(order, start, views.take(i as int)),
        decreases list.items.len() - i,
    {
        assert(views.take(i + 1).drop_last() =~= views.take(i as int));
        assert(views[i as int] == attr_view(list.items@[i as int]));
        let attr = &list.items[i];
        let kind: u16 = attr.kind % 0x4000;
        if kind == TCA_BPF_NAME {
            filter.name = Some(cstr_lossy(attr.value.as_slice()));
        } else if kind == TCA_BPF_ID && attr.value.len() >= 4 {
            proof {
                lemma_pow256();
            }
            filter.prog_id = Some(read_host(order, attr.value.as_slice(), 0, 4) as u32);
        }
        i += 1;
    }
    assert(views.take(views.len() as int) =~= views);
    Ok(())
}

/// Reads a filter.
pub fn parse_filter(order: ByteOrder, data: &[u8]) -> (filter: Result<Option<FilterInfo>, TcError>)
    requires
        data.len() <= usize::MAX - 0x1_0000,
    ensures
        match (filter, filter_of(order, data@)) {
            (Ok(Some(filter)), Ok(Some(view))) => filter_view(filter) == view,
            (Ok(None), Ok(None)) => true,
            (Err(error), Err(fault)) => error == fault,
            _ => false,
        },
{
    if data.len() < 20 {
        return Ok(None);
    }
    proof {
        lemma_pow256();
    }
    let info: u32 = read_host(order, data, 16, 4) as u32;
    let mut filter = FilterInfo {
        pref: (info / 0x1_0000) as u16,
        handle: read_host(order, data, 8, 4) as u32,
        kind: String::new(),
        name: None,
        prog_id: None,
    };
    let ghost start = filter_view(filter);
    assert(start.kind =~= Seq::<char>::empty());
    let list = read_attrs(order, data, 20);
    let ghost views = attr_views(list.items@);
    let mut i: usize = 0;
    while i < list.items.len()
        invariant
            i <= list.items.len(),
            data.len() <= usize::MAX - 0x1_0000,
            data.len() >= 20,
            views == attr_views(list.items@),
            views == attrs(order, data@, 20),
            start == (FilterView {
                pref: (host_value(order, data@.subrange(16, 20)) as u32 / 0x1_0000) as u16,
                handle: host_value(order, data@.subrange(8, 12)) as u32,
                kind: Seq::empty(),
                name: None,
                prog_id: None,
            }),
            filter_with_all(order, start, views.take(i as int)) == Ok::<FilterView, TcError>(
                filter_view(filter),
            ),
        decreases list.items.len() - i,
    {
        assert(views.take(i + 1).drop_last() =~= views.take(i as int));
        assert(views[i as int] == attr_view(list.items@[i as int]));
        let attr = &list.items[i];
        let kind: u16 = attr.kind % 0x4000;
        if kind == TCA_KIND {
            filter.kind = cstr_lossy(attr.value.as_slice());
        } else if kind == TCA_OPTIONS {
            proof {
                lemma_attr_fits(order, data@, 20, i as int);
            }
            if let Err(error) = read_options(order, &mut filter, attr.value.as_slice()) {
                proof {
                    lemma_filter_stays_err(order, start, views, i + 1);
                }
                return Err(error);
            }
        }
        i += 1;
    }
    assert(views.take(views.len() as int) =~= views);
    match end_fault(list.end) {
        Some(error) => Err(error),
        None => Ok(Some(filter)),
    }
}

proof fn lemma_attr_fits(order: ByteOrder, s: Seq<u8>, at: int, i: int)
    requires
        0 <= at,
        0 <= i < attrs(order, s, at).len(),
    ensures
        attrs(order, s, at)[i].1.len() <= s.len(),
    decreases i,
{
    if i > 0 {
        let len = crate::nla::attr_len(order, s, at);
        lemma_attr_fits(order, s, at + align4(len as int), i - 1);
    }
}

// ---------------------------------------------------------------------------
// Messages of an answer
// ---------------------------------------------------------------------------

/// A message of an answer.
#[derive(Clone, Debug)]
pub struct NetlinkMessage {
    pub kind: u16,
    pub data: Vec<u8>,
}

/// What a message in an answer means.
pub enum AnswerStep {
    /// No message can be read here.
    Unreadable,
    Done,
    Fault(TcError),
    /// An acknowledgement or an error without a code.
    Pass,
    Message,
}

/// What the message at `at` means.
pub open spec fn answer_step(order: ByteOrder, s: Seq<u8>, at: int) -> AnswerStep {
    let header = header_at(order, s, at);
    if at + 16 > s.len() || header.len < 16 || at + header.len > s.len() {
        AnswerStep::Unreadable
    } else if header.kind == NLMSG_DONE {
        AnswerStep::Done
    } else if header.kind == NLMSG_ERROR {
        if header.len < 36 {
            AnswerStep::Pass
        } else {
            let code = signed32(host_value(order, s.subrange(at + 16, at + 20)));
            if code == 0 {
                AnswerStep::Pass
            } else {
                AnswerStep::Fault(TcError::Kernel(code as i32))
            }
        }
    } else {
        AnswerStep::Message
    }
}

/// A message as plain values.
pub open spec fn message_view(message: NetlinkMessage) -> (u16, Seq<u8>) {
    (message.kind, message.data@)
}

/// Messages as plain values.
pub open spec fn message_views(messages: Seq<NetlinkMessage>) -> Seq<(u16, Seq<u8>)> {
    messages.map_values(|message: NetlinkMessage| message_view(message))
}

/// What an answer has come to: its messages, and whether more datagrams follow.
pub struct AnswerState {
    pub messages: Seq<(u16, Seq<u8>)>,
    pub more: bool,
}

/// What the messages from `at` on add to an answer.
pub open spec fn answer_from(
    order: ByteOrder,
    s: Seq<u8>,
    at: int,
    so_far: AnswerState,
) -> Result<AnswerState, TcError>
    decreases s.len() + 4 - at,
{
    if at >= s.len() {
        Ok(so_far)
    } else {
        let header = header_at(order, s, at);
        let next = at + align4(header.len as int);
        let more = header.flags & NLM_F_MULTI != 0;
        match answer_step(order, s, at) {
            AnswerStep::Unreadable => Ok(so_far),
            AnswerStep::Done => Ok(AnswerState { more: false, ..so_far }),
            AnswerStep::Fault(error) => Err(error),
            AnswerStep::Pass => answer_from(order, s, next, AnswerState { more, ..so_far }),
            AnswerStep::Message => answer_from(
                order,
                s,
                next,
                AnswerState {
                    more,
                    messages: so_far.messages.push(
                        (header.kind, s.subrange(at + 16, at + header.len)),
                    ),
                },
            ),
        }
    }
}

/// Takes in one datagram of an answer. `true` says that more datagrams follow;
/// an empty datagram ends the answer.
pub fn receive(order: ByteOrder, bytes: &[u8], messages: &mut Vec<NetlinkMessage>) -> (more: Result<
    bool,
    TcError,
>)
    requires
        bytes.len() <= 0x7fff_ffff,
    ensures
        match more {
            Err(error) => bytes.len() > 0 && answer_from(
                order,
                bytes@,
                0,
                (AnswerState { messages: message_views(old(messages)@), more: true }),
            ) == Err::<AnswerState, TcError>(error),
            Ok(more) => if bytes.len() == 0 {
                !more && final(messages)@ == old(messages)@
            } else {
                answer_from(
                    order,
                    bytes@,
                    0,
                    (AnswerState { messages: message_views(old(messages)@), more: true }),
                ) == Ok::<AnswerState, TcError>(
                    (AnswerState { messages: message_views(final(messages)@), more }),
                )
            },
        },
{
    if bytes.len() == 0 {
        return Ok(false);
    }
    let ghost whole = answer_from(
        order,
        bytes@,
        0,
        AnswerState { messages: message_views(messages@), more: true },
    );
    let mut more: bool = true;
    let mut at: usize = 0;
    while at < bytes.len()
        invariant
            0 < bytes.len() <= 0x7fff_ffff,
            at <= bytes.len() + 3,
            whole == answer_from(
                order,
                bytes@,
                0,
                (AnswerState { messages: message_views(old(messages)@), more: true }),
            ),
            whole == answer_from(
                order,
                bytes@,
                at as int,
                (AnswerState { messages: message_views(messages@), more }),
            ),
        decreases bytes.len() + 4 - at,
    {
        if bytes.len() - at < 16 {
            return Ok(more);
        }
        let header = read_header(order, bytes, at);
        let len: usize = header.len as usize;
        if len < 16 || len > bytes.len() - at {
            return Ok(more);
        }
        if header.kind == NLMSG_DONE {
            return Ok(false);
        }
        more = header.flags & NLM_F_MULTI != 0;
        if header.kind == NLMSG_ERROR {
            if len >= 36 {
                let code: i32 = read_i32(order, bytes, at + 16);
                if code != 0 {
                    return Err(TcError::Kernel(code));
                }
            }
        } else {
            let data = copy_bytes(bytes, at + 16, at + len);
            let ghost before = messages@;
            let message = NetlinkMessage { kind: header.kind, data };
            let ghost view = message_view(message);
            messages.push(message);
            assert(message_views(messages@) =~= message_views(before).push(view));
        }
        at = at + align(len);
    }
    Ok(more)
}

/// The filters among messages, in order.
pub open spec fn filters_of(order: ByteOrder, messages: Seq<(u16, Seq<u8>)>) -> Result<
    Seq<FilterView>,
    TcError,
>
    decreases messages.len(),
{
    if messages.len() == 0 {
        Ok(Seq::empty())
    } else {
        match filters_of(order, messages.drop_last()) {
            Err(error) => Err(error),
            Ok(filters) => if messages.last().0 != RTM_NEWTFILTER {
                Ok(filters)
            } else {
                match filter_of(order, messages.last().1) {
                    Err(error) => Err(error),
                    Ok(None) => Ok(filters),
                    Ok(Some(filter)) => Ok(filters.push(filter)),
                }
            },
        }
    }
}

proof fn lemma_filters_stay_err(order: ByteOrder, messages: Seq<(u16, Seq<u8>)>, n: int)
    requires
        0 <= n <= messages.len(),
        filters_of(order, messages.take(n)) is Err,
    ensures
        filters_of(order, messages) == filters_of(order, messages.take(n)),
    decreases messages.len() - n,
{
    if n < messages.len() {
        assert(messages.take(n + 1).drop_last() =~= messages.take(n));
        lemma_filters_stay_err(order, messages, n + 1);
    } else {
        assert(messages.take(n) =~= messages);
    }
}

/// Filters as plain values.
pub open spec fn filter_views(filters: Seq<FilterInfo>) -> Seq<FilterView> {
    filters.map_values(|filter: FilterInfo| filter_view(filter))
}

/// The filters in an answer to a dump request.
pub fn dump_filters(order: ByteOrder, messages: &[NetlinkMessage]) -> (filters: Result<
    Vec<FilterInfo>,
    TcError,
>)
    requires
        forall|i: int|
            0 <= i < messages.len() ==> (#[trigger] messages@[i]).data.len() <= usize::MAX
                - 0x1_0000,
    ensures
        match (filters, filters_of(order, message_views(messages@))) {
            (Ok(filters), Ok(views)) => filter_views(filters@) == views,
            (Err(error), Err(fault)) => error == fault,
            _ => false,
        },
{
    let ghost views = message_views(messages@);
    let mut filters: Vec<FilterInfo> = Vec::new();
    let mut i: usize = 0;
    assert(filter_views(filters@) =~= Seq::<FilterView>::empty());
    while i < messages.len()
        invariant
            i <= messages.len(),
            views == message_views(messages@),
            forall|i: int|
                0 <= i < messages.len() ==> (#[trigger] messages@[i]).data.len() <= usize::MAX
                    - 0x1_0000,
            filters_of(order, views.take(i as int)) == Ok::<Seq<FilterView>, TcError>(
                filter_views(filters@),
            ),
        decreases messages.len() - i,
    {
        assert(views.take(i + 1).drop_last() =~= views.take(i as int));
        assert(views[i as int] == message_view(messages@[i as int]));
        if messages[i].kind == RTM_NEWTFILTER {
            match parse_filter(order, messages[i].data.as_slice()) {
                Err(error) => {
                    proof {
                        lemma_filters_stay_err(order, views, i + 1);
                    }
                    return Err(error);
                },
                Ok(None) => {},
                Ok(Some(filter)) => {
                    let ghost before = filters@;
                    let ghost view = filter_view(filter);
                    filters.push(filter);
                    assert(filter_views(filters@) =~= filter_views(before).push(view));
                },
            }
        }
        i += 1;
    }
    assert(views.take(views.len() as int) =~= views);
    Ok(filters)
}

// ---------------------------------------------------------------------------
// Laws
// ---------------------------------------------------------------------------

/// Deleting a priority touches the filters of that priority and no others: a
/// handle is asked for exactly if a filter of that priority has it.
pub proof fn law_delete_pref_is_exact(filters: Seq<FilterInfo>, pref: u16, handle: u32)
    ensures
        handles_at(filters, pref).contains(handle) <==> exists|i: int|
            0 <= i < filters.len() && (#[trigger] filters[i]).pref == pref && filters[i].handle
                == handle,
    decreases filters.len(),
{
    if filters.len() > 0 {
        let front = filters.drop_last();
        let before = handles_at(front, pref);
        let all = handles_at(filters, pref);
        law_delete_pref_is_exact(front, pref, handle);
        if all.contains(handle) {
            let k = choose|k: int| 0 <= k < all.len() && all[k] == handle;
            if k < before.len() {
                assert(before[k] == handle);
                let i = choose|i: int|
                    0 <= i < front.len() && (#[trigger] front[i]).pref == pref && front[i].handle
                        == handle;
                assert(filters[i] == front[i]);
            } else {
                assert(filters[filters.len() - 1].handle == handle);
            }
        }
        if exists|i: int|
            0 <= i < filters.len() && (#[trigger] filters[i]).pref == pref && filters[i].handle
                == handle {
            let i = choose|i: int|
                0 <= i < filters.len() && (#[trigger] filters[i]).pref == pref && filters[i].handle
                    == handle;
            if i < front.len() {
                assert(front[i] == filters[i]);
                let k = choose|k: int| 0 <= k < before.len() && before[k] == handle;
                assert(all[k] == handle);
            } else {
                assert(all[before.len() as int] == handle);
            }
        }
    }
}

/// The filters of a device hang below its classifier: those on ingress and those on egress
/// each below their own handle.
pub proof fn law_directions_have_their_parents(major: u32, minor: u32)
    ensures
        parent_of(Direction::Ingress) == 0xffff_fff2,
        parent_of(Direction::Egress) == 0xffff_fff3,
        handle_of(major, minor) / 0x1_0000 == major / 0x1_0000,
        handle_of(major, minor) % 0x1_0000 == minor % 0x1_0000,
{
    assert(0xffff_fff1u32 / 0x1_0000 == 0xffff);
}

/// Each request has the number of its kind, the flags that it takes and the place that it is
/// about; the priority of a filter stands in the upper half of its information.
pub proof fn law_requests_have_their_numbers(
    ifindex: u32,
    direction: Direction,
    pref: u16,
    handle: u32,
)
    ensures
        add_clsact_request(ifindex) == (TcRequest {
            kind: 36,
            flags: 0x605,
            ifindex,
            handle: 0xffff_0000,
            parent: 0xffff_fff1,
            info: 0,
        }),
        delete_clsact_request(ifindex) == (TcRequest {
            kind: 37,
            flags: 5,
            ifindex,
            handle: 0xffff_0000,
            parent: 0xffff_fff1,
            info: 0,
        }),
        delete_filter_request(ifindex, direction, pref, handle).kind == 45,
        delete_filter_request(ifindex, direction, pref, handle).flags == 5,
        delete_filter_request(ifindex, direction, pref, handle).ifindex == ifindex,
        delete_filter_request(ifindex, direction, pref, handle).handle == handle,
        delete_filter_request(ifindex, direction, pref, handle).info == pref * 65536,
        direction is Ingress ==> delete_filter_request(ifindex, direction, pref, handle).parent
            == 0xffff_fff2,
        direction is Egress ==> delete_filter_request(ifindex, direction, pref, handle).parent
            == 0xffff_fff3,
        direction is Ingress ==> dump_request(ifindex, direction) == (TcRequest {
            kind: 46,
            flags: 0x301,
            ifindex,
            handle: 0,
            parent: 0xffff_fff2,
            info: 0,
        }),
        direction is Egress ==> dump_request(ifindex, direction) == (TcRequest {
            kind: 46,
            flags: 0x301,
            ifindex,
            handle: 0,
            parent: 0xffff_fff3,
            info: 0,
        }),
{
    law_directions_have_their_parents(0, 0);
    assert(0xffff_fff1u32 / 0x1_0000 == 0xffff);
}

/// A request holds its header and behind it the device, the handle, the parent and the
/// information, each in four bytes.
pub proof fn law_request_has_its_places(order: ByteOrder, request: TcRequest)
    ensures
        ({
            let s = bare_request(order, request);
            let header = header_at(order, s, 0);
            &&& s.len() == 36
            &&& header.len == 36
            &&& header.kind == request.kind
            &&& header.flags == request.flags
            &&& host_value(order, s.subrange(16, 20)) == 0
            &&& host_value(order, s.subrange(20, 24)) == request.ifindex
            &&& host_value(order, s.subrange(24, 28)) == request.handle
            &&& host_value(order, s.subrange(28, 32)) == request.parent
            &&& host_value(order, s.subrange(32, 36)) == request.info
        }),
{
    lemma_request_head(order, request, 36);
}

proof fn lemma_request_head(order: ByteOrder, request: TcRequest, len: nat)
    requires
        len <= u32::MAX,
    ensures
        ({
            let s = request_head(order, request, len);
            let header = header_at(order, s, 0);
            &&& s.len() == 36
            &&& header.len == len
            &&& header.kind == request.kind
            &&& header.flags == request.flags
            &&& host_value(order, s.subrange(16, 20)) == 0
            &&& host_value(order, s.subrange(20, 24)) == request.ifindex
            &&& host_value(order, s.subrange(24, 28)) == request.handle
            &&& host_value(order, s.subrange(28, 32)) == request.parent
            &&& host_value(order, s.subrange(32, 36)) == request.info
        }),
{
    lemma_pow256();
    let header = MessageHeader {
        len: len as u32,
        kind: request.kind,
        flags: request.flags,
        seq: 0,
        pid: 0,
    };
    let rest = host_bytes(order, 0, 4) + host_bytes(order, request.ifindex as nat, 4) + host_bytes(
        order,
        request.handle as nat,
        4,
    ) + host_bytes(order, request.parent as nat, 4) + host_bytes(order, request.info as nat, 4);
    law_header_round_trip(order, header, rest);
    law_host_round_trip(order, 0, 4);
    law_host_round_trip(order, request.ifindex as nat, 4);
    law_host_round_trip(order, request.handle as nat, 4);
    law_host_round_trip(order, request.parent as nat, 4);
    law_host_round_trip(order, request.info as nat, 4);
    let s = request_head(order, request, len);
    assert(s =~= header_bytes(order, header) + rest);
    assert(s.subrange(16, 20) =~= host_bytes(order, 0, 4));
    assert(s.subrange(20, 24) =~= host_bytes(order, request.ifindex as nat, 4));
    assert(s.subrange(24, 28) =~= host_bytes(order, request.handle as nat, 4));
    assert(s.subrange(28, 32) =~= host_bytes(order, request.parent as nat, 4));
    assert(s.subrange(32, 36) =~= host_bytes(order, request.info as nat, 4));
}

/// A request that names a kind holds it in an attribute behind the fixed part, and is as long
/// as it says.
pub proof fn law_kind_is_an_attribute(order: ByteOrder, request: TcRequest, kind: Seq<u8>)
    requires
        kind.len() <= 100,
    ensures
        ({
            let s = kind_request(order, request, kind);
            &&& header_at(order, s, 0).len == s.len()
            &&& header_at(order, s, 0).kind == request.kind
            &&& s.len() % 4 == 0
            &&& s.subrange(40, 40 + kind.len() as int) == kind
            &&& host_value(order, s.subrange(36, 38)) == 4 + kind.len()
            &&& host_value(order, s.subrange(38, 40)) == 1
        }),
{
    lemma_pow256();
    let attr_len = (4 + kind.len()) as nat;
    let padded = align4(attr_len as int);
    let head = request_head(order, request, (36 + padded) as nat);
    let s = kind_request(order, request, kind);
    lemma_request_head(order, request, (36 + padded) as nat);
    law_host_round_trip(order, attr_len, 2);
    law_host_round_trip(order, 1, 2);
    assert(s.subrange(0, 4) =~= head.subrange(0, 4));
    assert(s.subrange(4, 6) =~= head.subrange(4, 6));
    assert(s.subrange(36, 38) =~= host_bytes(order, attr_len, 2));
    assert(s.subrange(38, 40) =~= host_bytes(order, 1, 2));
    assert(s.subrange(40, 40 + kind.len() as int) =~= kind);
}

/// A filter has its handle behind the device and its priority in the upper half of its
/// information; a message that is too short holds none.
pub proof fn law_filters_are_read(order: ByteOrder, data: Seq<u8>)
    ensures
        data.len() < 20 ==> filter_of(order, data) == Ok::<Option<FilterView>, TcError>(None),
        data.len() == 20 ==> (filter_of(order, data) matches Ok(Some(filter)) && filter.handle
            == host_value(order, data.subrange(8, 12)) as u32 && filter.pref == (host_value(
            order,
            data.subrange(16, 20),
        ) as u32 / 65536) as u16 && filter.kind.len() == 0 && filter.name is None
            && filter.prog_id is None),
{
}

/// The kind of a filter, and the name and the program of a classifier, are read from their
/// attributes; what else there is changes nothing.
pub proof fn law_filter_attributes_are_read(
    order: ByteOrder,
    filter: FilterView,
    payload: Seq<u8>,
    kind: u16,
)
    ensures
        filter_with(order, filter, (1, payload)) == Ok::<FilterView, TcError>(
            (FilterView { kind: without_nuls(utf8_lossy(payload)), ..filter }),
        ),
        filter_with_option(order, filter, (7, payload)) == (FilterView {
            name: Some(without_nuls(utf8_lossy(payload))),
            ..filter
        }),
        payload.len() >= 4 ==> filter_with_option(order, filter, (11, payload)) == (FilterView {
            prog_id: Some(host_value(order, payload.subrange(0, 4)) as u32),
            ..filter
        }),
        kind % 0x4000 != 1 && kind % 0x4000 != 2 ==> filter_with(order, filter, (kind, payload))
            == Ok::<FilterView, TcError>(filter),
        kind % 0x4000 != 7 && kind % 0x4000 != 11 ==> filter_with_option(
            order,
            filter,
            (kind, payload),
        ) == filter,
        attrs_end(order, payload, 0) == AttrEnd::Whole ==> filter_with(order, filter, (2, payload))
            == Ok::<FilterView, TcError>(
            filter_with_options(order, filter, attrs(order, payload, 0)),
        ),
        attrs_end(order, payload, 0) == AttrEnd::Leftover ==> filter_with(
            order,
            filter,
            (2, payload),
        ) == Err::<FilterView, TcError>(TcError::ShortAttributes),
        attrs_end(order, payload, 0) == AttrEnd::BadLength ==> filter_with(
            order,
            filter,
            (2, payload),
        ) == Err::<FilterView, TcError>(TcError::BadAttribute),
{
}

/// Every filter of an answer is listed, and only the messages that are filters are.
pub proof fn law_answers_list_their_filters(
    order: ByteOrder,
    messages: Seq<(u16, Seq<u8>)>,
    i: int,
    filter: FilterView,
)
    requires
        0 <= i < messages.len(),
        messages[i].0 == 44,
        filter_of(order, messages[i].1) == Ok::<Option<FilterView>, TcError>(Some(filter)),
    ensures
        filters_of(order, messages) matches Ok(filters) ==> filters.contains(filter),
    decreases messages.len(),
{
    let front = messages.drop_last();
    if let Ok(filters) = filters_of(order, messages) {
        if i < front.len() {
            assert(front[i] == messages[i]);
            law_answers_list_their_filters(order, front, i, filter);
            if let Ok(before) = filters_of(order, front) {
                let k = choose|k: int| 0 <= k < before.len() && before[k] == filter;
                assert(filters[k] == filter);
            }
        } else if let Ok(before) = filters_of(order, front) {
            assert(filters[before.len() as int] == filter);
        }
    }
}

/// An answer without filters lists none, and a message of another kind adds none.
pub proof fn law_other_messages_are_no_filters(
    order: ByteOrder,
    messages: Seq<(u16, Seq<u8>)>,
    message: (u16, Seq<u8>),
)
    requires
        message.0 != 44,
    ensures
        filters_of(order, Seq::empty()) == Ok::<Seq<FilterView>, TcError>(Seq::empty()),
        filters_of(order, messages.push(message)) == filters_of(order, messages),
{
    assert(messages.push(message).drop_last() =~= messages);
}

/// A message of an answer that says it is done ends it, one that reports an error fails it,
/// and what is cut off is not read.
pub proof fn law_answers_are_followed(order: ByteOrder, s: Seq<u8>, at: int)
    requires
        0 <= at,
    ensures
        ({
            let header = header_at(order, s, at);
            let step = answer_step(order, s, at);
            let whole = at + 16 <= s.len() && header.len >= 16 && at + header.len <= s.len();
            let code = signed32(host_value(order, s.subrange(at + 16, at + 20)));
            &&& !whole ==> step == AnswerStep::Unreadable
            &&& whole && header.kind == 3 ==> step == AnswerStep::Done
            &&& whole && header.kind == 2 && header.len >= 36 && code != 0 ==> step
                == AnswerStep::Fault(TcError::Kernel(code as i32))
            &&& whole && header.kind == 2 && (header.len < 36 || code == 0) ==> step
                == AnswerStep::Pass
            &&& whole && header.kind != 2 && header.kind != 3 ==> step == AnswerStep::Message
        }),
{
}

/// A filter is put into words with its priority, handle, kind, name and program.
pub proof fn law_filters_are_put_into_words(filter: FilterInfo, name: String, id: u32)
    ensures
        filter.name == Some(name) && filter.prog_id == Some(id) ==> filter_words(filter)
            == "filter pref "@ + decimal(filter.pref as nat) + " handle "@ + decimal(
            filter.handle as nat,
        ) + " "@ + filter.kind@ + " name "@ + name@ + " id "@ + decimal(id as nat),
        filter.name is None && filter.prog_id is None ==> filter_words(filter) == "filter pref "@
            + decimal(filter.pref as nat) + " handle "@ + decimal(filter.handle as nat) + " "@
            + filter.kind@ + " name "@ + Seq::<char>::empty() + " id "@ + "-"@,
{
}

/// The messages of an answer are taken in order; the flag of the last one says whether more
/// datagrams follow, and the end of a dump says that none do.
pub proof fn law_answers_are_taken_in_order(
    order: ByteOrder,
    s: Seq<u8>,
    at: int,
    so_far: AnswerState,
    error: TcError,
)
    requires
        0 <= at,
    ensures
        ({
            let header = header_at(order, s, at);
            let next = at + align4(header.len as int);
            let more = header.flags & 2 != 0;
            let step = answer_step(order, s, at);
            let read = answer_from(order, s, at, so_far);
            &&& at >= s.len() ==> read == Ok::<AnswerState, TcError>(so_far)
            &&& at < s.len() && step == AnswerStep::Done ==> read == Ok::<AnswerState, TcError>(
                (AnswerState { more: false, ..so_far }),
            )
            &&& at < s.len() && step == AnswerStep::Fault(error) ==> read == Err::<
                AnswerState,
                TcError,
            >(error)
            &&& at < s.len() && step == AnswerStep::Message ==> read == answer_from(
                order,
                s,
                next,
                (AnswerState {
                    more,
                    messages: so_far.messages.push(
                        (header.kind, s.subrange(at + 16, at + header.len)),
                    ),
                }),
            )
            &&& at < s.len() && step == AnswerStep::Pass ==> read == answer_from(
                order,
                s,
                next,
                (AnswerState { more, ..so_far }),
            )
        }),
{
}

/// Each filter at a priority is deleted by a request of its own, which names its handle and
/// the BPF classifier; the classifier of both directions is named by its own name.
pub proof fn law_deletions_name_their_filters(
    order: ByteOrder,
    ifindex: u32,
    direction: Direction,
    pref: u16,
    handles: Seq<u32>,
    i: int,
)
    requires
        0 <= i < handles.len(),
    ensures
        delete_requests(order, ifindex, direction, pref, handles).len() == handles.len(),
        delete_requests(order, ifindex, direction, pref, handles)[i] == kind_request(
            order,
            delete_filter_request(ifindex, direction, pref, handles[i]),
            seq!['b' as u8, 'p' as u8, 'f' as u8, 0],
        ),
        clsact_name() == seq![
            'c' as u8,
            'l' as u8,
            's' as u8,
            'a' as u8,
            'c' as u8,
            't' as u8,
            0,
        ],
{
    assert(bpf_name() =~= seq!['b' as u8, 'p' as u8, 'f' as u8, 0]);
    assert(clsact_name() =~= seq![
        'c' as u8,
        'l' as u8,
        's' as u8,
        'a' as u8,
        'c' as u8,
        't' as u8,
        0,
    ]);
}

/// Filters are put into words one to a line.
pub proof fn law_filters_stand_on_lines(filters: Seq<FilterInfo>, filter: FilterInfo)
    ensures
        filters_words(Seq::empty()) == Seq::<char>::empty(),
        filters_words(seq![filter]) == filter_words(filter),
        filters.len() > 0 ==> filters_words(filters.push(filter)) == filters_words(filters) + "\n"@
            + filter_words(filter),
{
    let words = filters.map_values(|filter: FilterInfo| filter_words(filter));
    assert(filters.push(filter).map_values(|filter: FilterInfo| filter_words(filter))
        =~= words.push(filter_words(filter)));
    assert(words.push(filter_words(filter)).drop_last() =~= words);
    assert(seq![filter].map_values(|filter: FilterInfo| filter_words(filter)) =~= seq![
        filter_words(filter),
    ]);
}

} // verus!
