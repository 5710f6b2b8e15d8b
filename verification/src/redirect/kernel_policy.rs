//! What the kernel's packet filters and IPsec policies leave possible. Only a
//! complete answer counts: an empty one without its end is none.
use crate::bytes::{
    align, align4, copy_bytes, host_value, push_bytes, read_i32, signed32, ByteOrder,
};
use crate::nla::{
    header_at, header_bytes, push_header, read_header, MessageHeader, NLMSG_DONE, NLMSG_ERROR,
    NLM_F_DUMP, NLM_F_DUMP_INTR, NLM_F_REQUEST,
};
use crate::redirect::error::RedirectError;
use crate::text::{chars_of, trim, trimmed};
use vstd::prelude::*;

verus! {

#[derive(Clone, Copy, Debug, PartialEq, Eq, Structural)]
pub enum KernelPolicyState {
    Clear,
    NftTables,
    LegacyTables,
    XfrmPolicies,
    XfrmDefault,
}

pub const XFRM_MSG_NEWPOLICY: u16 = 0x13;

pub const XFRM_MSG_GETPOLICY: u16 = 0x15;

pub const XFRM_MSG_GETDEFAULT: u16 = 0x28;

/// The default policy that lets traffic pass.
pub const XFRM_ACCEPT: u8 = 2;

/// The most that a dump may hold.
pub const MAX_DUMP: usize = 1024 * 1024;

// ---------------------------------------------------------------------------
// Requests
// ---------------------------------------------------------------------------

/// The header of a policy query.
pub open spec fn query_header(kind: u16, payload_len: nat, dump: bool) -> MessageHeader {
    MessageHeader {
        len: (16 + payload_len) as u32,
        kind,
        flags: if dump {
            (NLM_F_REQUEST | NLM_F_DUMP) as u16
        } else {
            NLM_F_REQUEST
        },
        seq: 1,
        pid: 0,
    }
}

/// Builds a policy query.
pub fn policy_request(order: ByteOrder, kind: u16, payload: &[u8], dump: bool) -> (request: Vec<
    u8,
>)
    requires
        16 + payload.len() <= u32::MAX,
    ensures
        request@ == header_bytes(order, query_header(kind, payload@.len(), dump)) + payload@,
{
    let mut request: Vec<u8> = Vec::new();
    let header = MessageHeader {
        len: (16 + payload.len()) as u32,
        kind,
        flags: if dump {
            NLM_F_REQUEST | NLM_F_DUMP
        } else {
            NLM_F_REQUEST
        },
        seq: 1,
        pid: 0,
    };
    push_header(order, &mut request, &header);
    push_bytes(&mut request, payload);
    assert(request@ =~= header_bytes(order, query_header(kind, payload@.len(), dump)) + payload@);
    request
}

/// The message type of an nftables request.
pub fn nft_type(kind: u8) -> (value: u16)
    ensures
        value == 10 * 256 + kind,
{
    2560 + kind as u16
}

// ---------------------------------------------------------------------------
// Replies
// ---------------------------------------------------------------------------

/// What one datagram of a reply comes to.
pub struct ReplyOutcome {
    pub done: bool,
    pub payloads: Seq<Seq<u8>>,
    pub error: Option<RedirectError>,
}

/// Whether a message that can be read stands at `at`.
pub open spec fn message_fits(order: ByteOrder, s: Seq<u8>, at: int) -> bool {
    at + 16 <= s.len() && 16 <= header_at(order, s, at).len && at + header_at(order, s, at).len
        <= s.len()
}

/// The first four bytes of a payload as a status.
pub open spec fn payload_status(order: ByteOrder, payload: Seq<u8>) -> int {
    signed32(host_value(order, payload.subrange(0, 4)))
}

/// What one message means: an error, the end, or a payload.
pub enum MessageMeaning {
    Fault(RedirectError),
    End,
    Payload,
}

/// What a message means.
pub open spec fn message_meaning(
    order: ByteOrder,
    header: MessageHeader,
    payload: Seq<u8>,
    response_type: u16,
    dump: bool,
) -> MessageMeaning {
    if header.seq != 1 {
        MessageMeaning::Fault(RedirectError::ReplySequence)
    } else if header.flags & NLM_F_DUMP_INTR != 0 {
        MessageMeaning::Fault(RedirectError::DumpInterrupted)
    } else if header.kind == NLMSG_DONE && dump {
        if payload.len() < 4 {
            MessageMeaning::Fault(RedirectError::ShortCompletion)
        } else if payload_status(order, payload) != 0 {
            MessageMeaning::Fault(RedirectError::DumpFailed)
        } else {
            MessageMeaning::End
        }
    } else if header.kind == NLMSG_ERROR {
        if payload.len() < 4 {
            MessageMeaning::Fault(RedirectError::ShortError)
        } else {
            MessageMeaning::Fault(
                RedirectError::QueryError(payload_status(order, payload) as i32),
            )
        }
    } else if header.kind == response_type {
        MessageMeaning::Payload
    } else {
        MessageMeaning::Fault(RedirectError::UnexpectedReply)
    }
}

/// What the messages from `at` on come to, after `so_far`.
pub open spec fn reply_from(
    order: ByteOrder,
    s: Seq<u8>,
    at: int,
    response_type: u16,
    dump: bool,
    so_far: ReplyOutcome,
) -> ReplyOutcome
    decreases s.len() - at,
{
    if at >= s.len() {
        so_far
    } else if so_far.done {
        ReplyOutcome { error: Some(RedirectError::ReplyAfterEnd), ..so_far }
    } else if !message_fits(order, s, at) {
        ReplyOutcome { error: Some(RedirectError::ReplyMalformed), ..so_far }
    } else {
        let header = header_at(order, s, at);
        let payload = s.subrange(at + 16, at + header.len);
        match message_meaning(order, header, payload, response_type, dump) {
            MessageMeaning::Fault(error) => ReplyOutcome { error: Some(error), ..so_far },
            meaning => {
                let next = if meaning is Payload {
                    ReplyOutcome { done: !dump, payloads: so_far.payloads.push(payload), ..so_far }
                } else {
                    ReplyOutcome { done: true, ..so_far }
                };
                if at + align4(header.len as int) > s.len() {
                    ReplyOutcome { error: Some(RedirectError::ReplyAlignment), ..next }
                } else {
                    reply_from(
                        order,
                        s,
                        at + align4(header.len as int),
                        response_type,
                        dump,
                        next,
                    )
                }
            },
        }
    }
}

/// The contents of a list of payloads.
pub open spec fn payload_views(payloads: Seq<Vec<u8>>) -> Seq<Seq<u8>> {
    payloads.map_values(|p: Vec<u8>| p@)
}

/// What a datagram comes to, given the payloads before it.
pub open spec fn reply_outcome(
    order: ByteOrder,
    s: Seq<u8>,
    response_type: u16,
    dump: bool,
    payloads: Seq<Seq<u8>>,
) -> ReplyOutcome {
    reply_from(
        order,
        s,
        0,
        response_type,
        dump,
        ReplyOutcome { done: false, payloads, error: None },
    )
}

/// Reads one datagram of a reply and collects its payloads. `true` says that the
/// reply is complete.
pub fn parse_reply(
    order: ByteOrder,
    bytes: &[u8],
    response_type: u16,
    dump: bool,
    result: &mut Vec<Vec<u8>>,
) -> (done: Result<bool, RedirectError>)
    requires
        bytes.len() <= usize::MAX - 8,
    ensures
        ({
            let outcome = reply_outcome(
                order,
                bytes@,
                response_type,
                dump,
                payload_views(old(result)@),
            );
            &&& payload_views(final(result)@) == outcome.payloads
            &&& done == match outcome.error {
                Some(error) => Err::<bool, RedirectError>(error),
                None => Ok(outcome.done),
            }
        }),
{
    let mut at: usize = 0;
    let mut done: bool = false;
    let ghost whole = reply_outcome(order, bytes@, response_type, dump, payload_views(result@));
    while at < bytes.len()
        invariant
            at <= bytes.len() <= usize::MAX - 8,
            whole == reply_outcome(
                order,
                bytes@,
                response_type,
                dump,
                payload_views(old(result)@),
            ),
            whole == reply_from(
                order,
                bytes@,
                at as int,
                response_type,
                dump,
                (ReplyOutcome { done, payloads: payload_views(result@), error: None }),
            ),
        decreases bytes.len() - at,
    {
        if done {
            return Err(RedirectError::ReplyAfterEnd);
        }
        if bytes.len() - at < 16 {
            return Err(RedirectError::ReplyMalformed);
        }
        let header = read_header(order, bytes, at);
        let len: usize = header.len as usize;
        if len < 16 || len > bytes.len() - at {
            return Err(RedirectError::ReplyMalformed);
        }
        let ghost payload = bytes@.subrange(at + 16, at + len);
        if header.seq != 1 {
            return Err(RedirectError::ReplySequence);
        }
        if header.flags & NLM_F_DUMP_INTR != 0 {
            return Err(RedirectError::DumpInterrupted);
        }
        if header.kind == NLMSG_DONE && dump {
            if len < 20 {
                return Err(RedirectError::ShortCompletion);
            }
            let status: i32 = read_i32(order, bytes, at + 16);
            assert(payload.subrange(0, 4) =~= bytes@.subrange(at + 16, at + 20));
            if status != 0 {
                return Err(RedirectError::DumpFailed);
            }
            done = true;
        } else if header.kind == NLMSG_ERROR {
            if len < 20 {
                return Err(RedirectError::ShortError);
            }
            let status: i32 = read_i32(order, bytes, at + 16);
            assert(payload.subrange(0, 4) =~= bytes@.subrange(at + 16, at + 20));
            return Err(RedirectError::QueryError(status));
        } else if header.kind == response_type {
            let copy = copy_bytes(bytes, at + 16, at + len);
            let ghost before = result@;
            result.push(copy);
            assert(payload_views(result@) =~= payload_views(before).push(payload));
            done = !dump;
        } else {
            return Err(RedirectError::UnexpectedReply);
        }
        let aligned: usize = align(len);
        if aligned > bytes.len() - at {
            return Err(RedirectError::ReplyAlignment);
        }
        at += aligned;
    }
    Ok(done)
}

/// A policy query under way.
#[derive(Debug)]
pub struct PolicyQuery {
    pub received: usize,
    pub payloads: Vec<Vec<u8>>,
}

/// Takes in one datagram. Only the kernel's own, whole datagrams count, and no
/// more than a bounded number of bytes.
pub fn on_datagram(
    query: &mut PolicyQuery,
    order: ByteOrder,
    sender_port: u32,
    bytes: &[u8],
    buffer_len: usize,
    response_type: u16,
    dump: bool,
) -> (done: Result<bool, RedirectError>)
    requires
        old(query).received <= MAX_DUMP,
        bytes.len() <= buffer_len <= 0x1_0000,
    ensures
        final(query).received <= old(query).received + bytes.len(),
        ({
            let outcome = reply_outcome(
                order,
                bytes@,
                response_type,
                dump,
                payload_views(old(query).payloads@),
            );
            &&& done == if sender_port != 0 || bytes.len() == 0 || bytes.len() == buffer_len {
                Err::<bool, RedirectError>(RedirectError::ReplySender)
            } else if old(query).received + bytes.len() > MAX_DUMP {
                Err(RedirectError::DumpTooLarge)
            } else {
                match outcome.error {
                    Some(error) => Err(error),
                    None => Ok(outcome.done),
                }
            }
            &&& done is Ok ==> payload_views(final(query).payloads@) == outcome.payloads
            &&& done is Ok ==> final(query).received == old(query).received + bytes.len()
            &&& done is Ok ==> final(query).received <= MAX_DUMP
            &&& done is Ok ==> final(query).received <= 1_048_576
            &&& sender_port == 0 && 0 < bytes.len() < buffer_len && old(query).received + bytes.len()
                > 1_048_576 ==> done == Err::<bool, RedirectError>(RedirectError::DumpTooLarge)
        }),
{
    if sender_port != 0 || bytes.len() == 0 || bytes.len() == buffer_len {
        return Err(RedirectError::ReplySender);
    }
    query.received = query.received + bytes.len();
    if query.received > MAX_DUMP {
        return Err(RedirectError::DumpTooLarge);
    }
    parse_reply(order, bytes, response_type, dump, &mut query.payloads)
}

// ---------------------------------------------------------------------------
// The state
// ---------------------------------------------------------------------------

/// What a default policy allows. Padding behind the three directions is no
/// fourth one.
pub open spec fn default_state(payload: Seq<u8>) -> Result<KernelPolicyState, RedirectError> {
    if payload.len() != 3 && payload.len() != 4 {
        Err(RedirectError::DefaultPolicySize)
    } else if payload[0] == XFRM_ACCEPT && payload[1] == XFRM_ACCEPT && payload[2] == XFRM_ACCEPT {
        Ok(KernelPolicyState::Clear)
    } else {
        Ok(KernelPolicyState::XfrmDefault)
    }
}

/// Reads the default policy.
pub fn default_policy(payload: &[u8]) -> (state: Result<KernelPolicyState, RedirectError>)
    ensures
        state == default_state(payload@),
{
    if payload.len() != 3 && payload.len() != 4 {
        return Err(RedirectError::DefaultPolicySize);
    }
    if payload[0] == XFRM_ACCEPT && payload[1] == XFRM_ACCEPT && payload[2] == XFRM_ACCEPT {
        Ok(KernelPolicyState::Clear)
    } else {
        Ok(KernelPolicyState::XfrmDefault)
    }
}

/// Whether a list of legacy table names names any; an absent list names none.
pub open spec fn names_tables(names: Option<String>) -> bool {
    names matches Some(text) && trimmed(text@).len() > 0
}

/// What the policies come to, looked at in this order.
pub open spec fn policy_state(
    tables: Seq<Vec<u8>>,
    legacy: Seq<Option<String>>,
    policies: Seq<Vec<u8>>,
    defaults: Seq<Vec<u8>>,
) -> Result<KernelPolicyState, RedirectError> {
    if tables.len() > 0 {
        Ok(KernelPolicyState::NftTables)
    } else if exists|i: int| 0 <= i < legacy.len() && names_tables(#[trigger] legacy[i]) {
        Ok(KernelPolicyState::LegacyTables)
    } else if policies.len() > 0 {
        Ok(KernelPolicyState::XfrmPolicies)
    } else if defaults.len() != 1 {
        Err(RedirectError::DefaultPolicyMissing)
    } else {
        default_state(defaults[0]@)
    }
}

fn any_tables(legacy: &[Option<String>]) -> (b: bool)
    ensures
        b == exists|i: int| 0 <= i < legacy.len() && names_tables(#[trigger] legacy@[i]),
{
    let mut i: usize = 0;
    while i < legacy.len()
        invariant
            i <= legacy.len(),
            forall|j: int| 0 <= j < i ==> !names_tables(#[trigger] legacy@[j]),
        decreases legacy.len() - i,
    {
        if let Some(text) = &legacy[i] {
            let chars = chars_of(text.as_str());
            if trim(chars.as_slice()).len() > 0 {
                assert(names_tables(legacy@[i as int]));
                return true;
            }
        }
        i += 1;
    }
    false
}

/// Classifies the kernel's policies: nftables, legacy tables, IPsec policies and
/// IPsec defaults, in this order.
pub fn observe_kernel_policy(
    tables: &[Vec<u8>],
    legacy: &[Option<String>],
    policies: &[Vec<u8>],
    defaults: &[Vec<u8>],
) -> (state: Result<KernelPolicyState, RedirectError>)
    ensures
        state == policy_state(tables@, legacy@, policies@, defaults@),
{
    if tables.len() > 0 {
        return Ok(KernelPolicyState::NftTables);
    }
    if any_tables(legacy) {
        return Ok(KernelPolicyState::LegacyTables);
    }
    if policies.len() > 0 {
        return Ok(KernelPolicyState::XfrmPolicies);
    }
    if defaults.len() != 1 {
        return Err(RedirectError::DefaultPolicyMissing);
    }
    default_policy(defaults[0].as_slice())
}

// ---------------------------------------------------------------------------
// Laws
// ---------------------------------------------------------------------------

/// An empty datagram completes no dump: silence is no evidence of absence.
pub proof fn law_silence_is_not_completion(
    order: ByteOrder,
    response_type: u16,
    payloads: Seq<Seq<u8>>,
)
    ensures
        ({
            let outcome = reply_outcome(order, Seq::empty(), response_type, true, payloads);
            !outcome.done && outcome.error is None && outcome.payloads == payloads
        }),
{
}

/// The kernel leaves packets alone if and only if there is no table of packet filters, new
/// or old, no IPsec policy, and one default that accepts in all three directions.
pub proof fn law_kernel_is_clear_only_without_policies(
    tables: Seq<Vec<u8>>,
    legacy: Seq<Option<String>>,
    policies: Seq<Vec<u8>>,
    defaults: Seq<Vec<u8>>,
)
    ensures
        policy_state(tables, legacy, policies, defaults) == Ok::<KernelPolicyState, RedirectError>(
            KernelPolicyState::Clear,
        ) <==> {
            &&& tables.len() == 0
            &&& forall|i: int|
                0 <= i < legacy.len() ==> match #[trigger] legacy[i] {
                    Some(text) => trimmed(text@).len() == 0,
                    None => true,
                }
            &&& policies.len() == 0
            &&& defaults.len() == 1
            &&& defaults[0]@.len() == 3 || defaults[0]@.len() == 4
            &&& defaults[0]@[0] == 2 && defaults[0]@[1] == 2 && defaults[0]@[2] == 2
        },
        tables.len() > 0 ==> policy_state(tables, legacy, policies, defaults) == Ok::<
            KernelPolicyState,
            RedirectError,
        >(KernelPolicyState::NftTables),
        tables.len() == 0 && (exists|i: int|
            0 <= i < legacy.len() && (#[trigger] legacy[i] matches Some(text) && trimmed(
                text@,
            ).len() > 0)) ==> policy_state(tables, legacy, policies, defaults) == Ok::<
            KernelPolicyState,
            RedirectError,
        >(KernelPolicyState::LegacyTables),
        policies.len() > 0 ==> policy_state(tables, legacy, policies, defaults) is Ok,
{
    assert(forall|i: int|
        0 <= i < legacy.len() ==> (names_tables(#[trigger] legacy[i]) <==> (
        legacy[i] matches Some(text) && trimmed(text@).len() > 0)));
}

/// A query states its own length and the number one, and asks for a list where it wants one.
pub proof fn law_queries_are_headed(kind: u16, payload_len: nat, dump: bool)
    requires
        16 + payload_len <= u32::MAX,
    ensures
        ({
            let header = query_header(kind, payload_len, dump);
            &&& header.len == 16 + payload_len
            &&& header.kind == kind
            &&& header.seq == 1
            &&& header.pid == 0
            &&& dump ==> header.flags == 0x301
            &&& !dump ==> header.flags == 1
        }),
{
    assert(1u16 | 0x300u16 == 0x301u16) by (bit_vector);
}

/// A message of an answer counts only with the number of the query and in a list that was
/// not disturbed. In a list the message of type three is the end, if its status is zero; a
/// message of type two is an error with its status; one of the type that was asked for is
/// taken, and anything else is refused.
pub proof fn law_messages_mean_what_they_say(
    order: ByteOrder,
    header: MessageHeader,
    payload: Seq<u8>,
    response_type: u16,
    dump: bool,
)
    requires
        header.flags == 0 || header.flags == 2,
    ensures
        ({
            let meaning = message_meaning(order, header, payload, response_type, dump);
            &&& header.seq != 1 ==> meaning is Fault
            &&& header.seq == 1 && header.kind == 3 && dump ==> (meaning is End <==> payload.len()
                >= 4 && signed32(host_value(order, payload.take(4))) == 0)
            &&& header.seq == 1 && header.kind == 2 ==> meaning is Fault
            &&& header.seq == 1 && header.kind == response_type && header.kind != 2 && header.kind
                != 3 ==> meaning is Payload
            &&& header.kind != response_type && header.kind != 2 && header.kind != 3 ==> meaning
                is Fault
            &&& meaning is End ==> dump && header.kind == 3
        }),
{
    let flags = header.flags;
    assert(flags == 0 || flags == 2 ==> flags & 16 == 0) by (bit_vector);
    assert(payload.len() >= 4 ==> payload.subrange(0, 4) =~= payload.take(4));
}

/// An answer to a list that the kernel disturbed is refused whatever it says.
pub proof fn law_disturbed_lists_are_refused(
    order: ByteOrder,
    header: MessageHeader,
    payload: Seq<u8>,
    response_type: u16,
    dump: bool,
)
    requires
        header.flags & 16 != 0,
    ensures
        message_meaning(order, header, payload, response_type, dump) is Fault,
{
}

} // verus!
