//! Host and classifier admission. Whatever is not known to be harmless to a
//! redirected packet keeps packets on the kernel's path.
use crate::bytes::{
    be_bytes, host_bytes, host_value, le_bytes, lemma_pow256, read_host, ByteOrder,
};
use crate::nla::{
    attr_view, attr_views, attrs, attrs_end, read_attrs, Attr, AttrEnd, NLM_F_DUMP_INTR,
};
use crate::redirect::error::RedirectError;
use crate::redirect::kernel_policy::KernelPolicyState;
use crate::redirect::message::{TcAttribute, TcMessage, TcOption};
use crate::redirect::policy::RoutingPolicyState;
use crate::text::{
    bounded_value, char_lists, chars_of, parse_bounded, pieces, same_text, split_on, text_of, trim,
    trimmed,
};
use vstd::prelude::*;

verus! {

// ---------------------------------------------------------------------------
// The host
// ---------------------------------------------------------------------------

/// What was observed of the host's network policy.
#[derive(Clone, Debug)]
pub struct NetworkPolicy {
    pub routing: RoutingPolicyState,
    pub kernel: KernelPolicyState,
    pub ip_forward: u32,
    pub ingress_forwarding: u32,
    pub rp_filter_all: u32,
    pub rp_filter_ingress: u32,
    pub security_modules: String,
}

/// Whether a security module leaves packets alone.
pub open spec fn harmless_module(name: Seq<char>) -> bool {
    ||| name == "capability"@
    ||| name == "landlock"@
    ||| name == "lockdown"@
    ||| name == "yama"@
    ||| name == "integrity"@
    ||| name == "apparmor"@
}

/// Whether every module of a comma separated list leaves packets alone.
pub open spec fn harmless_modules(list: Seq<char>) -> bool {
    forall|i: int|
        0 <= i < pieces(list, ',').len() ==> harmless_module(trimmed(#[trigger] pieces(list, ',')[i]))
}

/// Why the host's policy keeps packets on the kernel's path.
pub open spec fn network_refusal(policy: NetworkPolicy) -> Option<RedirectError> {
    if policy.routing != RoutingPolicyState::StandardRules {
        Some(RedirectError::RoutingRules)
    } else if policy.kernel != KernelPolicyState::Clear {
        Some(RedirectError::KernelPolicy)
    } else if policy.ip_forward != 1 {
        Some(RedirectError::ForwardingDisabled)
    } else if policy.ingress_forwarding != 1 {
        Some(RedirectError::IngressForwardingDisabled)
    } else if policy.rp_filter_all != 0 || policy.rp_filter_ingress != 0 {
        Some(RedirectError::RpFilter)
    } else if !harmless_modules(policy.security_modules@) {
        Some(RedirectError::SecurityModule)
    } else {
        None
    }
}

fn is_harmless_module(name: &str) -> (b: bool)
    ensures
        b == harmless_module(name@),
{
    same_text(name, "capability") || same_text(name, "landlock") || same_text(name, "lockdown")
        || same_text(name, "yama") || same_text(name, "integrity") || same_text(name, "apparmor")
}

fn are_harmless_modules(list: &str) -> (b: bool)
    ensures
        b == harmless_modules(list@),
{
    let chars = chars_of(list);
    let parts = split_on(chars.as_slice(), ',');
    let ghost names = pieces(list@, ',');
    let mut i: usize = 0;
    while i < parts.len()
        invariant
            i <= parts.len(),
            char_lists(parts@) == names,
            names == pieces(list@, ','),
            forall|j: int| 0 <= j < i ==> harmless_module(trimmed(#[trigger] names[j])),
        decreases parts.len() - i,
    {
        assert(char_lists(parts@)[i as int] == parts@[i as int]@);
        let name_chars = trim(parts[i].as_slice());
        let name = text_of(name_chars.as_slice());
        if !is_harmless_module(name.as_str()) {
            assert(!harmless_module(trimmed(names[i as int])));
            return false;
        }
        i += 1;
    }
    true
}

/// Admits the host's network policy, or tells the first thing that stands
/// against it.
pub fn check_network_policy(policy: &NetworkPolicy) -> (ok: Result<(), RedirectError>)
    ensures
        ok == match network_refusal(*policy) {
            Some(error) => Err::<(), RedirectError>(error),
            None => Ok(()),
        },
{
    if policy.routing != RoutingPolicyState::StandardRules {
        return Err(RedirectError::RoutingRules);
    }
    if policy.kernel != KernelPolicyState::Clear {
        return Err(RedirectError::KernelPolicy);
    }
    if policy.ip_forward != 1 {
        return Err(RedirectError::ForwardingDisabled);
    }
    if policy.ingress_forwarding != 1 {
        return Err(RedirectError::IngressForwardingDisabled);
    }
    if policy.rp_filter_all != 0 || policy.rp_filter_ingress != 0 {
        return Err(RedirectError::RpFilter);
    }
    if !are_harmless_modules(policy.security_modules.as_str()) {
        return Err(RedirectError::SecurityModule);
    }
    Ok(())
}

/// Reads the value of a kernel setting.
pub fn read_sysctl(text: &str) -> (value: Option<u32>)
    ensures
        value == match bounded_value(trimmed(text@), u32::MAX as u64) {
            Some(n) => Some(n as u32),
            None => None,
        },
{
    let chars = chars_of(text);
    let digits = trim(chars.as_slice());
    match parse_bounded(digits.as_slice(), u32::MAX as u64) {
        Some(n) => Some(n as u32),
        None => None,
    }
}

// ---------------------------------------------------------------------------
// Programs attached to a device
// ---------------------------------------------------------------------------

/// The answer to a query for multi-program attachments.
#[derive(Clone, Copy, Debug, PartialEq, Eq, Structural)]
pub enum TcxQuery {
    Programs(usize),
    /// The kernel does not know the query.
    Unknown,
    Failed,
}

/// Admits a device without multi-program attachments. Kernels before 6.6 have
/// none and do not know the query.
pub fn check_tcx(query: TcxQuery, kernel_major: u32, kernel_minor: u32) -> (ok: Result<
    (),
    RedirectError,
>)
    ensures
        ok == match query {
            TcxQuery::Programs(n) => if n == 0 {
                Ok::<(), RedirectError>(())
            } else {
                Err(RedirectError::TcxProgram)
            },
            TcxQuery::Unknown => if kernel_major < 6 || (kernel_major == 6 && kernel_minor < 6) {
                Ok(())
            } else {
                Err(RedirectError::TcxQuery)
            },
            TcxQuery::Failed => Err(RedirectError::TcxQuery),
        },
{
    match query {
        TcxQuery::Programs(n) => if n == 0 {
            Ok(())
        } else {
            Err(RedirectError::TcxProgram)
        },
        TcxQuery::Unknown => if kernel_major < 6 || (kernel_major == 6 && kernel_minor < 6) {
            Ok(())
        } else {
            Err(RedirectError::TcxQuery)
        },
        TcxQuery::Failed => Err(RedirectError::TcxQuery),
    }
}

/// Admits an output device: no filters on egress.
pub fn check_output(filters: &[TcMessage]) -> (ok: Result<(), RedirectError>)
    ensures
        ok == if filters.len() == 0 {
            Ok::<(), RedirectError>(())
        } else {
            Err(RedirectError::EgressFilter)
        },
{
    if filters.len() == 0 {
        Ok(())
    } else {
        Err(RedirectError::EgressFilter)
    }
}

// ---------------------------------------------------------------------------
// Lists of filters
// ---------------------------------------------------------------------------

/// A message of the answer to a query for filters.
#[derive(Clone, Debug)]
pub enum FilterReply {
    Filter(TcMessage),
    Done(i32),
    Error(i32),
    Other,
}

/// The places of the filters in an answer, whose messages come with their flags. A
/// list that was disturbed or cut short is none.
pub open spec fn filter_places(replies: Seq<(u16, FilterReply)>) -> Result<Seq<int>, RedirectError>
    decreases replies.len(),
{
    if replies.len() == 0 {
        Ok(Seq::empty())
    } else {
        match filter_places(replies.drop_last()) {
            Err(error) => Err(error),
            Ok(before) => if replies.last().0 & NLM_F_DUMP_INTR != 0 {
                Err(RedirectError::TcInterrupted)
            } else {
                match replies.last().1 {
                    FilterReply::Filter(_) => Ok(before.push(replies.len() - 1)),
                    FilterReply::Done(code) => if code == 0 {
                        Ok(before)
                    } else {
                        Err(RedirectError::TcDumpFailed)
                    },
                    FilterReply::Error(code) => Err(RedirectError::TcQuery(code)),
                    FilterReply::Other => Err(RedirectError::TcUnexpected),
                }
            },
        }
    }
}

proof fn lemma_filter_places_stop(replies: Seq<(u16, FilterReply)>, n: int)
    requires
        0 <= n <= replies.len(),
        filter_places(replies.take(n)) is Err,
    ensures
        filter_places(replies) == filter_places(replies.take(n)),
    decreases replies.len() - n,
{
    if n < replies.len() {
        assert(replies.take(n + 1).drop_last() =~= replies.take(n));
        lemma_filter_places_stop(replies, n + 1);
    } else {
        assert(replies.take(n) =~= replies);
    }
}

fn filter_verdict(flags: u16, reply: &FilterReply) -> (verdict: Result<bool, RedirectError>)
    ensures
        verdict == if flags & NLM_F_DUMP_INTR != 0 {
            Err::<bool, RedirectError>(RedirectError::TcInterrupted)
        } else {
            match *reply {
                FilterReply::Filter(_) => Ok(true),
                FilterReply::Done(code) => if code == 0 {
                    Ok(false)
                } else {
                    Err(RedirectError::TcDumpFailed)
                },
                FilterReply::Error(code) => Err(RedirectError::TcQuery(code)),
                FilterReply::Other => Err(RedirectError::TcUnexpected),
            }
        },
{
    if flags & NLM_F_DUMP_INTR != 0 {
        return Err(RedirectError::TcInterrupted);
    }
    match reply {
        FilterReply::Filter(_) => Ok(true),
        FilterReply::Done(code) => if *code == 0 {
            Ok(false)
        } else {
            Err(RedirectError::TcDumpFailed)
        },
        FilterReply::Error(code) => Err(RedirectError::TcQuery(*code)),
        FilterReply::Other => Err(RedirectError::TcUnexpected),
    }
}

/// The places of the filters in an answer.
pub fn read_filters(replies: &[(u16, FilterReply)]) -> (places: Result<Vec<usize>, RedirectError>)
    ensures
        match (places, filter_places(replies@)) {
            (Ok(places), Ok(list)) => places@.map_values(|at: usize| at as int) == list,
            (Err(error), Err(fault)) => error == fault,
            _ => false,
        },
{
    let mut places: Vec<usize> = Vec::new();
    let mut i: usize = 0;
    assert(places@.map_values(|at: usize| at as int) =~= Seq::<int>::empty());
    while i < replies.len()
        invariant
            i <= replies.len(),
            filter_places(replies@.take(i as int)) == Ok::<Seq<int>, RedirectError>(
                places@.map_values(|at: usize| at as int),
            ),
        decreases replies.len() - i,
    {
        assert(replies@.take(i + 1).drop_last() =~= replies@.take(i as int));
        assert(replies@.take(i + 1).last() == replies@[i as int]);
        match filter_verdict(replies[i].0, &replies[i].1) {
            Err(error) => {
                proof {
                    lemma_filter_places_stop(replies@, i + 1);
                }
                return Err(error);
            },
            Ok(true) => {
                let ghost before = places@;
                places.push(i);
                assert(places@.map_values(|at: usize| at as int) =~= before.map_values(
                    |at: usize| at as int,
                ).push(i as int));
            },
            Ok(false) => {},
        }
        i += 1;
    }
    assert(replies@.take(replies@.len() as int) =~= replies@);
    Ok(places)
}

// ---------------------------------------------------------------------------
// Summaries and filters
// ---------------------------------------------------------------------------

/// Whether an attribute may stand in a classifier's summary.
pub open spec fn summary_attribute(attribute: TcAttribute) -> bool {
    match attribute {
        TcAttribute::Kind(kind) => kind@ == "bpf"@,
        TcAttribute::Chain(chain) => chain == 0,
        _ => false,
    }
}

/// What the filters of a device were found to be.
pub struct FilterScan {
    pub error: Option<RedirectError>,
    pub summaries: Seq<u32>,
    pub programs: Seq<int>,
}

/// What the filters come to, read in order: summaries of classifiers, each once,
/// and the places of the filters proper.
pub open spec fn scan_filters(filters: Seq<TcMessage>) -> FilterScan
    decreases filters.len(),
{
    if filters.len() == 0 {
        FilterScan { error: None, summaries: Seq::empty(), programs: Seq::empty() }
    } else {
        let before = scan_filters(filters.drop_last());
        let filter = filters.last();
        if before.error is Some {
            before
        } else if filter.handle != 0 {
            FilterScan { programs: before.programs.push(filters.len() - 1), ..before }
        } else if !forall|i: int|
            0 <= i < filter.attributes.len() ==> summary_attribute(#[trigger] filter.attributes[i]) {
            FilterScan { error: Some(RedirectError::TcSummary), ..before }
        } else if before.summaries.contains(filter.info) {
            FilterScan { error: Some(RedirectError::DuplicateSummary), ..before }
        } else {
            FilterScan { summaries: before.summaries.push(filter.info), ..before }
        }
    }
}

/// Whether every program has a summary of its own.
pub open spec fn summaries_match(filters: Seq<TcMessage>, scan: FilterScan) -> bool {
    &&& forall|i: int|
        0 <= i < scan.programs.len() ==> scan.summaries.contains(
            filters[#[trigger] scan.programs[i]].info,
        )
    &&& forall|i: int, j: int|
        0 <= i < j < scan.programs.len() ==> filters[#[trigger] scan.programs[i]].info
            != filters[#[trigger] scan.programs[j]].info
}

/// Why the filters of a device are not exactly `count` known ones.
pub open spec fn filters_refusal(filters: Seq<TcMessage>, count: usize) -> Option<RedirectError> {
    let scan = scan_filters(filters);
    if scan.error is Some {
        scan.error
    } else if scan.summaries.len() != count || scan.programs.len() != count {
        Some(RedirectError::ForeignFilters)
    } else if !summaries_match(filters, scan) {
        Some(RedirectError::SummaryMismatch)
    } else {
        None
    }
}

/// Places as plain numbers.
pub open spec fn places(at: Seq<usize>) -> Seq<int> {
    at.map_values(|i: usize| i as int)
}

fn is_summary(attributes: &[TcAttribute]) -> (b: bool)
    ensures
        b == forall|i: int|
            0 <= i < attributes.len() ==> summary_attribute(#[trigger] attributes@[i]),
{
    let mut i: usize = 0;
    while i < attributes.len()
        invariant
            i <= attributes.len(),
            forall|j: int| 0 <= j < i ==> summary_attribute(#[trigger] attributes@[j]),
        decreases attributes.len() - i,
    {
        let known = match &attributes[i] {
            TcAttribute::Kind(kind) => same_text(kind.as_str(), "bpf"),
            TcAttribute::Chain(chain) => *chain == 0,
            _ => false,
        };
        if !known {
            assert(!summary_attribute(attributes@[i as int]));
            return false;
        }
        i += 1;
    }
    true
}

fn has_number(list: &[u32], x: u32) -> (b: bool)
    ensures
        b == list@.contains(x),
{
    let mut i: usize = 0;
    while i < list.len()
        invariant
            i <= list.len(),
            forall|j: int| 0 <= j < i ==> list@[j] != x,
        decreases list.len() - i,
    {
        if list[i] == x {
            assert(list@[i as int] == x);
            return true;
        }
        i += 1;
    }
    false
}

proof fn lemma_scan_filters_stops(filters: Seq<TcMessage>, n: int)
    requires
        0 <= n <= filters.len(),
        scan_filters(filters.take(n)).error is Some,
    ensures
        scan_filters(filters) == scan_filters(filters.take(n)),
    decreases filters.len() - n,
{
    if n < filters.len() {
        assert(filters.take(n + 1).drop_last() =~= filters.take(n));
        lemma_scan_filters_stops(filters, n + 1);
    } else {
        assert(filters.take(n) =~= filters);
    }
}

/// The places of the filters proper, if there are exactly `count` of them, each
/// with its own summary, and nothing else.
pub fn ingress_programs(filters: &[TcMessage], count: usize) -> (at: Result<
    Vec<usize>,
    RedirectError,
>)
    ensures
        match at {
            Err(error) => filters_refusal(filters@, count) == Some(error),
            Ok(at) => filters_refusal(filters@, count) is None && places(at@) == scan_filters(
                filters@,
            ).programs && at.len() == count && forall|i: int|
                0 <= i < at.len() ==> #[trigger] at@[i] < filters.len(),
        },
{
    let mut summaries: Vec<u32> = Vec::new();
    let mut programs: Vec<usize> = Vec::new();
    let mut i: usize = 0;
    assert(places(programs@) =~= Seq::<int>::empty());
    while i < filters.len()
        invariant
            i <= filters.len(),
            scan_filters(filters@.take(i as int)) == (FilterScan {
                error: None,
                summaries: summaries@,
                programs: places(programs@),
            }),
            forall|k: int| 0 <= k < programs.len() ==> #[trigger] programs@[k] < i,
        decreases filters.len() - i,
    {
        let filter = &filters[i];
        assert(filters@.take(i + 1).drop_last() =~= filters@.take(i as int));
        if filter.handle == 0 {
            if !is_summary(filter.attributes.as_slice()) {
                proof {
                    lemma_scan_filters_stops(filters@, i + 1);
                }
                return Err(RedirectError::TcSummary);
            }
            if has_number(summaries.as_slice(), filter.info) {
                proof {
                    lemma_scan_filters_stops(filters@, i + 1);
                }
                return Err(RedirectError::DuplicateSummary);
            }
            summaries.push(filter.info);
        } else {
            let ghost before = programs@;
            programs.push(i);
            assert(places(programs@) =~= places(before).push(i as int));
        }
        i += 1;
    }
    assert(filters@.take(filters@.len() as int) =~= filters@);
    let ghost scan = scan_filters(filters@);
    if summaries.len() != count || programs.len() != count {
        return Err(RedirectError::ForeignFilters);
    }
    let mut k: usize = 0;
    while k < programs.len()
        invariant
            k <= programs.len(),
            scan == scan_filters(filters@),
            scan.error is None,
            scan.summaries == summaries@,
            scan.programs == places(programs@),
            summaries.len() == count,
            programs.len() == count,
            forall|p: int| 0 <= p < programs.len() ==> #[trigger] programs@[p] < filters.len(),
            forall|p: int|
                0 <= p < k ==> scan.summaries.contains(filters@[#[trigger] scan.programs[p]].info),
            forall|p: int, q: int|
                0 <= p < q < k ==> filters@[#[trigger] scan.programs[p]].info
                    != filters@[#[trigger] scan.programs[q]].info,
        decreases programs.len() - k,
    {
        let info: u32 = filters[programs[k]].info;
        assert(scan.programs[k as int] == programs@[k as int]);
        if !has_number(summaries.as_slice(), info) {
            assert(!scan.summaries.contains(filters@[scan.programs[k as int]].info));
            return Err(RedirectError::SummaryMismatch);
        }
        let mut m: usize = 0;
        while m < k
            invariant
                m <= k < programs.len(),
                scan.programs == places(programs@),
                info == filters@[scan.programs[k as int]].info,
                scan == scan_filters(filters@),
                scan.error is None,
                scan.summaries.len() == count,
                scan.programs.len() == count,
                forall|p: int| 0 <= p < programs.len() ==> #[trigger] programs@[p] < filters.len(),
                forall|p: int|
                    0 <= p < m ==> filters@[#[trigger] scan.programs[p]].info != info,
            decreases k - m,
        {
            assert(scan.programs[m as int] == programs@[m as int]);
            if filters[programs[m]].info == info {
                assert(filters@[scan.programs[m as int]].info
                    == filters@[scan.programs[k as int]].info);
                return Err(RedirectError::SummaryMismatch);
            }
            m += 1;
        }
        k += 1;
    }
    Ok(programs)
}

// ---------------------------------------------------------------------------
// The program of a filter
// ---------------------------------------------------------------------------

/// What a classifier's options say, up to the first that cannot be accepted.
pub struct BpfScan {
    pub error: Option<RedirectError>,
    pub flags: Option<u32>,
    pub id: Option<u32>,
}

/// The type of an attribute without its flag bits.
pub open spec fn plain_kind(kind: u16) -> u16 {
    kind % 0x4000
}

/// The number that an attribute of four bytes holds.
pub open spec fn attr_number(order: ByteOrder, value: Seq<u8>) -> Option<u32> {
    if value.len() == 4 {
        Some(host_value(order, value) as u32)
    } else {
        None
    }
}

/// What one attribute of a classifier adds: its flags (8), its program (11), its
/// generic flags (9), its class (3), and an action or a policer (1, 2).
pub open spec fn scan_bpf_attr(order: ByteOrder, scan: BpfScan, attr: (u16, Seq<u8>)) -> BpfScan {
    let kind = plain_kind(attr.0);
    let number = attr_number(order, attr.1);
    if scan.error is Some {
        scan
    } else if kind == 1 || kind == 2 {
        BpfScan { error: Some(RedirectError::TcAction), ..scan }
    } else if kind == 8 || kind == 11 || kind == 9 || kind == 3 {
        match number {
            None => BpfScan { error: Some(RedirectError::TcAttributes), ..scan },
            Some(n) => if kind == 8 {
                BpfScan { flags: Some(n), ..scan }
            } else if kind == 11 {
                BpfScan { id: Some(n), ..scan }
            } else if kind == 9 {
                if n & !0x0du32 == 0 {
                    scan
                } else {
                    BpfScan { error: Some(RedirectError::TcFlags), ..scan }
                }
            } else if n == 0 {
                scan
            } else {
                BpfScan { error: Some(RedirectError::TcClass), ..scan }
            },
        }
    } else {
        scan
    }
}

/// What attributes of a classifier add, in order.
pub open spec fn scan_bpf_attrs(
    order: ByteOrder,
    scan: BpfScan,
    list: Seq<(u16, Seq<u8>)>,
) -> BpfScan
    decreases list.len(),
{
    if list.len() == 0 {
        scan
    } else {
        scan_bpf_attr(order, scan_bpf_attrs(order, scan, list.drop_last()), list.last())
    }
}

/// What one option adds.
pub open spec fn scan_option(order: ByteOrder, scan: BpfScan, option: TcOption) -> BpfScan {
    if scan.error is Some {
        scan
    } else {
        match option {
            TcOption::Parsed => BpfScan { error: Some(RedirectError::BpfOptions), ..scan },
            TcOption::Raw(bytes) => {
                let read = scan_bpf_attrs(order, scan, attrs(order, bytes@, 0));
                if read.error is None && attrs_end(order, bytes@, 0) != AttrEnd::Whole {
                    BpfScan { error: Some(RedirectError::TcAttributes), ..read }
                } else {
                    read
                }
            },
        }
    }
}

/// What options add, in order.
pub open spec fn scan_options(order: ByteOrder, scan: BpfScan, options: Seq<TcOption>) -> BpfScan
    decreases options.len(),
{
    if options.len() == 0 {
        scan
    } else {
        scan_option(order, scan_options(order, scan, options.drop_last()), options.last())
    }
}

/// What the attributes of a filter say.
pub open spec fn scan_bpf(order: ByteOrder, attributes: Seq<TcAttribute>) -> BpfScan
    decreases attributes.len(),
{
    if attributes.len() == 0 {
        BpfScan { error: None, flags: None, id: None }
    } else {
        let before = scan_bpf(order, attributes.drop_last());
        if before.error is Some {
            before
        } else {
            match attributes.last() {
                TcAttribute::Chain(chain) => if chain == 0 {
                    before
                } else {
                    BpfScan { error: Some(RedirectError::TcChain), ..before }
                },
                TcAttribute::Options(options) => scan_options(order, before, options@),
                _ => before,
            }
        }
    }
}

/// Whether a filter is of the BPF kind.
pub open spec fn is_bpf(attributes: Seq<TcAttribute>) -> bool {
    exists|i: int|
        0 <= i < attributes.len() && (#[trigger] attributes[i] matches TcAttribute::Kind(kind)
            && kind@ == "bpf"@)
}

/// The program of a filter in direct-action mode.
pub open spec fn filter_program(order: ByteOrder, filter: TcMessage) -> Result<u32, RedirectError> {
    let scan = scan_bpf(order, filter.attributes@);
    if !is_bpf(filter.attributes@) {
        Err(RedirectError::NonBpfFilter)
    } else if scan.error is Some {
        Err(scan.error->0)
    } else if scan.flags != Some(1u32) {
        Err(RedirectError::DirectAction)
    } else if scan.id is None {
        Err(RedirectError::ProgramIdMissing)
    } else {
        Ok(scan.id->0)
    }
}

fn read_bpf_attr(order: ByteOrder, scan: &mut BpfScan, attr: &Attr)
    ensures
        *final(scan) == scan_bpf_attr(order, *old(scan), attr_view(*attr)),
{
    if scan.error.is_some() {
        return ;
    }
    let kind: u16 = attr.kind % 0x4000;
    if kind == 1 || kind == 2 {
        scan.error = Some(RedirectError::TcAction);
    } else if kind == 8 || kind == 11 || kind == 9 || kind == 3 {
        if attr.value.len() != 4 {
            scan.error = Some(RedirectError::TcAttributes);
            return ;
        }
        proof {
            lemma_pow256();
        }
        assert(attr.value@.subrange(0, 4) =~= attr.value@);
        let n: u32 = read_host(order, attr.value.as_slice(), 0, 4) as u32;
        if kind == 8 {
            scan.flags = Some(n);
        } else if kind == 11 {
            scan.id = Some(n);
        } else if kind == 9 {
            if n & !0x0du32 != 0 {
                scan.error = Some(RedirectError::TcFlags);
            }
        } else if n != 0 {
            scan.error = Some(RedirectError::TcClass);
        }
    }
}

fn read_option(order: ByteOrder, scan: &mut BpfScan, option: &TcOption)
    requires
        option matches TcOption::Raw(bytes) ==> bytes.len() <= usize::MAX - 0x1_0000,
    ensures
        *final(scan) == scan_option(order, *old(scan), *option),
{
    if scan.error.is_some() {
        return ;
    }
    match option {
        TcOption::Parsed => {
            scan.error = Some(RedirectError::BpfOptions);
        },
        TcOption::Raw(bytes) => {
            let ghost start = *scan;
            let list = read_attrs(order, bytes.as_slice(), 0);
            let ghost views = attr_views(list.items@);
            let mut i: usize = 0;
            while i < list.items.len()
                invariant
                    i <= list.items.len(),
                    views == attr_views(list.items@),
                    *scan == scan_bpf_attrs(order, start, views.take(i as int)),
                decreases list.items.len() - i,
            {
                assert(views.take(i + 1).drop_last() =~= views.take(i as int));
                assert(views[i as int] == attr_view(list.items@[i as int]));
                read_bpf_attr(order, scan, &list.items[i]);
                i += 1;
            }
            assert(views.take(views.len() as int) =~= views);
            if scan.error.is_none() && list.end != AttrEnd::Whole {
                scan.error = Some(RedirectError::TcAttributes);
            }
        },
    }
}

/// Whether the options of a filter are short enough to be read.
pub open spec fn options_fit(filter: TcMessage) -> bool {
    forall|i: int, j: int|
        0 <= i < filter.attributes.len() && filter.attributes[i] is Options && 0 <= j
            < filter.attributes[i]->Options_0.len() ==> option_fits(
            #[trigger] filter.attributes[i]->Options_0[j],
        )
}

/// Whether an option is short enough to be read.
pub open spec fn option_fits(option: TcOption) -> bool {
    option matches TcOption::Raw(bytes) ==> bytes.len() <= usize::MAX - 0x1_0000
}

/// The program of a filter. It must run in direct-action mode, without class,
/// chain, action or policer.
pub fn bpf_id(order: ByteOrder, filter: &TcMessage) -> (id: Result<u32, RedirectError>)
    requires
        options_fit(*filter),
    ensures
        id == filter_program(order, *filter),
{
    let mut scan = BpfScan { error: None, flags: None, id: None };
    let mut bpf: bool = false;
    let mut i: usize = 0;
    while i < filter.attributes.len()
        invariant
            i <= filter.attributes.len(),
            options_fit(*filter),
            scan == scan_bpf(order, filter.attributes@.take(i as int)),
            bpf == exists|j: int|
                0 <= j < i && (#[trigger] filter.attributes[j] matches TcAttribute::Kind(kind)
                    && kind@ == "bpf"@),
        decreases filter.attributes.len() - i,
    {
        assert(filter.attributes@.take(i + 1).drop_last() =~= filter.attributes@.take(i as int));
        match &filter.attributes[i] {
            TcAttribute::Kind(kind) => {
                if same_text(kind.as_str(), "bpf") {
                    assert(filter.attributes[i as int] matches TcAttribute::Kind(kind) && kind@
                        == "bpf"@);
                    bpf = true;
                }
            },
            TcAttribute::Chain(chain) => {
                if scan.error.is_none() && *chain != 0 {
                    scan.error = Some(RedirectError::TcChain);
                }
            },
            TcAttribute::Options(options) => {
                if scan.error.is_none() {
                    let ghost start = scan;
                    let mut k: usize = 0;
                    while k < options.len()
                        invariant
                            k <= options.len(),
                            i < filter.attributes.len(),
                            options_fit(*filter),
                            filter.attributes[i as int] == TcAttribute::Options(*options),
                            scan == scan_options(order, start, options@.take(k as int)),
                        decreases options.len() - k,
                    {
                        assert(options@.take(k + 1).drop_last() =~= options@.take(k as int));
                        assert(option_fits(filter.attributes[i as int]->Options_0[k as int]));
                        read_option(order, &mut scan, &options[k]);
                        k += 1;
                    }
                    assert(options@.take(options@.len() as int) =~= options@);
                }
            },
            TcAttribute::Other => {},
        }
        i += 1;
    }
    assert(filter.attributes@.take(filter.attributes@.len() as int) =~= filter.attributes@);
    if !bpf {
        return Err(RedirectError::NonBpfFilter);
    }
    match scan.error {
        Some(error) => {
            return Err(error);
        },
        None => {},
    }
    match scan.flags {
        Some(1) => {},
        _ => {
            return Err(RedirectError::DirectAction);
        },
    }
    match scan.id {
        Some(id) => Ok(id),
        None => Err(RedirectError::ProgramIdMissing),
    }
}

// ---------------------------------------------------------------------------
// The classifiers of the cache
// ---------------------------------------------------------------------------

/// How far the forward classifier's priority lies behind the marker's.
pub const FORWARD_PRIORITY_OFFSET: u16 = 10;

/// The selector of all protocols, as a filter holds it.
pub open spec fn all_protocols(order: ByteOrder) -> u32 {
    match order {
        ByteOrder::Little => 0x300,
        ByteOrder::Big => 3,
    }
}

fn protocol_selector(order: ByteOrder) -> (selector: u32)
    ensures
        selector == all_protocols(order),
{
    match order {
        ByteOrder::Little => 0x300,
        ByteOrder::Big => 3,
    }
}

/// The program of an ingress filter and the map that it must own: the marker's
/// at `pref`, the route cache behind it.
pub open spec fn expected_owner(
    order: ByteOrder,
    filter: TcMessage,
    pref: u16,
    marker_id: u32,
    route_id: u32,
) -> Result<(u32, u32), RedirectError> {
    let priority = filter.info / 0x1_0000;
    if filter.info % 0x1_0000 != all_protocols(order) {
        Err(RedirectError::ProtocolSelector)
    } else if priority != pref && priority != pref + FORWARD_PRIORITY_OFFSET {
        Err(RedirectError::TcPriority)
    } else {
        match filter_program(order, filter) {
            Ok(id) => Ok(
                (
                    id,
                    if priority == pref {
                        marker_id
                    } else {
                        route_id
                    },
                ),
            ),
            Err(error) => Err(error),
        }
    }
}

/// The programs that must own the marker's map and the route cache, in the order
/// of their filters.
pub open spec fn expected_programs(
    order: ByteOrder,
    filters: Seq<TcMessage>,
    pref: u16,
    marker_id: u32,
    route_id: u32,
) -> Result<((u32, u32), (u32, u32)), RedirectError> {
    if filters_refusal(filters, 2) is Some {
        Err(filters_refusal(filters, 2)->0)
    } else {
        let at = scan_filters(filters).programs;
        let first = expected_owner(order, filters[at[0]], pref, marker_id, route_id);
        let second = expected_owner(order, filters[at[1]], pref, marker_id, route_id);
        match (first, second) {
            (Err(error), _) => Err(error),
            (Ok(_), Err(error)) => Err(error),
            (Ok(a), Ok(b)) => if a.1 == b.1 {
                Err(RedirectError::DuplicatePriority)
            } else {
                Ok((a, b))
            },
        }
    }
}

fn find_owner(
    order: ByteOrder,
    filter: &TcMessage,
    pref: u16,
    marker_id: u32,
    route_id: u32,
) -> (owner: Result<(u32, u32), RedirectError>)
    requires
        options_fit(*filter),
    ensures
        owner == expected_owner(order, *filter, pref, marker_id, route_id),
{
    if filter.info % 0x1_0000 != protocol_selector(order) {
        return Err(RedirectError::ProtocolSelector);
    }
    let priority: u32 = filter.info / 0x1_0000;
    let map_id: u32 = if priority == pref as u32 {
        marker_id
    } else if priority == pref as u32 + 10 {
        route_id
    } else {
        return Err(RedirectError::TcPriority);
    };
    match bpf_id(order, filter) {
        Ok(id) => Ok((id, map_id)),
        Err(error) => Err(error),
    }
}

/// Checks the ingress filters and tells which program must own which map.
pub fn check_tc(
    order: ByteOrder,
    filters: &[TcMessage],
    pref: u16,
    marker_id: u32,
    route_id: u32,
) -> (expected: Result<((u32, u32), (u32, u32)), RedirectError>)
    requires
        forall|i: int| 0 <= i < filters.len() ==> options_fit(#[trigger] filters@[i]),
    ensures
        expected == expected_programs(order, filters@, pref, marker_id, route_id),
{
    let at = match ingress_programs(filters, 2) {
        Ok(at) => at,
        Err(error) => {
            return Err(error);
        },
    };
    assert(places(at@)[0] == at@[0] && places(at@)[1] == at@[1]);
    let first = match find_owner(order, &filters[at[0]], pref, marker_id, route_id) {
        Ok(owner) => owner,
        Err(error) => {
            return Err(error);
        },
    };
    let second = match find_owner(order, &filters[at[1]], pref, marker_id, route_id) {
        Ok(owner) => owner,
        Err(error) => {
            return Err(error);
        },
    };
    if first.1 == second.1 {
        Err(RedirectError::DuplicatePriority)
    } else {
        Ok((first, second))
    }
}

/// The program that must own the return leases.
pub open spec fn expected_return_program(
    order: ByteOrder,
    filters: Seq<TcMessage>,
    priority: u16,
    map_id: u32,
) -> Result<(u32, u32), RedirectError> {
    if filters_refusal(filters, 1) is Some {
        Err(filters_refusal(filters, 1)->0)
    } else {
        let filter = filters[scan_filters(filters).programs[0]];
        if filter.info % 0x1_0000 != all_protocols(order) || filter.info / 0x1_0000 != priority {
            Err(RedirectError::ReturnTcSelector)
        } else {
            match filter_program(order, filter) {
                Ok(id) => Ok((id, map_id)),
                Err(error) => Err(error),
            }
        }
    }
}

/// Checks the filter of the overlay and tells which program must own the return
/// leases.
pub fn check_return_tc(order: ByteOrder, filters: &[TcMessage], priority: u16, map_id: u32) -> (
    expected: Result<(u32, u32), RedirectError>)
    requires
        forall|i: int| 0 <= i < filters.len() ==> options_fit(#[trigger] filters@[i]),
    ensures
        expected == expected_return_program(order, filters@, priority, map_id),
{
    let at = match ingress_programs(filters, 1) {
        Ok(at) => at,
        Err(error) => {
            return Err(error);
        },
    };
    assert(places(at@)[0] == at@[0]);
    let filter = &filters[at[0]];
    if filter.info % 0x1_0000 != protocol_selector(order) || filter.info / 0x1_0000
        != priority as u32 {
        return Err(RedirectError::ReturnTcSelector);
    }
    match bpf_id(order, filter) {
        Ok(id) => Ok((id, map_id)),
        Err(error) => Err(error),
    }
}

// ---------------------------------------------------------------------------
// Which program owns which map
// ---------------------------------------------------------------------------

/// A program that is loaded, and the maps that it uses where the kernel tells.
#[derive(Clone, Debug)]
pub struct LoadedProgram {
    pub id: u32,
    pub map_ids: Option<Vec<u32>>,
}

/// The first expectation of a program.
pub open spec fn first_expected(expected: Seq<(u32, u32)>, id: u32) -> Option<int>
    decreases expected.len(),
{
    if expected.len() == 0 {
        None
    } else if expected[0].0 == id {
        Some(0)
    } else {
        match first_expected(expected.skip(1), id) {
            Some(i) => Some(i + 1),
            None => None,
        }
    }
}

/// `s` without its element `i`, whose place the last one takes.
pub open spec fn swap_removed(s: Seq<(u32, u32)>, i: int) -> Seq<(u32, u32)> {
    s.update(i, s.last()).drop_last()
}

/// What the loaded programs leave of the expectations, looked at in order until
/// none is left.
pub open spec fn owners_refusal(
    expected: Seq<(u32, u32)>,
    loaded: Seq<LoadedProgram>,
) -> Option<RedirectError>
    decreases loaded.len(),
{
    if loaded.len() == 0 {
        if expected.len() == 0 {
            None
        } else {
            Some(RedirectError::ProgramDisappeared)
        }
    } else {
        let program = loaded[0];
        match first_expected(expected, program.id) {
            None => if expected.len() == 0 {
                None
            } else {
                owners_refusal(expected, loaded.skip(1))
            },
            Some(i) => match program.map_ids {
                None => Some(RedirectError::MapIdsUnavailable),
                Some(ids) => if !ids@.contains(expected[i].1) {
                    Some(RedirectError::ForeignMap)
                } else if expected.len() == 1 {
                    None
                } else {
                    owners_refusal(swap_removed(expected, i), loaded.skip(1))
                },
            },
        }
    }
}

fn find_expected(expected: &[(u32, u32)], id: u32) -> (at: Option<usize>)
    ensures
        match at {
            Some(i) => i < expected.len() && first_expected(expected@, id) == Some(i as int),
            None => first_expected(expected@, id) is None,
        },
{
    let mut i: usize = 0;
    assert(expected@.skip(0) =~= expected@);
    while i < expected.len()
        invariant
            i <= expected.len(),
            first_expected(expected@, id) == match first_expected(expected@.skip(i as int), id) {
                Some(k) => Some(k + i),
                None => None,
            },
        decreases expected.len() - i,
    {
        assert(expected@.skip(i as int).skip(1) =~= expected@.skip(i + 1));
        if expected[i].0 == id {
            return Some(i);
        }
        i += 1;
    }
    None
}

/// Checks that every expected program is loaded and owns its map. A name proves
/// nothing; the identity of the map does.
pub fn check_program_maps(expected: Vec<(u32, u32)>, loaded: &[LoadedProgram]) -> (ok: Result<
    (),
    RedirectError,
>)
    ensures
        ok == match owners_refusal(expected@, loaded@) {
            Some(error) => Err::<(), RedirectError>(error),
            None => Ok(()),
        },
{
    let ghost whole = owners_refusal(expected@, loaded@);
    let mut open = expected;
    let mut i: usize = 0;
    assert(loaded@.skip(0) =~= loaded@);
    while i < loaded.len()
        invariant
            i <= loaded.len(),
            whole == owners_refusal(expected@, loaded@),
            whole == owners_refusal(open@, loaded@.skip(i as int)),
        decreases loaded.len() - i,
    {
        assert(loaded@.skip(i as int).skip(1) =~= loaded@.skip(i + 1));
        let program = &loaded[i];
        if let Some(at) = find_expected(open.as_slice(), program.id) {
            match &program.map_ids {
                None => {
                    return Err(RedirectError::MapIdsUnavailable);
                },
                Some(ids) => {
                    if !has_number(ids.as_slice(), open[at].1) {
                        return Err(RedirectError::ForeignMap);
                    }
                },
            }
            let ghost before = open@;
            let n: usize = open.len();
            let last = open[n - 1];
            open.set(at, last);
            open.pop();
            assert(open@ =~= swap_removed(before, at as int));
        }
        if open.len() == 0 {
            return Ok(());
        }
        i += 1;
    }
    if open.len() == 0 {
        Ok(())
    } else {
        Err(RedirectError::ProgramDisappeared)
    }
}

// ---------------------------------------------------------------------------
// Laws
// ---------------------------------------------------------------------------

/// Packets leave the kernel's path only on a host with the standard rules, without filters
/// and policies, that forwards, also on the device they come in by, that does not filter by
/// the way back, and whose security modules are all among those that leave packets alone.
pub proof fn law_host_is_admitted_only_so(policy: NetworkPolicy)
    ensures
        network_refusal(policy) is None <==> {
            &&& policy.routing == RoutingPolicyState::StandardRules
            &&& policy.kernel == KernelPolicyState::Clear
            &&& policy.ip_forward == 1
            &&& policy.ingress_forwarding == 1
            &&& policy.rp_filter_all == 0
            &&& policy.rp_filter_ingress == 0
            &&& forall|i: int|
                0 <= i < pieces(policy.security_modules@, ',').len() ==> {
                    let name = trimmed(#[trigger] pieces(policy.security_modules@, ',')[i]);
                    ||| name == "capability"@
                    ||| name == "landlock"@
                    ||| name == "lockdown"@
                    ||| name == "yama"@
                    ||| name == "integrity"@
                    ||| name == "apparmor"@
                }
        },
{
    let list = pieces(policy.security_modules@, ',');
    assert(forall|i: int|
        0 <= i < list.len() ==> (harmless_module(trimmed(#[trigger] list[i])) <==> {
            let name = trimmed(list[i]);
            ||| name == "capability"@
            ||| name == "landlock"@
            ||| name == "lockdown"@
            ||| name == "yama"@
            ||| name == "integrity"@
            ||| name == "apparmor"@
        }));
}

/// The selector of all protocols is the number three, as it stands in a packet.
pub proof fn law_all_protocols_is_three(order: ByteOrder)
    ensures
        host_bytes(order, all_protocols(order) as nat, 2) == be_bytes(3, 2),
{
    reveal_with_fuel(le_bytes, 3);
    reveal_with_fuel(be_bytes, 3);
    assert(host_bytes(order, all_protocols(order) as nat, 2) =~= be_bytes(3, 2));
}

/// A classifier with a priority is the marker's where it has the marker's priority, that of
/// the cache ten behind, and foreign anywhere else.
pub proof fn law_classifiers_have_their_places(
    order: ByteOrder,
    filter: TcMessage,
    pref: u16,
    marker_id: u32,
    route_id: u32,
    priority: u16,
    id: u32,
)
    requires
        filter.info == priority * 0x1_0000 + all_protocols(order),
        filter_program(order, filter) == Ok::<u32, RedirectError>(id),
    ensures
        priority == pref ==> expected_owner(order, filter, pref, marker_id, route_id) == Ok::<
            (u32, u32),
            RedirectError,
        >((id, marker_id)),
        priority == pref + 10 ==> expected_owner(order, filter, pref, marker_id, route_id) == Ok::<
            (u32, u32),
            RedirectError,
        >((id, route_id)),
        priority != pref && priority != pref + 10 ==> expected_owner(
            order,
            filter,
            pref,
            marker_id,
            route_id,
        ) is Err,
{
    assert(filter.info / 0x1_0000 == priority);
    assert(filter.info % 0x1_0000 == all_protocols(order));
}

/// A classifier names its program where it is of the BPF kind, acts directly and states the
/// program's number, with nothing that stands against it.
pub proof fn law_program_of_a_classifier(order: ByteOrder, filter: TcMessage, i: int)
    ensures
        ({
            let scan = scan_bpf(order, filter.attributes@);
            &&& filter_program(order, filter) matches Ok(id) ==> scan.error is None && scan.flags
                == Some(1u32) && scan.id == Some(id)
            &&& 0 <= i < filter.attributes@.len() && (
            filter.attributes@[i] matches TcAttribute::Kind(kind) && kind@ == "bpf"@)
                && scan.error is None && scan.flags == Some(1u32) ==> (scan.id matches Some(id)
                ==> filter_program(order, filter) == Ok::<u32, RedirectError>(id))
            &&& (forall|j: int|
                0 <= j < filter.attributes@.len() ==> !(
                #[trigger] filter.attributes@[j] is Kind)) ==> filter_program(order, filter) is Err
        }),
{
    if 0 <= i < filter.attributes@.len() && (filter.attributes@[i] matches TcAttribute::Kind(kind)
        && kind@ == "bpf"@) {
        assert(is_bpf(filter.attributes@));
    }
}

/// The attributes of a classifier: number eight is its flags, number eleven its program. An
/// action, a policer or a class stand against it.
pub proof fn law_classifier_attributes_are_read(order: ByteOrder, scan: BpfScan, value: Seq<u8>)
    requires
        scan.error is None,
        value.len() == 4,
    ensures
        scan_bpf_attr(order, scan, (8u16, value)).flags == Some(host_value(order, value) as u32),
        scan_bpf_attr(order, scan, (8u16, value)).error is None,
        scan_bpf_attr(order, scan, (8u16, value)).id == scan.id,
        scan_bpf_attr(order, scan, (11u16, value)).id == Some(host_value(order, value) as u32),
        scan_bpf_attr(order, scan, (11u16, value)).error is None,
        scan_bpf_attr(order, scan, (11u16, value)).flags == scan.flags,
        scan_bpf_attr(order, scan, (1u16, value)).error is Some,
        scan_bpf_attr(order, scan, (2u16, value)).error is Some,
        scan_bpf_attr(order, scan, (3u16, value)).error is Some <==> host_value(order, value) as u32
            != 0,
        scan_bpf_attr(order, scan, (8u16, value.push(0))).error is Some,
        scan_bpf_attr(order, scan, (11u16, value.drop_last())).error is Some,
{
}

/// A device with one classifier and its summary is admitted for one classifier, and with
/// nothing else: not without the summary, not with a summary of another, not for two.
pub proof fn law_one_classifier_has_one_summary(summary: TcMessage, program: TcMessage)
    requires
        summary.handle == 0,
        summary.attributes@.len() == 0 || (summary.attributes@.len() == 1 && (
        summary.attributes@[0] matches TcAttribute::Kind(kind) && kind@ == "bpf"@)),
        program.handle != 0,
    ensures
        filters_refusal(seq![summary, program], 1) is None <==> summary.info == program.info,
        filters_refusal(seq![summary, program], 2) is Some,
        filters_refusal(seq![program], 1) is Some,
        filters_refusal(Seq::empty(), 1) is Some,
        filters_refusal(Seq::empty(), 0) is None,
        filters_refusal(seq![summary, summary, program], 1) is Some,
{
    let none = Seq::<TcMessage>::empty();
    let one = seq![summary];
    let both = seq![summary, program];
    let twice = seq![summary, summary];
    let three = seq![summary, summary, program];
    let alone = seq![program];
    assert(one.drop_last() =~= none);
    assert(both.drop_last() =~= one);
    assert(twice.drop_last() =~= one);
    assert(three.drop_last() =~= twice);
    assert(alone.drop_last() =~= none);
    assert(forall|i: int|
        0 <= i < summary.attributes.len() ==> summary_attribute(#[trigger] summary.attributes[i]));
    let first = scan_filters(one);
    assert(scan_filters(none).summaries =~= Seq::empty());
    assert(first.summaries =~= seq![summary.info]);
    assert(first.programs =~= Seq::empty());
    let scan = scan_filters(both);
    assert(scan.summaries =~= seq![summary.info]);
    assert(scan.programs =~= seq![1int]);
    assert(seq![summary.info][0] == summary.info);
    assert(seq![summary.info].contains(summary.info));
    assert(both[1] == program);
    assert(scan.programs[0] == 1);
    if summary.info == program.info {
        assert(summaries_match(both, scan));
    } else {
        assert(!scan.summaries.contains(program.info));
        assert(!scan.summaries.contains(both[scan.programs[0]].info));
    }
    assert(scan_filters(twice).error is Some);
    assert(scan_filters(three).error is Some);
    assert(scan_filters(alone).summaries =~= Seq::empty());
}

/// Every program that has to own a map is loaded and does, or the maps are not trusted.
pub proof fn law_programs_own_their_maps(
    expected: Seq<(u32, u32)>,
    loaded: Seq<LoadedProgram>,
    e: int,
) -> (at: int)
    requires
        owners_refusal(expected, loaded) is None,
        0 <= e < expected.len(),
    ensures
        0 <= at < loaded.len(),
        loaded[at].id == expected[e].0,
        loaded[at].map_ids matches Some(ids) && ids@.contains(expected[e].1),
    decreases loaded.len(),
{
    let program = loaded[0];
    let rest = loaded.skip(1);
    match first_expected(expected, program.id) {
        None => {
            let at = law_programs_own_their_maps(expected, rest, e);
            at + 1
        },
        Some(i) => {
            lemma_first_expected(expected, program.id);
            if i == e {
                0
            } else {
                let less = swap_removed(expected, i);
                let n = if e == expected.len() - 1 {
                    i
                } else {
                    e
                };
                assert(less[n] == expected[e]);
                let at = law_programs_own_their_maps(less, rest, n);
                at + 1
            }
        },
    }
}

proof fn lemma_first_expected(expected: Seq<(u32, u32)>, id: u32)
    ensures
        first_expected(expected, id) matches Some(i) ==> 0 <= i < expected.len() && expected[i].0
            == id,
        first_expected(expected, id) is None ==> forall|i: int|
            0 <= i < expected.len() ==> (#[trigger] expected[i]).0 != id,
    decreases expected.len(),
{
    if expected.len() > 0 && expected[0].0 != id {
        let rest = expected.skip(1);
        lemma_first_expected(rest, id);
        if first_expected(expected, id) is None {
            assert forall|i: int| 0 <= i < expected.len() implies (#[trigger] expected[i]).0
                != id by {
                if i > 0 {
                    assert(rest[i - 1] == expected[i]);
                }
            }
        }
    }
}

/// A program that owns its map is trusted as soon as it is found; one with another map, or
/// whose maps the kernel does not tell, is not, whatever comes behind it.
pub proof fn law_own_map_is_trusted(id: u32, map: u32, program: LoadedProgram, rest: Seq<
    LoadedProgram,
>)
    requires
        program.id == id,
    ensures
        owners_refusal(seq![(id, map)], seq![program] + rest) is None <==> (
        program.map_ids matches Some(ids) && ids@.contains(map)),
        owners_refusal(seq![(id, map)], Seq::empty()) is Some,
        owners_refusal(Seq::empty(), rest) is None,
{
    let all = seq![program] + rest;
    assert(all[0] == program);
    assert(seq![(id, map)][0] == (id, map));
    if rest.len() > 0 {
        lemma_first_expected(Seq::empty(), rest[0].id);
    }
}

/// A list of filters counts if and only if it was not disturbed and holds filters and ends
/// without an error only; every filter in it is taken, in its order.
pub proof fn law_filter_lists_are_whole(replies: Seq<(u16, FilterReply)>, i: int)
    ensures
        filter_places(replies) is Ok <==> forall|j: int|
            0 <= j < replies.len() ==> (#[trigger] replies[j]).0 & 16 == 0 && (
            replies[j].1 is Filter || replies[j].1 == FilterReply::Done(0)),
        filter_places(replies) matches Ok(list) ==> (0 <= i < replies.len() && replies[i].1
            is Filter ==> list.contains(i)) && (forall|k: int|
            0 <= k < list.len() ==> 0 <= #[trigger] list[k] < replies.len() && replies[list[k]].1
                is Filter),
    decreases replies.len(),
{
    if replies.len() > 0 {
        let front = replies.drop_last();
        law_filter_lists_are_whole(front, i);
        assert(forall|j: int| 0 <= j < front.len() ==> front[j] == #[trigger] replies[j]);
        assert(replies[replies.len() - 1] == replies.last());
        if let (Ok(before), Ok(list)) = (filter_places(front), filter_places(replies)) {
            if replies.last().1 is Filter {
                assert(list[list.len() - 1] == replies.len() - 1);
            }
            if 0 <= i < front.len() && replies[i].1 is Filter {
                let k = choose|k: int| 0 <= k < before.len() && before[k] == i;
                assert(list[k] == i);
            }
            assert forall|k: int| 0 <= k < list.len() implies 0 <= #[trigger] list[k]
                < replies.len() && replies[list[k]].1 is Filter by {
                if k < before.len() {
                    assert(before[k] == list[k]);
                    assert(front[before[k]] == replies[before[k]]);
                }
            }
        }
    }
}

/// The two classifiers of a gateway are the marker and the forwarder: at the priority of the
/// marker one that owns its map, ten behind it one that owns the route cache. Two of one
/// priority are refused.
pub proof fn law_two_classifiers_are_expected(
    order: ByteOrder,
    filters: Seq<TcMessage>,
    pref: u16,
    marker_id: u32,
    route_id: u32,
    a: (u32, u32),
    b: (u32, u32),
)
    requires
        filters_refusal(filters, 2) is None,
        expected_owner(
            order,
            filters[scan_filters(filters).programs[0]],
            pref,
            marker_id,
            route_id,
        ) == Ok::<(u32, u32), RedirectError>(a),
        expected_owner(
            order,
            filters[scan_filters(filters).programs[1]],
            pref,
            marker_id,
            route_id,
        ) == Ok::<(u32, u32), RedirectError>(b),
    ensures
        a.1 != b.1 ==> expected_programs(order, filters, pref, marker_id, route_id) == Ok::<
            ((u32, u32), (u32, u32)),
            RedirectError,
        >((a, b)),
        a.1 == b.1 ==> expected_programs(order, filters, pref, marker_id, route_id) == Err::<
            ((u32, u32), (u32, u32)),
            RedirectError,
        >(RedirectError::DuplicatePriority),
{
}

/// The one classifier of replies is found at its priority, selects every protocol and owns the
/// map of return leases.
pub proof fn law_one_return_classifier_is_expected(
    order: ByteOrder,
    filters: Seq<TcMessage>,
    priority: u16,
    map_id: u32,
    id: u32,
)
    requires
        filters_refusal(filters, 1) is None,
        filter_program(order, filters[scan_filters(filters).programs[0]]) == Ok::<
            u32,
            RedirectError,
        >(id),
    ensures
        ({
            let filter = filters[scan_filters(filters).programs[0]];
            let found = expected_return_program(order, filters, priority, map_id);
            &&& filter.info % 65536 == all_protocols(order) && filter.info / 65536 == priority
                ==> found == Ok::<(u32, u32), RedirectError>((id, map_id))
            &&& filter.info % 65536 != all_protocols(order) || filter.info / 65536 != priority
                ==> found == Err::<(u32, u32), RedirectError>(RedirectError::ReturnTcSelector)
        }),
{
}

} // verus!
