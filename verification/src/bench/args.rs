//! The options of the load test.
use crate::config::Protocol;
use crate::text::{
    bounded_value, chars_of, decimal, law_bounded_numbers_are_taken, parse_bounded, push_decimal,
    same_text, strings, text_of, trim_end,
};
use vstd::prelude::*;

verus! {

/// The protocols under test.
#[derive(Clone, Copy, Debug, PartialEq, Eq, Structural)]
pub enum ProtocolArg {
    Tcp,
    Udp,
    Both,
}

#[derive(Clone, Copy, Debug, PartialEq, Eq, Structural)]
pub enum UdpSocketMode {
    ReusePerWorker,
    NewPerRequest,
}

#[derive(Clone, Copy, Debug, PartialEq, Eq, Structural)]
pub enum TcpConnMode {
    NewPerRequest,
    ReusePerWorker,
}

/// The options of a test.
#[derive(Clone, Debug)]
pub struct BenchConfig {
    pub target: String,
    pub port: u16,
    pub protocol: ProtocolArg,
    pub duration_secs: u64,
    pub concurrency: usize,
    pub payload: String,
    pub timeout_ms: u64,
    pub expect: String,
    pub out: Option<String>,
    pub udp_source_port: Option<u16>,
    pub interval_us: Option<u128>,
    pub udp_socket_mode: UdpSocketMode,
    pub tcp_conn_mode: TcpConnMode,
}

/// The options of a test, as plain values.
pub struct BenchView {
    pub target: Seq<char>,
    pub port: u16,
    pub protocol: ProtocolArg,
    pub duration_secs: u64,
    pub concurrency: usize,
    pub payload: Seq<char>,
    pub timeout_ms: u64,
    pub expect: Seq<char>,
    pub out: Option<Seq<char>>,
    pub udp_source_port: Option<u16>,
    pub interval_us: Option<u128>,
    pub udp_socket_mode: UdpSocketMode,
    pub tcp_conn_mode: TcpConnMode,
}

impl View for BenchConfig {
    type V = BenchView;

    open spec fn view(&self) -> BenchView {
        BenchView {
            target: self.target@,
            port: self.port,
            protocol: self.protocol,
            duration_secs: self.duration_secs,
            concurrency: self.concurrency,
            payload: self.payload@,
            timeout_ms: self.timeout_ms,
            expect: self.expect@,
            out: match self.out {
                Some(out) => Some(out@),
                None => None,
            },
            udp_source_port: self.udp_source_port,
            interval_us: self.interval_us,
            udp_socket_mode: self.udp_socket_mode,
            tcp_conn_mode: self.tcp_conn_mode,
        }
    }
}

/// The options without any argument.
pub open spec fn defaults() -> BenchView {
    BenchView {
        target: "192.168.0.6"@,
        port: 8080,
        protocol: ProtocolArg::Both,
        duration_secs: 60,
        concurrency: 8,
        payload: "discover\n"@,
        timeout_ms: 1000,
        expect: "\"private_ipv4\""@,
        out: None,
        udp_source_port: None,
        interval_us: None,
        udp_socket_mode: UdpSocketMode::ReusePerWorker,
        tcp_conn_mode: TcpConnMode::NewPerRequest,
    }
}

impl Default for BenchConfig {
    fn default() -> (cfg: Self)
        ensures
            cfg@ == defaults(),
    {
        BenchConfig {
            target: String::from_str("192.168.0.6"),
            port: 8080,
            protocol: ProtocolArg::Both,
            duration_secs: 60,
            concurrency: 8,
            payload: String::from_str("discover\n"),
            timeout_ms: 1000,
            expect: String::from_str("\"private_ipv4\""),
            out: None,
            udp_source_port: None,
            interval_us: None,
            udp_socket_mode: UdpSocketMode::ReusePerWorker,
            tcp_conn_mode: TcpConnMode::NewPerRequest,
        }
    }
}

/// Why arguments are refused.
#[derive(Clone, Debug)]
pub enum ArgError {
    Unknown(String),
    MissingValue(String),
    BadProtocol,
    BadPort(String),
    NotPositive(String),
    ParallelSourcePort,
}

/// Why arguments are refused, as plain values.
pub enum ArgFault {
    Unknown(Seq<char>),
    MissingValue(Seq<char>),
    BadProtocol,
    BadPort(Seq<char>),
    NotPositive(Seq<char>),
    ParallelSourcePort,
}

impl View for ArgError {
    type V = ArgFault;

    open spec fn view(&self) -> ArgFault {
        match *self {
            ArgError::Unknown(arg) => ArgFault::Unknown(arg@),
            ArgError::MissingValue(name) => ArgFault::MissingValue(name@),
            ArgError::BadProtocol => ArgFault::BadProtocol,
            ArgError::BadPort(name) => ArgFault::BadPort(name@),
            ArgError::NotPositive(name) => ArgFault::NotPositive(name@),
            ArgError::ParallelSourcePort => ArgFault::ParallelSourcePort,
        }
    }
}

/// The text of a refusal.
pub open spec fn fault_text(fault: ArgFault) -> Seq<char> {
    match fault {
        ArgFault::Unknown(arg) => "unknown argument: "@ + arg,
        ArgFault::MissingValue(name) => name + " requires a value"@,
        ArgFault::BadProtocol => "--protocol must be tcp, udp, or both"@,
        ArgFault::BadPort(name) => name + " must be in range 1..=65535"@,
        ArgFault::NotPositive(name) => name + " must be positive"@,
        ArgFault::ParallelSourcePort =>
            "--udp-source-port requires --concurrency 1 because a UDP source port can only be bound by one worker"@,
    }
}

impl ArgError {
    /// The text of a refusal.
    pub fn message(&self) -> (text: String)
        ensures
            text@ == fault_text(self@),
    {
        match self {
            ArgError::Unknown(arg) => {
                let mut text = String::from_str("unknown argument: ");
                text.append(arg.as_str());
                text
            },
            ArgError::MissingValue(name) => {
                let mut text = name.clone();
                text.append(" requires a value");
                text
            },
            ArgError::BadProtocol => String::from_str("--protocol must be tcp, udp, or both"),
            ArgError::BadPort(name) => {
                let mut text = name.clone();
                text.append(" must be in range 1..=65535");
                text
            },
            ArgError::NotPositive(name) => {
                let mut text = name.clone();
                text.append(" must be positive");
                text
            },
            ArgError::ParallelSourcePort => String::from_str(
                "--udp-source-port requires --concurrency 1 because a UDP source port can only be bound by one worker",
            ),
        }
    }
}

/// A port that a text denotes.
pub open spec fn port_value(value: Seq<char>) -> Option<u16> {
    match bounded_value(value, u16::MAX as u64) {
        Some(port) if port > 0 => Some(port as u16),
        _ => None,
    }
}

/// A number above 0 that a text denotes.
pub open spec fn positive_value(value: Seq<char>, max: u64) -> Option<u64> {
    match bounded_value(value, max) {
        Some(n) if n > 0 => Some(n),
        _ => None,
    }
}

/// The protocols that a text names.
pub open spec fn protocol_value(value: Seq<char>) -> Option<ProtocolArg> {
    if value == "tcp"@ {
        Some(ProtocolArg::Tcp)
    } else if value == "udp"@ {
        Some(ProtocolArg::Udp)
    } else if value == "both"@ {
        Some(ProtocolArg::Both)
    } else {
        None
    }
}

fn parse_port(value: &str) -> (port: Option<u16>)
    ensures
        port == port_value(value@),
{
    let chars = chars_of(value);
    match parse_bounded(chars.as_slice(), u16::MAX as u64) {
        Some(port) => if port > 0 {
            Some(port as u16)
        } else {
            None
        },
        None => None,
    }
}

fn parse_positive(value: &str, max: u64) -> (n: Option<u64>)
    ensures
        n == positive_value(value@, max),
{
    let chars = chars_of(value);
    match parse_bounded(chars.as_slice(), max) {
        Some(n) => if n > 0 {
            Some(n)
        } else {
            None
        },
        None => None,
    }
}

fn parse_protocol(value: &str) -> (protocol: Option<ProtocolArg>)
    ensures
        protocol == protocol_value(value@),
{
    if same_text(value, "tcp") {
        Some(ProtocolArg::Tcp)
    } else if same_text(value, "udp") {
        Some(ProtocolArg::Udp)
    } else if same_text(value, "both") {
        Some(ProtocolArg::Both)
    } else {
        None
    }
}

/// A payload: a text that ends its line.
pub open spec fn line_of(value: Seq<char>) -> Seq<char> {
    if value.len() > 0 && value.last() == '\n' {
        value
    } else {
        value.push('\n')
    }
}

fn payload_line(value: &str) -> (line: String)
    ensures
        line@ == line_of(value@),
{
    let chars = chars_of(value);
    let mut line = String::from_str(value);
    if chars.len() == 0 || chars[chars.len() - 1] != '\n' {
        line.push('\n');
    }
    line
}

/// The option that an argument with a value stands for.
#[derive(Clone, Copy, Debug, PartialEq, Eq, Structural)]
pub enum ValueOption {
    Target,
    Port,
    Protocol,
    Duration,
    Concurrency,
    Payload,
    TimeoutMs,
    Expect,
    Out,
    UdpSourcePort,
    IntervalUs,
    IntervalMs,
}

/// What an argument stands for.
#[derive(Clone, Copy, Debug, PartialEq, Eq, Structural)]
pub enum Argument {
    Value(ValueOption),
    UdpNewSocket,
    TcpReuse,
    Help,
    Unknown,
}

/// What an argument stands for.
pub open spec fn argument(arg: Seq<char>) -> Argument {
    if arg == "--target"@ || arg == "--vip"@ {
        Argument::Value(ValueOption::Target)
    } else if arg == "--port"@ {
        Argument::Value(ValueOption::Port)
    } else if arg == "--protocol"@ {
        Argument::Value(ValueOption::Protocol)
    } else if arg == "--duration"@ {
        Argument::Value(ValueOption::Duration)
    } else if arg == "--concurrency"@ {
        Argument::Value(ValueOption::Concurrency)
    } else if arg == "--payload"@ {
        Argument::Value(ValueOption::Payload)
    } else if arg == "--timeout-ms"@ {
        Argument::Value(ValueOption::TimeoutMs)
    } else if arg == "--expect"@ {
        Argument::Value(ValueOption::Expect)
    } else if arg == "--out"@ {
        Argument::Value(ValueOption::Out)
    } else if arg == "--udp-source-port"@ {
        Argument::Value(ValueOption::UdpSourcePort)
    } else if arg == "--interval-us"@ {
        Argument::Value(ValueOption::IntervalUs)
    } else if arg == "--interval-ms"@ {
        Argument::Value(ValueOption::IntervalMs)
    } else if arg == "--udp-new-socket-per-request"@ {
        Argument::UdpNewSocket
    } else if arg == "--tcp-reuse-conn"@ {
        Argument::TcpReuse
    } else if arg == "-h"@ || arg == "--help"@ {
        Argument::Help
    } else {
        Argument::Unknown
    }
}

fn read_argument(arg: &str) -> (found: Argument)
    ensures
        found == argument(arg@),
{
    if same_text(arg, "--target") || same_text(arg, "--vip") {
        Argument::Value(ValueOption::Target)
    } else if same_text(arg, "--port") {
        Argument::Value(ValueOption::Port)
    } else if same_text(arg, "--protocol") {
        Argument::Value(ValueOption::Protocol)
    } else if same_text(arg, "--duration") {
        Argument::Value(ValueOption::Duration)
    } else if same_text(arg, "--concurrency") {
        Argument::Value(ValueOption::Concurrency)
    } else if same_text(arg, "--payload") {
        Argument::Value(ValueOption::Payload)
    } else if same_text(arg, "--timeout-ms") {
        Argument::Value(ValueOption::TimeoutMs)
    } else if same_text(arg, "--expect") {
        Argument::Value(ValueOption::Expect)
    } else if same_text(arg, "--out") {
        Argument::Value(ValueOption::Out)
    } else if same_text(arg, "--udp-source-port") {
        Argument::Value(ValueOption::UdpSourcePort)
    } else if same_text(arg, "--interval-us") {
        Argument::Value(ValueOption::IntervalUs)
    } else if same_text(arg, "--interval-ms") {
        Argument::Value(ValueOption::IntervalMs)
    } else if same_text(arg, "--udp-new-socket-per-request") {
        Argument::UdpNewSocket
    } else if same_text(arg, "--tcp-reuse-conn") {
        Argument::TcpReuse
    } else if same_text(arg, "-h") || same_text(arg, "--help") {
        Argument::Help
    } else {
        Argument::Unknown
    }
}

/// The options with one that has a value. `name` is the argument as it was given.
pub open spec fn with_value(
    cfg: BenchView,
    option: ValueOption,
    name: Seq<char>,
    value: Seq<char>,
) -> Result<BenchView, ArgFault> {
    match option {
        ValueOption::Target => Ok(BenchView { target: value, ..cfg }),
        ValueOption::Port => match port_value(value) {
            Some(port) => Ok(BenchView { port, ..cfg }),
            None => Err(ArgFault::BadPort(name)),
        },
        ValueOption::Protocol => match protocol_value(value) {
            Some(protocol) => Ok(BenchView { protocol, ..cfg }),
            None => Err(ArgFault::BadProtocol),
        },
        ValueOption::Duration => match positive_value(value, u64::MAX) {
            Some(n) => Ok(BenchView { duration_secs: n, ..cfg }),
            None => Err(ArgFault::NotPositive(name)),
        },
        ValueOption::Concurrency => match positive_value(value, usize::MAX as u64) {
            Some(n) => Ok(BenchView { concurrency: n as usize, ..cfg }),
            None => Err(ArgFault::NotPositive(name)),
        },
        ValueOption::Payload => Ok(BenchView { payload: line_of(value), ..cfg }),
        ValueOption::TimeoutMs => match positive_value(value, u64::MAX) {
            Some(n) => Ok(BenchView { timeout_ms: n, ..cfg }),
            None => Err(ArgFault::NotPositive(name)),
        },
        ValueOption::Expect => Ok(BenchView { expect: value, ..cfg }),
        ValueOption::Out => Ok(BenchView { out: Some(value), ..cfg }),
        ValueOption::UdpSourcePort => match port_value(value) {
            Some(port) => Ok(BenchView { udp_source_port: Some(port), ..cfg }),
            None => Err(ArgFault::BadPort(name)),
        },
        ValueOption::IntervalUs => match positive_value(value, u64::MAX) {
            Some(n) => Ok(BenchView { interval_us: Some(n as u128), ..cfg }),
            None => Err(ArgFault::NotPositive(name)),
        },
        ValueOption::IntervalMs => match positive_value(value, u64::MAX) {
            Some(n) => Ok(BenchView { interval_us: Some((n * 1000) as u128), ..cfg }),
            None => Err(ArgFault::NotPositive(name)),
        },
    }
}

/// What arguments ask for.
pub enum Asked {
    Run(BenchView),
    Help,
}

/// What arguments ask for, from the options so far. Help is given at once.
pub open spec fn asked(args: Seq<Seq<char>>, cfg: BenchView) -> Result<Asked, ArgFault>
    decreases args.len(),
{
    if args.len() == 0 {
        if cfg.udp_source_port is Some && !(cfg.protocol is Tcp) && cfg.concurrency > 1 {
            Err(ArgFault::ParallelSourcePort)
        } else {
            Ok(Asked::Run(cfg))
        }
    } else {
        match argument(args[0]) {
            Argument::UdpNewSocket => asked(
                args.skip(1),
                BenchView { udp_socket_mode: UdpSocketMode::NewPerRequest, ..cfg },
            ),
            Argument::TcpReuse => asked(
                args.skip(1),
                BenchView { tcp_conn_mode: TcpConnMode::ReusePerWorker, ..cfg },
            ),
            Argument::Help => Ok(Asked::Help),
            Argument::Unknown => Err(ArgFault::Unknown(args[0])),
            Argument::Value(option) => if args.len() < 2 {
                Err(ArgFault::MissingValue(args[0]))
            } else {
                match with_value(cfg, option, args[0], args[1]) {
                    Ok(cfg) => asked(args.skip(2), cfg),
                    Err(fault) => Err(fault),
                }
            },
        }
    }
}

/// What arguments ask for.
#[derive(Clone, Debug)]
pub enum BenchRequest {
    Run(BenchConfig),
    Help,
}

fn set_value(cfg: &mut BenchConfig, option: ValueOption, name: &str, value: &str) -> (done: Result<
    (),
    ArgError,
>)
    ensures
        match (done, with_value(old(cfg)@, option, name@, value@)) {
            (Ok(_), Ok(view)) => final(cfg)@ == view,
            (Err(error), Err(fault)) => error@ == fault,
            _ => false,
        },
{
    match option {
        ValueOption::Target => {
            cfg.target = String::from_str(value);
        },
        ValueOption::Port => match parse_port(value) {
            Some(port) => {
                cfg.port = port;
            },
            None => {
                return Err(ArgError::BadPort(String::from_str(name)));
            },
        },
        ValueOption::Protocol => match parse_protocol(value) {
            Some(protocol) => {
                cfg.protocol = protocol;
            },
            None => {
                return Err(ArgError::BadProtocol);
            },
        },
        ValueOption::Duration => match parse_positive(value, u64::MAX) {
            Some(n) => {
                cfg.duration_secs = n;
            },
            None => {
                return Err(ArgError::NotPositive(String::from_str(name)));
            },
        },
        ValueOption::Concurrency => match parse_positive(value, usize::MAX as u64) {
            Some(n) => {
                cfg.concurrency = n as usize;
            },
            None => {
                return Err(ArgError::NotPositive(String::from_str(name)));
            },
        },
        ValueOption::Payload => {
            cfg.payload = payload_line(value);
        },
        ValueOption::TimeoutMs => match parse_positive(value, u64::MAX) {
            Some(n) => {
                cfg.timeout_ms = n;
            },
            None => {
                return Err(ArgError::NotPositive(String::from_str(name)));
            },
        },
        ValueOption::Expect => {
            cfg.expect = String::from_str(value);
        },
        ValueOption::Out => {
            cfg.out = Some(String::from_str(value));
        },
        ValueOption::UdpSourcePort => match parse_port(value) {
            Some(port) => {
                cfg.udp_source_port = Some(port);
            },
            None => {
                return Err(ArgError::BadPort(String::from_str(name)));
            },
        },
        ValueOption::IntervalUs => match parse_positive(value, u64::MAX) {
            Some(n) => {
                cfg.interval_us = Some(n as u128);
            },
            None => {
                return Err(ArgError::NotPositive(String::from_str(name)));
            },
        },
        ValueOption::IntervalMs => match parse_positive(value, u64::MAX) {
            Some(n) => {
                cfg.interval_us = Some(n as u128 * 1000);
            },
            None => {
                return Err(ArgError::NotPositive(String::from_str(name)));
            },
        },
    }
    Ok(())
}

/// Reads the arguments of the load test.
pub fn parse_args(args: &[String]) -> (request: Result<BenchRequest, ArgError>)
    ensures
        match (request, asked(strings(args@), defaults())) {
            (Ok(BenchRequest::Run(cfg)), Ok(Asked::Run(view))) => cfg@ == view,
            (Ok(BenchRequest::Help), Ok(Asked::Help)) => true,
            (Err(error), Err(fault)) => error@ == fault,
            _ => false,
        },
{
    let mut cfg = BenchConfig::default();
    let ghost all = strings(args@);
    let mut i: usize = 0;
    assert(all.skip(0) =~= all);
    while i < args.len()
        invariant
            i <= args.len(),
            all == strings(args@),
            asked(all, defaults()) == asked(all.skip(i as int), cfg@),
        decreases args.len() - i,
    {
        let ghost rest = all.skip(i as int);
        assert(rest[0] == args@[i as int]@);
        assert(rest.skip(1) =~= all.skip(i + 1));
        let arg = args[i].as_str();
        match read_argument(arg) {
            Argument::UdpNewSocket => {
                cfg.udp_socket_mode = UdpSocketMode::NewPerRequest;
                i += 1;
            },
            Argument::TcpReuse => {
                cfg.tcp_conn_mode = TcpConnMode::ReusePerWorker;
                i += 1;
            },
            Argument::Help => {
                return Ok(BenchRequest::Help);
            },
            Argument::Unknown => {
                return Err(ArgError::Unknown(String::from_str(arg)));
            },
            Argument::Value(option) => {
                if args.len() - i < 2 {
                    return Err(ArgError::MissingValue(String::from_str(arg)));
                }
                assert(rest[1] == args@[i + 1]@);
                assert(rest.skip(2) =~= all.skip(i + 2));
                if let Err(error) = set_value(&mut cfg, option, arg, args[i + 1].as_str()) {
                    return Err(error);
                }
                i += 2;
            },
        }
    }
    assert(all.skip(i as int) =~= Seq::<Seq<char>>::empty());
    if cfg.udp_source_port.is_some() && !matches!(cfg.protocol, ProtocolArg::Tcp)
        && cfg.concurrency > 1 {
        return Err(ArgError::ParallelSourcePort);
    }
    Ok(BenchRequest::Run(cfg))
}

/// The protocols under test, one by one.
pub fn protocols(protocol: ProtocolArg) -> (list: Vec<Protocol>)
    ensures
        list@ == (match protocol {
            ProtocolArg::Tcp => seq![Protocol::Tcp],
            ProtocolArg::Udp => seq![Protocol::Udp],
            ProtocolArg::Both => seq![Protocol::Tcp, Protocol::Udp],
        }),
{
    let mut list: Vec<Protocol> = Vec::new();
    if !matches!(protocol, ProtocolArg::Udp) {
        list.push(Protocol::Tcp);
    }
    if !matches!(protocol, ProtocolArg::Tcp) {
        list.push(Protocol::Udp);
    }
    list
}

/// The name of protocols.
pub open spec fn arg_name(protocol: ProtocolArg) -> Seq<char> {
    match protocol {
        ProtocolArg::Tcp => "tcp"@,
        ProtocolArg::Udp => "udp"@,
        ProtocolArg::Both => "both"@,
    }
}

fn protocol_arg_name(protocol: ProtocolArg) -> (name: &'static str)
    ensures
        name@ == arg_name(protocol),
{
    match protocol {
        ProtocolArg::Tcp => "tcp",
        ProtocolArg::Udp => "udp",
        ProtocolArg::Both => "both",
    }
}

/// The name of a way to use UDP sockets.
pub open spec fn udp_name(mode: UdpSocketMode) -> Seq<char> {
    match mode {
        UdpSocketMode::ReusePerWorker => "reuse-per-worker"@,
        UdpSocketMode::NewPerRequest => "new-per-request"@,
    }
}

fn udp_socket_mode_name(mode: UdpSocketMode) -> (name: &'static str)
    ensures
        name@ == udp_name(mode),
{
    match mode {
        UdpSocketMode::ReusePerWorker => "reuse-per-worker",
        UdpSocketMode::NewPerRequest => "new-per-request",
    }
}

/// The name of a way to use TCP connections.
pub open spec fn tcp_name(mode: TcpConnMode) -> Seq<char> {
    match mode {
        TcpConnMode::NewPerRequest => "new-per-request"@,
        TcpConnMode::ReusePerWorker => "reuse-per-worker"@,
    }
}

fn tcp_conn_mode_name(mode: TcpConnMode) -> (name: &'static str)
    ensures
        name@ == tcp_name(mode),
{
    match mode {
        TcpConnMode::NewPerRequest => "new-per-request",
        TcpConnMode::ReusePerWorker => "reuse-per-worker",
    }
}

/// The name of a pause.
pub open spec fn pause_name(interval_us: Option<u128>) -> Seq<char> {
    match interval_us {
        Some(us) => decimal(us as nat) + "us"@,
        None => "none"@,
    }
}

fn push_wide(out: &mut String, n: u128)
    ensures
        final(out)@ == old(out)@ + decimal(n as nat),
    decreases n,
{
    if n < 10 {
        push_decimal(out, n as u64);
    } else {
        let ghost start = out@;
        push_wide(out, n / 10);
        push_decimal(out, (n % 10) as u64);
        assert(decimal((n % 10) as nat) =~= seq![crate::text::digit_char((n % 10) as nat)]);
        assert(out@ =~= start + decimal(n as nat));
    }
}

fn interval_name(interval_us: Option<u128>) -> (name: String)
    ensures
        name@ == pause_name(interval_us),
{
    match interval_us {
        Some(us) => {
            let mut name = String::new();
            push_wide(&mut name, us);
            name.append("us");
            assert(name@ =~= pause_name(interval_us));
            name
        },
        None => String::from_str("none"),
    }
}

/// The line that names the options of a test.
pub open spec fn options_line(cfg: BenchView) -> Seq<char> {
    "target="@ + cfg.target + ":"@ + decimal(cfg.port as nat) + " protocol="@ + arg_name(
        cfg.protocol,
    ) + " duration="@ + decimal(cfg.duration_secs as nat) + "s concurrency="@ + decimal(
        cfg.concurrency as nat,
    ) + " interval="@ + pause_name(cfg.interval_us) + " tcp_conn_mode="@ + tcp_name(
        cfg.tcp_conn_mode,
    ) + " udp_socket_mode="@ + udp_name(cfg.udp_socket_mode) + " payload="@ + trim_end(cfg.payload)
}

fn without_end(text: &str) -> (out: String)
    ensures
        out@ == trim_end(text@),
{
    let chars = chars_of(text);
    let mut end: usize = chars.len();
    assert(chars@.take(end as int) =~= chars@);
    while end > 0 && crate::text::is_white_space(chars[end - 1])
        invariant
            end <= chars.len(),
            trim_end(chars@) == trim_end(chars@.take(end as int)),
        decreases end,
    {
        assert(chars@.take(end as int).drop_last() =~= chars@.take(end - 1));
        end -= 1;
    }
    let kept = crate::text::copy_range(chars.as_slice(), 0, end);
    assert(kept@ =~= chars@.take(end as int));
    text_of(kept.as_slice())
}

impl BenchConfig {
    /// The line that names the options of a test.
    pub fn summary(&self) -> (line: String)
        ensures
            line@ == options_line(self@),
    {
        let mut line = String::from_str("target=");
        line.append(self.target.as_str());
        line.append(":");
        push_decimal(&mut line, self.port as u64);
        line.append(" protocol=");
        line.append(protocol_arg_name(self.protocol));
        line.append(" duration=");
        push_decimal(&mut line, self.duration_secs);
        line.append("s concurrency=");
        push_decimal(&mut line, self.concurrency as u64);
        line.append(" interval=");
        let pause = interval_name(self.interval_us);
        line.append(pause.as_str());
        line.append(" tcp_conn_mode=");
        line.append(tcp_conn_mode_name(self.tcp_conn_mode));
        line.append(" udp_socket_mode=");
        line.append(udp_socket_mode_name(self.udp_socket_mode));
        line.append(" payload=");
        let payload = without_end(self.payload.as_str());
        line.append(payload.as_str());
        assert(line@ =~= options_line(self@));
        line
    }
}

// ---------------------------------------------------------------------------
// Laws
// ---------------------------------------------------------------------------

/// Options whose number counts are usable: ports and numbers are above 0, and the
/// payload ends its line.
pub open spec fn usable(cfg: BenchView) -> bool {
    &&& cfg.port > 0
    &&& cfg.duration_secs > 0
    &&& cfg.concurrency > 0
    &&& cfg.timeout_ms > 0
    &&& cfg.udp_source_port matches Some(port) ==> port > 0
    &&& cfg.interval_us matches Some(us) ==> us > 0
    &&& cfg.payload.len() > 0 && cfg.payload.last() == '\n'
}

/// Whatever arguments are accepted, the options are usable, and a fixed UDP port is
/// taken by one worker alone.
pub proof fn law_accepted_options_are_usable(args: Seq<Seq<char>>, cfg: BenchView)
    requires
        usable(cfg),
    ensures
        asked(args, cfg) matches Ok(Asked::Run(view)) ==> usable(view) && (
        view.udp_source_port is Some && !(view.protocol is Tcp) ==> view.concurrency == 1),
    decreases args.len(),
{
    if args.len() > 0 {
        match argument(args[0]) {
            Argument::UdpNewSocket => {
                law_accepted_options_are_usable(
                    args.skip(1),
                    BenchView { udp_socket_mode: UdpSocketMode::NewPerRequest, ..cfg },
                );
            },
            Argument::TcpReuse => {
                law_accepted_options_are_usable(
                    args.skip(1),
                    BenchView { tcp_conn_mode: TcpConnMode::ReusePerWorker, ..cfg },
                );
            },
            Argument::Value(option) => {
                if args.len() >= 2 {
                    if let Ok(next) = with_value(cfg, option, args[0], args[1]) {
                        law_accepted_options_are_usable(args.skip(2), next);
                    }
                }
            },
            _ => {},
        }
    }
}

/// The options without any argument are usable.
pub proof fn law_defaults_are_usable()
    ensures
        usable(defaults()),
{
    reveal_strlit("discover\n");
}

/// Without arguments both protocols are tested for a minute with eight workers.
pub proof fn law_defaults_are_these()
    ensures
        defaults().target == "192.168.0.6"@,
        defaults().port == 8080,
        defaults().protocol == ProtocolArg::Both,
        defaults().duration_secs == 60,
        defaults().concurrency == 8,
        defaults().payload == "discover\n"@,
        defaults().timeout_ms == 1000,
        defaults().expect == "\"private_ipv4\""@,
        defaults().out is None,
        defaults().udp_source_port is None,
        defaults().interval_us is None,
        defaults().udp_socket_mode == UdpSocketMode::ReusePerWorker,
        defaults().tcp_conn_mode == TcpConnMode::NewPerRequest,
{
}

/// An option with a value sets its own field and leaves the others.
pub proof fn law_options_set_their_fields(cfg: BenchView, name: Seq<char>, value: Seq<char>, n: u64)
    ensures
        with_value(cfg, ValueOption::Target, name, value) == Ok::<BenchView, ArgFault>(
            (BenchView { target: value, ..cfg }),
        ),
        with_value(cfg, ValueOption::Expect, name, value) == Ok::<BenchView, ArgFault>(
            (BenchView { expect: value, ..cfg }),
        ),
        with_value(cfg, ValueOption::Out, name, value) == Ok::<BenchView, ArgFault>(
            (BenchView { out: Some(value), ..cfg }),
        ),
        0 < n <= 65535 ==> with_value(cfg, ValueOption::Port, name, decimal(n as nat)) == Ok::<
            BenchView,
            ArgFault,
        >((BenchView { port: n as u16, ..cfg })),
        0 < n <= 65535 ==> with_value(cfg, ValueOption::UdpSourcePort, name, decimal(n as nat))
            == Ok::<BenchView, ArgFault>(
            (BenchView { udp_source_port: Some(n as u16), ..cfg }),
        ),
        n == 0 || n > 65535 ==> with_value(cfg, ValueOption::Port, name, decimal(n as nat))
            == Err::<BenchView, ArgFault>(ArgFault::BadPort(name)),
        0 < n ==> with_value(cfg, ValueOption::Duration, name, decimal(n as nat)) == Ok::<
            BenchView,
            ArgFault,
        >((BenchView { duration_secs: n, ..cfg })),
        0 < n ==> with_value(cfg, ValueOption::TimeoutMs, name, decimal(n as nat)) == Ok::<
            BenchView,
            ArgFault,
        >((BenchView { timeout_ms: n, ..cfg })),
        0 < n <= usize::MAX ==> with_value(cfg, ValueOption::Concurrency, name, decimal(n as nat))
            == Ok::<BenchView, ArgFault>((BenchView { concurrency: n as usize, ..cfg })),
        n == 0 ==> with_value(cfg, ValueOption::Duration, name, decimal(n as nat)) == Err::<
            BenchView,
            ArgFault,
        >(ArgFault::NotPositive(name)),
{
    law_bounded_numbers_are_taken(n as nat, u16::MAX as u64);
    law_bounded_numbers_are_taken(n as nat, u64::MAX);
    law_bounded_numbers_are_taken(n as nat, usize::MAX as u64);
}

/// A pause is given in microseconds or in milliseconds, a protocol by its name, and a payload
/// ends its line.
pub proof fn law_values_are_understood(cfg: BenchView, name: Seq<char>, value: Seq<char>, n: u64)
    ensures
        0 < n ==> with_value(cfg, ValueOption::IntervalUs, name, decimal(n as nat)) == Ok::<
            BenchView,
            ArgFault,
        >((BenchView { interval_us: Some(n as u128), ..cfg })),
        0 < n ==> with_value(cfg, ValueOption::IntervalMs, name, decimal(n as nat)) == Ok::<
            BenchView,
            ArgFault,
        >((BenchView { interval_us: Some((1000 * n) as u128), ..cfg })),
        protocol_value("tcp"@) == Some(ProtocolArg::Tcp),
        protocol_value("udp"@) == Some(ProtocolArg::Udp),
        protocol_value("both"@) == Some(ProtocolArg::Both),
        value != "tcp"@ && value != "udp"@ && value != "both"@ ==> with_value(
            cfg,
            ValueOption::Protocol,
            name,
            value,
        ) == Err::<BenchView, ArgFault>(ArgFault::BadProtocol),
        value.len() > 0 && value.last() == '\n' ==> line_of(value) == value,
        value.len() == 0 || value.last() != '\n' ==> line_of(value) == value + "\n"@,
        with_value(cfg, ValueOption::Payload, name, value) == Ok::<BenchView, ArgFault>(
            (BenchView { payload: line_of(value), ..cfg }),
        ),
{
    law_bounded_numbers_are_taken(n as nat, u64::MAX);
    reveal_strlit("tcp");
    reveal_strlit("udp");
    reveal_strlit("both");
    reveal_strlit("\n");
    assert("tcp"@[0] != "udp"@[0]);
    assert("both"@.len() != "tcp"@.len());
    assert(value.push('\n') =~= value + "\n"@);
}

/// Each argument is known by its name; the target has two.
pub proof fn law_arguments_are_known_by_name()
    ensures
        argument("--target"@) == Argument::Value(ValueOption::Target),
        argument("--vip"@) == Argument::Value(ValueOption::Target),
        argument("--port"@) == Argument::Value(ValueOption::Port),
        argument("--protocol"@) == Argument::Value(ValueOption::Protocol),
        argument("--duration"@) == Argument::Value(ValueOption::Duration),
        argument("--concurrency"@) == Argument::Value(ValueOption::Concurrency),
        argument("--payload"@) == Argument::Value(ValueOption::Payload),
        argument("--timeout-ms"@) == Argument::Value(ValueOption::TimeoutMs),
        argument("--expect"@) == Argument::Value(ValueOption::Expect),
        argument("--out"@) == Argument::Value(ValueOption::Out),
        argument("--udp-source-port"@) == Argument::Value(ValueOption::UdpSourcePort),
        argument("--interval-us"@) == Argument::Value(ValueOption::IntervalUs),
        argument("--interval-ms"@) == Argument::Value(ValueOption::IntervalMs),
        argument("--udp-new-socket-per-request"@) == Argument::UdpNewSocket,
        argument("--tcp-reuse-conn"@) == Argument::TcpReuse,
        argument("--help"@) == Argument::Help,
        argument("-h"@) == Argument::Help,
{
    reveal_strlit("--target");
    reveal_strlit("--vip");
    reveal_strlit("--port");
    reveal_strlit("--protocol");
    reveal_strlit("--duration");
    reveal_strlit("--concurrency");
    reveal_strlit("--payload");
    reveal_strlit("--timeout-ms");
    reveal_strlit("--expect");
    reveal_strlit("--out");
    reveal_strlit("--udp-source-port");
    reveal_strlit("--interval-us");
    reveal_strlit("--interval-ms");
    reveal_strlit("--udp-new-socket-per-request");
    reveal_strlit("--tcp-reuse-conn");
    reveal_strlit("--help");
    reveal_strlit("-h");
    assert("--target"@.len() == 8);
    assert("--vip"@.len() == 5);
    assert("--port"@.len() == 6);
    assert("--protocol"@.len() == 10);
    assert("--duration"@.len() == 10);
    assert("--concurrency"@.len() == 13);
    assert("--payload"@.len() == 9);
    assert("--timeout-ms"@.len() == 12);
    assert("--expect"@.len() == 8);
    assert("--out"@.len() == 5);
    assert("--udp-source-port"@.len() == 17);
    assert("--interval-us"@.len() == 13);
    assert("--interval-ms"@.len() == 13);
    assert("--udp-new-socket-per-request"@.len() == 28);
    assert("--tcp-reuse-conn"@.len() == 16);
    assert("--help"@.len() == 6);
    assert("-h"@.len() == 2);
    assert("--out"@[2] != "--vip"@[2]);
    assert("--expect"@[2] != "--target"@[2]);
    assert("--help"@[2] != "--port"@[2]);
    assert("--duration"@[2] != "--protocol"@[2]);
    assert("--interval-us"@[2] != "--concurrency"@[2]);
    assert("--interval-ms"@[2] != "--concurrency"@[2]);
    assert("--interval-ms"@[11] != "--interval-us"@[11]);
}

/// Arguments are taken in order: an option with its value and then the rest, a switch and then
/// the rest. Help is given at once, and what is not known or lacks its value is refused.
pub proof fn law_arguments_are_taken_in_order(
    cfg: BenchView,
    arg: Seq<char>,
    value: Seq<char>,
    rest: Seq<Seq<char>>,
    option: ValueOption,
)
    ensures
        argument(arg) == Argument::Value(option) ==> asked(seq![arg, value] + rest, cfg) == (
        match with_value(cfg, option, arg, value) {
            Ok(next) => asked(rest, next),
            Err(fault) => Err(fault),
        }),
        argument(arg) == Argument::Value(option) ==> asked(seq![arg], cfg) == Err::<Asked, ArgFault>(
            ArgFault::MissingValue(arg),
        ),
        argument(arg) == Argument::Help ==> asked(seq![arg] + rest, cfg) == Ok::<Asked, ArgFault>(
            Asked::Help,
        ),
        argument(arg) == Argument::Unknown ==> asked(seq![arg] + rest, cfg) == Err::<
            Asked,
            ArgFault,
        >(ArgFault::Unknown(arg)),
        argument(arg) == Argument::UdpNewSocket ==> asked(seq![arg] + rest, cfg) == asked(
            rest,
            (BenchView { udp_socket_mode: UdpSocketMode::NewPerRequest, ..cfg }),
        ),
        argument(arg) == Argument::TcpReuse ==> asked(seq![arg] + rest, cfg) == asked(
            rest,
            (BenchView { tcp_conn_mode: TcpConnMode::ReusePerWorker, ..cfg }),
        ),
{
    let two = seq![arg, value] + rest;
    let one = seq![arg] + rest;
    assert(two[0] == arg && two[1] == value);
    assert(one[0] == arg);
    assert(two.skip(2) =~= rest);
    assert(one.skip(1) =~= rest);
}

/// Without further arguments the test runs as it was set, unless several workers are to share
/// one UDP port.
pub proof fn law_tests_run_as_set(cfg: BenchView)
    ensures
        cfg.udp_source_port is None || cfg.protocol == ProtocolArg::Tcp || cfg.concurrency <= 1
            ==> asked(Seq::empty(), cfg) == Ok::<Asked, ArgFault>(Asked::Run(cfg)),
        cfg.udp_source_port is Some && cfg.protocol != ProtocolArg::Tcp && cfg.concurrency > 1
            ==> asked(Seq::empty(), cfg) == Err::<Asked, ArgFault>(ArgFault::ParallelSourcePort),
{
}

/// Refusals are told in words that name the argument.
pub proof fn law_refusals_are_worded(name: Seq<char>)
    ensures
        fault_text(ArgFault::Unknown(name)) == "unknown argument: "@ + name,
        fault_text(ArgFault::MissingValue(name)) == name + " requires a value"@,
        fault_text(ArgFault::BadPort(name)) == name + " must be in range 1..=65535"@,
        fault_text(ArgFault::NotPositive(name)) == name + " must be positive"@,
        fault_text(ArgFault::BadProtocol) == "--protocol must be tcp, udp, or both"@,
{
}

/// The line of a test names its target, protocols, length, workers, pause, ways of connecting
/// and payload.
pub proof fn law_options_are_named(cfg: BenchView)
    ensures
        cfg.protocol == ProtocolArg::Both && cfg.interval_us is None && cfg.tcp_conn_mode
            == TcpConnMode::NewPerRequest && cfg.udp_socket_mode == UdpSocketMode::ReusePerWorker
            ==> options_line(cfg) == "target="@ + cfg.target + ":"@ + decimal(cfg.port as nat)
            + " protocol="@ + "both"@ + " duration="@ + decimal(cfg.duration_secs as nat)
            + "s concurrency="@ + decimal(cfg.concurrency as nat) + " interval="@ + "none"@
            + " tcp_conn_mode="@ + "new-per-request"@ + " udp_socket_mode="@ + "reuse-per-worker"@
            + " payload="@ + trim_end(cfg.payload),
        arg_name(ProtocolArg::Tcp) == "tcp"@,
        arg_name(ProtocolArg::Udp) == "udp"@,
        udp_name(UdpSocketMode::NewPerRequest) == "new-per-request"@,
        tcp_name(TcpConnMode::ReusePerWorker) == "reuse-per-worker"@,
        cfg.interval_us matches Some(us) ==> pause_name(cfg.interval_us) == decimal(us as nat)
            + "us"@,
{
}

} // verus!
