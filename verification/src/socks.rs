//! SOCKS5, without authentication: the server's side and the client's side of the handshake.
use crate::seqs;
use crate::text;
use vstd::prelude::*;

verus! {

// ---- addresses ----

/// The host that a client asks for.
#[derive(Debug)]
pub enum SocksHost {
    /// A name, or an IPv4 address with dots.
    Name(String),
    /// The sixteen bytes of an IPv6 address.
    Ipv6(Vec<u8>),
}

/// The host that a client asks for.
pub enum HostModel {
    Name(Seq<char>),
    Ipv6(Seq<u8>),
}

impl View for SocksHost {
    type V = HostModel;

    open spec fn view(&self) -> HostModel {
        match *self {
            SocksHost::Name(s) => HostModel::Name(s@),
            SocksHost::Ipv6(v) => HostModel::Ipv6(v@),
        }
    }
}

/// An IPv4 address with dots.
pub open spec fn dotted(a: Seq<u8>) -> Seq<char> {
    seqs::decimal(a[0] as nat) + "."@ + seqs::decimal(a[1] as nat) + "."@ + seqs::decimal(
        a[2] as nat,
    ) + "."@ + seqs::decimal(a[3] as nat)
}

/// A number of two bytes, the high one first.
pub open spec fn be16(b: Seq<u8>) -> u16 {
    (b[0] as int * 256 + b[1] as int) as u16
}

fn dotted_of(a: &[u8]) -> (r: String)
    requires
        a@.len() == 4,
    ensures
        r@ == dotted(a@),
{
    let mut out = String::new();
    text::push_decimal(&mut out, a[0] as u64);
    out.append(".");
    text::push_decimal(&mut out, a[1] as u64);
    out.append(".");
    text::push_decimal(&mut out, a[2] as u64);
    out.append(".");
    text::push_decimal(&mut out, a[3] as u64);
    proof {
        assert(out@ =~= dotted(a@));
    }
    out
}

fn be16_of(b: &[u8]) -> (r: u16)
    requires
        b@.len() == 2,
    ensures
        r == be16(b@),
{
    (b[0] as u16) * 256 + (b[1] as u16)
}

// ---- the server's side ----

/// How far a client's handshake has come.
#[derive(Debug)]
pub enum SocksState {
    /// The version and the number of methods come next.
    Greeting,
    /// That many methods come next.
    Methods(u8),
    /// The version, the command, a reserved byte and the kind of address come next.
    Request,
    /// An IPv4 address comes next. The command is kept.
    Ipv4(u8),
    /// The length of a name comes next.
    NameLength(u8),
    /// A name of this length comes next.
    Name(u8, u8),
    /// An IPv6 address comes next.
    Ipv6(u8),
    /// The port comes next.
    Port(u8, SocksHost),
    /// The client is to be connected to this host and port.
    Connect(SocksHost, u16),
    /// The handshake has failed.
    Closed,
}

/// How far a client's handshake has come.
pub enum SocksModel {
    Greeting,
    Methods(u8),
    Request,
    Ipv4(u8),
    NameLength(u8),
    Name(u8, u8),
    Ipv6(u8),
    Port(u8, HostModel),
    Connect(HostModel, u16),
    Closed,
}

impl View for SocksState {
    type V = SocksModel;

    open spec fn view(&self) -> SocksModel {
        match *self {
            SocksState::Greeting => SocksModel::Greeting,
            SocksState::Methods(n) => SocksModel::Methods(n),
            SocksState::Request => SocksModel::Request,
            SocksState::Ipv4(c) => SocksModel::Ipv4(c),
            SocksState::NameLength(c) => SocksModel::NameLength(c),
            SocksState::Name(c, n) => SocksModel::Name(c, n),
            SocksState::Ipv6(c) => SocksModel::Ipv6(c),
            SocksState::Port(c, h) => SocksModel::Port(c, h@),
            SocksState::Connect(h, p) => SocksModel::Connect(h@, p),
            SocksState::Closed => SocksModel::Closed,
        }
    }
}

/// The number of bytes that the next step reads. Nothing is read once the handshake is over.
pub open spec fn awaited(state: SocksModel) -> nat {
    match state {
        SocksModel::Greeting => 2,
        SocksModel::Methods(n) => n as nat,
        SocksModel::Request => 4,
        SocksModel::Ipv4(_) => 4,
        SocksModel::NameLength(_) => 1,
        SocksModel::Name(_, n) => n as nat,
        SocksModel::Ipv6(_) => 16,
        SocksModel::Port(_, _) => 2,
        SocksModel::Connect(_, _) => 0,
        SocksModel::Closed => 0,
    }
}

/// An answer to a request.
pub open spec fn answer(code: u8) -> Seq<u8> {
    seq![5u8, code, 0, 1, 0, 0, 0, 0, 0, 0]
}

/// The state after the awaited bytes, and what is sent to the client.
pub open spec fn advanced(state: SocksModel, b: Seq<u8>) -> (SocksModel, Seq<u8>) {
    match state {
        SocksModel::Greeting => if b[0] == 5 {
            (SocksModel::Methods(b[1]), seq![])
        } else {
            (SocksModel::Closed, seq![])
        },
        SocksModel::Methods(_) => (SocksModel::Request, seq![5u8, 0u8]),
        SocksModel::Request => if b[0] != 5 {
            (SocksModel::Closed, seq![])
        } else if b[3] == 1 {
            (SocksModel::Ipv4(b[1]), seq![])
        } else if b[3] == 3 {
            (SocksModel::NameLength(b[1]), seq![])
        } else if b[3] == 4 {
            (SocksModel::Ipv6(b[1]), seq![])
        } else {
            (SocksModel::Closed, answer(8))
        },
        SocksModel::Ipv4(c) => (SocksModel::Port(c, HostModel::Name(dotted(b))), seq![]),
        SocksModel::NameLength(c) => (SocksModel::Name(c, b[0]), seq![]),
        SocksModel::Name(c, _) => (
            SocksModel::Port(c, HostModel::Name(text::lossy_utf8(b))),
            seq![],
        ),
        SocksModel::Ipv6(c) => (SocksModel::Port(c, HostModel::Ipv6(b)), seq![]),
        SocksModel::Port(c, h) => if c == 1 {
            (SocksModel::Connect(h, be16(b)), answer(0))
        } else {
            (SocksModel::Closed, answer(7))
        },
        SocksModel::Connect(h, p) => (SocksModel::Connect(h, p), seq![]),
        SocksModel::Closed => (SocksModel::Closed, seq![]),
    }
}

fn answer_of(code: u8) -> (r: Vec<u8>)
    ensures
        r@ == answer(code),
{
    let r: Vec<u8> = vec![5, code, 0, 1, 0, 0, 0, 0, 0, 0];
    proof {
        assert(r@ =~= answer(code));
    }
    r
}

impl SocksState {
    /// The state before anything was read.
    pub fn new() -> (r: SocksState)
        ensures
            r@ == SocksModel::Greeting,
    {
        SocksState::Greeting
    }

    /// The number of bytes that the next step reads.
    pub fn wants(&self) -> (r: usize)
        ensures
            r == awaited(self@),
    {
        match self {
            SocksState::Greeting => 2,
            SocksState::Methods(n) => *n as usize,
            SocksState::Request => 4,
            SocksState::Ipv4(_) => 4,
            SocksState::NameLength(_) => 1,
            SocksState::Name(_, n) => *n as usize,
            SocksState::Ipv6(_) => 16,
            SocksState::Port(_, _) => 2,
            SocksState::Connect(_, _) => 0,
            SocksState::Closed => 0,
        }
    }

    /// Takes the awaited bytes. Gives the next state and what is to be sent to the client.
    pub fn step(self, b: &[u8]) -> (r: (SocksState, Vec<u8>))
        requires
            b@.len() == awaited(self@),
        ensures
            (r.0@, r.1@) == advanced(self@, b@),
    {
        let quiet: Vec<u8> = Vec::new();
        proof {
            assert(quiet@ =~= seq![]);
        }
        match self {
            SocksState::Greeting => if b[0] == 5 {
                (SocksState::Methods(b[1]), quiet)
            } else {
                (SocksState::Closed, quiet)
            },
            SocksState::Methods(_) => {
                let r: Vec<u8> = vec![5, 0];
                proof {
                    assert(r@ =~= seq![5u8, 0u8]);
                }
                (SocksState::Request, r)
            },
            SocksState::Request => if b[0] != 5 {
                (SocksState::Closed, quiet)
            } else if b[3] == 1 {
                (SocksState::Ipv4(b[1]), quiet)
            } else if b[3] == 3 {
                (SocksState::NameLength(b[1]), quiet)
            } else if b[3] == 4 {
                (SocksState::Ipv6(b[1]), quiet)
            } else {
                (SocksState::Closed, answer_of(8))
            },
            SocksState::Ipv4(c) => (SocksState::Port(c, SocksHost::Name(dotted_of(b))), quiet),
            SocksState::NameLength(c) => (SocksState::Name(c, b[0]), quiet),
            SocksState::Name(c, _) => (
                SocksState::Port(c, SocksHost::Name(text::lossy(b))),
                quiet,
            ),
            SocksState::Ipv6(c) => (
                SocksState::Port(c, SocksHost::Ipv6(vstd::slice::slice_to_vec(b))),
                quiet,
            ),
            SocksState::Port(c, h) => if c == 1 {
                (SocksState::Connect(h, be16_of(b)), answer_of(0))
            } else {
                (SocksState::Closed, answer_of(7))
            },
            SocksState::Connect(h, p) => (SocksState::Connect(h, p), quiet),
            SocksState::Closed => (SocksState::Closed, quiet),
        }
    }
}

// ---- the client's side ----

/// How far the handshake with a SOCKS server has come.
#[derive(Debug)]
pub enum TunnelState {
    /// The version and the chosen method come next.
    Method,
    /// The version, the outcome, a reserved byte and the kind of address come next.
    Outcome,
    /// The length of a name comes next.
    NameLength,
    /// That many bytes of an address and a port come next.
    Rest(u16),
    /// The tunnel is open.
    Open,
}

/// The number of bytes that the next step reads.
pub open spec fn tunnel_awaited(state: TunnelState) -> nat {
    match state {
        TunnelState::Method => 2,
        TunnelState::Outcome => 4,
        TunnelState::NameLength => 1,
        TunnelState::Rest(n) => n as nat,
        TunnelState::Open => 0,
    }
}

/// What the client sends first.
pub open spec fn greeting() -> Seq<u8> {
    seq![5u8, 1u8, 0u8]
}

/// The request for a tunnel to a host, by its name, and a port.
pub open spec fn connect_bytes(host: Seq<char>, port: u16) -> Seq<u8> {
    let name = vstd::utf8::encode_utf8(host);
    seq![5u8, 1u8, 0u8, 3u8, name.len() as u8] + name + seq![
        (port as int / 256) as u8,
        (port as int % 256) as u8,
    ]
}

/// The handshake goes on in this state, and this is sent to the server.
pub open spec fn goes_on(state: TunnelState, sent: Seq<u8>) -> Result<
    (TunnelState, Seq<u8>),
    Seq<char>,
> {
    Ok((state, sent))
}

/// The handshake has failed for this reason.
pub open spec fn fails(reason: Seq<char>) -> Result<(TunnelState, Seq<u8>), Seq<char>> {
    Err(reason)
}

/// The state after the awaited bytes and what is sent to the server, or what went wrong.
pub open spec fn tunnel_advanced(
    state: TunnelState,
    b: Seq<u8>,
    host: Seq<char>,
    port: u16,
) -> Result<(TunnelState, Seq<u8>), Seq<char>> {
    match state {
        TunnelState::Method => if b[0] != 5 || b[1] != 0 {
            fails("上游 SOCKS 不支持 no-auth"@)
        } else if vstd::utf8::encode_utf8(host).len() > 255 {
            fails("SOCKS 目标域名过长"@)
        } else {
            goes_on(TunnelState::Outcome, connect_bytes(host, port))
        },
        TunnelState::Outcome => if b[1] != 0 {
            Err("上游 SOCKS CONNECT 失败 (REP="@ + seqs::decimal(b[1] as nat) + ")"@)
        } else if b[3] == 1 {
            Ok((TunnelState::Rest(6), seq![]))
        } else if b[3] == 4 {
            Ok((TunnelState::Rest(18), seq![]))
        } else if b[3] == 3 {
            Ok((TunnelState::NameLength, seq![]))
        } else {
            Err("上游 SOCKS 应答 ATYP 非法"@)
        },
        TunnelState::NameLength => Ok((TunnelState::Rest((b[0] + 2) as u16), seq![])),
        TunnelState::Rest(_) => Ok((TunnelState::Open, seq![])),
        TunnelState::Open => Ok((TunnelState::Open, seq![])),
    }
}

/// What the client sends first.
pub fn socks_greeting() -> (r: Vec<u8>)
    ensures
        r@ == greeting(),
{
    let r: Vec<u8> = vec![5, 1, 0];
    proof {
        assert(r@ =~= greeting());
    }
    r
}

impl TunnelState {
    /// The state once the greeting was sent.
    pub fn new() -> (r: TunnelState)
        ensures
            r == TunnelState::Method,
    {
        TunnelState::Method
    }

    /// The number of bytes that the next step reads.
    pub fn wants(&self) -> (r: usize)
        ensures
            r == tunnel_awaited(*self),
    {
        match self {
            TunnelState::Method => 2,
            TunnelState::Outcome => 4,
            TunnelState::NameLength => 1,
            TunnelState::Rest(n) => *n as usize,
            TunnelState::Open => 0,
        }
    }

    /// Takes the awaited bytes. Gives the next state and what is to be sent to the server.
    pub fn step(self, b: &[u8], host: &str, port: u16) -> (r: Result<
        (TunnelState, Vec<u8>),
        String,
    >)
        requires
            b@.len() == tunnel_awaited(self),
        ensures
            match r {
                Ok((s, out)) => tunnel_advanced(self, b@, host@, port) == goes_on(s, out@),
                Err(e) => tunnel_advanced(self, b@, host@, port) == fails(e@),
            },
    {
        let quiet: Vec<u8> = Vec::new();
        proof {
            assert(quiet@ =~= seq![]);
        }
        match self {
            TunnelState::Method => {
                let name = host.as_bytes();
                if b[0] != 5 || b[1] != 0 {
                    Err("上游 SOCKS 不支持 no-auth".to_string())
                } else if name.len() > 255 {
                    Err("SOCKS 目标域名过长".to_string())
                } else {
                    let mut out: Vec<u8> = vec![5, 1, 0, 3, name.len() as u8];
                    out.extend_from_slice(name);
                    out.push((port / 256) as u8);
                    out.push((port % 256) as u8);
                    proof {
                        assert(out@ =~= connect_bytes(host@, port));
                    }
                    Ok((TunnelState::Outcome, out))
                }
            },
            TunnelState::Outcome => if b[1] != 0 {
                let code = text::decimal(b[1] as u64);
                Err(text::cat3("上游 SOCKS CONNECT 失败 (REP=", code.as_str(), ")"))
            } else if b[3] == 1 {
                Ok((TunnelState::Rest(6), quiet))
            } else if b[3] == 4 {
                Ok((TunnelState::Rest(18), quiet))
            } else if b[3] == 3 {
                Ok((TunnelState::NameLength, quiet))
            } else {
                Err("上游 SOCKS 应答 ATYP 非法".to_string())
            },
            TunnelState::NameLength => Ok((TunnelState::Rest(b[0] as u16 + 2), quiet)),
            TunnelState::Rest(_) => Ok((TunnelState::Open, quiet)),
            TunnelState::Open => Ok((TunnelState::Open, quiet)),
        }
    }
}

// ---- laws ----

/// How many more steps a handshake can take.
pub open spec fn steps_left(state: SocksModel) -> nat {
    match state {
        SocksModel::Greeting => 6,
        SocksModel::Methods(_) => 5,
        SocksModel::Request => 4,
        SocksModel::NameLength(_) => 3,
        SocksModel::Ipv4(_) => 2,
        SocksModel::Name(_, _) => 2,
        SocksModel::Ipv6(_) => 2,
        SocksModel::Port(_, _) => 1,
        SocksModel::Connect(_, _) => 0,
        SocksModel::Closed => 0,
    }
}

/// The state that some input leads to, and all that is sent to the client. The handshake stands
/// still where the input ends within a step.
pub open spec fn served(state: SocksModel, input: Seq<u8>) -> (SocksModel, Seq<u8>)
    decreases steps_left(state),
{
    let n = awaited(state);
    if steps_left(state) == 0 || input.len() < n {
        (state, seq![])
    } else {
        let (next, sent) = advanced(state, input.take(n as int));
        let (last, more) = served(next, input.skip(n as int));
        (last, sent + more)
    }
}

/// A handshake comes to its end: each step leaves fewer to take.
pub proof fn law_handshakes_end(state: SocksModel, b: Seq<u8>)
    requires
        steps_left(state) > 0,
    ensures
        steps_left(advanced(state, b).0) < steps_left(state),
{
}

/// The server understands the client: after the greeting and the request of this module's client
/// it is to connect to that host and port, and has accepted both.
pub proof fn law_server_understands_client(host: Seq<char>, port: u16)
    requires
        vstd::utf8::encode_utf8(host).len() <= 255,
    ensures
        served(SocksModel::Greeting, greeting() + connect_bytes(host, port)) == (
            SocksModel::Connect(HostModel::Name(host), port),
            seq![5u8, 0u8] + answer(0),
        ),
{
    let name = vstd::utf8::encode_utf8(host);
    let input = greeting() + connect_bytes(host, port);
    let hi = (port as int / 256) as u8;
    let lo = (port as int % 256) as u8;
    let n = name.len() as int;
    let s1 = input.skip(2);
    let s2 = s1.skip(1);
    let s3 = s2.skip(4);
    let s4 = s3.skip(1);
    let s5 = s4.skip(n);
    assert(input.take(2) =~= seq![5u8, 1u8]);
    assert(s2.take(4) =~= seq![5u8, 1u8, 0u8, 3u8]);
    assert(s3.take(1) =~= seq![n as u8]);
    assert(s4.take(n) =~= name);
    assert(s5.take(2) =~= seq![hi, lo]);
    text::law_utf8_is_read_back(host);
    assert(be16(s5.take(2)) == port);
    let end = SocksModel::Connect(HostModel::Name(host), port);
    assert(served(end, s5.skip(2)) == (end, Seq::<u8>::empty()));
    let port_state = SocksModel::Port(1, HostModel::Name(host));
    assert(served(port_state, s5) == (end, answer(0))) by {
        assert(answer(0) + Seq::<u8>::empty() =~= answer(0));
    }
    assert(served(SocksModel::Name(1, n as u8), s4) == (end, answer(0))) by {
        assert(Seq::<u8>::empty() + answer(0) =~= answer(0));
    }
    assert(served(SocksModel::NameLength(1), s3) == (end, answer(0))) by {
        assert(Seq::<u8>::empty() + answer(0) =~= answer(0));
    }
    assert(served(SocksModel::Request, s2) == (end, answer(0))) by {
        assert(Seq::<u8>::empty() + answer(0) =~= answer(0));
    }
    assert(served(SocksModel::Methods(1), s1) == (end, seq![5u8, 0u8] + answer(0)));
    assert(served(SocksModel::Greeting, input) == (end, seq![5u8, 0u8] + answer(0))) by {
        assert(Seq::<u8>::empty() + (seq![5u8, 0u8] + answer(0)) =~= seq![5u8, 0u8] + answer(0));
    }
}

/// The client understands the server: what the server of this module sends opens the tunnel.
pub proof fn law_client_understands_server(host: Seq<char>, port: u16)
    requires
        vstd::utf8::encode_utf8(host).len() <= 255,
    ensures
        tunnel_advanced(TunnelState::Method, seq![5u8, 0u8], host, port) == goes_on(
            TunnelState::Outcome,
            connect_bytes(host, port),
        ),
        tunnel_advanced(TunnelState::Outcome, answer(0).take(4), host, port) == goes_on(
            TunnelState::Rest(6),
            seq![],
        ),
        tunnel_advanced(TunnelState::Rest(6), answer(0).skip(4), host, port) == goes_on(
            TunnelState::Open,
            seq![],
        ),
        answer(0).skip(4).len() == tunnel_awaited(TunnelState::Rest(6)),
{
}

// A client greets with the methods that it offers, and its request follows.
proof fn lemma_greeted(methods: Seq<u8>, request: Seq<u8>)
    requires
        methods.len() <= 255,
    ensures
        ({
            let (end, sent) = served(SocksModel::Request, request);
            served(SocksModel::Greeting, seq![5u8, methods.len() as u8] + methods + request) == (
                end,
                seq![5u8, 0u8] + sent,
            )
        }),
{
    let n = methods.len() as u8;
    let input = seq![5u8, n] + methods + request;
    let s1 = input.skip(2);
    assert(input.take(2) =~= seq![5u8, n]);
    assert(s1 =~= methods + request);
    assert(s1.skip(n as int) =~= request);
    let (end, sent) = served(SocksModel::Request, request);
    assert(served(SocksModel::Methods(n), s1) == (end, seq![5u8, 0u8] + sent));
    assert(Seq::<u8>::empty() + (seq![5u8, 0u8] + sent) =~= seq![5u8, 0u8] + sent);
}

// The address of a request was read, and its port follows.
proof fn lemma_port_follows(command: u8, host: HostModel, hi: u8, lo: u8)
    ensures
        served(SocksModel::Port(command, host), seq![hi, lo]) == if command == 1 {
            (
                SocksModel::Connect(host, (256 * hi + lo) as u16),
                seq![5u8, 0u8, 0u8, 1u8, 0u8, 0u8, 0u8, 0u8, 0u8, 0u8],
            )
        } else {
            (SocksModel::Closed, seq![5u8, 7u8, 0u8, 1u8, 0u8, 0u8, 0u8, 0u8, 0u8, 0u8])
        },
{
    let b = seq![hi, lo];
    assert(b.take(2) =~= b);
    assert(b.skip(2) =~= seq![]);
    let none = Seq::<u8>::empty();
    let (next, sent) = advanced(SocksModel::Port(command, host), b);
    assert(served(next, b.skip(2)) == (next, none));
    assert(sent + none =~= sent);
}

/// A client that greets with any methods and asks to be connected to an address of four bytes is
/// answered twice, and is connected to that address and port. The port's higher byte comes first.
pub proof fn law_request_for_an_address_is_read(
    methods: Seq<u8>,
    command: u8,
    reserved: u8,
    a: u8,
    b: u8,
    c: u8,
    d: u8,
    hi: u8,
    lo: u8,
)
    requires
        methods.len() <= 255,
    ensures
        served(
            SocksModel::Greeting,
            seq![5u8, methods.len() as u8] + methods + seq![
                5u8,
                command,
                reserved,
                1u8,
                a,
                b,
                c,
                d,
                hi,
                lo,
            ],
        ) == if command == 1 {
            (
                SocksModel::Connect(
                    HostModel::Name(
                        seqs::decimal(a as nat) + seq!['.'] + seqs::decimal(b as nat) + seq!['.']
                            + seqs::decimal(c as nat) + seq!['.'] + seqs::decimal(d as nat),
                    ),
                    (256 * hi + lo) as u16,
                ),
                seq![5u8, 0u8] + seq![5u8, 0u8, 0u8, 1u8, 0u8, 0u8, 0u8, 0u8, 0u8, 0u8],
            )
        } else {
            (
                SocksModel::Closed,
                seq![5u8, 0u8] + seq![5u8, 7u8, 0u8, 1u8, 0u8, 0u8, 0u8, 0u8, 0u8, 0u8],
            )
        },
{
    reveal_strlit(".");
    assert("."@ =~= seq!['.']);
    let request = seq![5u8, command, reserved, 1u8, a, b, c, d, hi, lo];
    lemma_greeted(methods, request);
    let s1 = request.skip(4);
    let s2 = s1.skip(4);
    assert(request.take(4) =~= seq![5u8, command, reserved, 1u8]);
    assert(s1.take(4) =~= seq![a, b, c, d]);
    assert(s2 =~= seq![hi, lo]);
    let host = HostModel::Name(dotted(seq![a, b, c, d]));
    lemma_port_follows(command, host, hi, lo);
    let (end, sent) = served(SocksModel::Port(command, host), s2);
    assert(Seq::<u8>::empty() + sent =~= sent);
    assert(served(SocksModel::Ipv4(command), s1) == (end, sent));
    assert(served(SocksModel::Request, request) == (end, sent));
}

/// A client can ask for an address of sixteen bytes, too.
pub proof fn law_request_for_a_long_address_is_read(
    methods: Seq<u8>,
    reserved: u8,
    address: Seq<u8>,
    hi: u8,
    lo: u8,
)
    requires
        methods.len() <= 255,
        address.len() == 16,
    ensures
        served(
            SocksModel::Greeting,
            seq![5u8, methods.len() as u8] + methods + (seq![5u8, 1u8, reserved, 4u8] + address
                + seq![hi, lo]),
        ) == (
            SocksModel::Connect(HostModel::Ipv6(address), (256 * hi + lo) as u16),
            seq![5u8, 0u8] + seq![5u8, 0u8, 0u8, 1u8, 0u8, 0u8, 0u8, 0u8, 0u8, 0u8],
        ),
{
    let request = seq![5u8, 1u8, reserved, 4u8] + address + seq![hi, lo];
    lemma_greeted(methods, request);
    let s1 = request.skip(4);
    let s2 = s1.skip(16);
    assert(request.take(4) =~= seq![5u8, 1u8, reserved, 4u8]);
    assert(s1.take(16) =~= address);
    assert(s2 =~= seq![hi, lo]);
    lemma_port_follows(1, HostModel::Ipv6(address), hi, lo);
    let (end, sent) = served(SocksModel::Port(1, HostModel::Ipv6(address)), s2);
    assert(Seq::<u8>::empty() + sent =~= sent);
    assert(served(SocksModel::Ipv6(1), s1) == (end, sent));
    assert(served(SocksModel::Request, request) == (end, sent));
}

/// A client can ask for a host by its name, whose length stands before it.
pub proof fn law_request_for_a_name_is_read(
    methods: Seq<u8>,
    reserved: u8,
    name: Seq<u8>,
    hi: u8,
    lo: u8,
)
    requires
        methods.len() <= 255,
        name.len() <= 255,
    ensures
        served(
            SocksModel::Greeting,
            seq![5u8, methods.len() as u8] + methods + (seq![
                5u8,
                1u8,
                reserved,
                3u8,
                name.len() as u8,
            ] + name + seq![hi, lo]),
        ) == (
            SocksModel::Connect(
                HostModel::Name(text::lossy_utf8(name)),
                (256 * hi + lo) as u16,
            ),
            seq![5u8, 0u8] + seq![5u8, 0u8, 0u8, 1u8, 0u8, 0u8, 0u8, 0u8, 0u8, 0u8],
        ),
{
    let n = name.len() as u8;
    let request = seq![5u8, 1u8, reserved, 3u8, n] + name + seq![hi, lo];
    lemma_greeted(methods, request);
    let s1 = request.skip(4);
    let s2 = s1.skip(1);
    let s3 = s2.skip(n as int);
    assert(request.take(4) =~= seq![5u8, 1u8, reserved, 3u8]);
    assert(s1.take(1) =~= seq![n]);
    assert(s2.take(n as int) =~= name);
    assert(s3 =~= seq![hi, lo]);
    let host = HostModel::Name(text::lossy_utf8(name));
    lemma_port_follows(1, host, hi, lo);
    let (end, sent) = served(SocksModel::Port(1, host), s3);
    assert(Seq::<u8>::empty() + sent =~= sent);
    assert(served(SocksModel::Name(1, n), s2) == (end, sent));
    assert(served(SocksModel::NameLength(1), s1) == (end, sent));
    assert(served(SocksModel::Request, request) == (end, sent));
}

/// A client of another version is not answered, neither its greeting nor its request. An address of
/// another kind is answered with the code for that.
pub proof fn law_other_requests_are_refused(
    methods: Seq<u8>,
    version: u8,
    command: u8,
    reserved: u8,
    kind: u8,
    more: Seq<u8>,
)
    requires
        methods.len() <= 255,
        kind != 1 && kind != 3 && kind != 4,
    ensures
        version != 5 ==> served(SocksModel::Greeting, seq![version, command] + more) == (
            SocksModel::Closed,
            Seq::<u8>::empty(),
        ),
        version != 5 ==> served(
            SocksModel::Greeting,
            seq![5u8, methods.len() as u8] + methods + (seq![version, command, reserved, kind]
                + more),
        ) == (SocksModel::Closed, seq![5u8, 0u8]),
        served(
            SocksModel::Greeting,
            seq![5u8, methods.len() as u8] + methods + (seq![5u8, command, reserved, kind] + more),
        ) == (
            SocksModel::Closed,
            seq![5u8, 0u8] + seq![5u8, 8u8, 0u8, 1u8, 0u8, 0u8, 0u8, 0u8, 0u8, 0u8],
        ),
{
    let none = Seq::<u8>::empty();
    let early = seq![version, command] + more;
    assert(early.take(2) =~= seq![version, command]);
    assert(served(SocksModel::Closed, early.skip(2)) == (SocksModel::Closed, none));
    assert(none + none =~= none);
    let wrong = seq![version, command, reserved, kind] + more;
    lemma_greeted(methods, wrong);
    assert(wrong.take(4) =~= seq![version, command, reserved, kind]);
    assert(served(SocksModel::Closed, wrong.skip(4)) == (SocksModel::Closed, none));
    if version != 5 {
        assert(served(SocksModel::Request, wrong) == (SocksModel::Closed, none));
        assert(seq![5u8, 0u8] + none =~= seq![5u8, 0u8]);
    }
    let other = seq![5u8, command, reserved, kind] + more;
    lemma_greeted(methods, other);
    assert(other.take(4) =~= seq![5u8, command, reserved, kind]);
    assert(served(SocksModel::Closed, other.skip(4)) == (SocksModel::Closed, none));
    assert(answer(8) + none =~= answer(8));
}

/// A proxy is greeted with one method, the one without credentials, and asked by name: the length of
/// the name stands before it, and the higher byte of the port comes first.
pub proof fn law_request_to_a_proxy_is_written(host: Seq<char>, port: u16)
    requires
        vstd::utf8::encode_utf8(host).len() <= 255,
    ensures
        greeting() == seq![5u8, 1u8, 0u8],
        ({
            let b = connect_bytes(host, port);
            let name = vstd::utf8::encode_utf8(host);
            &&& b.len() == name.len() + 7
            &&& b[0] == 5 && b[1] == 1 && b[2] == 0 && b[3] == 3 && b[4] == name.len()
            &&& b.subrange(5, 5int + name.len()) == name
            &&& 256 * b[b.len() - 2] + b[b.len() - 1] == port
        }),
{
    let b = connect_bytes(host, port);
    let name = vstd::utf8::encode_utf8(host);
    assert(b.subrange(5, 5int + name.len()) =~= name);
}

/// A proxy that offers the method without credentials is sent the request, and one that does not is
/// given up. A name of more than 255 bytes is not sent.
pub proof fn law_proxy_must_offer_the_method(
    version: u8,
    method: u8,
    host: Seq<char>,
    port: u16,
)
    ensures
        version == 5 && method == 0 && vstd::utf8::encode_utf8(host).len() <= 255
            ==> tunnel_advanced(TunnelState::Method, seq![version, method], host, port) == goes_on(
            TunnelState::Outcome,
            connect_bytes(host, port),
        ),
        version != 5 || method != 0 || vstd::utf8::encode_utf8(host).len() > 255
            ==> tunnel_advanced(TunnelState::Method, seq![version, method], host, port) is Err,
        tunnel_awaited(TunnelState::Method) == 2,
{
}

/// A proxy that reports no failure tells an address and a port, which are read to their end: four
/// bytes, sixteen, or as many as it says, and two more. Only then the tunnel is open. One that
/// reports a failure, or an address of another kind, is given up.
pub proof fn law_answer_of_a_proxy_is_read_to_its_end(
    version: u8,
    outcome: u8,
    reserved: u8,
    kind: u8,
    n: u8,
    rest: Seq<u8>,
    host: Seq<char>,
    port: u16,
)
    ensures
        ({
            let r = tunnel_advanced(
                TunnelState::Outcome,
                seq![version, outcome, reserved, kind],
                host,
                port,
            );
            let ok = outcome == 0;
            let none = Seq::<u8>::empty();
            &&& !ok ==> r is Err
            &&& kind != 1 && kind != 3 && kind != 4 ==> r is Err
            &&& ok && kind == 1 ==> r == goes_on(TunnelState::Rest(6), none)
            &&& ok && kind == 4 ==> r == goes_on(TunnelState::Rest(18), none)
            &&& ok && kind == 3 ==> r == goes_on(TunnelState::NameLength, none)
        }),
        tunnel_advanced(TunnelState::NameLength, seq![n], host, port) == goes_on(
            TunnelState::Rest((n + 2) as u16),
            Seq::empty(),
        ),
        tunnel_advanced(TunnelState::Rest(n as u16), rest, host, port) == goes_on(
            TunnelState::Open,
            Seq::empty(),
        ),
        tunnel_awaited(TunnelState::Outcome) == 4,
        tunnel_awaited(TunnelState::NameLength) == 1,
        tunnel_awaited(TunnelState::Rest(n as u16)) == n,
{
}

/// Where a proxy reports a failure, the code that it gave is told.
pub proof fn law_code_of_a_failure_is_told(
    version: u8,
    outcome: u8,
    reserved: u8,
    kind: u8,
    host: Seq<char>,
    port: u16,
)
    requires
        outcome != 0,
    ensures
        tunnel_advanced(
            TunnelState::Outcome,
            seq![version, outcome, reserved, kind],
            host,
            port,
        ) == fails(
            "上游 SOCKS CONNECT 失败 (REP="@ + seqs::decimal(outcome as nat) + seq![')'],
        ),
{
    reveal_strlit(")");
    assert(")"@ =~= seq![')']);
}

} // verus!
