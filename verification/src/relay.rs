//! Tunnels, and WebSocket exchanges step by step.
use crate::action;
use crate::action::MockModel;
use crate::action::MockResponse;
use crate::capture;
use crate::capture::CaptureStore;
use crate::capture::HeaderText;
use crate::capture::Traffic;
use crate::capture::TrafficModel;
use crate::config;
use crate::exchange;
use crate::exchange::ResponseHead;
use crate::frames::Message;
use crate::frames::MessageModel;
use crate::headers;
use crate::rules::RuleModel;
use crate::rules::RuleSet;
use crate::seqs;
use crate::text;
use vstd::prelude::*;

verus! {

// ---- tunnels ----

/// What becomes of a tunnel.
pub enum TunnelPlan {
    /// It is opened up, as one to this host and port.
    Intercept(String, u16),
    /// It is passed through to this host and port, and this is its record.
    Pass(String, u16, Traffic),
}

/// A tunnel to a host and port is opened up or passed through, as the switches and the rules say.
/// Where it is passed through, it is recorded.
pub open spec fn plans_tunnel(
    plan: TunnelPlan,
    open_up: bool,
    host: Seq<char>,
    port: u16,
    record: TrafficModel,
    before: CaptureStore,
    after: CaptureStore,
) -> bool {
    match plan {
        TunnelPlan::Intercept(h, p) => open_up && h@ == host && p == port && after == before,
        TunnelPlan::Pass(h, p, t) => {
            &&& !open_up
            &&& h@ == host
            &&& p == port
            &&& t@ == (TrafficModel {
                start_time: t@.start_time,
                req_headers: t@.req_headers,
                ..record
            })
            &&& after.wf()
            &&& after@ == capture::upserted(before@, t@, before.limit())
            &&& after.limit() == before.limit()
            &&& after.upcoming() == (before.upcoming() + 1) % 0x1_0000_0000_0000_0000
            &&& after.untold() == before.untold().push(t@)
        },
    }
}

/// The host and port that a tunnel is asked for by name. Port 443 stands for one that is not named.
pub open spec fn tunnel_target(authority: Seq<char>) -> (Seq<char>, u16) {
    action::authority_of(authority, 443)
}

/// The record of a tunnel that was asked for by its authority.
pub open spec fn connect_record(
    id: u64,
    authority: Seq<char>,
    host: Seq<char>,
    client: Seq<char>,
) -> TrafficModel {
    capture::begun(id, "tunnel"@, "CONNECT"@, authority, host, client, 0)
}

/// The record of a tunnel that was asked for by SOCKS.
pub open spec fn socks_record(
    id: u64,
    host: Seq<char>,
    port: u16,
    client: Seq<char>,
) -> TrafficModel {
    capture::begun(id, "tunnel"@, "SOCKS5"@, config::host_port(host, port), host, client, 0)
}

/// A client that came by SOCKS is opened up: it begins with a TLS record, and the switches and the
/// rules say so.
pub open spec fn opens_socks(
    is_tls: bool,
    switches: Interception,
    rules: Seq<RuleModel>,
    host: Seq<char>,
) -> bool {
    is_tls && exchange::opens_up(switches.decrypt, switches.all, rules, host)
}

/// A byte begins a TLS connection.
pub open spec fn is_tls_start(first: u8) -> bool {
    first == 0x16
}

/// A byte begins a SOCKS5 connection.
pub open spec fn is_socks_start(first: u8) -> bool {
    first == 0x05
}

/// The switches that tunnels depend on.
pub struct Interception {
    /// Tunnels can be opened up.
    pub decrypt: bool,
    /// All of them are, and not only those that a rule is about.
    pub all: bool,
}

/// Plans what becomes of a request for a tunnel. Port 443 stands for one that is not named.
pub fn plan_connect(
    switches: &Interception,
    rules: &RuleSet,
    store: &mut CaptureStore,
    authority: &str,
    client: &str,
    headers: &hyper::HeaderMap,
) -> (r: TunnelPlan)
    requires
        old(store).wf(),
    ensures
        ({
            let (host, port) = tunnel_target(authority@);
            plans_tunnel(
                r,
                exchange::opens_up(switches.decrypt, switches.all, rules@, host),
                host,
                port,
                connect_record(old(store).upcoming(), authority@, host, client@),
                *old(store),
                *final(store),
            )
        }),
        r matches TunnelPlan::Pass(_, _, t) ==> exchange::lists(
            t@.req_headers,
            headers::header_contents(*headers),
        ),
{
    let (host, port) = action::split_authority(authority, 443);
    if exchange::should_mitm(switches.decrypt, switches.all, rules, host.as_str()) {
        return TunnelPlan::Intercept(host, port);
    }
    let mut traffic = exchange::begin(
        store,
        "tunnel",
        "CONNECT",
        authority,
        host.as_str(),
        client,
    );
    exchange::record_request_headers(&mut traffic, headers);
    exchange::record(store, &traffic);
    TunnelPlan::Pass(host, port, traffic)
}

/// Plans what becomes of a client that asked for a host and port by SOCKS. Only a client that
/// begins with a TLS record is opened up.
pub fn plan_socks(
    switches: &Interception,
    rules: &RuleSet,
    store: &mut CaptureStore,
    is_tls: bool,
    host: String,
    port: u16,
    client: &str,
) -> (r: TunnelPlan)
    requires
        old(store).wf(),
    ensures
        plans_tunnel(
            r,
            opens_socks(is_tls, *switches, rules@, host@),
            host@,
            port,
            socks_record(old(store).upcoming(), host@, port, client@),
            *old(store),
            *final(store),
        ),
        r matches TunnelPlan::Pass(_, _, t) ==> t@.req_headers.len() == 0,
{
    if is_tls && exchange::should_mitm(switches.decrypt, switches.all, rules, host.as_str()) {
        return TunnelPlan::Intercept(host, port);
    }
    let url = config::join_host_port(host.as_str(), port);
    let traffic = exchange::begin(
        store,
        "tunnel",
        "SOCKS5",
        url.as_str(),
        host.as_str(),
        client,
    );
    exchange::record(store, &traffic);
    TunnelPlan::Pass(host, port, traffic)
}

/// The first byte of a TLS connection.
pub fn begins_tls(first: u8) -> (r: bool)
    ensures
        r == is_tls_start(first),
{
    first == 0x16
}

/// The first byte of a SOCKS5 connection.
pub fn begins_socks(first: u8) -> (r: bool)
    ensures
        r == is_socks_start(first),
{
    first == 0x05
}

// ---- WebSocket ----

/// What is awaited.
#[derive(Debug, PartialEq, Eq, Structural, Clone, Copy)]
pub enum WsStage {
    /// The connection to the server.
    Connecting,
    /// The server's answer to the handshake.
    Handshake,
    /// Messages.
    Relaying,
    /// Nothing: the exchange is over.
    Over,
}

/// What has happened.
pub enum WsEvent {
    /// The server is there.
    Connected,
    /// The server has answered.
    Answered(ResponseHead),
    /// A message has passed: `send` from the client, `recv` from the server.
    Passed(String, Message),
    /// The connection has ended.
    Ended,
    /// What was awaited has failed.
    Failed(String),
}

/// What has happened.
pub enum WsEventModel {
    Connected,
    Answered(u16, Map<Seq<char>, Seq<Seq<u8>>>),
    Passed(Seq<char>, MessageModel),
    Ended,
    Failed(Seq<char>),
}

impl View for WsEvent {
    type V = WsEventModel;

    open spec fn view(&self) -> WsEventModel {
        match *self {
            WsEvent::Connected => WsEventModel::Connected,
            WsEvent::Answered(r) => WsEventModel::Answered(
                r.status,
                headers::header_contents(r.headers),
            ),
            WsEvent::Passed(dir, m) => WsEventModel::Passed(dir@, m@),
            WsEvent::Ended => WsEventModel::Ended,
            WsEvent::Failed(e) => WsEventModel::Failed(e@),
        }
    }
}

/// What is to be done.
pub enum WsAction {
    /// Send the handshake to the server.
    SendHandshake,
    /// Hand the server's answer on as it is: it did not change the protocol.
    HandOn,
    /// Tell the client that the protocol has changed, and pass on what comes.
    Switch,
    /// Go on.
    Continue,
    /// Answer with this response.
    Fail(MockResponse),
}

/// What is to be done.
pub enum WsActionModel {
    SendHandshake,
    HandOn,
    Switch,
    Continue,
    Fail(MockModel),
}

impl View for WsAction {
    type V = WsActionModel;

    open spec fn view(&self) -> WsActionModel {
        match *self {
            WsAction::SendHandshake => WsActionModel::SendHandshake,
            WsAction::HandOn => WsActionModel::HandOn,
            WsAction::Switch => WsActionModel::Switch,
            WsAction::Continue => WsActionModel::Continue,
            WsAction::Fail(m) => WsActionModel::Fail(m@),
        }
    }
}

/// A WebSocket exchange.
pub struct WsExchange {
    pub stage: WsStage,
    pub traffic: Traffic,
}

/// What is known of a WebSocket exchange.
pub struct WsModel {
    pub stage: WsStage,
    pub traffic: TrafficModel,
}

impl View for WsExchange {
    type V = WsModel;

    open spec fn view(&self) -> WsModel {
        WsModel { stage: self.stage, traffic: self.traffic@ }
    }
}

/// An event is one of those that are awaited.
pub open spec fn ws_is_awaited(stage: WsStage, event: WsEventModel) -> bool {
    match stage {
        WsStage::Connecting => event is Connected || event is Failed,
        WsStage::Handshake => event is Answered || event is Failed,
        WsStage::Relaying => event is Passed || event is Ended || event is Failed,
        WsStage::Over => false,
    }
}

/// The exchange has failed before the protocol changed.
pub open spec fn ws_refused(w: WsModel, reason: Seq<char>, now: u64) -> (WsModel, WsActionModel) {
    (
        WsModel {
            stage: WsStage::Over,
            traffic: exchange::failed(w.traffic, 502, reason, now),
        },
        WsActionModel::Fail(action::text_response(502, reason)),
    )
}

/// What is known after an event, and what is to be done. Where the server has answered, `fields`
/// are the header fields of its answer as they are recorded. An event that is not awaited changes
/// nothing.
pub open spec fn ws_stepped(
    w: WsModel,
    event: WsEventModel,
    now: u64,
    fields: Seq<HeaderText>,
) -> (WsModel, WsActionModel) {
    match (w.stage, event) {
        (WsStage::Connecting, WsEventModel::Connected) => (
            WsModel { stage: WsStage::Handshake, ..w },
            WsActionModel::SendHandshake,
        ),
        (WsStage::Connecting, WsEventModel::Failed(e)) => ws_refused(w, e, now),
        (WsStage::Handshake, WsEventModel::Failed(e)) => ws_refused(
            w,
            "上游 WS 握手失败: "@ + e,
            now,
        ),
        (WsStage::Handshake, WsEventModel::Answered(status, _)) => if status == 101 {
            (
                WsModel {
                    stage: WsStage::Relaying,
                    traffic: TrafficModel {
                        status: Some(101),
                        res_headers: fields,
                        ..w.traffic
                    },
                },
                WsActionModel::Switch,
            )
        } else {
            (
                WsModel {
                    stage: WsStage::Over,
                    traffic: exchange::answered(w.traffic, status, fields, now),
                },
                WsActionModel::HandOn,
            )
        },
        (WsStage::Relaying, WsEventModel::Passed(dir, m)) => (
            WsModel { traffic: exchange::with_message(w.traffic, dir, m), ..w },
            WsActionModel::Continue,
        ),
        (WsStage::Relaying, WsEventModel::Ended) => (
            WsModel {
                stage: WsStage::Over,
                traffic: TrafficModel {
                    duration_ms: Some(capture::elapsed(w.traffic.start_time, now)),
                    ..w.traffic
                },
            },
            WsActionModel::Continue,
        ),
        (WsStage::Relaying, WsEventModel::Failed(e)) => (
            WsModel {
                stage: WsStage::Over,
                traffic: TrafficModel {
                    error: Some(e),
                    duration_ms: Some(capture::elapsed(w.traffic.start_time, now)),
                    ..w.traffic
                },
            },
            WsActionModel::Continue,
        ),
        _ => (w, WsActionModel::Continue),
    }
}

impl WsExchange {
    /// A WebSocket exchange that is about to start.
    pub fn new(traffic: Traffic) -> (r: WsExchange)
        ensures
            r@ == (WsModel { stage: WsStage::Connecting, traffic: traffic@ }),
    {
        WsExchange { stage: WsStage::Connecting, traffic }
    }

    /// Takes an event. Gives what is to be done. What the event tells is recorded.
    pub fn step(&mut self, store: &mut CaptureStore, event: WsEvent, now: u64) -> (r: WsAction)
        requires
            old(store).wf(),
            ws_is_awaited(old(self)@.stage, event@),
        ensures
            (final(self)@, r@) == ws_stepped(
                old(self)@,
                event@,
                now,
                final(self)@.traffic.res_headers,
            ),
            event matches WsEvent::Answered(head) ==> exchange::lists(
                final(self)@.traffic.res_headers,
                headers::header_contents(head.headers),
            ),
            if r@ is SendHandshake {
                *final(store) == *old(store)
            } else {
                exchange::stored(*old(store), *final(store), final(self)@.traffic)
            },
    {
        match event {
            WsEvent::Connected => {
                self.stage = WsStage::Handshake;
                WsAction::SendHandshake
            },
            WsEvent::Answered(head) => {
                if head.status == 101 {
                    self.stage = WsStage::Relaying;
                    exchange::record_upgrade(store, &mut self.traffic, &head.headers);
                    WsAction::Switch
                } else {
                    self.stage = WsStage::Over;
                    exchange::finish_response_at(
                        store,
                        &mut self.traffic,
                        head.status,
                        &head.headers,
                        now,
                    );
                    WsAction::HandOn
                }
            },
            WsEvent::Passed(dir, m) => {
                exchange::record_message(store, &mut self.traffic, dir.as_str(), &m);
                WsAction::Continue
            },
            WsEvent::Ended => {
                self.stage = WsStage::Over;
                self.traffic.finish_at(now);
                exchange::record(store, &self.traffic);
                WsAction::Continue
            },
            WsEvent::Failed(e) => {
                let stage = self.stage;
                self.stage = WsStage::Over;
                match stage {
                    WsStage::Connecting => {
                        let m = exchange::finish_error_at(
                            store,
                            &mut self.traffic,
                            502,
                            e.as_str(),
                            now,
                        );
                        WsAction::Fail(m)
                    },
                    WsStage::Handshake => {
                        let reason = text::cat("上游 WS 握手失败: ", e.as_str());
                        let m = exchange::finish_error_at(
                            store,
                            &mut self.traffic,
                            502,
                            reason.as_str(),
                            now,
                        );
                        WsAction::Fail(m)
                    },
                    _ => {
                        self.traffic.error = Some(e);
                        self.traffic.finish_at(now);
                        exchange::record(store, &self.traffic);
                        WsAction::Continue
                    },
                }
            },
        }
    }
}

// ---- laws ----

/// Messages pass only once the server has changed the protocol, and the exchange is then recorded
/// with the status 101 until it ends.
pub proof fn law_messages_follow_the_switch(
    w: WsModel,
    event: WsEventModel,
    now: u64,
    fields: Seq<HeaderText>,
)
    requires
        ws_is_awaited(w.stage, event),
        w.stage is Relaying ==> w.traffic.status == Some(101u16),
    ensures
        ({
            let (after, action) = ws_stepped(w, event, now, fields);
            &&& after.stage is Relaying ==> after.traffic.status == Some(101u16)
            &&& after.stage is Relaying && !(w.stage is Relaying) ==> action is Switch
        }),
{
}

/// A message never changes anything but the list of messages.
pub proof fn law_messages_only_add(
    w: WsModel,
    dir: Seq<char>,
    m: MessageModel,
    now: u64,
    fields: Seq<HeaderText>,
)
    requires
        w.stage is Relaying,
    ensures
        ({
            let (after, _) = ws_stepped(w, WsEventModel::Passed(dir, m), now, fields);
            &&& after.stage is Relaying
            &&& after.traffic == (TrafficModel {
                ws_messages: after.traffic.ws_messages,
                ..w.traffic
            })
            &&& w.traffic.ws_messages.is_prefix_of(after.traffic.ws_messages)
        }),
{
}

/// A WebSocket that cannot be had is answered with 502 and recorded with the reason, both before the
/// server was reached and in the handshake. A server that does not change the protocol is handed on.
pub proof fn law_failed_handshakes_are_told(
    w: WsModel,
    reason: Seq<char>,
    status: u16,
    contents: Map<Seq<char>, Seq<Seq<u8>>>,
    now: u64,
    fields: Seq<HeaderText>,
)
    requires
        w.stage is Connecting || w.stage is Handshake,
    ensures
        ({
            let (after, action) = ws_stepped(w, WsEventModel::Failed(reason), now, fields);
            &&& after.stage is Over
            &&& action is Fail && action->Fail_0.status == 502
            &&& after.traffic.status == Some(502u16)
            &&& after.traffic.error is Some
            &&& w.stage is Connecting ==> after.traffic.error == Some(reason)
            &&& action->Fail_0.body == vstd::utf8::encode_utf8(after.traffic.error->0)
        }),
        w.stage is Handshake && status != 101 ==> {
            let (after, action) = ws_stepped(
                w,
                WsEventModel::Answered(status, contents),
                now,
                fields,
            );
            &&& after.stage is Over
            &&& action is HandOn
            &&& after.traffic.status == Some(status)
            &&& after.traffic.res_headers == fields
        },
        w.stage is Handshake && status == 101 ==> {
            let (after, action) = ws_stepped(
                w,
                WsEventModel::Answered(status, contents),
                now,
                fields,
            );
            &&& after.stage is Relaying
            &&& action is Switch
            &&& after.traffic.res_headers == fields
        },
{
}

/// A message that passes is recorded behind those before it, and the end of the connection with the
/// time that it took, and with the reason where it broke.
pub proof fn law_relayed_messages_are_recorded(
    w: WsModel,
    dir: Seq<char>,
    m: MessageModel,
    reason: Seq<char>,
    now: u64,
    fields: Seq<HeaderText>,
)
    requires
        w.stage is Relaying,
        w.traffic.ws_messages.len() < 500,
        0 <= m.total <= u64::MAX,
        w.traffic.start_time <= now,
    ensures
        ({
            let (after, _) = ws_stepped(w, WsEventModel::Passed(dir, m), now, fields);
            let list = after.traffic.ws_messages;
            &&& list.len() == w.traffic.ws_messages.len() + 1
            &&& list.last().dir == dir
            &&& list.last().opcode == m.opcode
            &&& list.last().size == m.total
        }),
        ({
            let (after, _) = ws_stepped(w, WsEventModel::Ended, now, fields);
            &&& after.stage is Over
            &&& after.traffic.duration_ms == Some((now - w.traffic.start_time) as u64)
            &&& after.traffic.error == w.traffic.error
        }),
        ({
            let (after, _) = ws_stepped(w, WsEventModel::Failed(reason), now, fields);
            &&& after.stage is Over
            &&& after.traffic.duration_ms == Some((now - w.traffic.start_time) as u64)
            &&& after.traffic.error == Some(reason)
        }),
{
    exchange::law_message_is_recorded(w.traffic, dir, m);
}

/// A tunnel goes to the host and the port that were asked for, and to port 443 where none was named.
/// It is recorded as one, by the way in which it was asked for.
pub proof fn law_tunnels_go_where_they_were_asked(
    host: Seq<char>,
    port: u16,
    id: u64,
    client: Seq<char>,
)
    ensures
        seqs::lacks(host, ':') ==> tunnel_target(host) == (host, 443u16),
        tunnel_target(host + seq![':'] + seqs::decimal(port as nat)) == (host, port),
        ({
            let t = connect_record(id, host, host, client);
            &&& t.id == id && t.protocol == "tunnel"@ && t.method == "CONNECT"@
            &&& t.url == host && t.host == host && t.client == client
        }),
        ({
            let t = socks_record(id, host, port, client);
            &&& t.id == id && t.protocol == "tunnel"@ && t.method == "SOCKS5"@
            &&& t.url == host + seq![':'] + seqs::decimal(port as nat)
            &&& t.host == host && t.client == client
        }),
{
    reveal_strlit(":");
    assert(":"@ =~= seq![':']);
    config::law_host_and_port_are_read_back(host, port, 443);
    if seqs::lacks(host, ':') {
        seqs::law_text_is_cut_at_the_last(host, ':', host);
    }
}

/// A client that came by SOCKS is opened up where a tunnel to that host would be, but only if it
/// speaks TLS: what begins with the byte of a handshake record, 22, and not with a version.
pub proof fn law_only_tls_is_opened_up(
    switches: Interception,
    rules: Seq<RuleModel>,
    host: Seq<char>,
    first: u8,
)
    ensures
        opens_socks(true, switches, rules, host) == exchange::opens_up(
            switches.decrypt,
            switches.all,
            rules,
            host,
        ),
        !opens_socks(false, switches, rules, host),
        is_tls_start(first) <==> first == 22,
        is_socks_start(first) <==> first == 5,
        !(is_tls_start(first) && is_socks_start(first)),
{
}

/// A tunnel is opened up exactly where the switches and the rules say so, and either way it goes to
/// the host and port that were asked for. One that is opened up leaves the records, and one that is
/// passed through is recorded.
pub proof fn law_plans_follow_the_switches(
    plan: TunnelPlan,
    open_up: bool,
    host: Seq<char>,
    port: u16,
    record: TrafficModel,
    before: CaptureStore,
    after: CaptureStore,
)
    requires
        plans_tunnel(plan, open_up, host, port, record, before, after),
    ensures
        plan is Intercept <==> open_up,
        plan matches TunnelPlan::Intercept(h, p) ==> h@ == host && p == port && after == before,
        plan matches TunnelPlan::Pass(h, p, t) ==> h@ == host && p == port && t@.id == record.id
            && t@.url == record.url && t@.method == record.method && t@.host == record.host
            && t@.status == record.status && after.untold().last() == t@ && after@
            == capture::upserted(before@, t@, before.limit()),
{
}

} // verus!
