//! What becomes of a request that has come in: its record is begun, the rules are asked, and it is
//! answered here or goes its way.
use crate::action;
use crate::action::MockModel;
use crate::action::MockResponse;
use crate::capture;
use crate::capture::CaptureStore;
use crate::capture::HeaderText;
use crate::capture::Traffic;
use crate::capture::TrafficModel;
use crate::exchange;
use crate::exchange::Route;
use crate::exchange::RouteModel;
use crate::headers;
use crate::operation;
use crate::operation::OpText;
use crate::operation::Operation;
use crate::rules::RuleModel;
use crate::rules::RuleSet;
use crate::seqs;
use vstd::prelude::*;

verus! {

/// A request that has come in.
#[derive(Debug)]
pub struct Arrival {
    /// It came through a tunnel that was opened up.
    pub secure: bool,
    pub method: String,
    /// The whole address, or the path and query of a request that came through a tunnel.
    pub target: String,
    /// The host, which is empty where the address names none.
    pub host: String,
    pub port: u16,
    pub path: String,
    pub query: String,
    pub client: String,
}

/// A request that has come in.
pub struct ArrivalModel {
    pub secure: bool,
    pub method: Seq<char>,
    pub target: Seq<char>,
    pub host: Seq<char>,
    pub port: u16,
    pub path: Seq<char>,
    pub query: Seq<char>,
    pub client: Seq<char>,
}

impl View for Arrival {
    type V = ArrivalModel;

    open spec fn view(&self) -> ArrivalModel {
        ArrivalModel {
            secure: self.secure,
            method: self.method@,
            target: self.target@,
            host: self.host@,
            port: self.port,
            path: self.path@,
            query: self.query@,
            client: self.client@,
        }
    }
}

/// What becomes of a request.
#[derive(Debug)]
pub enum Intake {
    /// It is answered here.
    Answered(MockResponse),
    /// It goes its way, with what the rules say of it.
    Goes(Vec<Operation>, Route),
}

/// What becomes of a request.
pub enum IntakeModel {
    Answered(MockModel),
    Goes(Seq<OpText>, RouteModel),
}

impl View for Intake {
    type V = IntakeModel;

    open spec fn view(&self) -> IntakeModel {
        match *self {
            Intake::Answered(m) => IntakeModel::Answered(m@),
            Intake::Goes(ops, way) => IntakeModel::Goes(operation::op_texts(ops@), way@),
        }
    }
}

/// The protocol of a request as the rules know it.
pub open spec fn scheme(secure: bool) -> Seq<char> {
    if secure {
        "https"@
    } else {
        "http"@
    }
}

/// The protocol that is recorded of a WebSocket.
pub open spec fn websocket_scheme(secure: bool) -> Seq<char> {
    if secure {
        "wss"@
    } else {
        "ws"@
    }
}

/// The address of a request.
pub open spec fn address(a: ArrivalModel) -> Seq<char> {
    if a.secure {
        "https://"@ + a.host + a.target
    } else {
        a.target
    }
}

/// The record of a request that has come in at `now`, with these header fields.
pub open spec fn opened(a: ArrivalModel, id: u64, fields: Seq<HeaderText>, now: u64) -> TrafficModel {
    TrafficModel {
        req_headers: fields,
        ..capture::begun(id, scheme(a.secure), a.method, address(a), a.host, a.client, now)
    }
}

/// No server can be asked: the address names no host.
pub open spec fn lacks_host(a: ArrivalModel) -> bool {
    !a.secure && a.host.len() == 0
}

/// What the rules say of a request.
pub open spec fn operations(a: ArrivalModel, rules: Seq<RuleModel>) -> Seq<OpText> {
    exchange::operations_for(rules, scheme(a.secure), a.host, a.path, a.method)
}

/// The record of a request of which the rules say this.
pub open spec fn matched(t: TrafficModel, ops: Seq<OpText>) -> TrafficModel {
    TrafficModel { rules: exchange::raw_texts(ops), ..t }
}

/// What becomes of a request that has come in at `now`, and its record.
pub open spec fn received(
    a: ArrivalModel,
    rules: Seq<RuleModel>,
    plugins: Seq<(Seq<char>, Seq<char>)>,
    contents: Map<Seq<char>, Seq<Seq<u8>>>,
    t: TrafficModel,
    now: u64,
) -> (TrafficModel, IntakeModel) {
    if lacks_host(a) {
        let reason = "缺少目标主机（请将本程序设置为 HTTP 代理后再访问）"@;
        (
            exchange::failed(t, 400, reason, now),
            IntakeModel::Answered(action::text_response(400, reason)),
        )
    } else {
        let ops = operations(a, rules);
        let known = matched(t, ops);
        match exchange::route(ops, plugins, contents, a.query, a.host, a.port) {
            RouteModel::Mock(m) => (
                exchange::answered(known, m.status, m.headers, now),
                IntakeModel::Answered(m),
            ),
            RouteModel::WebSocket(h, p) => (
                TrafficModel { protocol: websocket_scheme(a.secure), ..known },
                IntakeModel::Goes(ops, RouteModel::WebSocket(h, p)),
            ),
            way => (known, IntakeModel::Goes(ops, way)),
        }
    }
}

/// The record that the store holds when a request has come in: as it was answered, or as the rules
/// were asked.
pub open spec fn kept(
    a: ArrivalModel,
    rules: Seq<RuleModel>,
    plugins: Seq<(Seq<char>, Seq<char>)>,
    contents: Map<Seq<char>, Seq<Seq<u8>>>,
    t: TrafficModel,
    now: u64,
) -> TrafficModel {
    let (known, intake) = received(a, rules, plugins, contents, t, now);
    match intake {
        IntakeModel::Answered(_) => known,
        IntakeModel::Goes(ops, _) => matched(t, ops),
    }
}

/// The records of which subscribers are told when a request has come in: as the rules were asked,
/// and as it was answered.
pub open spec fn told(
    a: ArrivalModel,
    rules: Seq<RuleModel>,
    plugins: Seq<(Seq<char>, Seq<char>)>,
    contents: Map<Seq<char>, Seq<Seq<u8>>>,
    t: TrafficModel,
    now: u64,
) -> Seq<TrafficModel> {
    let (known, intake) = received(a, rules, plugins, contents, t, now);
    let asked = matched(t, operations(a, rules));
    if lacks_host(a) {
        seq![known]
    } else {
        match intake {
            IntakeModel::Answered(_) => seq![asked, known],
            IntakeModel::Goes(_, _) => seq![asked],
        }
    }
}

/// Takes in a request at `now`: its record is begun with the next id, and what becomes of it is
/// found.
pub fn receive(
    rules: &RuleSet,
    plugins: &Vec<(String, String)>,
    store: &mut CaptureStore,
    arrival: &Arrival,
    headers: &hyper::HeaderMap,
    now: u64,
) -> (r: (Traffic, Intake))
    requires
        old(store).wf(),
    ensures
        ({
            let contents = headers::header_contents(*headers);
            let t = opened(arrival@, old(store).upcoming(), r.0@.req_headers, now);
            let names = seqs::text_pairs(plugins@);
            &&& exchange::lists(r.0@.req_headers, contents)
            &&& (r.0@, r.1@) == received(arrival@, rules@, names, contents, t, now)
            &&& final(store)@ == capture::upserted(
                old(store)@,
                kept(arrival@, rules@, names, contents, t, now),
                old(store).limit(),
            )
            &&& final(store).untold() == old(store).untold() + told(
                arrival@,
                rules@,
                names,
                contents,
                t,
                now,
            )
        }),
        final(store).wf(),
        final(store).limit() == old(store).limit(),
        final(store).upcoming() == (old(store).upcoming() + 1) % 0x1_0000_0000_0000_0000,
{
    let id = store.next_id();
    let scheme = if arrival.secure {
        "https"
    } else {
        "http"
    };
    let url: String = if arrival.secure {
        exchange::https_url(arrival.host.as_str(), arrival.target.as_str())
    } else {
        arrival.target.clone()
    };
    let host = arrival.host.as_str();
    let mut t = Traffic::started_at(
        id,
        scheme,
        arrival.method.as_str(),
        url.as_str(),
        host,
        arrival.client.as_str(),
        now,
    );
    exchange::record_request_headers(&mut t, headers);
    if !arrival.secure && crate::text::same(host, "") {
        proof {
            reveal_strlit("");
        }
        let m = exchange::finish_error_at(
            store,
            &mut t,
            400,
            "缺少目标主机（请将本程序设置为 HTTP 代理后再访问）",
            now,
        );
        return (t, Intake::Answered(m));
    }
    proof {
        reveal_strlit("");
        if host@.len() == 0 {
            assert(host@ =~= ""@);
        }
    }
    let ghost before = *store;
    let ops = exchange::eval_rules(rules, store, &mut t, scheme, host, arrival.path.as_str());
    let ghost known = t@;
    let way = exchange::route_of(
        ops.as_slice(),
        plugins,
        headers,
        arrival.query.as_str(),
        host,
        arrival.port,
    );
    match way {
        Route::Mock(m) => {
            exchange::finish_mock_at(store, &mut t, &m, now);
            proof {
                before.law_records_are_bounded_and_distinct();
                capture::law_second_upsert_replaces(before@, known, t@, before.limit());
            }
            (t, Intake::Answered(m))
        },
        Route::WebSocket(h, p) => {
            t.protocol = if arrival.secure {
                "wss".to_string()
            } else {
                "ws".to_string()
            };
            (t, Intake::Goes(ops, Route::WebSocket(h, p)))
        },
        way => (t, Intake::Goes(ops, way)),
    }
}

/// A request is answered here exactly where its address names no host or an answer of the rules
/// is its way.
pub proof fn law_answers_are_local(
    a: ArrivalModel,
    rules: Seq<RuleModel>,
    plugins: Seq<(Seq<char>, Seq<char>)>,
    contents: Map<Seq<char>, Seq<Seq<u8>>>,
    t: TrafficModel,
    now: u64,
)
    ensures
        received(a, rules, plugins, contents, t, now).1 is Answered == (lacks_host(a)
            || exchange::route(
            operations(a, rules),
            plugins,
            contents,
            a.query,
            a.host,
            a.port,
        ) is Mock),
{
}

/// A request that the rules do not speak of, and that asks for no WebSocket, goes straight to its
/// host.
pub proof fn law_unmatched_requests_go_straight(
    a: ArrivalModel,
    rules: Seq<RuleModel>,
    plugins: Seq<(Seq<char>, Seq<char>)>,
    contents: Map<Seq<char>, Seq<Seq<u8>>>,
    t: TrafficModel,
    now: u64,
)
    requires
        !lacks_host(a),
        operations(a, rules).len() == 0,
        !crate::message::asks_for_websocket(contents),
    ensures
        received(a, rules, plugins, contents, t, now) == (
            matched(t, seq![]),
            IntakeModel::Goes(seq![], RouteModel::Direct(a.host, a.port)),
        ),
{
    assert(operations(a, rules) =~= seq![]);
    exchange::law_no_operations_go_straight(plugins, contents, a.query, a.host, a.port);
}

/// A request that came over TLS has an address made of its host and target; any other brings the
/// whole address. The protocol that the rules know follows from that.
pub proof fn law_address_of_a_request(a: ArrivalModel)
    ensures
        a.secure ==> address(a) == seq!['h', 't', 't', 'p', 's', ':', '/', '/'] + a.host + a.target,
        !a.secure ==> address(a) == a.target,
        a.secure ==> scheme(a.secure) == "https"@ && websocket_scheme(a.secure) == "wss"@,
        !a.secure ==> scheme(a.secure) == "http"@ && websocket_scheme(a.secure) == "ws"@,
{
    reveal_strlit("https://");
    assert("https://"@ =~= seq!['h', 't', 't', 'p', 's', ':', '/', '/']);
}

/// A request without a host, and without TLS, is answered with 400, and no rule is asked.
pub proof fn law_request_without_host_is_refused(
    a: ArrivalModel,
    rules: Seq<RuleModel>,
    plugins: Seq<(Seq<char>, Seq<char>)>,
    contents: Map<Seq<char>, Seq<Seq<u8>>>,
    t: TrafficModel,
    now: u64,
)
    ensures
        ({
            let (known, outcome) = received(a, rules, plugins, contents, t, now);
            let without = !a.secure && a.host.len() == 0;
            &&& without ==> outcome is Answered && outcome->Answered_0.status == 400 && known.status
                == Some(400u16) && known.error is Some && known.rules == t.rules
            &&& !without && outcome is Answered ==> known.status == Some(
                outcome->Answered_0.status,
            )
            &&& !without ==> known.rules == exchange::raw_texts(operations(a, rules))
        }),
{
}

/// The rules are asked by the protocol, host, path and method of a request, and what they say goes
/// with it.
pub proof fn law_rules_are_asked_for_the_request(
    a: ArrivalModel,
    rules: Seq<RuleModel>,
    plugins: Seq<(Seq<char>, Seq<char>)>,
    contents: Map<Seq<char>, Seq<Seq<u8>>>,
    t: TrafficModel,
    now: u64,
)
    requires
        !lacks_host(a),
    ensures
        ({
            let (known, outcome) = received(a, rules, plugins, contents, t, now);
            let ops = exchange::operations_for(
                rules,
                if a.secure {
                    "https"@
                } else {
                    "http"@
                },
                a.host,
                a.path,
                a.method,
            );
            let way = exchange::route(ops, plugins, contents, a.query, a.host, a.port);
            &&& outcome is Goes ==> outcome == IntakeModel::Goes(ops, way)
            &&& way is WebSocket ==> known.protocol == if a.secure {
                "wss"@
            } else {
                "ws"@
            }
            &&& !(way is WebSocket) ==> known.protocol == t.protocol
        }),
{
}

/// Subscribers are told what the store holds in the end, and of a request of which the rules were
/// asked that before it.
pub proof fn law_subscribers_are_told_the_outcome(
    a: ArrivalModel,
    rules: Seq<RuleModel>,
    plugins: Seq<(Seq<char>, Seq<char>)>,
    contents: Map<Seq<char>, Seq<Seq<u8>>>,
    t: TrafficModel,
    now: u64,
)
    ensures
        told(a, rules, plugins, contents, t, now).len() > 0,
        told(a, rules, plugins, contents, t, now).last() == kept(
            a,
            rules,
            plugins,
            contents,
            t,
            now,
        ),
        !lacks_host(a) ==> told(a, rules, plugins, contents, t, now)[0].rules
            == exchange::raw_texts(operations(a, rules)) && told(
            a,
            rules,
            plugins,
            contents,
            t,
            now,
        )[0].status == t.status,
{
}

} // verus!
