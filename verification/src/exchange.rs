//! The life of an exchange: which way it goes, what is sent on, and what is recorded of it.
use crate::action;
use crate::action::ActionModel;
use crate::action::MockModel;
use crate::action::MockResponse;
use crate::action::RequestAction;
use crate::capture;
use crate::capture::CaptureStore;
use crate::capture::Header;
use crate::capture::HeaderText;
use crate::capture::Traffic;
use crate::capture::TrafficModel;
use crate::capture::WsMessage;
use crate::capture::WsText;
use crate::frames::Message;
use crate::frames::MessageModel;
use crate::headers;
use crate::inspect;
use crate::message;
use crate::operation;
use crate::operation::OpText;
use crate::operation::Operation;
use crate::pattern;
use crate::pattern::InputText;
use crate::pattern::MatchInput;
use crate::rewrite;
use crate::rules;
use crate::rules::RuleModel;
use crate::rules::RuleSet;
use crate::seqs;
use crate::text;
use crate::wire;
use vstd::prelude::*;

verus! {

// ---- which way a connection goes ----

/// What becomes of a request at the door.
#[derive(Debug, PartialEq, Eq, Structural, Clone, Copy)]
pub enum Entry {
    /// A tunnel is asked for.
    Tunnel,
    /// The dashboard is asked for: the address names no host.
    Dashboard,
    /// The request goes on.
    Forward,
}

/// What becomes of a request at the door.
pub open spec fn entry(method: Seq<char>, has_host: bool, has_dashboard: bool) -> Entry {
    if method == "CONNECT"@ {
        Entry::Tunnel
    } else if !has_host && has_dashboard {
        Entry::Dashboard
    } else {
        Entry::Forward
    }
}

/// What becomes of a request at the door.
pub fn entry_of(method: &str, has_host: bool, has_dashboard: bool) -> (r: Entry)
    ensures
        r == entry(method@, has_host, has_dashboard),
{
    if text::same(method, "CONNECT") {
        Entry::Tunnel
    } else if !has_host && has_dashboard {
        Entry::Dashboard
    } else {
        Entry::Forward
    }
}

/// A tunnel to a host is opened up: this can be done, and it is done for all hosts or a rule is
/// about this one.
pub open spec fn opens_up(decrypt: bool, all: bool, rules: Seq<RuleModel>, host: Seq<char>) -> bool {
    decrypt && (all || rules::rules_intercept(rules, host))
}

/// Whether a tunnel to a host is opened up.
pub fn should_mitm(decrypt: bool, all: bool, rules: &RuleSet, host: &str) -> (r: bool)
    ensures
        r == opens_up(decrypt, all, rules@, host@),
{
    decrypt && (all || rules.intercepts_host(host))
}

/// A tunnel stays closed where opening up is switched off, and where it is not done for all hosts
/// and no rule is about the host. Where it is done for all hosts, a tunnel is opened up.
pub proof fn law_tunnels_stay_closed(
    decrypt: bool,
    all: bool,
    rules: Seq<RuleModel>,
    host: Seq<char>,
)
    ensures
        !decrypt ==> !opens_up(decrypt, all, rules, host),
        !all && !rules::rules_intercept(rules, host) ==> !opens_up(decrypt, all, rules, host),
        decrypt && all ==> opens_up(decrypt, all, rules, host),
{
}

// ---- which way a request goes ----

/// The way of a request.
#[derive(Debug)]
pub enum Route {
    /// The plugin at this address answers.
    Plugin(String),
    /// A template answers, with this callback.
    Template(String, String),
    /// It is answered here.
    Mock(MockResponse),
    /// A file answers.
    ServeFile(String),
    /// A WebSocket to this host and port.
    WebSocket(String, u16),
    /// Through the SOCKS proxy at the first host and port to the second.
    Socks(String, u16, String, u16),
    /// Through the HTTP proxy at the first host and port to the second.
    Proxy(String, u16, String, u16),
    /// To this host and port.
    Direct(String, u16),
}

/// The way of a request.
pub enum RouteModel {
    Plugin(Seq<char>),
    Template(Seq<char>, Seq<char>),
    Mock(MockModel),
    ServeFile(Seq<char>),
    WebSocket(Seq<char>, u16),
    Socks(Seq<char>, u16, Seq<char>, u16),
    Proxy(Seq<char>, u16, Seq<char>, u16),
    Direct(Seq<char>, u16),
}

impl View for Route {
    type V = RouteModel;

    open spec fn view(&self) -> RouteModel {
        match *self {
            Route::Plugin(a) => RouteModel::Plugin(a@),
            Route::Template(p, c) => RouteModel::Template(p@, c@),
            Route::Mock(m) => RouteModel::Mock(m@),
            Route::ServeFile(p) => RouteModel::ServeFile(p@),
            Route::WebSocket(h, p) => RouteModel::WebSocket(h@, p),
            Route::Socks(a, b, h, p) => RouteModel::Socks(a@, b, h@, p),
            Route::Proxy(a, b, h, p) => RouteModel::Proxy(a@, b, h@, p),
            Route::Direct(h, p) => RouteModel::Direct(h@, p),
        }
    }
}

/// The way to a host and port: through a SOCKS proxy, else an HTTP proxy, else straight.
pub open spec fn upstream_route(ops: Seq<OpText>, host: Seq<char>, port: u16) -> RouteModel {
    match action::socks_of(ops) {
        Some((h, p)) => RouteModel::Socks(h, p, host, port),
        None => match action::proxy_of(ops) {
            Some((h, p)) => RouteModel::Proxy(h, p, host, port),
            None => RouteModel::Direct(host, port),
        },
    }
}

/// The way of a request: a plugin answers before a template, a template before the answers of the
/// rules, and what is not answered goes on, as a WebSocket where one is asked for.
pub open spec fn route(
    ops: Seq<OpText>,
    plugins: Seq<(Seq<char>, Seq<char>)>,
    contents: Map<Seq<char>, Seq<Seq<u8>>>,
    query: Seq<char>,
    host: Seq<char>,
    port: u16,
) -> RouteModel {
    match wire::plugin_of(ops, plugins) {
        Some(addr) => RouteModel::Plugin(addr),
        None => match operation::last_of_either(ops, "tpl"@, "xtpl"@) {
            Some(path) => RouteModel::Template(
                path,
                action::callback_of(query),
            ),
            None => match action::action_of(ops, host, port) {
                ActionModel::Mock(m) => RouteModel::Mock(m),
                ActionModel::ServeFile(path) => RouteModel::ServeFile(path),
                ActionModel::Forward(h, p) => if message::asks_for_websocket(contents) {
                    RouteModel::WebSocket(h, p)
                } else {
                    upstream_route(ops, h, p)
                },
            },
        },
    }
}

/// The way of a request.
pub fn route_of(
    ops: &[Operation],
    plugins: &Vec<(String, String)>,
    headers: &hyper::HeaderMap,
    query: &str,
    host: &str,
    port: u16,
) -> (r: Route)
    ensures
        r@ == route(
            operation::op_texts(ops@),
            seqs::text_pairs(plugins@),
            headers::header_contents(*headers),
            query@,
            host@,
            port,
        ),
{
    if let Some(addr) = wire::plugin_target(plugins, ops) {
        return Route::Plugin(addr);
    }
    if let Some(path) = operation::last_value_of_either(ops, "tpl", "xtpl") {
        return Route::Template(path.to_string(), action::tpl_callback(query));
    }
    match action::request_action(ops, host, port) {
        RequestAction::Mock(m) => Route::Mock(m),
        RequestAction::ServeFile(path) => Route::ServeFile(path),
        RequestAction::Forward { host, port } => {
            if message::is_ws_upgrade(headers) {
                Route::WebSocket(host, port)
            } else if let Some((h, p)) = action::upstream_socks(ops) {
                Route::Socks(h, p, host, port)
            } else if let Some((h, p)) = action::upstream_proxy(ops) {
                Route::Proxy(h, p, host, port)
            } else {
                Route::Direct(host, port)
            }
        },
    }
}

/// A plugin answers before anything else, and a template before the rest.
pub proof fn law_plugins_come_first(
    ops: Seq<OpText>,
    plugins: Seq<(Seq<char>, Seq<char>)>,
    contents: Map<Seq<char>, Seq<Seq<u8>>>,
    query: Seq<char>,
    host: Seq<char>,
    port: u16,
)
    ensures
        route(ops, plugins, contents, query, host, port) is Plugin == (wire::plugin_of(
            ops,
            plugins,
        ) is Some),
        route(ops, plugins, contents, query, host, port) is Template ==> operation::last_of_either(
            ops,
            "tpl"@,
            "xtpl"@,
        ) is Some,
{
}

/// Without operations and without a WebSocket a request goes straight to its host.
pub proof fn law_no_operations_go_straight(
    plugins: Seq<(Seq<char>, Seq<char>)>,
    contents: Map<Seq<char>, Seq<Seq<u8>>>,
    query: Seq<char>,
    host: Seq<char>,
    port: u16,
)
    requires
        !message::asks_for_websocket(contents),
    ensures
        route(seq![], plugins, contents, query, host, port) == RouteModel::Direct(host, port),
{
}

// ---- recording ----

/// The store holds a record in addition to what it held before, and subscribers are to be told of
/// it.
pub open spec fn stored(before: CaptureStore, after: CaptureStore, t: TrafficModel) -> bool {
    &&& after.wf()
    &&& after@ == capture::upserted(before@, t, before.limit())
    &&& after.limit() == before.limit()
    &&& after.upcoming() == before.upcoming()
    &&& after.untold() == before.untold().push(t)
}

/// Begins the record of an exchange, with the next id.
pub fn begin(
    store: &mut CaptureStore,
    protocol: &str,
    method: &str,
    url: &str,
    host: &str,
    client: &str,
) -> (r: Traffic)
    requires
        old(store).wf(),
    ensures
        r@ == capture::begun(
            old(store).upcoming(),
            protocol@,
            method@,
            url@,
            host@,
            client@,
            r@.start_time,
        ),
        final(store).wf(),
        final(store)@ == old(store)@,
        final(store).limit() == old(store).limit(),
        final(store).upcoming() == (old(store).upcoming() + 1) % 0x1_0000_0000_0000_0000,
        final(store).untold() == old(store).untold(),
{
    let id = store.next_id();
    Traffic::new(id, protocol, method, url, host, client)
}

/// Records the header fields of a request.
pub fn record_request_headers(traffic: &mut Traffic, headers: &hyper::HeaderMap)
    ensures
        final(traffic)@ == (TrafficModel {
            req_headers: final(traffic)@.req_headers,
            ..old(traffic)@
        }),
        lists(final(traffic)@.req_headers, headers::header_contents(*headers)),
{
    traffic.req_headers = headers::collect_headers(headers);
}

/// Puts the record of an exchange that goes on in the store.
pub fn record(store: &mut CaptureStore, traffic: &Traffic)
    requires
        old(store).wf(),
    ensures
        stored(*old(store), *final(store), traffic@),
{
    store.upsert(traffic.clone());
}

/// The address of a request that came through a tunnel.
pub open spec fn https_address(host: Seq<char>, path_and_query: Seq<char>) -> Seq<char> {
    "https://"@ + host + path_and_query
}

/// The address of a request that came through a tunnel.
pub fn https_url(host: &str, path_and_query: &str) -> (r: String)
    ensures
        r@ == https_address(host@, path_and_query@),
{
    text::cat3("https://", host, path_and_query)
}

/// The tokens of operations.
pub open spec fn raw_texts(ops: Seq<OpText>) -> Seq<Seq<char>> {
    Seq::new(ops.len(), |i: int| ops[i].raw)
}

/// What the rules say of a request.
pub open spec fn operations_for(
    rules: Seq<RuleModel>,
    scheme: Seq<char>,
    host: Seq<char>,
    path: Seq<char>,
    method: Seq<char>,
) -> Seq<OpText> {
    rules::match_model(
        rules,
        InputText { method, ..pattern::input_of(scheme, host, path) },
    )
}

/// Finds what the rules say of a request, and records it.
pub fn eval_rules(
    rules: &RuleSet,
    store: &mut CaptureStore,
    traffic: &mut Traffic,
    scheme: &str,
    host: &str,
    path: &str,
) -> (r: Vec<Operation>)
    requires
        old(store).wf(),
    ensures
        operation::op_texts(r@) == operations_for(
            rules@,
            scheme@,
            host@,
            path@,
            old(traffic)@.method,
        ),
        final(traffic)@ == (TrafficModel {
            rules: raw_texts(operation::op_texts(r@)),
            ..old(traffic)@
        }),
        stored(*old(store), *final(store), final(traffic)@),
{
    let input = MatchInput::new(scheme, host, path).with_method(traffic.method.as_str());
    let ops = rules.match_request(&input);
    let ghost texts = operation::op_texts(ops@);
    let mut raws: Vec<String> = Vec::new();
    let mut i: usize = 0;
    while i < ops.len()
        invariant
            i <= ops.len(),
            texts == operation::op_texts(ops@),
            raws@.len() == i,
            forall|k: int| 0 <= k < i ==> #[trigger] raws@[k]@ == texts[k].raw,
        decreases ops.len() - i,
    {
        raws.push(ops[i].raw.clone());
        i += 1;
    }
    traffic.rules = raws;
    proof {
        assert(seqs::texts(raws@) =~= raw_texts(texts));
    }
    store.upsert(traffic.clone());
    ops
}

/// The record of an exchange that failed.
pub open spec fn failed(t: TrafficModel, status: u16, reason: Seq<char>, now: u64) -> TrafficModel {
    TrafficModel {
        status: Some(status),
        error: Some(reason),
        duration_ms: Some(capture::elapsed(t.start_time, now)),
        ..t
    }
}

/// Records at `now` that an exchange failed, and makes the answer.
pub fn finish_error_at(
    store: &mut CaptureStore,
    traffic: &mut Traffic,
    status: u16,
    reason: &str,
    now: u64,
) -> (r: MockResponse)
    requires
        old(store).wf(),
    ensures
        final(traffic)@ == failed(old(traffic)@, status, reason@, now),
        stored(*old(store), *final(store), final(traffic)@),
        r@ == action::text_response(status, reason@),
{
    traffic.status = Some(status);
    traffic.error = Some(reason.to_string());
    traffic.finish_at(now);
    store.upsert(traffic.clone());
    action::text_mock(status, reason)
}

/// Records that an exchange failed, and makes the answer.
pub fn finish_error(
    store: &mut CaptureStore,
    traffic: &mut Traffic,
    status: u16,
    reason: &str,
) -> (r: MockResponse)
    requires
        old(store).wf(),
    ensures
        exists|now: u64|
            final(traffic)@ == #[trigger] failed(old(traffic)@, status, reason@, now),
        stored(*old(store), *final(store), final(traffic)@),
        r@ == action::text_response(status, reason@),
{
    let now = capture::now_ms();
    finish_error_at(store, traffic, status, reason, now)
}

/// The record of an exchange that was answered.
pub open spec fn answered(
    t: TrafficModel,
    status: u16,
    fields: Seq<HeaderText>,
    now: u64,
) -> TrafficModel {
    TrafficModel {
        status: Some(status),
        res_headers: fields,
        duration_ms: Some(capture::elapsed(t.start_time, now)),
        ..t
    }
}

/// A list of fields holds what the header fields hold: the values of each name in order.
pub open spec fn lists(fields: Seq<HeaderText>, contents: Map<Seq<char>, Seq<Seq<u8>>>) -> bool {
    forall|name: Seq<char>| #[trigger]
        headers::fields_of(fields, name) == headers::lossy_texts(
            headers::values_of(contents, name),
        )
}

/// Records at `now` that an exchange was answered here.
pub fn finish_mock_at(
    store: &mut CaptureStore,
    traffic: &mut Traffic,
    response: &MockResponse,
    now: u64,
)
    requires
        old(store).wf(),
    ensures
        final(traffic)@ == answered(old(traffic)@, response@.status, response@.headers, now),
        stored(*old(store), *final(store), final(traffic)@),
{
    traffic.status = Some(response.status);
    traffic.res_headers = response.headers.clone();
    proof {
        assert(traffic.res_headers@ =~= response.headers@);
    }
    traffic.finish_at(now);
    store.upsert(traffic.clone());
}

/// Records that an exchange was answered here.
pub fn finish_mock(store: &mut CaptureStore, traffic: &mut Traffic, response: &MockResponse)
    requires
        old(store).wf(),
    ensures
        exists|now: u64|
            final(traffic)@ == #[trigger] answered(
                old(traffic)@,
                response@.status,
                response@.headers,
                now,
            ),
        stored(*old(store), *final(store), final(traffic)@),
{
    let now = capture::now_ms();
    finish_mock_at(store, traffic, response, now);
}

/// Records at `now` that a server answered.
pub fn finish_response_at(
    store: &mut CaptureStore,
    traffic: &mut Traffic,
    status: u16,
    headers: &hyper::HeaderMap,
    now: u64,
)
    requires
        old(store).wf(),
    ensures
        final(traffic)@ == answered(old(traffic)@, status, final(traffic)@.res_headers, now),
        lists(final(traffic)@.res_headers, headers::header_contents(*headers)),
        stored(*old(store), *final(store), final(traffic)@),
{
    traffic.status = Some(status);
    traffic.res_headers = headers::collect_headers(headers);
    traffic.finish_at(now);
    store.upsert(traffic.clone());
}

/// Records that a server has changed to the WebSocket protocol. The exchange goes on.
pub fn record_upgrade(store: &mut CaptureStore, traffic: &mut Traffic, headers: &hyper::HeaderMap)
    requires
        old(store).wf(),
    ensures
        final(traffic)@ == (TrafficModel {
            status: Some(101),
            res_headers: final(traffic)@.res_headers,
            ..old(traffic)@
        }),
        lists(final(traffic)@.res_headers, headers::header_contents(*headers)),
        stored(*old(store), *final(store), final(traffic)@),
{
    traffic.status = Some(101);
    traffic.res_headers = headers::collect_headers(headers);
    store.upsert(traffic.clone());
}

/// The record of a tunnel that has ended: it was open, or could not be opened for a reason.
pub open spec fn tunnel_ended(t: TrafficModel, error: Option<Seq<char>>, now: u64) -> TrafficModel {
    TrafficModel {
        status: match error {
            Some(_) => t.status,
            None => Some(200),
        },
        error: match error {
            Some(e) => Some(e),
            None => t.error,
        },
        duration_ms: Some(capture::elapsed(t.start_time, now)),
        ..t
    }
}

/// Records at `now` that a tunnel has ended.
pub fn finish_tunnel_at(
    store: &mut CaptureStore,
    traffic: &mut Traffic,
    error: Option<String>,
    now: u64,
)
    requires
        old(store).wf(),
    ensures
        final(traffic)@ == tunnel_ended(old(traffic)@, capture::opt_text(error), now),
        stored(*old(store), *final(store), final(traffic)@),
{
    match error {
        Some(e) => {
            traffic.error = Some(e);
        },
        None => {
            traffic.status = Some(200);
        },
    }
    traffic.finish_at(now);
    store.upsert(traffic.clone());
}

/// Records that a tunnel has ended.
pub fn finish_tunnel(store: &mut CaptureStore, traffic: &mut Traffic, error: Option<String>)
    requires
        old(store).wf(),
    ensures
        exists|now: u64|
            final(traffic)@ == #[trigger] tunnel_ended(
                old(traffic)@,
                capture::opt_text(error),
                now,
            ),
        stored(*old(store), *final(store), final(traffic)@),
{
    let now = capture::now_ms();
    finish_tunnel_at(store, traffic, error, now);
}

// ---- WebSocket messages ----

/// The most WebSocket messages that are kept of one exchange.
pub const MAX_WS_MESSAGES: usize = 500;

/// What is kept of a message: its text where it is one.
pub open spec fn message_record(dir: Seq<char>, m: MessageModel) -> WsText {
    WsText {
        dir,
        opcode: m.opcode,
        text: if m.opcode == 1 {
            Some(text::lossy_utf8(m.payload))
        } else {
            None
        },
        size: m.total as u64,
    }
}

/// The record of an exchange with one more message, unless there are many already.
pub open spec fn with_message(t: TrafficModel, dir: Seq<char>, m: MessageModel) -> TrafficModel {
    TrafficModel {
        ws_messages: if t.ws_messages.len() < MAX_WS_MESSAGES {
            t.ws_messages.push(message_record(dir, m))
        } else {
            t.ws_messages
        },
        ..t
    }
}

/// Records a WebSocket message.
pub fn record_message(store: &mut CaptureStore, traffic: &mut Traffic, dir: &str, m: &Message)
    requires
        old(store).wf(),
    ensures
        final(traffic)@ == with_message(old(traffic)@, dir@, m@),
        stored(*old(store), *final(store), final(traffic)@),
{
    let shown: Option<String> = if m.opcode == 1 {
        Some(text::lossy(m.payload.as_slice()))
    } else {
        None
    };
    let msg = WsMessage { dir: dir.to_string(), opcode: m.opcode, text: shown, size: m.total };
    traffic.push_ws(msg, MAX_WS_MESSAGES);
    store.upsert(traffic.clone());
}

/// No more messages are kept than the limit allows.
pub proof fn law_messages_stay_within_limit(t: TrafficModel, dir: Seq<char>, m: MessageModel)
    requires
        t.ws_messages.len() <= MAX_WS_MESSAGES,
    ensures
        with_message(t, dir, m).ws_messages.len() <= MAX_WS_MESSAGES,
{
}

// ---- what is sent on ----

/// The head of a request.
pub struct RequestHead {
    pub method: String,
    /// The path and query, or the whole address.
    pub target: String,
    pub headers: hyper::HeaderMap,
}

/// The head of a response.
pub struct ResponseHead {
    pub status: u16,
    pub headers: hyper::HeaderMap,
}

/// A text is an address that hyper takes.
pub uninterp spec fn is_uri(s: Seq<char>) -> bool;

/// `hyper::Uri` as `FromStr`: whether a text is an address is a function of the text alone.
#[verifier::external_body]
fn parses_as_uri(s: &str) -> (r: bool)
    ensures
        r == is_uri(s@),
{
    s.parse::<hyper::Uri>().is_ok()
}

/// A target, or the root where it is no address.
pub open spec fn target_or_root(target: Seq<char>, is_address: bool) -> Seq<char> {
    if is_address {
        target
    } else {
        "/"@
    }
}

/// A target, or the root where it is no address.
pub fn target_or_root_of(target: String, is_address: bool) -> (r: String)
    ensures
        r@ == target_or_root(target@, is_address),
{
    if is_address {
        target
    } else {
        "/".to_string()
    }
}

/// The target of a request that goes on as it is, or the root where it is no address.
pub fn sendable_target(target: String) -> (r: String)
    ensures
        r@ == target_or_root(target@, is_uri(target@)),
{
    let fine = parses_as_uri(target.as_str());
    target_or_root_of(target, fine)
}

/// The path and query that a server is asked for.
pub open spec fn rewritten_target(pq: Seq<char>, ops: Seq<OpText>) -> Seq<char> {
    rewrite::path_by(rewrite::merged_params(pq, ops), ops)
}

/// Makes the changes of the operations to the head of a request: the target, unless it is kept
/// for a proxy, the header fields and the method.
pub fn prepare_request(head: &mut RequestHead, ops: &[Operation], keep_target: bool)
    requires
        headers::has_room(
            headers::header_contents(old(head).headers),
            inspect::request_edits(operation::op_texts(ops@)).len() as int,
        ),
    ensures
        ({
            let texts = operation::op_texts(ops@);
            let edits = inspect::request_edits(texts);
            let target = rewritten_target(old(head).target@, texts);
            &&& final(head).method@ == rewrite::method_by(texts, old(head).method@)
            &&& final(head).target@ == if keep_target {
                old(head).target@
            } else {
                target_or_root(target, is_uri(target))
            }
            &&& headers::header_contents(final(head).headers) == headers::edited_by(
                message::without_hops(headers::header_contents(old(head).headers)),
                edits,
                edits.len() as int,
            )
        }),
{
    if !keep_target {
        let merged = rewrite::merge_url_params(head.target.as_str(), ops);
        let target = rewrite::rewrite_path(merged.as_str(), ops);
        head.target = sendable_target(target);
    }
    proof {
        lemma_hops_leave_room(
            headers::header_contents(head.headers),
            inspect::request_edits(operation::op_texts(ops@)).len() as int,
            9,
        );
    }
    message::remove_hop_headers(&mut head.headers);
    inspect::apply_request_headers(&mut head.headers, ops);
    rewrite::override_method(ops, &mut head.method);
}

/// Taking headers out leaves room for others.
pub proof fn lemma_hops_leave_room(contents: Map<Seq<char>, Seq<Seq<u8>>>, n: int, k: int)
    requires
        headers::has_room(contents, n),
        0 <= k <= 9,
    ensures
        headers::has_room(message::without_names(contents, message::hop_names(), k), n),
    decreases k,
{
    if k > 0 {
        lemma_hops_leave_room(contents, n, k - 1);
        let before = message::without_names(contents, message::hop_names(), k - 1);
        let name = seqs::lower(message::hop_names()[k - 1]);
        assert(before.remove(name).dom() =~= before.dom().remove(name));
    }
}

/// The body of a request is held back whole: it is rewritten, or it is short enough to be kept.
pub fn holds_request_body(ops: &[Operation], headers: &hyper::HeaderMap, limit: usize) -> (r: bool)
    ensures
        r == (operation::mentions(operation::op_texts(ops@), rewrite::req_body_protocols())
            || message::is_within_limit(headers::header_contents(*headers), limit as nat)),
{
    rewrite::has_req_body_rewrite(ops) || message::body_within_limit(headers, limit)
}

/// The body of a response is held back whole: it is rewritten, or it is short enough to be kept.
pub fn holds_response_body(ops: &[Operation], headers: &hyper::HeaderMap, limit: usize) -> (r: bool)
    ensures
        r == (operation::mentions(operation::op_texts(ops@), rewrite::res_body_protocols())
            || message::is_within_limit(headers::header_contents(*headers), limit as nat)),
{
    rewrite::has_res_body_rewrite(ops) || message::body_within_limit(headers, limit)
}

/// The body of a request as it is sent on.
pub open spec fn sent_body(body: Seq<u8>, ops: Seq<OpText>) -> Seq<u8> {
    if operation::mentions(ops, rewrite::req_body_protocols()) {
        vstd::utf8::encode_utf8(rewrite::req_body_text(body, ops))
    } else {
        body
    }
}

/// The body of a response as it is handed on.
pub open spec fn handed_body(body: Seq<u8>, ops: Seq<OpText>) -> Seq<u8> {
    if operation::mentions(ops, rewrite::res_body_protocols()) {
        vstd::utf8::encode_utf8(rewrite::res_body_text(body, ops))
    } else {
        body
    }
}

/// Makes the changes of the operations to the body of a request, and records its start.
pub fn take_request_body(
    headers: &mut hyper::HeaderMap,
    traffic: &mut Traffic,
    ops: &[Operation],
    body: Vec<u8>,
    limit: usize,
) -> (r: Vec<u8>)
    requires
        headers::has_room(headers::header_contents(*old(headers)), 1),
    ensures
        r@ == sent_body(body@, operation::op_texts(ops@)),
        headers::header_contents(*final(headers)) == if operation::mentions(
            operation::op_texts(ops@),
            rewrite::req_body_protocols(),
        ) {
            message::with_length(headers::header_contents(*old(headers)), r@.len())
        } else {
            headers::header_contents(*old(headers))
        },
        final(traffic)@ == (TrafficModel {
            req_body_size: r@.len() as u64,
            req_body: Some(capture::preview(r@, limit as int)),
            ..old(traffic)@
        }),
{
    let out: Vec<u8> = if rewrite::has_req_body_rewrite(ops) {
        let new = rewrite::rewrite_req_body(body.as_slice(), ops);
        message::set_content_length(headers, new.len());
        new
    } else {
        body
    };
    traffic.set_req_body(out.as_slice(), limit);
    out
}

/// Makes the changes of the operations to the head of a response.
pub fn prepare_response(head: &mut ResponseHead, ops: &[Operation])
    requires
        headers::has_room(
            headers::header_contents(old(head).headers),
            inspect::response_edits(operation::op_texts(ops@)).len() as int,
        ),
    ensures
        ({
            let texts = operation::op_texts(ops@);
            let edits = inspect::response_edits(texts);
            &&& final(head).status == rewrite::status_by(texts, old(head).status)
            &&& headers::header_contents(final(head).headers) == headers::edited_by(
                headers::header_contents(old(head).headers),
                edits,
                edits.len() as int,
            )
        }),
{
    inspect::apply_response(&mut head.headers, ops);
    rewrite::override_status(ops, &mut head.status);
}

/// Makes the changes of the operations to the body of a response, and records its start.
pub fn take_response_body(
    headers: &mut hyper::HeaderMap,
    traffic: &mut Traffic,
    ops: &[Operation],
    body: Vec<u8>,
    limit: usize,
) -> (r: Vec<u8>)
    requires
        headers::has_room(headers::header_contents(*old(headers)), 1),
    ensures
        r@ == handed_body(body@, operation::op_texts(ops@)),
        headers::header_contents(*final(headers)) == if operation::mentions(
            operation::op_texts(ops@),
            rewrite::res_body_protocols(),
        ) {
            message::with_length(headers::header_contents(*old(headers)), r@.len())
        } else {
            headers::header_contents(*old(headers))
        },
        final(traffic)@ == (TrafficModel {
            res_body_size: r@.len() as u64,
            res_body: Some(capture::preview(r@, limit as int)),
            res_body_truncated: r@.len() > limit,
            ..old(traffic)@
        }),
{
    let out: Vec<u8> = if rewrite::has_res_body_rewrite(ops) {
        let new = rewrite::rewrite_res_body(body.as_slice(), ops);
        message::set_content_length(headers, new.len());
        new
    } else {
        body
    };
    traffic.set_res_body(out.as_slice(), limit);
    out
}

/// A body that is rewritten is sent with its own length, and not in chunks.
pub proof fn law_rewritten_body_has_its_length(
    contents: Map<Seq<char>, Seq<Seq<u8>>>,
    len: nat,
)
    ensures
        headers::values_of(
            message::with_length(contents, len),
            seqs::lower("content-length"@),
        ) == seq![vstd::utf8::encode_utf8(seqs::decimal(len))],
        !message::with_length(contents, len).contains_key(seqs::lower("transfer-encoding"@)),
{
    reveal_strlit("content-length");
    reveal_strlit("transfer-encoding");
    let name = "content-length"@;
    assert forall|i: int| 0 <= i < name.len() implies headers::is_token_char(
        #[trigger] name[i],
    ) by {
        reveal_strlit("!#$%&'*+-.^_`|~");
        assert("!#$%&'*+-.^_`|~"@[8] == '-');
    }
    seqs::lemma_decimal(len);
    assert(headers::is_header_value(seqs::decimal(len)));
    assert(seqs::lower("content-length"@)[0] == 'c');
    assert(seqs::lower("transfer-encoding"@)[0] == 't');
}

// ---- plugins ----

/// The header fields of a plugin's answer, with their names in lower case.
pub open spec fn plugin_fields(fields: Seq<(Seq<char>, Seq<char>)>) -> Seq<HeaderText> {
    Seq::new(
        fields.len(),
        |i: int| HeaderText { name: seqs::lower(fields[i].0), value: fields[i].1 },
    )
}

/// The status that a plugin's answer asks for.
pub open spec fn plugin_status(status: Option<u16>) -> u16 {
    match status {
        Some(s) => s,
        None => 200,
    }
}

/// The response that a plugin's answer asks for. A status that none can be is sent as 200.
pub open spec fn plugin_mock(
    status: Option<u16>,
    fields: Seq<(Seq<char>, Seq<char>)>,
    body: Seq<char>,
) -> MockModel {
    MockModel {
        status: if 100 <= plugin_status(status) <= 999 {
            plugin_status(status)
        } else {
            200
        },
        headers: plugin_fields(fields),
        body: vstd::utf8::encode_utf8(body),
    }
}

/// The response that a plugin's answer asks for, where a header map could be built of its fields.
pub fn plugin_response(p: &wire::PluginResponse, built: &Option<hyper::HeaderMap>) -> (r: Option<
    MockResponse,
>)
    ensures
        match r {
            Some(m) => built is Some && m@ == plugin_mock(
                p.status,
                seqs::text_pairs(p.headers@),
                p.body@,
            ),
            None => built is None,
        },
{
    if built.is_none() {
        return None;
    }
    let ghost fields = seqs::text_pairs(p.headers@);
    let mut out: Vec<Header> = Vec::new();
    let mut i: usize = 0;
    while i < p.headers.len()
        invariant
            i <= p.headers.len(),
            fields == seqs::text_pairs(p.headers@),
            out@.len() == i,
            forall|k: int| 0 <= k < i ==> (#[trigger] out@[k])@ == plugin_fields(fields)[k],
        decreases p.headers.len() - i,
    {
        let name = p.headers[i].0.as_str();
        let value = p.headers[i].1.as_str();
        proof {
            assert(fields[i as int] == (name@, value@));
        }
        out.push(Header { name: text::lower(name), value: value.to_string() });
        i += 1;
    }
    let status: u16 = match p.status {
        Some(s) => s,
        None => 200,
    };
    let m = MockResponse {
        status: if rewrite::is_sendable_status(status) {
            status
        } else {
            200
        },
        headers: out,
        body: text::bytes_of(p.body.as_str()),
    };
    proof {
        assert(m@.headers =~= plugin_fields(fields));
    }
    Some(m)
}

/// The record of an exchange that a plugin answered.
pub open spec fn plugin_answered(
    t: TrafficModel,
    response: MockModel,
    limit: int,
    now: u64,
) -> TrafficModel {
    TrafficModel {
        res_body_size: response.body.len() as u64,
        res_body: Some(capture::preview(response.body, limit)),
        res_body_truncated: response.body.len() > limit,
        ..answered(t, response.status, response.headers, now)
    }
}

/// The request as it is handed to a plugin: a list holds its header fields, and its body is text.
pub fn plugin_request(
    method: &str,
    url: &str,
    fields: &Vec<Header>,
    body: &[u8],
    ops: &[Operation],
) -> (r: wire::PluginRequest)
    ensures
        r.method@ == method@,
        r.url@ == url@,
        seqs::text_pairs(r.headers@) == field_pairs(capture::header_texts(fields@)),
        r.body@ == text::lossy_utf8(body@),
        seqs::text_pairs(r.vars@) == wire::named_vars(operation::op_texts(ops@)),
{
    let mut pairs: Vec<(String, String)> = Vec::new();
    let mut i: usize = 0;
    while i < fields.len()
        invariant
            i <= fields.len(),
            pairs@.len() == i,
            forall|k: int|
                0 <= k < i ==> (#[trigger] pairs@[k]).0@ == fields@[k].name@ && pairs@[k].1@
                    == fields@[k].value@,
        decreases fields.len() - i,
    {
        pairs.push((fields[i].name.clone(), fields[i].value.clone()));
        i += 1;
    }
    proof {
        assert(seqs::text_pairs(pairs@) =~= field_pairs(capture::header_texts(fields@)));
    }
    wire::PluginRequest {
        method: method.to_string(),
        url: url.to_string(),
        headers: pairs,
        body: text::lossy(body),
        vars: wire::plugin_vars(ops),
    }
}

/// Header fields as names and values.
pub open spec fn field_pairs(fields: Seq<HeaderText>) -> Seq<(Seq<char>, Seq<char>)> {
    fields.map_values(|h: HeaderText| (h.name, h.value))
}

/// Records at `now` that a plugin answered, with the status that is sent.
pub fn finish_plugin_at(
    store: &mut CaptureStore,
    traffic: &mut Traffic,
    response: &MockResponse,
    limit: usize,
    now: u64,
)
    requires
        old(store).wf(),
    ensures
        final(traffic)@ == plugin_answered(old(traffic)@, response@, limit as int, now),
        stored(*old(store), *final(store), final(traffic)@),
{
    traffic.status = Some(response.status);
    traffic.res_headers = response.headers.clone();
    proof {
        assert(traffic.res_headers@ =~= response.headers@);
    }
    traffic.set_res_body(response.body.as_slice(), limit);
    traffic.finish_at(now);
    store.upsert(traffic.clone());
}

/// The record and the answer where a plugin could not be asked, for this reason.
pub open spec fn plugin_missed(t: TrafficModel, reason: Seq<char>, now: u64) -> (
    TrafficModel,
    MockModel,
) {
    let message = "插件调用失败: "@ + reason;
    (failed(t, 502, message, now), action::text_response(502, message))
}

/// The record and the answer where a plugin answered with fields that cannot be sent.
pub open spec fn plugin_refused(t: TrafficModel, now: u64) -> (TrafficModel, MockModel) {
    let message = "插件响应头非法"@;
    (failed(t, 502, message, now), action::text_response(502, message))
}

/// Ends an exchange at `now` with what came of asking a plugin, its answer or why there is none, and
/// with what came of building a header map of the answer's fields.
pub fn finish_plugin_reply(
    store: &mut CaptureStore,
    traffic: &mut Traffic,
    reply: &Result<wire::PluginResponse, String>,
    built: &Option<hyper::HeaderMap>,
    limit: usize,
    now: u64,
) -> (r: MockResponse)
    requires
        old(store).wf(),
    ensures
        match *reply {
            Ok(p) => if built is Some {
                &&& r@ == plugin_mock(p.status, seqs::text_pairs(p.headers@), p.body@)
                &&& final(traffic)@ == plugin_answered(old(traffic)@, r@, limit as int, now)
            } else {
                (final(traffic)@, r@) == plugin_refused(old(traffic)@, now)
            },
            Err(e) => (final(traffic)@, r@) == plugin_missed(old(traffic)@, e@, now),
        },
        stored(*old(store), *final(store), final(traffic)@),
{
    match reply {
        Ok(p) => match plugin_response(p, built) {
            Some(m) => {
                finish_plugin_at(store, traffic, &m, limit, now);
                m
            },
            None => finish_error_at(store, traffic, 502, "插件响应头非法", now),
        },
        Err(e) => {
            let reason = text::cat("插件调用失败: ", e.as_str());
            finish_error_at(store, traffic, 502, reason.as_str(), now)
        },
    }
}

/// Ends an exchange at `now` with what came of asking a plugin: its answer, or why there is none.
/// Gives the response, and the header map that is sent with it where it is the plugin's. Fields
/// that cannot be sent, or that no header map has room for, are answered 502.
pub fn finish_plugin_call(
    store: &mut CaptureStore,
    traffic: &mut Traffic,
    reply: Result<wire::PluginResponse, String>,
    limit: usize,
    now: u64,
) -> (r: (MockResponse, Option<hyper::HeaderMap>))
    requires
        old(store).wf(),
    ensures
        match reply {
            Ok(p) => {
                let fields = seqs::text_pairs(p.headers@);
                let map = headers::field_map(fields, fields.len() as int);
                match r.1 {
                    Some(h) => {
                        &&& headers::fields_are_sound(fields)
                        &&& map.dom().len() <= headers::MOST_HEADER_NAMES
                        &&& headers::header_contents(h) == map
                        &&& r.0@ == plugin_mock(p.status, fields, p.body@)
                        &&& final(traffic)@ == plugin_answered(
                            old(traffic)@,
                            r.0@,
                            limit as int,
                            now,
                        )
                    },
                    None => {
                        &&& !headers::fields_are_sound(fields) || map.dom().len()
                            > headers::MAX_HEADER_NAMES
                        &&& (final(traffic)@, r.0@) == plugin_refused(old(traffic)@, now)
                    },
                }
            },
            Err(e) => {
                &&& r.1 is None
                &&& (final(traffic)@, r.0@) == plugin_missed(old(traffic)@, e@, now)
            },
        },
        stored(*old(store), *final(store), final(traffic)@),
{
    let built = match &reply {
        Ok(p) => headers::header_map_of(&p.headers),
        Err(_) => None,
    };
    let m = finish_plugin_reply(store, traffic, &reply, &built, limit, now);
    (m, built)
}

/// A request for a tunnel is one by its method. Any other request that names no host is one for the
/// dashboard, where there is one, and goes on else.
pub proof fn law_requests_are_told_apart_at_the_door(
    method: Seq<char>,
    has_host: bool,
    has_dashboard: bool,
)
    ensures
        entry(method, has_host, has_dashboard) is Tunnel <==> method == seq![
            'C',
            'O',
            'N',
            'N',
            'E',
            'C',
            'T',
        ],
        entry(method, has_host, has_dashboard) is Dashboard ==> !has_host && has_dashboard,
        has_host ==> !(entry(method, has_host, has_dashboard) is Dashboard),
        !has_host && has_dashboard ==> !(entry(method, has_host, has_dashboard) is Forward),
        !has_dashboard ==> !(entry(method, has_host, has_dashboard) is Dashboard),
{
    reveal_strlit("CONNECT");
    assert("CONNECT"@ =~= seq!['C', 'O', 'N', 'N', 'E', 'C', 'T']);
}

/// Where tunnels can be opened up, those to a host are for whose root, over TLS or not, some rule
/// has something to say, whatever the form of its pattern.
pub proof fn law_hosts_with_rules_are_opened_up(
    rules: Seq<RuleModel>,
    k: int,
    token: Seq<char>,
    scheme: Seq<char>,
    host: Seq<char>,
)
    requires
        0 <= k < rules.len(),
        pattern::pattern_of(token) == Some(rules[k].pattern),
        scheme == "https"@ || scheme == "http"@,
        pattern::pattern_matches(rules[k].pattern, pattern::input_of(scheme, host, "/"@)),
        rules[k].pattern is UrlPrefix ==> token.len() >= scheme.len() + 3 + host.len(),
        host.len() > 0,
        seqs::lacks(host, ':') && seqs::lacks(host, '/') && seqs::lacks(host, '?') && seqs::lacks(
            host,
            '#',
        ),
        seqs::lower(host) == host,
    ensures
        opens_up(true, false, rules, host),
        opens_up(true, true, rules, host),
        !opens_up(false, true, rules, host),
        !opens_up(false, false, rules, host),
{
    rules::law_matched_hosts_are_intercepted(rules, k, token, scheme, host);
}

/// A tunnel is opened up only where this is allowed, and, unless all are, only to a host that the
/// pattern of some rule is about.
pub proof fn law_other_hosts_stay_closed(rules: Seq<RuleModel>, host: Seq<char>)
    requires
        forall|i: int|
            0 <= i < rules.len() ==> !pattern::pattern_matches_host(
                (#[trigger] rules[i]).pattern,
                host,
            ),
    ensures
        !opens_up(true, false, rules, host),
        opens_up(true, true, rules, host),
{
}

/// A request that goes on goes to a WebSocket where it asks for one. Else it goes through the SOCKS
/// proxy that was asked for, or else through the HTTP proxy, or else straight to its target.
pub proof fn law_ways_to_a_server(
    ops: Seq<OpText>,
    plugins: Seq<(Seq<char>, Seq<char>)>,
    contents: Map<Seq<char>, Seq<Seq<u8>>>,
    query: Seq<char>,
    host: Seq<char>,
    port: u16,
    to: Seq<char>,
    to_port: u16,
)
    requires
        wire::plugin_of(ops, plugins) is None,
        operation::last_of(ops, "tpl"@) is None,
        operation::last_of(ops, "xtpl"@) is None,
        action::action_of(ops, host, port) == ActionModel::Forward(to, to_port),
    ensures
        ({
            let way = route(ops, plugins, contents, query, host, port);
            let asked = message::asks_for_websocket(contents);
            let proxied = operation::last_of(ops, "proxy"@) is Some || operation::last_of(
                ops,
                "http-proxy"@,
            ) is Some;
            &&& asked ==> way == RouteModel::WebSocket(to, to_port)
            &&& !asked && operation::last_of(ops, "socks"@) is Some ==> {
                let (h, p) = action::socks_of(ops)->0;
                action::socks_of(ops) is Some && way == RouteModel::Socks(h, p, to, to_port)
            }
            &&& !asked && operation::last_of(ops, "socks"@) is None && proxied ==> {
                let (h, p) = action::proxy_of(ops)->0;
                action::proxy_of(ops) is Some && way == RouteModel::Proxy(h, p, to, to_port)
            }
            &&& !asked && operation::last_of(ops, "socks"@) is None && !proxied ==> way
                == RouteModel::Direct(to, to_port)
        }),
{
}

/// A plugin comes before a template, a template before all answers and servers. A `tpl` comes before
/// an `xtpl`.
pub proof fn law_templates_are_the_ones_named(
    ops: Seq<OpText>,
    plugins: Seq<(Seq<char>, Seq<char>)>,
    contents: Map<Seq<char>, Seq<Seq<u8>>>,
    query: Seq<char>,
    host: Seq<char>,
    port: u16,
    path: Seq<char>,
)
    requires
        wire::plugin_of(ops, plugins) is None,
    ensures
        operation::last_of(ops, "tpl"@) == Some(path) || operation::last_of(ops, "tpl"@) is None
            && operation::last_of(ops, "xtpl"@) == Some(path) ==> (route(
            ops,
            plugins,
            contents,
            query,
            host,
            port,
        ) matches RouteModel::Template(p, _) && p == path),
        operation::last_of(ops, "tpl"@) is None && operation::last_of(ops, "xtpl"@) is None
            ==> match action::action_of(ops, host, port) {
            ActionModel::Mock(m) => route(ops, plugins, contents, query, host, port)
                == RouteModel::Mock(m),
            ActionModel::ServeFile(p) => route(ops, plugins, contents, query, host, port)
                == RouteModel::ServeFile(p),
            ActionModel::Forward(_, _) => true,
        },
{
}

/// The operations on a request are what the rules say of its address, host, path and method.
pub proof fn law_operations_are_those_of_the_request(
    rules: Seq<RuleModel>,
    scheme: Seq<char>,
    host: Seq<char>,
    path: Seq<char>,
    method: Seq<char>,
)
    requires
        seqs::lacks(host, ':'),
        path.len() > 0,
    ensures
        operations_for(rules, scheme, host, path, method) == rules::match_model(
            rules,
            InputText { url: scheme + seq![':', '/', '/'] + host + path, host, path, method },
        ),
{
    pattern::law_request_is_made_of_its_parts(scheme, host, path);
}

/// A failed exchange is recorded with its status, the reason and the time that it took. All else of
/// the record stays.
pub proof fn law_failure_is_recorded(t: TrafficModel, status: u16, reason: Seq<char>, now: u64)
    requires
        t.start_time <= now,
    ensures
        ({
            let after = failed(t, status, reason, now);
            &&& after.status == Some(status)
            &&& after.error == Some(reason)
            &&& after.duration_ms == Some((now - t.start_time) as u64)
            &&& after == (TrafficModel {
                status: after.status,
                error: after.error,
                duration_ms: after.duration_ms,
                ..t
            })
        }),
{
}

/// An answered exchange is recorded with its status, the fields of the answer and the time that it
/// took. All else of the record stays.
pub proof fn law_answer_is_recorded(
    t: TrafficModel,
    status: u16,
    fields: Seq<HeaderText>,
    now: u64,
)
    requires
        t.start_time <= now,
    ensures
        ({
            let after = answered(t, status, fields, now);
            &&& after.status == Some(status)
            &&& after.res_headers == fields
            &&& after.duration_ms == Some((now - t.start_time) as u64)
            &&& after == (TrafficModel {
                status: after.status,
                res_headers: after.res_headers,
                duration_ms: after.duration_ms,
                ..t
            })
        }),
{
}

/// A tunnel that ended well is recorded with the status 200, and one that failed with the reason.
pub proof fn law_end_of_tunnel_is_recorded(t: TrafficModel, reason: Seq<char>, now: u64)
    requires
        t.start_time <= now,
    ensures
        tunnel_ended(t, None, now).status == Some(200u16),
        tunnel_ended(t, None, now).error == t.error,
        tunnel_ended(t, Some(reason), now).error == Some(reason),
        tunnel_ended(t, Some(reason), now).status == t.status,
        tunnel_ended(t, None, now).duration_ms == Some((now - t.start_time) as u64),
        tunnel_ended(t, Some(reason), now).duration_ms == Some((now - t.start_time) as u64),
        tunnel_ended(t, None, now).id == t.id,
{
}

/// A message is recorded behind those before it, with its direction, its operation code and its
/// size. The text is recorded of text messages alone, and once the list is full nothing is added.
pub proof fn law_message_is_recorded(t: TrafficModel, dir: Seq<char>, m: MessageModel)
    requires
        0 <= m.total <= u64::MAX,
    ensures
        ({
            let after = with_message(t, dir, m).ws_messages;
            &&& t.ws_messages.len() < 500 ==> after.len() == t.ws_messages.len() + 1
                && after.drop_last() == t.ws_messages && after.last().dir == dir
                && after.last().opcode == m.opcode && after.last().size == m.total
                && after.last().text == if m.opcode == 1 {
                Some(text::lossy_utf8(m.payload))
            } else {
                None
            }
            &&& t.ws_messages.len() >= 500 ==> after == t.ws_messages
        }),
{
    let after = with_message(t, dir, m).ws_messages;
    if t.ws_messages.len() < 500 {
        assert(after.drop_last() =~= t.ws_messages);
    }
}

/// Where no operation rewrites a body, its bytes go on as they are, also those that are no text.
pub proof fn law_bodies_go_on_as_they_are(body: Seq<u8>, ops: Seq<OpText>)
    ensures
        !operation::mentions(ops, rewrite::req_body_protocols()) ==> sent_body(body, ops) == body,
        !operation::mentions(ops, rewrite::res_body_protocols()) ==> handed_body(body, ops) == body,
{
}

/// An operation on the body of a response makes the body that is handed on the text with its own
/// behind, in front of or in place of what the server sent.
#[verifier::spinoff_prover]
#[verifier::rlimit(60)]
pub proof fn law_one_operation_on_the_handed_body(body: Seq<u8>, op: OpText)
    ensures
        op.protocol == "resAppend"@ || op.protocol == "htmlAppend"@ || op.protocol == "jsAppend"@
            || op.protocol == "cssAppend"@ ==> handed_body(body, seq![op])
            == vstd::utf8::encode_utf8(text::lossy_utf8(body) + op.value),
        op.protocol == "resPrepend"@ || op.protocol == "htmlPrepend"@ || op.protocol
            == "jsPrepend"@ || op.protocol == "cssPrepend"@ ==> handed_body(body, seq![op])
            == vstd::utf8::encode_utf8(op.value + text::lossy_utf8(body)),
        op.protocol == "resBody"@ || op.protocol == "htmlBody"@ || op.protocol == "jsBody"@
            || op.protocol == "cssBody"@ ==> handed_body(body, seq![op])
            == vstd::utf8::encode_utf8(op.value),
        op.protocol == "reqAppend"@ ==> sent_body(body, seq![op]) == vstd::utf8::encode_utf8(
            text::lossy_utf8(body) + op.value,
        ),
        op.protocol == "reqPrepend"@ ==> sent_body(body, seq![op]) == vstd::utf8::encode_utf8(
            op.value + text::lossy_utf8(body),
        ),
        op.protocol == "reqBody"@ ==> sent_body(body, seq![op]) == vstd::utf8::encode_utf8(
            op.value,
        ),
{
    let names = rewrite::res_body_protocols();
    operation::law_one_operation_has_one_value(op, "resBody"@);
    operation::law_one_operation_has_one_value(op, "htmlBody"@);
    operation::law_one_operation_has_one_value(op, "jsBody"@);
    operation::law_one_operation_has_one_value(op, "cssBody"@);
    operation::law_one_operation_has_one_value(op, "resReplace"@);
    operation::law_one_operation_has_one_value(op, "resPrepend"@);
    operation::law_one_operation_has_one_value(op, "htmlPrepend"@);
    operation::law_one_operation_has_one_value(op, "jsPrepend"@);
    operation::law_one_operation_has_one_value(op, "cssPrepend"@);
    operation::law_one_operation_has_one_value(op, "resAppend"@);
    operation::law_one_operation_has_one_value(op, "htmlAppend"@);
    operation::law_one_operation_has_one_value(op, "jsAppend"@);
    operation::law_one_operation_has_one_value(op, "cssAppend"@);
    operation::law_one_operation_has_one_value(op, "reqBody"@);
    operation::law_one_operation_has_one_value(op, "reqReplace"@);
    operation::law_one_operation_has_one_value(op, "reqPrepend"@);
    operation::law_one_operation_has_one_value(op, "reqAppend"@);
    let others = rewrite::req_body_protocols();
    assert(seq![op][0] == op);
    assert(names[0] == "resBody"@);
    assert(names[1] == "htmlBody"@);
    assert(names[2] == "jsBody"@);
    assert(names[3] == "cssBody"@);
    assert(names[4] == "resReplace"@);
    assert(names[5] == "resPrepend"@);
    assert(names[6] == "resAppend"@);
    assert(names[7] == "htmlPrepend"@);
    assert(names[8] == "htmlAppend"@);
    assert(names[9] == "jsPrepend"@);
    assert(names[10] == "jsAppend"@);
    assert(names[11] == "cssPrepend"@);
    assert(names[12] == "cssAppend"@);
    assert(others[0] == "reqBody"@);
    assert(others[1] == "reqReplace"@);
    assert(others[2] == "reqPrepend"@);
    assert(others[3] == "reqAppend"@);
    let none = Seq::<char>::empty();
    if names.contains(op.protocol) {
        rewrite::law_one_operation_on_the_res_body(
            body,
            seq![op],
            op.protocol,
            op.value,
            none,
            none,
        );
    }
    if others.contains(op.protocol) {
        rewrite::law_one_operation_on_the_req_body(
            body,
            seq![op],
            op.protocol,
            op.value,
            none,
            none,
        );
    }
}

/// The answer of a plugin has the status that it names, its fields with their names in small
/// letters and its text. Without a status, or with one that none can be, it is 200.
pub proof fn law_plugin_answers_as_it_says(
    status: Option<u16>,
    fields: Seq<(Seq<char>, Seq<char>)>,
    body: Seq<char>,
    i: int,
)
    requires
        0 <= i < fields.len(),
    ensures
        ({
            let m = plugin_mock(status, fields, body);
            &&& status is Some && 100 <= status->0 <= 999 ==> m.status == status->0
            &&& status is Some && !(100 <= status->0 <= 999) ==> m.status == 200
            &&& status is None ==> m.status == 200
            &&& m.headers.len() == fields.len()
            &&& m.headers[i].name == seqs::lower(fields[i].0)
            &&& m.headers[i].value == fields[i].1
            &&& m.body == vstd::utf8::encode_utf8(body)
        }),
{
}

/// A target that is no address is that of the root.
pub proof fn law_targets_are_sendable(target: Seq<char>)
    ensures
        target_or_root(target, true) == target,
        target_or_root(target, false) == seq!['/'],
{
    reveal_strlit("/");
    assert("/"@ =~= seq!['/']);
}

/// Parameters are set in a target before texts of it are replaced, so that a replacement reads them,
/// too. Without such operations the target stays.
pub proof fn law_target_is_rewritten_in_order(
    pq: Seq<char>,
    ops: Seq<OpText>,
    from: Seq<char>,
    to: Seq<char>,
    raw: Seq<char>,
)
    requires
        seqs::lacks(from, '|'),
    ensures
        rewritten_target(pq, Seq::empty()) == pq,
        operation::all_of(ops, "pathReplace"@).len() == 0 ==> rewritten_target(pq, ops)
            == rewrite::merged_params(pq, ops),
        rewritten_target(
            pq,
            ops.push(OpText { protocol: "pathReplace"@, value: from + seq!['|'] + to, raw }),
        ) == seqs::replace(rewritten_target(pq, ops), from, to),
{
    let op = OpText { protocol: "pathReplace"@, value: from + seq!['|'] + to, raw };
    reveal_strlit("pathReplace");
    reveal_strlit("urlParams");
    assert("pathReplace"@.len() != "urlParams"@.len());
    operation::lemma_values_of_more(ops, op, "urlParams"@);
    operation::lemma_values_of_more(ops, op, "pathReplace"@);
    assert(rewrite::merged_params(pq, ops.push(op)) == rewrite::merged_params(pq, ops));
    rewrite::law_path_is_replaced_in_order(
        rewrite::merged_params(pq, ops),
        ops,
        from,
        to,
        raw,
        "pathReplace"@,
    );
    rewrite::law_path_is_replaced_in_order(pq, Seq::empty(), from, to, raw, "pathReplace"@);
}

/// A plugin that cannot be asked, or whose fields cannot be sent, is answered for with 502. The
/// message is recorded as the error, and tells the reason behind what failed.
pub proof fn law_failed_plugins_are_told(t: TrafficModel, reason: Seq<char>, now: u64)
    ensures
        ({
            let (known, m) = plugin_missed(t, reason, now);
            &&& m.status == 502 && known.status == Some(502u16)
            &&& known.error == Some("插件调用失败: "@ + reason)
            &&& m.body == vstd::utf8::encode_utf8("插件调用失败: "@ + reason)
        }),
        ({
            let (known, m) = plugin_refused(t, now);
            &&& m.status == 502 && known.status == Some(502u16)
            &&& known.error is Some && m.body == vstd::utf8::encode_utf8(known.error->0)
        }),
{
}

/// A request that came through a tunnel has an address over TLS.
pub proof fn law_address_through_a_tunnel(host: Seq<char>, path_and_query: Seq<char>)
    ensures
        https_address(host, path_and_query) == "https"@ + seq![':', '/', '/'] + host
            + path_and_query,
{
    reveal_strlit("https");
    reveal_strlit("https://");
    assert("https"@ + seq![':', '/', '/'] =~= "https://"@);
}

/// The answer of a plugin is recorded with its status, its fields and the size of its body. Of the
/// body the start is kept, and whether that is all of it.
pub proof fn law_plugin_answer_is_recorded(
    t: TrafficModel,
    response: MockModel,
    limit: int,
    now: u64,
)
    requires
        response.body.len() <= u64::MAX,
        t.start_time <= now,
    ensures
        ({
            let after = plugin_answered(t, response, limit, now);
            &&& after.status == Some(response.status)
            &&& after.res_headers == response.headers
            &&& after.res_body_size == response.body.len()
            &&& after.res_body == Some(capture::preview(response.body, limit))
            &&& after.res_body_truncated <==> response.body.len() > limit
            &&& after.duration_ms == Some((now - t.start_time) as u64)
            &&& after.id == t.id && after.url == t.url && after.rules == t.rules
        }),
{
}

/// A record that is stored is found in the store under its number, and subscribers are told of it
/// last.
pub proof fn law_stored_record_is_found(before: CaptureStore, after: CaptureStore, t: TrafficModel)
    requires
        before.wf(),
        stored(before, after, t),
    ensures
        capture::position(after@, t.id) is Some,
        after@[capture::position(after@, t.id)->0] == t,
        after.untold().last() == t,
        after.untold().len() == before.untold().len() + 1,
        after.limit() == before.limit(),
{
    before.law_records_are_bounded_and_distinct();
    capture::law_upserted_is_found(before@, t, before.limit());
}

} // verus!
