use hyper::header::HeaderValue;
use hyper::HeaderMap;
use std::time::Duration;
use whistle::capture::{CaptureStore, Traffic};
use whistle::exchange::{begin, eval_rules, finish_mock, route_of, sendable_target, RequestHead, ResponseHead, Route};
use whistle::forward::{Action, Event, Forward};
use whistle::frames::Message;
use whistle::operation::Operation;
use whistle::relay::{
    begins_socks, begins_tls, plan_connect, plan_socks, Interception, TunnelPlan, WsAction,
    WsEvent, WsExchange, WsStage,
};
use whistle::routes::{embedded_of, plain_of, takes_method, Endpoint, Methods, Page};
use whistle::rules::RuleSet;

fn head(length: Option<&'static str>) -> RequestHead {
    let mut headers = HeaderMap::new();
    if let Some(n) = length {
        headers.insert("content-length", HeaderValue::from_static(n));
    }
    RequestHead { method: "GET".to_string(), target: "/x".to_string(), headers }
}

fn reply(status: u16, length: Option<&'static str>) -> ResponseHead {
    ResponseHead { status, headers: head(length).headers }
}

fn exchange(tokens: &[&str], length: Option<&'static str>) -> Forward {
    let ops = tokens.iter().map(|t| Operation::parse(t)).collect();
    let t = Traffic::started_at(1, "http", "GET", "http://a/x", "a", "c", 10);
    let f = Forward::new(head(length), ops, t, 100, false, reply(0, None));
    assert!(f.request_has_room());
    f
}

#[test]
fn plain_exchange_passes_through() {
    let mut store = CaptureStore::new(4);
    let mut f = exchange(&[], None);
    assert!(matches!(f.step(&mut store, Event::Started, 11), Action::Send(None)));
    assert_eq!(f.request.target, "/x");
    assert!(store.is_empty());
    let answer = reply(204, None);
    assert!(f.response_has_room(&answer));
    assert!(matches!(f.step(&mut store, Event::Response(answer), 15), Action::Respond(None)));
    assert_eq!(f.response.status, 204);
    let t = store.get(1).unwrap();
    assert_eq!((t.status, t.duration_ms, t.res_body), (Some(204), Some(5), None));
}

#[test]
fn exchange_with_all_delays_and_bodies() {
    let mut store = CaptureStore::new(4);
    let tokens = [
        "reqDelay://5", "reqAppend://!", "reqSpeed://1", "resDelay://6", "resReplace://b=c",
        "resSpeed://1", "replaceStatus://201", "method://post",
    ];
    let mut f = exchange(&tokens, Some("3"));
    assert!(matches!(f.step(&mut store, Event::Started, 11), Action::Wait(d) if d == Duration::from_millis(5)));
    assert!(matches!(f.step(&mut store, Event::Waited, 11), Action::ReadRequestBody));
    let body = vec![b'a'; 1023];
    assert!(matches!(f.step(&mut store, Event::Body(body), 11), Action::Wait(d) if d == Duration::from_millis(1000)));
    match f.step(&mut store, Event::Waited, 11) {
        Action::Send(Some(b)) => assert_eq!(b.len(), 1024),
        _ => panic!("the request is due"),
    }
    assert_eq!(f.request.method, "POST");
    assert_eq!(f.request.headers["content-length"], "1024");
    assert!(matches!(f.step(&mut store, Event::Response(reply(200, Some("3"))), 12), Action::Wait(d) if d == Duration::from_millis(6)));
    assert!(matches!(f.step(&mut store, Event::Waited, 12), Action::ReadResponseBody));
    assert!(matches!(f.step(&mut store, Event::Body(b"abc".to_vec()), 12), Action::Wait(_)));
    match f.step(&mut store, Event::Waited, 20) {
        Action::Respond(Some(b)) => assert_eq!(b, b"acc".to_vec()),
        _ => panic!("the response is due"),
    }
    let t = store.get(1).unwrap();
    assert_eq!(t.status, Some(201));
    assert_eq!(t.req_body_size, 1024);
    assert_eq!(t.res_body.as_deref(), Some("acc"));
    assert_eq!(t.duration_ms, Some(10));
}

#[test]
fn exchange_fails_with_its_reason() {
    for (n, text) in [(0, "读取请求体失败: e"), (1, "上游请求失败: e"), (2, "读取响应体失败: e")] {
        let mut store = CaptureStore::new(4);
        let mut f = exchange(&[], Some("1"));
        assert!(matches!(f.step(&mut store, Event::Started, 11), Action::ReadRequestBody));
        if n > 0 {
            assert!(matches!(f.step(&mut store, Event::Body(b"x".to_vec()), 11), Action::Send(Some(_))));
        }
        if n > 1 {
            assert!(matches!(f.step(&mut store, Event::Response(reply(200, Some("1"))), 11), Action::ReadResponseBody));
        }
        match f.step(&mut store, Event::Failed("e".to_string()), 12) {
            Action::Fail(m) => {
                assert_eq!(m.status, 502);
                assert_eq!(String::from_utf8(m.body).unwrap(), text);
            }
            _ => panic!("it has failed"),
        }
        assert_eq!(store.get(1).unwrap().error.as_deref(), Some(text));
    }
}

fn websocket() -> WsExchange {
    WsExchange::new(Traffic::started_at(1, "ws", "GET", "http://a/x", "a", "c", 10))
}

#[test]
fn websocket_is_relayed() {
    let mut store = CaptureStore::new(4);
    let mut w = websocket();
    assert!(matches!(w.step(&mut store, WsEvent::Connected, 11), WsAction::SendHandshake));
    assert!(store.is_empty());
    assert!(matches!(w.step(&mut store, WsEvent::Answered(reply(101, None)), 11), WsAction::Switch));
    assert_eq!(store.get(1).unwrap().status, Some(101));
    let m = Message { opcode: 1, payload: b"hi".to_vec(), total: 2 };
    assert!(matches!(w.step(&mut store, WsEvent::Passed("send".to_string(), m), 12), WsAction::Continue));
    assert_eq!(store.get(1).unwrap().ws_messages.len(), 1);
    assert!(matches!(w.step(&mut store, WsEvent::Ended, 15), WsAction::Continue));
    assert_eq!(store.get(1).unwrap().duration_ms, Some(5));
    assert_eq!(w.stage, WsStage::Over);
}

#[test]
fn websocket_is_refused() {
    let mut store = CaptureStore::new(4);
    let mut w = websocket();
    assert!(matches!(w.step(&mut store, WsEvent::Failed("e".to_string()), 11), WsAction::Fail(m) if m.status == 502));
    assert_eq!(store.get(1).unwrap().error.as_deref(), Some("e"));
    let mut w = websocket();
    w.step(&mut store, WsEvent::Connected, 11);
    assert!(matches!(w.step(&mut store, WsEvent::Failed("e".to_string()), 11), WsAction::Fail(_)));
    assert_eq!(store.get(1).unwrap().error.as_deref(), Some("上游 WS 握手失败: e"));
    let mut w = websocket();
    w.step(&mut store, WsEvent::Connected, 11);
    assert!(matches!(w.step(&mut store, WsEvent::Answered(reply(403, None)), 11), WsAction::HandOn));
    assert_eq!(store.get(1).unwrap().status, Some(403));
    let mut w = websocket();
    w.step(&mut store, WsEvent::Connected, 11);
    w.step(&mut store, WsEvent::Answered(reply(101, None)), 11);
    assert!(matches!(w.step(&mut store, WsEvent::Failed("e".to_string()), 12), WsAction::Continue));
    assert_eq!(store.get(1).unwrap().error.as_deref(), Some("e"));
}

#[test]
fn tunnels_are_planned() {
    let rules = RuleSet::parse("a.com host://1.1.1.1").unwrap();
    let mut store = CaptureStore::new(4);
    let on = Interception { decrypt: true, all: false };
    let h = head(Some("1")).headers;
    match plan_connect(&on, &rules, &mut store, "a.com:8443", "c", &h) {
        TunnelPlan::Intercept(host, port) => assert_eq!((host.as_str(), port), ("a.com", 8443)),
        _ => panic!("a rule is about the host"),
    }
    assert!(store.is_empty());
    match plan_connect(&on, &rules, &mut store, "b.com", "c", &h) {
        TunnelPlan::Pass(host, port, t) => {
            assert_eq!((host.as_str(), port), ("b.com", 443));
            assert_eq!((t.protocol.as_str(), t.method.as_str(), t.url.as_str()), ("tunnel", "CONNECT", "b.com"));
            assert_eq!(t.req_headers.len(), 1);
        }
        _ => panic!("no rule is about the host"),
    }
    assert_eq!(store.len(), 1);
    assert!(matches!(plan_socks(&on, &rules, &mut store, true, "a.com".to_string(), 1, "c"), TunnelPlan::Intercept(_, 1)));
    match plan_socks(&on, &rules, &mut store, false, "a.com".to_string(), 1, "c") {
        TunnelPlan::Pass(_, _, t) => assert_eq!((t.method.as_str(), t.url.as_str(), t.id), ("SOCKS5", "a.com:1", 2)),
        _ => panic!("it is not TLS"),
    }
    assert!(begins_tls(0x16) && !begins_tls(0x05));
    assert!(begins_socks(0x05) && !begins_socks(0x16));
    assert_eq!(sendable_target("/a?b".to_string()), "/a?b");
    assert_eq!(sendable_target("/a b".to_string()), "/");
}

#[test]
fn endpoints_are_found() {
    assert_eq!(embedded_of("/"), (Endpoint::Index, Methods::Get));
    assert_eq!(embedded_of("/cgi-bin/rules/add"), (Endpoint::RulesAdd, Methods::Post));
    assert_eq!(embedded_of("/cgi-bin/values/recycle/view"), (Endpoint::ValuesRecycleView, Methods::Get));
    assert_eq!(embedded_of("/cgi-bin/unknown").0, Endpoint::Asset);
    assert!(takes_method(Methods::Get, "HEAD"));
    assert!(!takes_method(Methods::Post, "GET"));
    assert!(takes_method(Methods::Any, "PATCH"));
    assert!(takes_method(Methods::GetOrPost, "POST") && !takes_method(Methods::GetOrPost, "PUT"));
    assert_eq!(plain_of("/api/traffic/12"), (Page::Record(12), Methods::Get));
    assert_eq!(plain_of("/api/traffic/x").0, Page::BadNumber);
    assert_eq!(plain_of("/api/traffic"), (Page::Records, Methods::GetOrDelete));
    assert_eq!(plain_of("/api/traffic/1/2").0, Page::Missing);
    assert_eq!(plain_of("/api/rules"), (Page::Rules, Methods::GetOrPut));
    assert!(takes_method(Methods::GetOrPut, "PUT") && takes_method(Methods::GetOrDelete, "DELETE"));
    assert_eq!(plain_of("/nothing").0, Page::Missing);
}

/// Sends a request through the rules to a server that answers with `body`, and gives back the
/// status, the body and the record.
fn proxy_get(rules_text: &str, path: &str, host: &str, body: &'static str) -> (u16, String, Traffic) {
    let rules = RuleSet::parse(rules_text).unwrap();
    let mut store = CaptureStore::new(100);
    let url = format!("http://{host}{path}");
    let mut t = begin(&mut store, "http", "GET", &url, host, "127.0.0.1:5");
    let ops = eval_rules(&rules, &mut store, &mut t, "http", host, path);
    let headers = HeaderMap::new();
    match route_of(&ops, &Vec::new(), &headers, "", host, 80) {
        Route::Mock(m) => {
            finish_mock(&mut store, &mut t, &m);
            let text = String::from_utf8(m.body).unwrap();
            (m.status, text, store.get(1).unwrap())
        }
        Route::Direct(h, port) => {
            assert_eq!((h.as_str(), port), ("127.0.0.1", 4567));
            let head = RequestHead { method: "GET".to_string(), target: path.to_string(), headers };
            let mut f = Forward::new(head, ops, t, 512 * 1024, false, reply(0, None));
            assert!(f.request_has_room());
            assert!(matches!(f.step(&mut store, Event::Started, 0), Action::Send(None)));
            let mut answer = reply(200, None);
            answer.headers.insert("content-length", HeaderValue::from(body.len()));
            answer.headers.insert("content-type", HeaderValue::from_static("text/plain"));
            assert!(f.response_has_room(&answer));
            assert!(matches!(f.step(&mut store, Event::Response(answer), 0), Action::ReadResponseBody));
            match f.step(&mut store, Event::Body(body.as_bytes().to_vec()), 0) {
                Action::Respond(Some(b)) => {
                    let text = String::from_utf8(b).unwrap();
                    assert_eq!(f.response.headers["content-length"], text.len().to_string().as_str());
                    assert_eq!(store.list(10).len(), 1);
                    (f.response.status, text, store.get(1).unwrap())
                }
                _ => panic!("the response is due"),
            }
        }
        other => panic!("the request goes straight on, not {other:?}"),
    }
}

#[test]
fn host_rule_forwards_to_origin() {
    let (status, body, t) =
        proxy_get("demo.local host://127.0.0.1:4567", "/path", "demo.local", "HELLO-ORIGIN");
    assert_eq!(status, 200);
    assert_eq!(body, "HELLO-ORIGIN");
    assert_eq!(t.status, Some(200));
    assert_eq!(t.protocol, "http");
    assert!(t.rules.iter().any(|r| r.contains("host://")));
    assert_eq!(t.res_body.as_deref(), Some("HELLO-ORIGIN"));
}

#[test]
fn status_code_rule_mocks_without_upstream() {
    let (status, _, t) = proxy_get("mock.local/teapot statusCode://418", "/teapot", "mock.local", "");
    assert_eq!(status, 418);
    assert_eq!(t.status, Some(418));
}

#[test]
fn res_body_rewrite_applies() {
    let (_, body, _) = proxy_get(
        "body.local host://127.0.0.1:4567 resReplace://ORIGINAL=PATCHED htmlAppend://!",
        "/",
        "body.local",
        "ORIGINAL",
    );
    assert!(body.contains("PATCHED!"), "body = {body}");
    assert!(!body.contains("ORIGINAL"), "body = {body}");
}
