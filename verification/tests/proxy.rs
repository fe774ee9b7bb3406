use hyper::header::HeaderValue;
use hyper::HeaderMap;
use whistle::capture::{CaptureStore, Traffic};
use whistle::exchange::{
    begin, entry_of, eval_rules, finish_error, finish_error_at, finish_mock, finish_mock_at,
    finish_plugin_at, finish_plugin_reply, finish_response_at, finish_tunnel_at, holds_request_body,
    holds_response_body, https_url, finish_plugin_call, plugin_request, plugin_response,
    prepare_request, prepare_response, record, record_message, record_request_headers,
    record_upgrade, route_of, should_mitm, take_request_body, take_response_body,
    target_or_root_of, Entry, RequestHead, ResponseHead, Route, MAX_WS_MESSAGES,
};
use whistle::frames::Message;
use whistle::headers::header_map_of;
use whistle::intake::{receive, Arrival, Intake};
use whistle::operation::Operation;
use whistle::rules::RuleSet;
use whistle::socks::{socks_greeting, SocksHost, SocksState, TunnelState};
use whistle::wire::{
    can_replay, check_connect_reply, connect_request, find_head_end, invoke_reply, invoke_request,
    parse_reply, plugin_target, plugin_vars, progress_of, replay_request, ComposeRequest,
    HeadProgress, PluginResponse,
};

fn tokens(list: &[&str]) -> Vec<Operation> {
    list.iter().map(|t| Operation::parse(t)).collect()
}

fn no_plugins() -> Vec<(String, String)> {
    Vec::new()
}

fn begun(store: &mut CaptureStore) -> Traffic {
    begin(store, "http", "GET", "http://a.com/", "a.com", "c")
}

#[test]
fn requests_are_told_apart_at_the_door() {
    assert_eq!(entry_of("CONNECT", true, true), Entry::Tunnel);
    assert_eq!(entry_of("GET", false, true), Entry::Dashboard);
    assert_eq!(entry_of("GET", false, false), Entry::Forward);
    assert_eq!(entry_of("GET", true, true), Entry::Forward);
}

#[test]
fn tunnels_are_opened_up_for_hosts_of_rules() {
    let rules = RuleSet::parse("a.com host://1.1.1.1").unwrap();
    assert!(should_mitm(true, false, &rules, "a.com"));
    assert!(!should_mitm(true, false, &rules, "b.com"));
    assert!(should_mitm(true, true, &rules, "b.com"));
    assert!(!should_mitm(false, true, &rules, "a.com"));
}

#[test]
fn routes_come_in_order() {
    let plugins = vec![("p".to_string(), "127.0.0.1:9".to_string())];
    let mut h = HeaderMap::new();
    let all = tokens(&["plugin://p", "tpl:///t", "statusCode://500", "host://1.1.1.1:81", "socks://s:1", "proxy://q:2"]);
    assert!(matches!(route_of(&all, &plugins, &h, "", "a", 80), Route::Plugin(a) if a == "127.0.0.1:9"));
    assert!(matches!(route_of(&all, &no_plugins(), &h, "callback=c", "a", 80), Route::Template(t, c) if t == "/t" && c == "c"));
    assert!(matches!(route_of(&all[2..], &no_plugins(), &h, "", "a", 80), Route::Mock(m) if m.status == 500));
    assert!(matches!(route_of(&all[3..], &no_plugins(), &h, "", "a", 80), Route::Socks(s, 1, t, 81) if s == "s" && t == "1.1.1.1"));
    assert!(matches!(route_of(&all[5..], &no_plugins(), &h, "", "a", 80), Route::Proxy(q, 2, t, 80) if q == "q" && t == "a"));
    assert!(matches!(route_of(&[], &no_plugins(), &h, "", "a", 80), Route::Direct(t, 80) if t == "a"));
    assert!(matches!(route_of(&tokens(&["file:///f"]), &no_plugins(), &h, "", "a", 80), Route::ServeFile(f) if f == "/f"));
    h.insert("upgrade", HeaderValue::from_static("websocket"));
    h.insert("connection", HeaderValue::from_static("Upgrade"));
    assert!(matches!(route_of(&all[3..], &no_plugins(), &h, "", "a", 80), Route::WebSocket(t, 81) if t == "1.1.1.1"));
}

#[test]
fn rules_are_found_and_recorded() {
    let rules = RuleSet::parse("a.com/x host://1.1.1.1 includeFilter://m:GET").unwrap();
    let mut store = CaptureStore::new(4);
    let mut t = begun(&mut store);
    assert_eq!(t.id, 1);
    let ops = eval_rules(&rules, &mut store, &mut t, "http", "a.com", "/x/y");
    assert_eq!(ops.len(), 1);
    assert_eq!(t.rules, vec!["host://1.1.1.1".to_string()]);
    assert_eq!(store.get(1).unwrap().rules.len(), 1);
}

#[test]
fn failures_are_recorded_and_answered() {
    let mut store = CaptureStore::new(4);
    let mut t = Traffic::started_at(1, "http", "GET", "/", "", "c", 10);
    let r = finish_error_at(&mut store, &mut t, 400, "no host", 30);
    assert_eq!(r.status, 400);
    assert_eq!(r.body, b"no host".to_vec());
    let kept = store.get(1).unwrap();
    assert_eq!(kept.status, Some(400));
    assert_eq!(kept.duration_ms, Some(20));
    assert_eq!(kept.error.as_deref(), Some("no host"));
    let again = finish_error(&mut store, &mut t, 502, "x");
    assert_eq!(again.status, 502);
    assert_eq!(store.len(), 1);
    assert_eq!(store.get(1).unwrap().status, Some(502));
}

#[test]
fn answers_are_recorded() {
    let mut store = CaptureStore::new(4);
    let mut t = Traffic::started_at(1, "http", "GET", "/", "", "c", 10);
    let m = whistle::action::redirect("http://b/");
    finish_mock_at(&mut store, &mut t, &m, 11);
    assert_eq!(store.get(1).unwrap().res_headers[0].value, "http://b/");
    assert_eq!(store.get(1).unwrap().duration_ms, Some(1));
    finish_mock(&mut store, &mut t, &m);
    assert_eq!(store.get(1).unwrap().status, Some(302));
    let mut h = HeaderMap::new();
    h.insert("server", HeaderValue::from_static("s"));
    record_request_headers(&mut t, &h);
    assert_eq!(t.req_headers[0].name, "server");
    finish_response_at(&mut store, &mut t, 204, &h, 15);
    let kept = store.get(1).unwrap();
    assert_eq!((kept.status, kept.duration_ms), (Some(204), Some(5)));
    assert_eq!(kept.res_headers[0].name, "server");
    record_upgrade(&mut store, &mut t, &h);
    assert_eq!(store.get(1).unwrap().status, Some(101));
}

#[test]
fn tunnels_are_recorded() {
    let mut store = CaptureStore::new(4);
    let mut t = Traffic::started_at(1, "tunnel", "CONNECT", "a:443", "a", "c", 10);
    record(&mut store, &t);
    assert_eq!(store.get(1).unwrap().status, None);
    finish_tunnel_at(&mut store, &mut t, None, 12);
    assert_eq!(store.get(1).unwrap().status, Some(200));
    finish_tunnel_at(&mut store, &mut t, Some("e".to_string()), 12);
    assert_eq!(store.get(1).unwrap().error.as_deref(), Some("e"));
}

#[test]
fn messages_are_recorded_up_to_a_limit() {
    let mut store = CaptureStore::new(4);
    let mut t = Traffic::started_at(1, "ws", "GET", "/", "", "c", 10);
    let m = Message { opcode: 1, payload: b"hi".to_vec(), total: 2 };
    let b = Message { opcode: 2, payload: b"hi".to_vec(), total: 2 };
    record_message(&mut store, &mut t, "send", &m);
    record_message(&mut store, &mut t, "recv", &b);
    assert_eq!(t.ws_messages[0].text.as_deref(), Some("hi"));
    assert_eq!(t.ws_messages[1].text, None);
    assert_eq!(t.ws_messages[1].dir, "recv");
    for _ in 0..MAX_WS_MESSAGES {
        record_message(&mut store, &mut t, "send", &m);
    }
    assert_eq!(store.get(1).unwrap().ws_messages.len(), MAX_WS_MESSAGES);
}

#[test]
fn requests_are_prepared() {
    let mut headers = HeaderMap::new();
    headers.insert("connection", HeaderValue::from_static("close"));
    let mut head = RequestHead { method: "GET".to_string(), target: "/old?a=1".to_string(), headers };
    let ops = tokens(&["urlParams://a=2", "pathReplace://old|new", "method://put", "ua://x"]);
    prepare_request(&mut head, &ops, false);
    assert_eq!(head.target, "/new?a=2");
    assert_eq!(head.method, "PUT");
    assert_eq!(head.headers["user-agent"], "x");
    assert!(!head.headers.contains_key("connection"));
    head.target = "http://a.com/old".to_string();
    prepare_request(&mut head, &ops, true);
    assert_eq!(head.target, "http://a.com/old");
    prepare_request(&mut head, &tokens(&["pathReplace://old|o ld"]), false);
    assert_eq!(head.target, "/");
    assert_eq!(target_or_root_of("/x".to_string(), true), "/x");
    assert_eq!(target_or_root_of("/x".to_string(), false), "/");
}

#[test]
fn bodies_are_rewritten_and_recorded() {
    let mut t = Traffic::started_at(1, "http", "GET", "/", "", "c", 10);
    let mut h = HeaderMap::new();
    h.insert("content-length", HeaderValue::from_static("3"));
    let none = tokens(&["host://1.1.1.1"]);
    assert!(holds_request_body(&none, &h, 3));
    assert!(!holds_request_body(&none, &h, 2));
    assert!(holds_request_body(&tokens(&["reqBody://x"]), &h, 2));
    assert!(holds_response_body(&tokens(&["resBody://x"]), &h, 2));
    assert!(!holds_response_body(&none, &h, 2));
    assert_eq!(take_request_body(&mut h, &mut t, &none, b"abc".to_vec(), 2), b"abc".to_vec());
    assert_eq!(h["content-length"], "3");
    assert_eq!(t.req_body.as_deref(), Some("ab"));
    let out = take_request_body(&mut h, &mut t, &tokens(&["reqAppend://de"]), b"abc".to_vec(), 9);
    assert_eq!(out, b"abcde".to_vec());
    assert_eq!(h["content-length"], "5");
    let out = take_response_body(&mut h, &mut t, &tokens(&["resReplace://b=xx"]), b"abc".to_vec(), 2);
    assert_eq!(out, b"axxc".to_vec());
    assert_eq!(h["content-length"], "4");
    assert!(t.res_body_truncated);
    let mut r = ResponseHead { status: 200, headers: HeaderMap::new() };
    prepare_response(&mut r, &tokens(&["replaceStatus://503", "resType://css"]));
    assert_eq!(r.status, 503);
    assert_eq!(r.headers["content-type"], "text/css");
    assert_eq!(https_url("a.com", "/x?y"), "https://a.com/x?y");
}

#[test]
fn plugins_answer() {
    let plugins = vec![("p".to_string(), "h:1".to_string())];
    assert_eq!(plugin_target(&plugins, &tokens(&["plugin://p"])), Some("h:1".to_string()));
    assert_eq!(plugin_target(&plugins, &tokens(&["plugin://q"])), None);
    let vars = plugin_vars(&tokens(&["plugin-vars://a=1&&b", "plugin-vars://c=3"]));
    assert_eq!(vars.len(), 3);
    assert_eq!(vars[1], ("b".to_string(), String::new()));
    let fields = vec![whistle::capture::Header { name: "n".to_string(), value: "v".to_string() }];
    let q = plugin_request("GET", "http://a/", &fields, &[b'x', 0xff], &tokens(&["plugin-vars://a=1"]));
    assert_eq!(q.body, "x\u{fffd}");
    assert_eq!(q.headers, vec![("n".to_string(), "v".to_string())]);
    assert_eq!(q.vars.len(), 1);

    let mut p = PluginResponse { status: None, headers: vec![("X-A".to_string(), "1".to_string())], body: "hi".to_string() };
    let built = header_map_of(&p.headers);
    assert_eq!(built.as_ref().unwrap()["x-a"], "1");
    let m = plugin_response(&p, &built).unwrap();
    assert_eq!(m.status, 200);
    assert_eq!(m.headers[0].name, "x-a");
    assert_eq!(m.body, b"hi".to_vec());
    p.status = Some(7);
    assert_eq!(plugin_response(&p, &built).unwrap().status, 200);
    assert!(plugin_response(&p, &None).is_none());
    let mut store = CaptureStore::new(2);
    let mut t = Traffic::started_at(1, "http", "GET", "/", "", "c", 10);
    finish_plugin_at(&mut store, &mut t, &m, 1, 12);
    let kept = store.get(1).unwrap();
    assert_eq!(kept.status, Some(200));
    assert_eq!(kept.res_body.as_deref(), Some("h"));
    p.headers.push(("a b".to_string(), "1".to_string()));
    assert!(header_map_of(&p.headers).is_none());
    p.headers[1] = ("a".to_string(), "\n".to_string());
    assert!(header_map_of(&p.headers).is_none());
    let (bad, sent) = finish_plugin_call(&mut store, &mut t, Ok(p), 1, 12);
    assert!(sent.is_none());
    assert_eq!((bad.status, String::from_utf8(bad.body).unwrap().as_str()), (502, "插件响应头非法"));
    let (none, _) = finish_plugin_call(&mut store, &mut t, Err("e".to_string()), 1, 12);
    assert_eq!((none.status, String::from_utf8(none.body).unwrap().as_str()), (502, "插件调用失败: e"));
    assert_eq!(store.get(1).unwrap().error.as_deref(), Some("插件调用失败: e"));
    let mut t = Traffic::started_at(2, "http", "GET", "/", "", "c", 10);
    let good = PluginResponse { status: Some(201), headers: Vec::new(), body: "hi".to_string() };
    assert_eq!(finish_plugin_call(&mut store, &mut t, Ok(good), 9, 12).0.status, 201);
    assert_eq!(store.get(2).unwrap().res_body.as_deref(), Some("hi"));
}

#[test]
fn status_sent_for_a_plugin_is_the_status_recorded() {
    let mut store = CaptureStore::new(2);
    let mut t = Traffic::started_at(1, "http", "GET", "/", "", "c", 10);
    let p = PluginResponse { status: Some(42), headers: Vec::new(), body: String::new() };
    assert_eq!(finish_plugin_call(&mut store, &mut t, Ok(p), 9, 12).0.status, 200);
    assert_eq!(store.get(1).unwrap().status, Some(200));
    assert_eq!(t.status, Some(200));
}

#[test]
fn fields_that_no_map_holds_are_answered_and_recorded_502() {
    let named = |n: usize| -> Vec<(String, String)> {
        (0..n).map(|i| (format!("x-{i}"), "v".to_string())).collect()
    };
    assert!(header_map_of(&named(6554)).is_some());
    assert!(header_map_of(&named(24577)).is_none());
    let mut store = CaptureStore::new(2);
    let mut t = Traffic::started_at(1, "http", "GET", "/", "", "c", 10);
    let p = PluginResponse { status: Some(201), headers: named(24577), body: "hi".to_string() };
    let (m, sent) = finish_plugin_call(&mut store, &mut t, Ok(p), 9, 12);
    assert!(sent.is_none());
    assert_eq!(m.status, 502);
    assert_eq!(store.get(1).unwrap().status, Some(502));

    let p = PluginResponse { status: Some(201), headers: named(2), body: "hi".to_string() };
    let refused = finish_plugin_reply(&mut store, &mut t, &Ok(p), &None, 9, 12);
    assert_eq!((refused.status, store.get(1).unwrap().status), (502, Some(502)));

    let twice = vec![
        ("A".to_string(), "1".to_string()),
        ("b".to_string(), "2".to_string()),
        ("a".to_string(), "3".to_string()),
    ];
    let map = header_map_of(&twice).unwrap();
    let values: Vec<&HeaderValue> = map.get_all("a").iter().collect();
    assert_eq!(values, vec!["1", "3"]);
    assert_eq!(map.keys_len(), 2);
}

fn arrival(secure: bool, target: &str, host: &str) -> Arrival {
    Arrival {
        secure,
        method: "GET".to_string(),
        target: target.to_string(),
        host: host.to_string(),
        port: 80,
        path: "/x".to_string(),
        query: String::new(),
        client: "c".to_string(),
    }
}

#[test]
fn requests_are_taken_in() {
    let rules = RuleSet::parse("a.com statusCode://204\nb.com host://1.1.1.1:81").unwrap();
    let mut store = CaptureStore::new(9);
    let mut h = HeaderMap::new();
    h.insert("x-a", HeaderValue::from_static("1"));
    let (t, i) = receive(&rules, &no_plugins(), &mut store, &arrival(false, "/x", ""), &h, 5);
    match i {
        Intake::Answered(m) => {
            assert_eq!(m.status, 400);
            let text = String::from_utf8(m.body).unwrap();
            assert_eq!(text, "缺少目标主机（请将本程序设置为 HTTP 代理后再访问）");
            assert_eq!(store.get(t.id).unwrap().error, Some(text));
        }
        _ => panic!("there is no host"),
    }
    let (t, i) = receive(&rules, &no_plugins(), &mut store, &arrival(true, "/x?y", "a.com"), &h, 5);
    assert!(matches!(i, Intake::Answered(m) if m.status == 204));
    assert_eq!((t.id, t.protocol.as_str(), t.url.as_str()), (2, "https", "https://a.com/x?y"));
    assert_eq!(store.get(2).unwrap().status, Some(204));
    assert_eq!(t.req_headers[0].name, "x-a");
    h.insert("upgrade", HeaderValue::from_static("websocket"));
    h.insert("connection", HeaderValue::from_static("Upgrade"));
    let (t, i) = receive(&rules, &no_plugins(), &mut store, &arrival(true, "/x", "b.com"), &h, 5);
    assert_eq!(t.protocol, "wss");
    assert!(matches!(i, Intake::Goes(ops, Route::WebSocket(_, 81)) if ops.len() == 1));
    assert_eq!(store.get(3).unwrap().protocol, "https");
    let (t, i) = receive(&rules, &no_plugins(), &mut store, &arrival(false, "http://c/x", "c"), &HeaderMap::new(), 5);
    assert_eq!((t.url.as_str(), t.start_time), ("http://c/x", 5));
    assert!(matches!(i, Intake::Goes(ops, Route::Direct(_, 80)) if ops.is_empty()));
    assert_eq!(store.len(), 4);
}

#[test]
fn plugin_messages_are_framed() {
    let m = invoke_request("h:1", "é");
    assert_eq!(m, "POST /handle HTTP/1.1\r\nHost: h:1\r\nContent-Type: application/json\r\nContent-Length: 2\r\nConnection: close\r\n\r\né");
    assert_eq!(invoke_reply(b"HTTP/1.1 200 OK\r\n\r\n{}\r\n\r\n").unwrap(), b"{}\r\n\r\n".to_vec());
    assert_eq!(invoke_reply(b"HTTP/1.1 200 OK\r\n").unwrap_err(), "插件响应缺少头部分隔");
    assert_eq!(find_head_end(b"a\r\n\r\n"), Some(1));
    assert_eq!(find_head_end(b"\r\n"), None);
}

#[test]
fn tunnel_through_a_proxy() {
    assert_eq!(connect_request("a.com", 443), "CONNECT a.com:443 HTTP/1.1\r\nHost: a.com:443\r\n\r\n");
    assert_eq!(progress_of(b"HTTP/1.1 200 OK\r\n"), HeadProgress::More);
    assert_eq!(progress_of(b"HTTP/1.1 200 OK\r\n\r\n"), HeadProgress::Complete);
    assert_eq!(progress_of(&[b'x'; 8193]), HeadProgress::TooLarge);
    assert!(check_connect_reply(b"HTTP/1.1 200 OK\r\n\r\n").is_ok());
    assert_eq!(check_connect_reply(b"HTTP/1.1 407 No\r\n\r\n").unwrap_err(), "上游代理 CONNECT 失败: HTTP/1.1 407 No");
    assert_eq!(check_connect_reply(b"").unwrap_err(), "上游代理 CONNECT 失败: ");
}

#[test]
fn requests_are_replayed() {
    let mut q = ComposeRequest {
        method: "POST".to_string(),
        url: "http://a.com:1/x?y".to_string(),
        headers: vec![("k".to_string(), "v".to_string())],
        body: Some("bé".to_string()),
    };
    assert_eq!(
        replay_request(&q),
        "POST http://a.com:1/x?y HTTP/1.1\r\nHost: a.com:1\r\nConnection: close\r\nk: v\r\nContent-Length: 3\r\n\r\nbé"
    );
    q.body = None;
    assert!(replay_request(&q).ends_with("k: v\r\n\r\n"));
    assert!(can_replay(&q.url));
    assert!(!can_replay("https://a.com/"));
    let r = parse_reply(b"HTTP/1.1 404 Not Found\r\nA: b\r\n\r\nbody");
    assert_eq!((r.status, r.head.as_str(), r.body.as_str()), (404, "HTTP/1.1 404 Not Found\r\nA: b", "body"));
    let broken = parse_reply(b"nonsense");
    assert_eq!((broken.status, broken.head.as_str(), broken.body.as_str()), (0, "nonsense", ""));
}

#[test]
fn composed_fields_stay_in_order() {
    let mut q = ComposeRequest::new("GET".to_string(), "http://a/".to_string(), None);
    for (k, v) in [("b", "1"), ("ab", "2"), ("b", "3"), ("\u{e9}", "4"), ("B", "5"), ("a", "6")] {
        q.set_field(k.to_string(), v.to_string());
    }
    let mut sorted = std::collections::BTreeMap::new();
    for (k, v) in [("b", "3"), ("ab", "2"), ("\u{e9}", "4"), ("B", "5"), ("a", "6")] {
        sorted.insert(k.to_string(), v.to_string());
    }
    let expected: Vec<(String, String)> = sorted.into_iter().collect();
    assert_eq!(q.headers, expected);
    assert_eq!(q.headers[0].0, "B");
}

fn serve(input: &[u8]) -> (SocksState, Vec<u8>) {
    let mut state = SocksState::new();
    let mut sent = Vec::new();
    let mut at = 0;
    loop {
        let done = matches!(state, SocksState::Connect(..) | SocksState::Closed);
        let n = state.wants();
        if done || at + n > input.len() {
            return (state, sent);
        }
        let (next, out) = state.step(&input[at..at + n]);
        at += n;
        sent.extend(out);
        state = next;
    }
}

#[test]
fn socks_server_understands_the_client() {
    let mut input = socks_greeting();
    let (_, request) = TunnelState::new().step(&[5, 0], "a.com", 8443).unwrap();
    input.extend(request);
    let (state, sent) = serve(&input);
    match state {
        SocksState::Connect(SocksHost::Name(h), p) => assert_eq!((h.as_str(), p), ("a.com", 8443)),
        _ => panic!("the client is to be connected"),
    }
    assert_eq!(sent, vec![5, 0, 5, 0, 0, 1, 0, 0, 0, 0, 0, 0]);
    let (s, quiet) = TunnelState::Outcome.step(&sent[2..6], "a.com", 8443).unwrap();
    assert!(quiet.is_empty());
    assert_eq!(s.wants(), 6);
    assert!(matches!(s.step(&sent[6..12], "a.com", 8443).unwrap().0, TunnelState::Open));
}

#[test]
fn socks_addresses_are_read() {
    let (state, _) = serve(&[5, 0, 5, 1, 0, 1, 10, 0, 0, 255, 0, 80]);
    assert!(matches!(state, SocksState::Connect(SocksHost::Name(h), 80) if h == "10.0.0.255"));
    let mut v6 = vec![5, 0, 5, 1, 0, 4];
    v6.extend([1u8; 16]);
    v6.extend([1, 0]);
    let (state, _) = serve(&v6);
    assert!(matches!(state, SocksState::Connect(SocksHost::Ipv6(b), 256) if b == vec![1u8; 16]));
}

#[test]
fn socks_refusals() {
    assert!(matches!(serve(&[4, 1]).0, SocksState::Closed));
    let (state, sent) = serve(&[5, 0, 5, 1, 0, 9]);
    assert!(matches!(state, SocksState::Closed));
    assert_eq!(sent, vec![5, 0, 5, 8, 0, 1, 0, 0, 0, 0, 0, 0]);
    let (state, sent) = serve(&[5, 0, 5, 2, 0, 1, 1, 1, 1, 1, 0, 80]);
    assert!(matches!(state, SocksState::Closed));
    assert_eq!(sent[3], 7);
    assert!(matches!(serve(&[5, 0, 6, 1, 0, 1]).0, SocksState::Closed));
    assert_eq!(TunnelState::Method.step(&[5, 2], "a", 1).unwrap_err(), "上游 SOCKS 不支持 no-auth");
    let long = "a".repeat(256);
    assert_eq!(TunnelState::Method.step(&[5, 0], &long, 1).unwrap_err(), "SOCKS 目标域名过长");
    assert_eq!(TunnelState::Outcome.step(&[5, 4, 0, 1], "a", 1).unwrap_err(), "上游 SOCKS CONNECT 失败 (REP=4)");
    assert_eq!(TunnelState::Outcome.step(&[5, 0, 0, 2], "a", 1).unwrap_err(), "上游 SOCKS 应答 ATYP 非法");
    assert_eq!(TunnelState::Outcome.step(&[5, 0, 0, 4], "a", 1).unwrap().0.wants(), 18);
    let (s, _) = TunnelState::Outcome.step(&[5, 0, 0, 3], "a", 1).unwrap();
    assert_eq!(s.step(&[7], "a", 1).unwrap().0.wants(), 9);
}
