use hyper::header::{HeaderName, HeaderValue, CONTENT_TYPE, LOCATION};
use hyper::HeaderMap;
use std::time::Duration;
use whistle::action::{
    parse_host, redirect, request_action, serve_file, serve_tpl, split_authority, status_mock,
    tpl_callback, upstream_proxy, upstream_socks, MockResponse, RequestAction,
};
use whistle::headers::{collect_headers, header_text, room_for, set_header, try_edits, HeaderEdit};
use whistle::inspect::{
    apply_request_headers, apply_response, base64, guess_mime_by_ext, mime_of,
    request_header_edits, response_header_edits,
};
use whistle::message::{body_within_limit, is_ws_upgrade, remove_hop_headers, set_content_length};
use whistle::operation::Operation;
use whistle::pattern::MatchInput;
use whistle::rewrite::{
    has_req_body_rewrite, has_res_body_rewrite, merge_url_params, override_method,
    override_status, parse_status, req_delay, req_speed_delay, res_delay, res_speed_delay,
    rewrite_path, rewrite_req_body, rewrite_res_body,
};
use whistle::rules::RuleSet;

fn ops(rule: &str, scheme: &str, host: &str, path: &str) -> Vec<Operation> {
    let rs = RuleSet::parse(rule).unwrap();
    rs.match_request(&MatchInput::new(scheme, host, path))
}

fn tokens(list: &[&str]) -> Vec<Operation> {
    list.iter().map(|t| Operation::parse(t)).collect()
}

/// The answer to a request, where no file can be read.
fn answer(action: RequestAction) -> MockResponse {
    match action {
        RequestAction::Mock(m) => m,
        RequestAction::ServeFile(path) => serve_file(&path, None),
        RequestAction::Forward { .. } => panic!("应为 Mock"),
    }
}

fn field<'a>(m: &'a MockResponse, name: &str) -> &'a str {
    &m.headers.iter().find(|h| h.name == name).unwrap().value
}

#[test]
fn apply_host_override_with_port() {
    let o = ops("example.com host://1.2.3.4:9000", "http", "example.com", "/");
    match request_action(&o, "example.com", 80) {
        RequestAction::Forward { host, port } => {
            assert_eq!(host, "1.2.3.4");
            assert_eq!(port, 9000);
        }
        _ => panic!("应为 Forward"),
    }
}

#[test]
fn apply_host_override_keeps_port_when_absent() {
    let o = ops("example.com host://1.2.3.4", "http", "example.com", "/");
    match request_action(&o, "example.com", 80) {
        RequestAction::Forward { host, port } => {
            assert_eq!(host, "1.2.3.4");
            assert_eq!(port, 80);
        }
        _ => panic!("应为 Forward"),
    }
}

#[test]
fn apply_status_code_mocks() {
    let o = ops("example.com statusCode://418", "http", "example.com", "/");
    match request_action(&o, "example.com", 80) {
        RequestAction::Mock(resp) => assert_eq!(resp.status, 418),
        _ => panic!("应为 Mock"),
    }
}

#[test]
fn apply_redirect_sets_location() {
    let o = ops("example.com redirect://http://localhost/x", "http", "example.com", "/");
    match request_action(&o, "example.com", 80) {
        RequestAction::Mock(resp) => {
            assert_eq!(resp.status, 302);
            assert_eq!(field(&resp, "location"), "http://localhost/x");
        }
        _ => panic!("应为 Mock"),
    }
}

#[test]
fn apply_req_headers_applied() {
    let o = ops("example.com reqHeaders://x-a=1&x-b=2", "http", "example.com", "/");
    let mut h = HeaderMap::new();
    apply_request_headers(&mut h, &o);
    assert_eq!(h["x-a"], "1");
    assert_eq!(h["x-b"], "2");
}

#[test]
fn apply_missing_file_is_404() {
    let o = ops("example.com file:///nonexistent/zzz.json", "http", "example.com", "/");
    let resp = answer(request_action(&o, "example.com", 80));
    assert_eq!(resp.status, 404);
}

#[test]
fn lib_host_override_with_port() {
    let o = ops("example.com host://1.2.3.4:9000", "http", "example.com", "/");
    match request_action(&o, "example.com", 80) {
        RequestAction::Forward { host, port } => {
            assert_eq!(host, "1.2.3.4");
            assert_eq!(port, 9000);
        }
        _ => panic!("应为 Forward"),
    }
}

#[test]
fn lib_host_override_keeps_port_when_absent() {
    let o = ops("example.com host://1.2.3.4", "http", "example.com", "/");
    match request_action(&o, "example.com", 80) {
        RequestAction::Forward { host, port } => {
            assert_eq!(host, "1.2.3.4");
            assert_eq!(port, 80);
        }
        _ => panic!("应为 Forward"),
    }
}

#[test]
fn lib_status_code_mocks() {
    let o = ops("example.com statusCode://418", "http", "example.com", "/");
    match request_action(&o, "example.com", 80) {
        RequestAction::Mock(resp) => assert_eq!(resp.status, 418),
        _ => panic!("应为 Mock"),
    }
}

#[test]
fn lib_redirect_sets_location() {
    let o = ops("example.com redirect://http://localhost/x", "http", "example.com", "/");
    match request_action(&o, "example.com", 80) {
        RequestAction::Mock(resp) => {
            assert_eq!(resp.status, 302);
            assert_eq!(field(&resp, "location"), "http://localhost/x");
        }
        _ => panic!("应为 Mock"),
    }
}

#[test]
fn lib_req_headers_applied() {
    let o = ops("example.com reqHeaders://x-a=1&x-b=2", "http", "example.com", "/");
    let mut h = HeaderMap::new();
    apply_request_headers(&mut h, &o);
    assert_eq!(h["x-a"], "1");
    assert_eq!(h["x-b"], "2");
}

#[test]
fn lib_missing_file_is_404() {
    let o = ops("example.com file:///nonexistent/zzz.json", "http", "example.com", "/");
    let resp = answer(request_action(&o, "example.com", 80));
    assert_eq!(resp.status, 404);
}

#[test]
fn res_body_rewrite_combines() {
    let o = ops(
        "example.com resReplace://foo=bar htmlPrepend://<x> htmlAppend://</x>",
        "http",
        "example.com",
        "/",
    );
    assert!(has_res_body_rewrite(&o));
    let out = rewrite_res_body(b"foo middle foo", &o);
    assert_eq!(String::from_utf8(out).unwrap(), "<x>bar middle bar</x>");
}

#[test]
fn res_body_whole_replace() {
    let o = ops("example.com resBody://hello", "http", "example.com", "/");
    let out = rewrite_res_body(b"original", &o);
    assert_eq!(String::from_utf8(out).unwrap(), "hello");
}

#[test]
fn method_and_status_and_delay() {
    let o = ops(
        "example.com method://post replaceStatus://201 resDelay://50",
        "http",
        "example.com",
        "/",
    );
    let mut method = "GET".to_string();
    override_method(&o, &mut method);
    assert_eq!(method, "POST");
    let mut st: u16 = 200;
    override_status(&o, &mut st);
    assert_eq!(st, 201);
    assert_eq!(res_delay(&o), Some(Duration::from_millis(50)));
}

#[test]
fn base64_basic() {
    assert_eq!(base64(b"user:pass"), "dXNlcjpwYXNz");
    assert_eq!(base64(b"a"), "YQ==");
    assert_eq!(base64(b"ab"), "YWI=");
}

#[test]
fn url_params_merge_and_override() {
    let o = ops("example.com urlParams://b=2&a=9", "http", "example.com", "/");
    assert_eq!(merge_url_params("/p?a=1", &o), "/p?a=9&b=2");
    assert_eq!(merge_url_params("/p", &o), "/p?b=2&a=9");
}

#[test]
fn auth_and_cors_headers() {
    let o = ops("example.com auth://user:pass", "http", "example.com", "/");
    let mut h = HeaderMap::new();
    apply_request_headers(&mut h, &o);
    assert_eq!(h["authorization"], "Basic dXNlcjpwYXNz");

    let o2 = ops("example.com resCors://*", "http", "example.com", "/");
    let mut r = HeaderMap::new();
    apply_response(&mut r, &o2);
    assert_eq!(r["access-control-allow-origin"], "*");
}

#[test]
fn forwarded_for_sets_header() {
    let o = ops("example.com forwardedFor://1.2.3.4", "http", "example.com", "/");
    let mut h = HeaderMap::new();
    apply_request_headers(&mut h, &o);
    assert_eq!(h["x-forwarded-for"], "1.2.3.4");
}

#[test]
fn delete_removes_req_header() {
    let o = ops("example.com delete://reqHeaders.x-foo", "http", "example.com", "/");
    let mut h = HeaderMap::new();
    h.insert("x-foo", HeaderValue::from_static("bar"));
    apply_request_headers(&mut h, &o);
    assert!(!h.contains_key("x-foo"));
}

#[test]
fn delete_removes_res_header() {
    let o = ops("example.com delete://resHeaders.server", "http", "example.com", "/");
    let mut r = HeaderMap::new();
    r.insert("server", HeaderValue::from_static("nginx"));
    apply_response(&mut r, &o);
    assert!(!r.contains_key("server"));
}

#[test]
fn header_replace_rewrites_value() {
    let o = ops("example.com headerReplace://user-agent=curl|whistle-rs", "http", "example.com", "/");
    let mut h = HeaderMap::new();
    h.insert("user-agent", HeaderValue::from_static("curl/8.0"));
    apply_request_headers(&mut h, &o);
    assert_eq!(h["user-agent"], "whistle-rs/8.0");
}

#[test]
fn header_replace_skips_missing_and_malformed() {
    let o = ops("example.com headerReplace://x-none=a|b", "http", "example.com", "/");
    let mut h = HeaderMap::new();
    apply_request_headers(&mut h, &o);
    assert!(!h.contains_key("x-none"));

    let o2 = ops("example.com headerReplace://user-agent=curl", "http", "example.com", "/");
    let mut h2 = HeaderMap::new();
    h2.insert("user-agent", HeaderValue::from_static("curl/8.0"));
    apply_request_headers(&mut h2, &o2);
    assert_eq!(h2["user-agent"], "curl/8.0");
}

#[test]
fn path_replace_rewrites_segment() {
    let o = ops("x.com pathReplace:///old|/new", "http", "x.com", "/old/a");
    assert_eq!(rewrite_path("/old/a?b=1", &o), "/new/a?b=1");
}

#[test]
fn location_href_sets_header() {
    let o = ops("x.com locationHref://https://new.example.com/x", "http", "x.com", "/");
    let mut r = HeaderMap::new();
    apply_response(&mut r, &o);
    assert_eq!(r[LOCATION], "https://new.example.com/x");
}

#[test]
fn cache_sets_cache_control() {
    let o = ops("x.com cache://no-store", "http", "x.com", "/");
    let mut r = HeaderMap::new();
    apply_response(&mut r, &o);
    assert_eq!(r["cache-control"], "no-store");
}

#[test]
fn charset_replaces_or_appends() {
    let o = ops("example.com reqCharset://utf-8", "http", "example.com", "/");
    let mut h = HeaderMap::new();
    h.insert(CONTENT_TYPE, HeaderValue::from_static("text/html; charset=gbk"));
    apply_request_headers(&mut h, &o);
    assert_eq!(h[CONTENT_TYPE], "text/html; charset=utf-8");
    let mut h2 = HeaderMap::new();
    apply_request_headers(&mut h2, &o);
    assert_eq!(h2[CONTENT_TYPE], "text/plain; charset=utf-8");
}

#[test]
fn base64_of_whole_groups_and_edges() {
    assert_eq!(base64(b""), "");
    assert_eq!(base64(b"abc"), "YWJj");
    assert_eq!(base64(&[0xfb, 0xff, 0xbf]), "+/+/");
    assert_ne!(base64(b"a"), base64(b"b"));
}

#[test]
fn files_are_served_with_their_type() {
    let r = serve_file("/tmp/A.HTML", Some(b"<p>".to_vec()));
    assert_eq!(r.status, 200);
    assert_eq!(field(&r, "content-type"), "text/html; charset=utf-8");
    assert_eq!(field(&r, "content-length"), "3");
    assert_eq!(r.body, b"<p>".to_vec());
    let missing = serve_file("/tmp/x", None);
    assert_eq!(missing.status, 404);
    assert_eq!(String::from_utf8(missing.body).unwrap(), "文件未找到: /tmp/x");
}

#[test]
fn file_comes_before_redirect_and_status() {
    let all = tokens(&["statusCode://500", "redirect://http://r/", "rawfile:///r", "file:///f"]);
    match request_action(&all, "h", 1) {
        RequestAction::ServeFile(p) => assert_eq!(p, "/f"),
        _ => panic!("a file answers"),
    }
    match request_action(&all[..3], "h", 1) {
        RequestAction::ServeFile(p) => assert_eq!(p, "/r"),
        _ => panic!("a file answers"),
    }
    assert_eq!(answer(request_action(&all[..2], "h", 1)).status, 302);
    assert_eq!(answer(request_action(&all[..1], "h", 1)).status, 500);
    match request_action(&[], "h", 1) {
        RequestAction::Forward { host, port } => assert_eq!((host.as_str(), port), ("h", 1)),
        _ => panic!("it goes on"),
    }
}

#[test]
fn redirect_to_nowhere_is_refused() {
    let r = redirect("http://a/\nb");
    assert_eq!(r.status, 400);
    assert_eq!(String::from_utf8(r.body).unwrap(), "redirect 目标非法");
    assert!(r.headers.is_empty());
}

#[test]
fn status_that_is_none_is_200() {
    assert_eq!(status_mock("teapot").status, 200);
    assert_eq!(status_mock("99").status, 200);
    assert_eq!(status_mock("999").status, 999);
    assert_eq!(parse_status("1000"), None);
    assert_eq!(parse_status("+204"), Some(204));
    assert_eq!(parse_status("70000"), None);
}

#[test]
fn templates_get_their_callback() {
    assert_eq!(tpl_callback("a=1&_callback=cb&callback=x"), "cb");
    assert_eq!(tpl_callback("a=1&b"), "");
    let r = serve_tpl("/t.js", "cb", Some(b"{callback}({})".to_vec()));
    assert_eq!(r.body, b"cb({})".to_vec());
    assert_eq!(field(&r, "content-length"), "6");
    assert_eq!(serve_tpl("/t.js", "cb", None).status, 404);
}

#[test]
fn hosts_and_proxies_are_read() {
    assert_eq!(parse_host("http://1.2.3.4:80"), ("1.2.3.4".to_string(), Some(80)));
    assert_eq!(parse_host("a:b"), ("a".to_string(), None));
    assert_eq!(split_authority("a.com:8443", 443), ("a.com".to_string(), 8443));
    assert_eq!(split_authority("a.com", 443), ("a.com".to_string(), 443));
    assert_eq!(split_authority("a.com:x", 443), ("a.com".to_string(), 443));
    let o = tokens(&["proxy://http://p:3128", "http-proxy://q", "socks://s"]);
    assert_eq!(upstream_proxy(&o), Some(("p".to_string(), 3128)));
    assert_eq!(upstream_proxy(&o[1..]), Some(("q".to_string(), 80)));
    assert_eq!(upstream_proxy(&[]), None);
    assert_eq!(upstream_socks(&o), Some(("s".to_string(), 1080)));
    assert_eq!(upstream_socks(&[]), None);
}

#[test]
fn short_names_of_types() {
    assert_eq!(mime_of("json"), "application/json");
    assert_eq!(mime_of("javascript"), "application/javascript");
    assert_eq!(mime_of("a/b"), "a/b");
    assert_eq!(mime_of("webp"), "webp");
    assert_eq!(guess_mime_by_ext("x.JPEG"), "image/jpeg");
    assert_eq!(guess_mime_by_ext("noext"), "application/octet-stream");
}

#[test]
fn later_headers_take_precedence_and_bad_ones_are_skipped() {
    let o = tokens(&[
        "reqHeaders://x-a=1&bad name=2&x-b = 3 &x-c",
        "ua://agent",
        "reqHeaders://X-A=4",
        "referer://r\u{1}",
    ]);
    let mut h = HeaderMap::new();
    apply_request_headers(&mut h, &o);
    assert_eq!(h["x-a"], "4");
    assert_eq!(h["x-b"], "3");
    assert_eq!(h["x-c"], "");
    assert_eq!(h["user-agent"], "agent");
    assert!(!h.contains_key("referer"));
    assert_eq!(h.len(), 4);
}

#[test]
fn cookies_come_behind_those_there() {
    let o = tokens(&["reqCookies://a=1& b=2", "reqCookies://c=3"]);
    let mut h = HeaderMap::new();
    h.insert("cookie", HeaderValue::from_static("z=0"));
    apply_request_headers(&mut h, &o);
    assert_eq!(h["cookie"], "z=0; a=1; b=2; c=3");
    let mut r = HeaderMap::new();
    apply_response(&mut r, &tokens(&["resCookies://a=1&b=2", "attachment://f.txt", "resType://json"]));
    let set: Vec<&HeaderValue> = r.get_all("set-cookie").iter().collect();
    assert_eq!(set, vec!["a=1", "b=2"]);
    assert_eq!(r["content-disposition"], "attachment; filename=\"f.txt\"");
    assert_eq!(r["content-type"], "application/json");
}

#[test]
fn cors_with_credentials_for_one_origin() {
    let mut r = HeaderMap::new();
    apply_response(&mut r, &tokens(&["resCors://http://a.com"]));
    assert_eq!(r["access-control-allow-credentials"], "true");
    assert_eq!(r["access-control-allow-methods"], "GET, POST, PUT, DELETE, PATCH, OPTIONS, HEAD");
    let mut q = HeaderMap::new();
    apply_request_headers(&mut q, &tokens(&["reqCors://http://a.com"]));
    assert_eq!(q["origin"], "http://a.com");
}

#[test]
fn edits_need_room() {
    let edits = request_header_edits(&tokens(&["ua://a"]));
    assert_eq!(edits.len(), 1);
    let mut h = HeaderMap::new();
    assert!(room_for(&h, 6554));
    assert!(!room_for(&h, 6555));
    assert!(try_edits(&mut h, &edits));
    assert_eq!(h["user-agent"], "a");
    assert_eq!(response_header_edits(&tokens(&["ua://a"])).len(), 0);
    let many: Vec<HeaderEdit> = (0..6555).map(|_| HeaderEdit::Remove("user-agent".to_string())).collect();
    assert!(!try_edits(&mut h, &many));
    assert_eq!(h["user-agent"], "a");
}

#[test]
fn headers_are_read_and_listed() {
    let mut h = HeaderMap::new();
    set_header(&mut h, "X-One", "1");
    set_header(&mut h, "x-one", "é");
    assert_eq!(header_text(&h, "x-one"), None);
    set_header(&mut h, "x-one", "a\tb");
    assert_eq!(header_text(&h, "X-ONE"), Some("a\tb"));
    assert_eq!(header_text(&h, "x two"), None);
    h.append("x-one", HeaderValue::from_static("c"));
    let list = collect_headers(&h);
    let values: Vec<&str> = list.iter().filter(|f| f.name == "x-one").map(|f| f.value.as_str()).collect();
    assert_eq!(values, vec!["a\tb", "c"]);
}

#[test]
fn length_of_a_rewritten_body() {
    let mut h = HeaderMap::new();
    h.insert("transfer-encoding", HeaderValue::from_static("chunked"));
    assert!(!body_within_limit(&h, 100));
    set_content_length(&mut h, 42);
    assert_eq!(h["content-length"], "42");
    assert!(!h.contains_key("transfer-encoding"));
    assert!(body_within_limit(&h, 42));
    assert!(!body_within_limit(&h, 41));
    set_content_length(&mut h, 0);
    assert!(!body_within_limit(&h, 41));
}

#[test]
fn hop_headers_do_not_go_on() {
    let mut h = HeaderMap::new();
    for name in ["connection", "te", "keep-alive", "proxy-connection", "upgrade", "accept"] {
        h.insert(name, HeaderValue::from_static("x"));
    }
    remove_hop_headers(&mut h);
    assert_eq!(h.len(), 1);
    assert_eq!(h["accept"], "x");
}

#[test]
fn websocket_is_asked_for_by_two_headers() {
    let mut h = HeaderMap::new();
    h.insert("upgrade", HeaderValue::from_static("WebSocket"));
    assert!(!is_ws_upgrade(&h));
    h.insert("connection", HeaderValue::from_static("keep-alive, Upgrade"));
    assert!(is_ws_upgrade(&h));
}

#[test]
fn body_without_operations_is_kept() {
    let o = tokens(&["host://1.1.1.1"]);
    assert!(!has_res_body_rewrite(&o));
    assert!(!has_req_body_rewrite(&o));
    assert_eq!(rewrite_res_body("h\u{e9}".as_bytes(), &o), "h\u{e9}".as_bytes().to_vec());
    let q = tokens(&["reqBody://b", "reqReplace://b=c", "reqPrepend://<", "reqAppend://>", "reqReplace://x"]);
    assert!(has_req_body_rewrite(&q));
    assert_eq!(rewrite_req_body(b"zzz", &q), b"<c>".to_vec());
    assert_eq!(rewrite_res_body(&[0xff, b'a'], &tokens(&["resAppend://!"])), "\u{fffd}a!".as_bytes().to_vec());
}

#[test]
fn bad_methods_are_passed_over() {
    let mut m = "GET".to_string();
    override_method(&tokens(&["method://a b"]), &mut m);
    assert_eq!(m, "GET");
    override_method(&tokens(&["method://purge"]), &mut m);
    assert_eq!(m, "PURGE");
    let mut s: u16 = 200;
    override_status(&tokens(&["statusCode://404", "replaceStatus://x"]), &mut s);
    assert_eq!(s, 200);
    override_status(&tokens(&["statusCode://404"]), &mut s);
    assert_eq!(s, 404);
}

#[test]
fn delays_and_speeds() {
    let o = tokens(&["reqDelay://20", "reqSpeed://2", "resSpeed://0", "resDelay://soon"]);
    assert_eq!(req_delay(&o), Some(Duration::from_millis(20)));
    assert_eq!(res_delay(&o), None);
    assert_eq!(req_speed_delay(&o, 4096), Some(Duration::from_millis(2000)));
    assert_eq!(res_speed_delay(&o, 4096), None);
}

#[test]
fn params_without_value_and_doubled_keys() {
    let o = tokens(&["urlParams://a&b=2", "urlParams://b=3"]);
    assert_eq!(merge_url_params("/p?b=1&b=0&c", &o), "/p?b=3&c=&a=");
    assert_eq!(merge_url_params("/p?b=1", &[]), "/p?b=1");
    assert_eq!(rewrite_path("/a/a", &tokens(&["pathReplace://a|b", "pathReplace://b|c", "pathReplace://x"])), "/c/c");
}

/// The bytes of a base64 text.
fn unbase64(text: &str) -> Vec<u8> {
    let digits = "ABCDEFGHIJKLMNOPQRSTUVWXYZabcdefghijklmnopqrstuvwxyz0123456789+/";
    let mut bits: u32 = 0;
    let mut held = 0;
    let mut out = Vec::new();
    for c in text.chars().filter(|c| *c != '=') {
        bits = bits << 6 | digits.find(c).unwrap() as u32;
        held += 6;
        if held >= 8 {
            held -= 8;
            out.push((bits >> held & 0xff) as u8);
        }
    }
    out
}

#[test]
fn base64_is_decoded_and_padded() {
    for n in 0..20usize {
        let bytes: Vec<u8> = (0..n).map(|i| (i * 37 + n * 101) as u8).collect();
        let text = base64(&bytes);
        assert_eq!(unbase64(&text), bytes);
        assert_eq!(text.len(), 4 * n.div_ceil(3));
        let pad = (3 - n % 3) % 3;
        assert_eq!(text.matches('=').count(), pad);
        assert!(text.ends_with(&"==="[..pad]));
    }
}

#[test]
fn merging_twice_is_merging_once() {
    let o = tokens(&["urlParams://a=1&b==2&&=v", "urlParams://a=3"]);
    let once = merge_url_params("/p?z&a=0?x&b", &o);
    assert_eq!(once, "/p?z=&a=3&b==2&=v");
    assert_eq!(merge_url_params(&once, &o), once);
    let empty = tokens(&["urlParams://"]);
    assert_eq!(merge_url_params("/p", &empty), "/p?");
    assert_eq!(merge_url_params("/p?", &empty), "/p?");
}

#[test]
fn names_that_no_text_can_ask_for_stay() {
    let odd = HeaderName::from_lowercase(b"a\"b").ok();
    let mut h = HeaderMap::new();
    if let Some(name) = odd {
        h.insert(name, HeaderValue::from_static("1"));
    }
    let kept = h.len();
    assert_eq!(header_text(&h, "a\"b"), None);
    assert!(try_edits(&mut h, &vec![HeaderEdit::Remove("a\"b".to_string())]));
    assert_eq!(h.len(), kept);
    set_header(&mut h, "a\"b", "2");
    assert_eq!(h.len(), kept);
}
