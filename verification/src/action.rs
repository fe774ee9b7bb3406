//! Where a request goes: to an answer of the rules' own, or on to a server.
use crate::capture::Header;
use crate::capture::HeaderText;
use crate::headers;
use crate::operation;
use crate::operation::OpText;
use crate::operation::Operation;
use crate::rewrite;
use crate::seqs;
use crate::text;
use vstd::prelude::*;

verus! {

/// A response that is made here.
#[derive(Debug)]
pub struct MockResponse {
    pub status: u16,
    pub headers: Vec<Header>,
    pub body: Vec<u8>,
}

/// What a response holds.
pub struct MockModel {
    pub status: u16,
    pub headers: Seq<HeaderText>,
    pub body: Seq<u8>,
}

impl View for MockResponse {
    type V = MockModel;

    open spec fn view(&self) -> MockModel {
        MockModel {
            status: self.status,
            headers: crate::capture::header_texts(self.headers@),
            body: self.body@,
        }
    }
}

/// What becomes of a request.
#[derive(Debug)]
pub enum RequestAction {
    /// It is answered here.
    Mock(MockResponse),
    /// It is answered with a file.
    ServeFile(String),
    /// It goes to this host and port.
    Forward { host: String, port: u16 },
}

/// What becomes of a request.
pub enum ActionModel {
    Mock(MockModel),
    ServeFile(Seq<char>),
    Forward(Seq<char>, u16),
}

impl View for RequestAction {
    type V = ActionModel;

    open spec fn view(&self) -> ActionModel {
        match *self {
            RequestAction::Mock(m) => ActionModel::Mock(m@),
            RequestAction::ServeFile(path) => ActionModel::ServeFile(path@),
            RequestAction::Forward { host, port } => ActionModel::Forward(host@, port),
        }
    }
}

// ---- responses ----

/// A response with a text and no header fields.
pub open spec fn text_response(status: u16, body: Seq<char>) -> MockModel {
    MockModel { status, headers: seq![], body: vstd::utf8::encode_utf8(body) }
}

/// The redirection to a target. A target that no header can hold is refused.
pub open spec fn redirect_response(target: Seq<char>) -> MockModel {
    if headers::is_header_value(target) {
        MockModel {
            status: 302,
            headers: seq![HeaderText { name: "location"@, value: target }],
            body: seq![],
        }
    } else {
        text_response(400, "redirect 目标非法"@)
    }
}

/// The empty response with the status that a text names, or 200 where it names none.
pub open spec fn status_response(code: Seq<char>) -> MockModel {
    MockModel {
        status: match rewrite::status_of(code) {
            Some(c) => c,
            None => 200,
        },
        headers: seq![],
        body: seq![],
    }
}

/// The response with a file's content, or 404 where there is none.
pub open spec fn file_response(path: Seq<char>, content: Option<Seq<u8>>) -> MockModel {
    match content {
        Some(bytes) => MockModel {
            status: 200,
            headers: seq![
                HeaderText { name: "content-type"@, value: crate::inspect::file_mime(path) },
                HeaderText { name: "content-length"@, value: seqs::decimal(bytes.len()) },
            ],
            body: bytes,
        },
        None => text_response(404, "文件未找到: "@ + path),
    }
}

/// A response with a text and no header fields.
pub fn text_mock(status: u16, body: &str) -> (r: MockResponse)
    ensures
        r@ == text_response(status, body@),
{
    let r = MockResponse { status, headers: Vec::new(), body: text::bytes_of(body) };
    proof {
        assert(r@.headers =~= seq![]);
    }
    r
}

/// The redirection to a target.
pub fn redirect(target: &str) -> (r: MockResponse)
    ensures
        r@ == redirect_response(target@),
{
    if headers::can_be_value(target) {
        let h = Header { name: "location".to_string(), value: target.to_string() };
        let r = MockResponse { status: 302, headers: vec![h], body: Vec::new() };
        proof {
            assert(r@.headers =~= seq![HeaderText { name: "location"@, value: target@ }]);
            assert(r@.body =~= seq![]);
        }
        r
    } else {
        text_mock(400, "redirect 目标非法")
    }
}

/// The empty response with the status that a text names.
pub fn status_mock(code: &str) -> (r: MockResponse)
    ensures
        r@ == status_response(code@),
{
    let status: u16 = match rewrite::parse_status(code) {
        Some(c) => c,
        None => 200,
    };
    let r = MockResponse { status, headers: Vec::new(), body: Vec::new() };
    proof {
        assert(r@.headers =~= seq![]);
        assert(r@.body =~= seq![]);
    }
    r
}

/// The bytes of an optional content.
pub open spec fn content_bytes(content: Option<Vec<u8>>) -> Option<Seq<u8>> {
    match content {
        Some(v) => Some(v@),
        None => None,
    }
}

/// The response with a file's content, which is `None` where the file cannot be read.
pub fn serve_file(path: &str, content: Option<Vec<u8>>) -> (r: MockResponse)
    ensures
        r@ == file_response(path@, content_bytes(content)),
{
    match content {
        Some(bytes) => {
            let kind = Header {
                name: "content-type".to_string(),
                value: crate::inspect::guess_mime_by_ext(path).to_string(),
            };
            let length = Header {
                name: "content-length".to_string(),
                value: text::decimal(bytes.len() as u64),
            };
            let r = MockResponse { status: 200, headers: vec![kind, length], body: bytes };
            proof {
                assert(r@.headers =~= file_response(path@, content_bytes(content)).headers);
            }
            r
        },
        None => {
            let message = text::cat("文件未找到: ", path);
            text_mock(404, message.as_str())
        },
    }
}

// ---- templates ----

/// The value of the first parameter from position `i` on that names a callback.
pub open spec fn callback_from(pairs: Seq<Seq<char>>, i: int) -> Seq<char>
    decreases pairs.len() - i,
{
    if i < 0 || i >= pairs.len() {
        seq![]
    } else {
        match seqs::split_once(pairs[i], "="@) {
            Some((k, v)) => if k == "callback"@ || k == "_callback"@ || k == "jsonpCallback"@ {
                v
            } else {
                callback_from(pairs, i + 1)
            },
            None => callback_from(pairs, i + 1),
        }
    }
}

/// The name of the callback that a query asks for, or nothing.
pub open spec fn callback_of(query: Seq<char>) -> Seq<char> {
    callback_from(seqs::split(query, "&"@), 0)
}

/// The name of the callback that a query asks for, or nothing.
pub fn tpl_callback(query: &str) -> (r: String)
    ensures
        r@ == callback_of(query@),
{
    let pairs = text::split(query, "&");
    let ghost all = seqs::slices(pairs@);
    let mut i: usize = 0;
    while i < pairs.len()
        invariant
            i <= pairs.len(),
            all == seqs::slices(pairs@),
            all == seqs::split(query@, "&"@),
            callback_from(all, 0) == callback_from(all, i as int),
        decreases pairs.len() - i,
    {
        proof {
            assert(all[i as int] == pairs@[i as int]@);
        }
        if let Some((k, v)) = text::split_once(pairs[i], "=") {
            if text::same(k, "callback") || text::same(k, "_callback") || text::same(
                k,
                "jsonpCallback",
            ) {
                return v.to_string();
            }
        }
        i += 1;
    }
    let r = String::new();
    proof {
        assert(r@ =~= seq![]);
    }
    r
}

/// A template with the name of the callback filled in.
pub open spec fn template_bytes(content: Seq<u8>, callback: Seq<char>) -> Seq<u8> {
    vstd::utf8::encode_utf8(
        seqs::replace(text::lossy_utf8(content), "{callback}"@, callback),
    )
}

/// The response with a template's content, which is `None` where the file cannot be read.
pub fn serve_tpl(path: &str, callback: &str, content: Option<Vec<u8>>) -> (r: MockResponse)
    ensures
        r@ == file_response(
            path@,
            match content {
                Some(v) => Some(template_bytes(v@, callback@)),
                None => None,
            },
        ),
{
    match content {
        Some(bytes) => {
            let page = text::lossy(bytes.as_slice());
            let filled = text::replace(page.as_str(), "{callback}", callback);
            serve_file(path, Some(text::bytes_of(filled.as_str())))
        },
        None => serve_file(path, None),
    }
}

// ---- targets ----

/// The host and port that the value of a `host` names.
pub open spec fn host_of(value: Seq<char>) -> (Seq<char>, Option<u16>) {
    let v = seqs::after_last(value, "://"@);
    match seqs::split_once(v, ":"@) {
        Some((h, p)) => (h, port_of(p)),
        None => (v, None),
    }
}

/// The port that a text names.
pub open spec fn port_of(p: Seq<char>) -> Option<u16> {
    match seqs::parse_number(p, 65535) {
        Some(n) => Some(n as u16),
        None => None,
    }
}

/// The port that a text names.
pub fn parse_port(p: &str) -> (r: Option<u16>)
    ensures
        r == port_of(p@),
{
    match text::parse_number(p, 65535) {
        Some(n) => Some(n as u16),
        None => None,
    }
}

/// The host and port that the value of a `host` names.
pub fn parse_host(value: &str) -> (r: (String, Option<u16>))
    ensures
        (r.0@, r.1) == host_of(value@),
{
    let v = text::after_last(value, "://");
    match text::split_once(v, ":") {
        Some((h, p)) => (h.to_string(), parse_port(p)),
        None => (v.to_string(), None),
    }
}

/// The host and port that a request goes to.
pub open spec fn target_of(ops: Seq<OpText>, host: Seq<char>, port: u16) -> (Seq<char>, u16) {
    match operation::last_of(ops, "host"@) {
        Some(v) => {
            let (h, p) = host_of(v);
            (
                if h.len() > 0 {
                    h
                } else {
                    host
                },
                match p {
                    Some(n) => n,
                    None => port,
                },
            )
        },
        None => (host, port),
    }
}

/// What becomes of a request: `file` before `rawfile`, then `redirect`, then `statusCode`, and
/// else it goes to its host, or to the one that `host` names.
pub open spec fn action_of(ops: Seq<OpText>, host: Seq<char>, port: u16) -> ActionModel {
    match operation::last_of_either(ops, "file"@, "rawfile"@) {
        Some(path) => ActionModel::ServeFile(path),
        None => match operation::last_of(ops, "redirect"@) {
            Some(target) => ActionModel::Mock(redirect_response(target)),
            None => match operation::last_of(ops, "statusCode"@) {
                Some(code) => ActionModel::Mock(status_response(code)),
                None => {
                    let (h, p) = target_of(ops, host, port);
                    ActionModel::Forward(h, p)
                },
            },
        },
    }
}

/// What becomes of a request.
pub fn request_action(ops: &[Operation], host: &str, port: u16) -> (r: RequestAction)
    ensures
        r@ == action_of(operation::op_texts(ops@), host@, port),
{
    if let Some(path) = operation::last_value_of_either(ops, "file", "rawfile") {
        return RequestAction::ServeFile(path.to_string());
    }
    if let Some(target) = operation::last_value(ops, "redirect") {
        return RequestAction::Mock(redirect(target));
    }
    if let Some(code) = operation::last_value(ops, "statusCode") {
        return RequestAction::Mock(status_mock(code));
    }
    let mut up_host = host.to_string();
    let mut up_port = port;
    if let Some(v) = operation::last_value(ops, "host") {
        let (h, p) = parse_host(v);
        if !h.as_str().is_empty() {
            up_host = h;
        }
        if let Some(n) = p {
            up_port = n;
        }
    }
    RequestAction::Forward { host: up_host, port: up_port }
}

/// The host and port in a text, with a port for where it names none.
pub open spec fn authority_of(s: Seq<char>, port: u16) -> (Seq<char>, u16) {
    match seqs::rsplit_once(s, ":"@) {
        Some((h, p)) => (
            h,
            match port_of(p) {
                Some(n) => n,
                None => port,
            },
        ),
        None => (s, port),
    }
}

/// Splits `host:port`, with a port for where there is none.
pub fn split_authority(authority: &str, port: u16) -> (r: (String, u16))
    ensures
        (r.0@, r.1) == authority_of(authority@, port),
{
    match text::rsplit_once(authority, ":") {
        Some((h, p)) => (
            h.to_string(),
            match parse_port(p) {
                Some(n) => n,
                None => port,
            },
        ),
        None => (authority.to_string(), port),
    }
}

/// The HTTP proxy that a request goes through.
pub open spec fn proxy_of(ops: Seq<OpText>) -> Option<(Seq<char>, u16)> {
    match operation::last_of_either(ops, "proxy"@, "http-proxy"@) {
        Some(v) => Some(authority_of(seqs::after_last(v, "://"@), 80)),
        None => None,
    }
}

/// The SOCKS proxy that a request goes through.
pub open spec fn socks_of(ops: Seq<OpText>) -> Option<(Seq<char>, u16)> {
    match operation::last_of(ops, "socks"@) {
        Some(v) => Some(authority_of(seqs::after_last(v, "://"@), 1080)),
        None => None,
    }
}

/// The HTTP proxy that a request goes through: `proxy` before `http-proxy`, port 80 where none is
/// named.
pub fn upstream_proxy(ops: &[Operation]) -> (r: Option<(String, u16)>)
    ensures
        match r {
            Some((h, p)) => proxy_of(operation::op_texts(ops@)) == Some((h@, p)),
            None => proxy_of(operation::op_texts(ops@)) is None,
        },
{
    match operation::last_value_of_either(ops, "proxy", "http-proxy") {
        Some(v) => Some(split_authority(text::after_last(v, "://"), 80)),
        None => None,
    }
}

/// The SOCKS proxy that a request goes through, port 1080 where none is named.
pub fn upstream_socks(ops: &[Operation]) -> (r: Option<(String, u16)>)
    ensures
        match r {
            Some((h, p)) => socks_of(operation::op_texts(ops@)) == Some((h@, p)),
            None => socks_of(operation::op_texts(ops@)) is None,
        },
{
    match operation::last_value(ops, "socks") {
        Some(v) => Some(split_authority(text::after_last(v, "://"), 1080)),
        None => None,
    }
}

// ---- laws ----

/// Without operations a request goes to its own host and port.
pub proof fn law_no_operations_forward(host: Seq<char>, port: u16)
    ensures
        action_of(seq![], host, port) == ActionModel::Forward(host, port),
{
}

/// A request is answered here only where an operation asks for it.
pub proof fn law_answers_need_an_operation(ops: Seq<OpText>, host: Seq<char>, port: u16)
    requires
        operation::last_of(ops, "file"@) is None,
        operation::last_of(ops, "rawfile"@) is None,
        operation::last_of(ops, "redirect"@) is None,
        operation::last_of(ops, "statusCode"@) is None,
    ensures
        action_of(ops, host, port) is Forward,
{
}

/// A file comes before a redirection, and a redirection before a status.
pub proof fn law_files_come_first(ops: Seq<OpText>, host: Seq<char>, port: u16)
    ensures
        action_of(ops, host, port) is ServeFile == (operation::last_of(ops, "file"@) is Some
            || operation::last_of(ops, "rawfile"@) is Some),
        action_of(ops, host, port) is Mock && operation::last_of(ops, "redirect"@) is Some
            ==> action_of(ops, host, port) == ActionModel::Mock(
            redirect_response(operation::last_of(ops, "redirect"@)->0),
        ),
{
}

/// A `host` names where a request goes: a host and a port, a host alone, which leaves the port of
/// the request, or a port alone, which leaves its host. A scheme in front makes no difference.
pub proof fn law_host_names_the_target(
    ops: Seq<OpText>,
    scheme: Seq<char>,
    name: Seq<char>,
    number: u16,
    host: Seq<char>,
    port: u16,
)
    requires
        operation::last_of(ops, "file"@) is None,
        operation::last_of(ops, "rawfile"@) is None,
        operation::last_of(ops, "redirect"@) is None,
        operation::last_of(ops, "statusCode"@) is None,
        name.len() > 0 && seqs::lacks(name, ':') && seqs::lacks(name, '/'),
    ensures
        operation::last_of(ops, "host"@) is None ==> action_of(ops, host, port)
            == ActionModel::Forward(host, port),
        operation::last_of(ops, "host"@) == Some(name) ==> action_of(ops, host, port)
            == ActionModel::Forward(name, port),
        operation::last_of(ops, "host"@) == Some(
            name + seq![':'] + seqs::decimal(number as nat),
        ) ==> action_of(ops, host, port) == ActionModel::Forward(name, number),
        operation::last_of(ops, "host"@) == Some(
            scheme + seq![':', '/', '/'] + (name + seq![':'] + seqs::decimal(number as nat)),
        ) ==> action_of(ops, host, port) == ActionModel::Forward(name, number),
        operation::last_of(ops, "host"@) == Some(seq![':'] + seqs::decimal(number as nat))
            ==> action_of(ops, host, port) == ActionModel::Forward(host, number),
{
    reveal_strlit(":");
    reveal_strlit("://");
    assert(":"@ =~= seq![':']);
    assert("://"@ =~= seq![':', '/', '/']);
    let d = seqs::decimal(number as nat);
    let full = name + seq![':'] + d;
    let bare = seq![':'] + d;
    lemma_digits_only(number);
    seqs::law_decimal_is_read_back(number as nat, 65535);
    assert(seqs::lacks(full, '/')) by {
        assert forall|i: int| 0 <= i < full.len() implies #[trigger] full[i] != '/' by {
            if i < name.len() {
                assert(full[i] == name[i]);
            } else if i > name.len() {
                assert(full[i] == d[i - name.len() - 1]);
            }
        }
    }
    assert(seqs::lacks(bare, '/')) by {
        assert forall|i: int| 0 <= i < bare.len() implies #[trigger] bare[i] != '/' by {
            if i > 0 {
                assert(bare[i] == d[i - 1]);
            }
        }
    }
    seqs::law_scheme_is_cut_off(scheme, full);
    seqs::law_scheme_is_cut_off(scheme, bare);
    seqs::law_scheme_is_cut_off(scheme, name);
    seqs::law_text_is_cut_at_the_first(name, ':', d);
    seqs::law_text_is_cut_at_the_first(Seq::empty(), ':', d);
    assert(Seq::<char>::empty() + seq![':'] + d =~= bare);
}

proof fn lemma_digits_only(number: u16)
    ensures
        seqs::lacks(seqs::decimal(number as nat), ':'),
        seqs::lacks(seqs::decimal(number as nat), '/'),
{
    seqs::lemma_decimal(number as nat);
    let d = seqs::decimal(number as nat);
    assert forall|i: int| 0 <= i < d.len() implies #[trigger] d[i] != ':' && d[i] != '/' by {
        assert(seqs::is_digit(d[i]));
    }
}

/// A port is a number up to 65535; anything else is none.
pub proof fn law_port_is_read_back(number: nat)
    ensures
        port_of(seqs::decimal(number)) == if number <= 65535 {
            Some(number as u16)
        } else {
            None
        },
{
    seqs::lemma_decimal(number);
    assert(seqs::is_digit(seqs::decimal(number)[0]));
}

/// A `redirect` is answered with 302 and its target in the `location` field, and with nothing else.
/// A target that no field can hold is answered with 400. A `file` comes before it.
pub proof fn law_redirect_names_the_target(
    ops: Seq<OpText>,
    target: Seq<char>,
    host: Seq<char>,
    port: u16,
)
    requires
        operation::last_of(ops, "file"@) is None,
        operation::last_of(ops, "rawfile"@) is None,
        operation::last_of(ops, "redirect"@) == Some(target),
    ensures
        match action_of(ops, host, port) {
            ActionModel::Mock(m) => if headers::is_header_value(target) {
                &&& m.status == 302
                &&& m.headers == seq![
                    HeaderText {
                        name: seq!['l', 'o', 'c', 'a', 't', 'i', 'o', 'n'],
                        value: target,
                    },
                ]
                &&& m.body.len() == 0
            } else {
                m.status == 400 && m.headers.len() == 0
            },
            _ => false,
        },
{
    reveal_strlit("location");
    assert("location"@ =~= seq!['l', 'o', 'c', 'a', 't', 'i', 'o', 'n']);
}

/// A `statusCode` is answered with that status and nothing else, from 100 to 999. What is no such
/// number is answered with 200.
pub proof fn law_status_is_answered(
    ops: Seq<OpText>,
    code: nat,
    host: Seq<char>,
    port: u16,
)
    requires
        operation::last_of(ops, "file"@) is None,
        operation::last_of(ops, "rawfile"@) is None,
        operation::last_of(ops, "redirect"@) is None,
        operation::last_of(ops, "statusCode"@) == Some(seqs::decimal(code)),
    ensures
        action_of(ops, host, port) == ActionModel::Mock(
            MockModel {
                status: if 100 <= code <= 999 {
                    code as u16
                } else {
                    200
                },
                headers: Seq::empty(),
                body: Seq::empty(),
            },
        ),
{
    seqs::lemma_decimal(code);
    assert(seqs::is_digit(seqs::decimal(code)[0]));
}

/// A `file` names the file that a request is answered with, and where there is none a `rawfile`
/// does, whatever else was asked for.
pub proof fn law_file_is_the_one_named(
    ops: Seq<OpText>,
    path: Seq<char>,
    host: Seq<char>,
    port: u16,
)
    ensures
        operation::last_of(ops, "file"@) == Some(path) ==> action_of(ops, host, port)
            == ActionModel::ServeFile(path),
        operation::last_of(ops, "file"@) is None && operation::last_of(ops, "rawfile"@) == Some(
            path,
        ) ==> action_of(ops, host, port) == ActionModel::ServeFile(path),
{
}

/// A file is answered with 200, its own bytes, the type of its extension and its length. One that
/// is not there is answered with 404.
pub proof fn law_file_is_answered_as_it_is(path: Seq<char>, bytes: Seq<u8>)
    ensures
        ({
            let found = file_response(path, Some(bytes));
            let missing = file_response(path, None);
            &&& found.status == 200
            &&& found.body == bytes
            &&& headers::fields_of(found.headers, "content-type"@) == seq![
                crate::inspect::file_mime(path),
            ]
            &&& headers::fields_of(found.headers, "content-length"@) == seq![
                seqs::decimal(bytes.len()),
            ]
            &&& found.headers.len() == 2
            &&& missing.status == 404
            &&& missing.headers.len() == 0
            &&& text::lossy_utf8(missing.body) == "文件未找到: "@ + path
        }),
{
    text::law_utf8_is_read_back("文件未找到: "@ + path);
    reveal(Seq::filter);
    reveal_strlit("content-type");
    reveal_strlit("content-length");
    assert("content-type"@.len() == 12);
    assert("content-length"@.len() == 14);
    let list = file_response(path, Some(bytes)).headers;
    assert(list.drop_last() =~= seq![list[0]]);
    let one = seq![list[0]];
    let none = Seq::<HeaderText>::empty();
    assert(one.drop_last() =~= none);
    assert(one.last() == list[0] && list.last() == list[1]);
    let is_type = |h: HeaderText| h.name == "content-type"@;
    let is_length = |h: HeaderText| h.name == "content-length"@;
    assert(none.filter(is_type) =~= none && none.filter(is_length) =~= none);
    assert(is_type(list[0]) && !is_length(list[0]) && is_length(list[1]) && !is_type(list[1]));
    assert(one.filter(is_type) =~= one);
    assert(one.filter(is_length) =~= none);
    assert(list.filter(is_type) =~= one);
    assert(list.filter(is_length) =~= seq![list[1]]);
    assert(headers::fields_of(list, "content-type"@) =~= seq![crate::inspect::file_mime(path)]);
    assert(headers::fields_of(list, "content-length"@) =~= seq![seqs::decimal(bytes.len())]);
}

/// The callback is the value of the first parameter with one of its names, and the parameters
/// before it make no difference.
pub proof fn law_callback_is_the_first_named(
    earlier: Seq<Seq<char>>,
    name: Seq<char>,
    value: Seq<char>,
    later: Seq<Seq<char>>,
)
    requires
        forall|i: int|
            0 <= i < earlier.len() ==> ({
                let key = seqs::pair(#[trigger] earlier[i]).0;
                key != "callback"@ && key != "_callback"@ && key != "jsonpCallback"@
            }),
        name == "callback"@ || name == "_callback"@ || name == "jsonpCallback"@,
    ensures
        callback_from(earlier, 0) == Seq::<char>::empty(),
        callback_from(earlier + seq![name + seq!['='] + value] + later, 0) == value,
{
    reveal_strlit("=");
    assert("="@ =~= seq!['=']);
    reveal_strlit("callback");
    reveal_strlit("_callback");
    reveal_strlit("jsonpCallback");
    let all = earlier + seq![name + seq!['='] + value] + later;
    let n = earlier.len() as int;
    lemma_no_callback(earlier, earlier, 0, n);
    lemma_no_callback(all, earlier, 0, n);
    assert(all[n] == name + seq!['='] + value);
    seqs::law_text_is_cut_at_the_first(name, '=', value);
}

proof fn lemma_no_callback(all: Seq<Seq<char>>, earlier: Seq<Seq<char>>, i: int, n: int)
    requires
        0 <= i <= n == earlier.len() <= all.len(),
        forall|k: int| 0 <= k < n ==> #[trigger] all[k] == earlier[k],
        forall|k: int|
            0 <= k < earlier.len() ==> ({
                let key = seqs::pair(#[trigger] earlier[k]).0;
                key != "callback"@ && key != "_callback"@ && key != "jsonpCallback"@
            }),
    ensures
        callback_from(all, i) == callback_from(all, n),
    decreases n - i,
{
    reveal_strlit("=");
    assert("="@ =~= seq!['=']);
    if i < n {
        assert(all[i] == earlier[i]);
        lemma_no_callback(all, earlier, i + 1, n);
    }
}

/// In a template, `{callback}` is filled in with the name of the callback, and the text around it
/// is kept.
pub proof fn law_template_is_filled_in(
    content: Seq<u8>,
    before: Seq<char>,
    after: Seq<char>,
    callback: Seq<char>,
)
    requires
        text::lossy_utf8(content) == before + "{callback}"@ + after,
        seqs::lacks(before, '{') && seqs::lacks(after, '{'),
    ensures
        template_bytes(content, callback) == vstd::utf8::encode_utf8(before + callback + after),
{
    reveal_strlit("{callback}");
    seqs::law_replace_works_from_left_to_right(before, "{callback}"@, callback, after);
    seqs::law_replace_works_from_left_to_right(after, "{callback}"@, callback, after);
}

/// The proxy that a request goes through is the one that `proxy` names, and where there is none the
/// one of `http-proxy`. Without a port it is port 80.
pub proof fn law_proxy_is_the_one_named(
    ops: Seq<OpText>,
    scheme: Seq<char>,
    name: Seq<char>,
    number: u16,
)
    requires
        seqs::lacks(name, ':') && seqs::lacks(name, '/'),
    ensures
        ({
            let asked = operation::last_of(ops, "proxy"@) is Some;
            let value = if asked {
                operation::last_of(ops, "proxy"@)
            } else {
                operation::last_of(ops, "http-proxy"@)
            };
            &&& value is None ==> proxy_of(ops) is None
            &&& value == Some(name) ==> proxy_of(ops) == Some((name, 80u16))
            &&& value == Some(name + seq![':'] + seqs::decimal(number as nat)) ==> proxy_of(ops)
                == Some((name, number))
            &&& value == Some(
                scheme + seq![':', '/', '/'] + (name + seq![':'] + seqs::decimal(number as nat)),
            ) ==> proxy_of(ops) == Some((name, number))
        }),
{
    lemma_authority(scheme, name, number, 80);
}

/// The SOCKS proxy that a request goes through is the one that `socks` names. Without a port it is
/// port 1080.
pub proof fn law_socks_is_the_one_named(
    ops: Seq<OpText>,
    scheme: Seq<char>,
    name: Seq<char>,
    number: u16,
)
    requires
        seqs::lacks(name, ':') && seqs::lacks(name, '/'),
    ensures
        operation::last_of(ops, "socks"@) is None ==> socks_of(ops) is None,
        operation::last_of(ops, "socks"@) == Some(name) ==> socks_of(ops) == Some((name, 1080u16)),
        operation::last_of(ops, "socks"@) == Some(name + seq![':'] + seqs::decimal(number as nat))
            ==> socks_of(ops) == Some((name, number)),
        operation::last_of(ops, "socks"@) == Some(
            scheme + seq![':', '/', '/'] + (name + seq![':'] + seqs::decimal(number as nat)),
        ) ==> socks_of(ops) == Some((name, number)),
{
    lemma_authority(scheme, name, number, 1080);
}

/// A host and a port are read at the last colon, so that the host may hold more of them. What is no
/// port leaves the one that was given.
pub proof fn law_authority_is_read_at_the_last_colon(
    name: Seq<char>,
    number: u16,
    other: Seq<char>,
    port: u16,
)
    requires
        seqs::lacks(other, ':'),
        exists|i: int| 0 <= i < other.len() && !('0' <= #[trigger] other[i] <= '9') && other[0]
            != '+',
    ensures
        authority_of(name + seq![':'] + seqs::decimal(number as nat), port) == (name, number),
        authority_of(name + seq![':'] + other, port) == (name, port),
        seqs::lacks(name, ':') ==> authority_of(name, port) == (name, port),
{
    reveal_strlit(":");
    assert(":"@ =~= seq![':']);
    lemma_digits_only(number);
    seqs::law_decimal_is_read_back(number as nat, 65535);
    seqs::law_text_is_cut_at_the_last(name, ':', seqs::decimal(number as nat));
    seqs::law_text_is_cut_at_the_last(name, ':', other);
    seqs::law_numbers_are_read_by_digits(other, 0, 65535);
    if seqs::lacks(name, ':') {
        seqs::law_text_is_cut_at_the_last(name, ':', name);
    }
}

proof fn lemma_authority(scheme: Seq<char>, name: Seq<char>, number: u16, port: u16)
    requires
        seqs::lacks(name, ':') && seqs::lacks(name, '/'),
    ensures
        ({
            let full = name + seq![':'] + seqs::decimal(number as nat);
            &&& authority_of(seqs::after_last(name, "://"@), port) == (name, port)
            &&& authority_of(seqs::after_last(full, "://"@), port) == (name, number)
            &&& authority_of(
                seqs::after_last(scheme + seq![':', '/', '/'] + full, "://"@),
                port,
            ) == (name, number)
        }),
{
    reveal_strlit(":");
    reveal_strlit("://");
    assert(":"@ =~= seq![':']);
    assert("://"@ =~= seq![':', '/', '/']);
    let d = seqs::decimal(number as nat);
    let full = name + seq![':'] + d;
    lemma_digits_only(number);
    seqs::law_decimal_is_read_back(number as nat, 65535);
    assert(seqs::lacks(full, '/')) by {
        assert forall|i: int| 0 <= i < full.len() implies #[trigger] full[i] != '/' by {
            if i < name.len() {
                assert(full[i] == name[i]);
            } else if i > name.len() {
                assert(full[i] == d[i - name.len() - 1]);
            }
        }
    }
    seqs::law_scheme_is_cut_off(scheme, full);
    seqs::law_scheme_is_cut_off(scheme, name);
    seqs::law_text_is_cut_at_the_last(name, ':', d);
    seqs::law_text_is_cut_at_the_last(name, ':', name);
}

/// A query names the callback in the first of its parameters that has one of the names for it.
pub proof fn law_query_names_the_callback(
    earlier: Seq<Seq<char>>,
    name: Seq<char>,
    value: Seq<char>,
    later: Seq<Seq<char>>,
)
    requires
        forall|i: int|
            0 <= i < earlier.len() ==> seqs::lacks(#[trigger] earlier[i], '&') && ({
                let key = seqs::pair(earlier[i]).0;
                key != "callback"@ && key != "_callback"@ && key != "jsonpCallback"@
            }),
        forall|i: int| 0 <= i < later.len() ==> seqs::lacks(#[trigger] later[i], '&'),
        seqs::lacks(value, '&'),
        name == "callback"@ || name == "_callback"@ || name == "jsonpCallback"@,
    ensures
        callback_of(
            seqs::join(earlier + seq![name + seq!['='] + value] + later, seq!['&']),
        ) == value,
{
    reveal_strlit("&");
    assert("&"@ =~= seq!['&']);
    reveal_strlit("callback");
    reveal_strlit("_callback");
    reveal_strlit("jsonpCallback");
    let p = name + seq!['='] + value;
    let all = earlier + seq![p] + later;
    assert(seqs::lacks(p, '&')) by {
        assert forall|i: int| 0 <= i < p.len() implies #[trigger] p[i] != '&' by {
            if i < name.len() {
                assert(p[i] == name[i]);
            } else if i > name.len() {
                assert(p[i] == value[i - name.len() - 1]);
            }
        }
    }
    assert forall|i: int| 0 <= i < all.len() implies seqs::lacks(#[trigger] all[i], '&') by {
        if i < earlier.len() {
            assert(all[i] == earlier[i]);
        } else if i > earlier.len() {
            assert(all[i] == later[i - earlier.len() - 1]);
        }
    }
    seqs::lemma_split_joined(all, '&');
    law_callback_is_the_first_named(earlier, name, value, later);
}

/// An answer with a text has that text as its body, in UTF-8, its status, and no header fields.
pub proof fn law_text_is_answered(status: u16, body: Seq<char>)
    ensures
        text_response(status, body).status == status,
        text_response(status, body).headers.len() == 0,
        text::lossy_utf8(text_response(status, body).body) == body,
{
    text::law_utf8_is_read_back(body);
}

} // verus!
