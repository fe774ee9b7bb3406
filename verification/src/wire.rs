//! HTTP/1.1 messages that are written and read by hand: the tunnel through a proxy, the call of a
//! plugin and the replay of a request.
use crate::action;
use crate::operation;
use crate::operation::OpText;
use crate::operation::Operation;
use crate::seqs;
use crate::text;
use vstd::prelude::*;

verus! {

// ---- head and body ----

/// An empty line ends the head at this position: `\r\n\r\n` stands there.
pub open spec fn head_ends_at(b: Seq<u8>, i: int) -> bool {
    0 <= i && i + 4 <= b.len() && b[i] == 13 && b[i + 1] == 10 && b[i + 2] == 13 && b[i + 3] == 10
}

/// The first position from `i` on where an empty line ends the head.
pub open spec fn head_end_from(b: Seq<u8>, i: int) -> Option<int>
    decreases b.len() - i,
{
    if i < 0 || i + 4 > b.len() {
        None
    } else if head_ends_at(b, i) {
        Some(i)
    } else {
        head_end_from(b, i + 1)
    }
}

/// The first position where an empty line ends the head.
pub open spec fn head_end(b: Seq<u8>) -> Option<int> {
    head_end_from(b, 0)
}

/// The first position where an empty line ends the head.
pub fn find_head_end(b: &[u8]) -> (r: Option<usize>)
    ensures
        match r {
            Some(i) => head_end(b@) == Some(i as int) && i + 4 <= b.len(),
            None => head_end(b@) is None,
        },
{
    let mut i: usize = 0;
    while b.len() >= 4 && i <= b.len() - 4
        invariant
            i <= b.len(),
            head_end(b@) == head_end_from(b@, i as int),
        decreases b.len() - i,
    {
        if b[i] == 13 && b[i + 1] == 10 && b[i + 2] == 13 && b[i + 3] == 10 {
            return Some(i);
        }
        i += 1;
    }
    None
}

proof fn lemma_head_end_from(b: Seq<u8>, i: int)
    requires
        0 <= i,
    ensures
        match head_end_from(b, i) {
            Some(k) => i <= k && head_ends_at(b, k) && forall|j: int|
                i <= j < k ==> !#[trigger] head_ends_at(b, j),
            None => forall|j: int| i <= j ==> !#[trigger] head_ends_at(b, j),
        },
    decreases b.len() - i,
{
    if i + 4 <= b.len() && !head_ends_at(b, i) {
        lemma_head_end_from(b, i + 1);
    }
}

/// A head without an empty line, an empty line and a body are read back as head and body.
pub proof fn law_head_and_body_are_read_back(head: Seq<u8>, body: Seq<u8>)
    requires
        head_end(head + seq![13u8, 10, 13]) is None,
    ensures
        head_end(head + seq![13u8, 10, 13, 10] + body) == Some(head.len() as int),
{
    let short = head + seq![13u8, 10, 13];
    let whole = head + seq![13u8, 10, 13, 10] + body;
    lemma_head_end_from(short, 0);
    lemma_head_end_from(whole, 0);
    let n = head.len() as int;
    assert(head_ends_at(whole, n)) by {
        assert(whole[n] == 13 && whole[n + 1] == 10 && whole[n + 2] == 13 && whole[n + 3] == 10);
    }
    if let Some(k) = head_end(whole) {
        if k < n {
            assert(short[k] == whole[k] && short[k + 1] == whole[k + 1]);
            assert(short[k + 2] == whole[k + 2] && short[k + 3] == whole[k + 3]);
            assert(head_ends_at(short, k));
        }
    }
}

/// The second word of the first line of a head.
pub open spec fn status_word(head: Seq<char>) -> Option<Seq<char>> {
    let w = seqs::words(seqs::first_line(head));
    if w.len() > 1 {
        Some(w[1])
    } else {
        None
    }
}

// ---- the tunnel through a proxy ----

/// The most bytes of a head that are read.
pub const MAX_HEAD: usize = 8192;

/// What a head that is being read asks for.
#[derive(Debug, PartialEq, Eq, Structural, Clone, Copy)]
pub enum HeadProgress {
    /// More is to be read.
    More,
    /// The head is complete.
    Complete,
    /// The head is too large.
    TooLarge,
}

/// What a head asks for once another byte was read.
pub open spec fn head_progress(b: Seq<u8>) -> HeadProgress {
    if b.len() >= 4 && head_ends_at(b, b.len() - 4) {
        HeadProgress::Complete
    } else if b.len() > MAX_HEAD {
        HeadProgress::TooLarge
    } else {
        HeadProgress::More
    }
}

/// What a head asks for once another byte was read.
pub fn progress_of(b: &[u8]) -> (r: HeadProgress)
    ensures
        r == head_progress(b@),
{
    let n: usize = b.len();
    if n >= 4 && b[n - 4] == 13 && b[n - 3] == 10 && b[n - 2] == 13 && b[n - 1] == 10 {
        HeadProgress::Complete
    } else if n > MAX_HEAD {
        HeadProgress::TooLarge
    } else {
        HeadProgress::More
    }
}

/// The request for a tunnel to a host and port.
pub open spec fn connect_text(host: Seq<char>, port: u16) -> Seq<char> {
    let target = host + ":"@ + seqs::decimal(port as nat);
    "CONNECT "@ + target + " HTTP/1.1\r\nHost: "@ + target + "\r\n\r\n"@
}

/// The request for a tunnel to a host and port.
pub fn connect_request(host: &str, port: u16) -> (r: String)
    ensures
        r@ == connect_text(host@, port),
{
    let digits = text::decimal(port as u64);
    let target = text::cat3(host, ":", digits.as_str());
    let mut out = text::cat3("CONNECT ", target.as_str(), " HTTP/1.1\r\nHost: ");
    out.append(target.as_str());
    out.append("\r\n\r\n");
    out
}

/// The answer to a request for a tunnel opens it: its status begins with 2.
pub open spec fn opens_tunnel(head: Seq<u8>) -> bool {
    status_word(text::lossy_utf8(head)) matches Some(w) && seqs::starts_with(w, "2"@)
}

/// Whether the answer to a request for a tunnel opens it, or what went wrong.
pub fn check_connect_reply(head: &[u8]) -> (r: Result<(), String>)
    ensures
        match r {
            Ok(_) => opens_tunnel(head@),
            Err(e) => !opens_tunnel(head@) && e@ == "上游代理 CONNECT 失败: "@ + seqs::first_line(
                text::lossy_utf8(head@),
            ),
        },
{
    let page = text::lossy(head);
    let line = text::first_line(page.as_str());
    let words = text::words(line);
    proof {
        let w = seqs::words(line@);
        assert(seqs::slices(words@) == w);
        assert(words@.len() > 1 ==> w[1] == words@[1]@);
    }
    if words.len() > 1 && text::starts_with(words[1], "2") {
        Ok(())
    } else {
        Err(text::cat("上游代理 CONNECT 失败: ", line))
    }
}

// ---- plugins ----

/// A request as it is handed to a plugin.
#[derive(Debug)]
pub struct PluginRequest {
    pub method: String,
    pub url: String,
    pub headers: Vec<(String, String)>,
    pub body: String,
    /// What `plugin-vars` names.
    pub vars: Vec<(String, String)>,
}

/// The answer of a plugin.
#[derive(Debug)]
pub struct PluginResponse {
    /// The status; 200 where there is none.
    pub status: Option<u16>,
    pub headers: Vec<(String, String)>,
    pub body: String,
}

/// The variables that the first `n` texts of the form `a=1&b=2` name.
pub open spec fn vars_of(values: Seq<Seq<char>>, n: int) -> Seq<(Seq<char>, Seq<char>)>
    decreases n,
{
    if n <= 0 {
        seq![]
    } else {
        vars_of(values, n - 1) + seqs::pieces(values[n - 1], "&"@).map_values(
            |p: Seq<char>| seqs::pair(p),
        )
    }
}

/// The variables that the operations name for a plugin.
pub open spec fn named_vars(ops: Seq<OpText>) -> Seq<(Seq<char>, Seq<char>)> {
    let values = operation::all_of(ops, "plugin-vars"@);
    vars_of(values, values.len() as int)
}

/// The variables that `plugin-vars` names.
pub fn plugin_vars(ops: &[Operation]) -> (r: Vec<(String, String)>)
    ensures
        seqs::text_pairs(r@) == named_vars(operation::op_texts(ops@)),
{
    let values = operation::all_values(ops, "plugin-vars");
    let ghost all = operation::all_of(operation::op_texts(ops@), "plugin-vars"@);
    let mut out: Vec<(String, String)> = Vec::new();
    let mut i: usize = 0;
    proof {
        assert(seqs::slices(values@).len() == values@.len());
        assert(seqs::text_pairs(out@) =~= vars_of(all, 0));
    }
    while i < values.len()
        invariant
            i <= values.len(),
            all == seqs::slices(values@),
            seqs::text_pairs(out@) == vars_of(all, i as int),
        decreases values.len() - i,
    {
        let list = text::pieces(values[i], "&");
        let ghost parts = seqs::pieces(all[i as int], "&"@);
        let ghost pairs = parts.map_values(|p: Seq<char>| seqs::pair(p));
        let ghost start = seqs::text_pairs(out@);
        let mut j: usize = 0;
        proof {
            assert(start =~= start + pairs.take(0));
        }
        while j < list.len()
            invariant
                j <= list.len(),
                seqs::slices(list@) == parts,
                pairs == parts.map_values(|p: Seq<char>| seqs::pair(p)),
                seqs::text_pairs(out@) == start + pairs.take(j as int),
            decreases list.len() - j,
        {
            proof {
                assert(parts[j as int] == list@[j as int]@);
            }
            let ghost now = seqs::text_pairs(out@);
            let (k, v) = text::pair(list[j]);
            out.push((k.to_string(), v.to_string()));
            j += 1;
            proof {
                assert(seqs::text_pairs(out@) =~= now.push(pairs[j - 1]));
                assert(seqs::text_pairs(out@) =~= start + pairs.take(j as int));
            }
        }
        i += 1;
        proof {
            assert(pairs.take(pairs.len() as int) =~= pairs);
        }
    }
    out
}

/// The address that stands for a plugin's name, from position `i` on.
pub open spec fn address_from(
    plugins: Seq<(Seq<char>, Seq<char>)>,
    name: Seq<char>,
    i: int,
) -> Option<Seq<char>>
    decreases plugins.len() - i,
{
    if i < 0 || i >= plugins.len() {
        None
    } else if plugins[i].0 == name {
        Some(plugins[i].1)
    } else {
        address_from(plugins, name, i + 1)
    }
}

/// The address of the plugin that the operations name, where there is one of that name.
pub open spec fn plugin_of(ops: Seq<OpText>, plugins: Seq<(Seq<char>, Seq<char>)>) -> Option<
    Seq<char>,
> {
    match operation::last_of(ops, "plugin"@) {
        Some(name) => address_from(plugins, name, 0),
        None => None,
    }
}

/// The address of the plugin that the operations name, where there is one of that name.
pub fn plugin_target(plugins: &Vec<(String, String)>, ops: &[Operation]) -> (r: Option<String>)
    ensures
        match r {
            Some(a) => plugin_of(operation::op_texts(ops@), seqs::text_pairs(plugins@)) == Some(
                a@,
            ),
            None => plugin_of(operation::op_texts(ops@), seqs::text_pairs(plugins@)) is None,
        },
{
    let ghost all = seqs::text_pairs(plugins@);
    match operation::last_value(ops, "plugin") {
        Some(name) => {
            let mut i: usize = 0;
            while i < plugins.len()
                invariant
                    i <= plugins.len(),
                    all == seqs::text_pairs(plugins@),
                    operation::last_of(operation::op_texts(ops@), "plugin"@) == Some(name@),
                    address_from(all, name@, 0) == address_from(all, name@, i as int),
                decreases plugins.len() - i,
            {
                if text::same(plugins[i].0.as_str(), name) {
                    return Some(plugins[i].1.clone());
                }
                i += 1;
            }
            None
        },
        None => None,
    }
}

/// Where no name is there twice, the address of a plugin is the one that stands with its name,
/// whatever the order.
pub proof fn law_plugin_is_found(
    plugins: Seq<(Seq<char>, Seq<char>)>,
    name: Seq<char>,
    address: Seq<char>,
)
    requires
        crate::rewrite::one_value_each(plugins),
    ensures
        plugins.contains((name, address)) == (address_from(plugins, name, 0) == Some(address)),
{
    lemma_address_from(plugins, name, 0);
    if plugins.contains((name, address)) {
        let k = choose|k: int| 0 <= k < plugins.len() && plugins[k] == (name, address);
        let i = choose|i: int|
            0 <= i < plugins.len() && plugins[i].0 == name && address_from(plugins, name, 0)
                == Some(plugins[i].1);
        if i < k {
            assert(plugins[i].0 != plugins[k].0);
        } else if k < i {
            assert(plugins[k].0 != plugins[i].0);
        }
    }
}

proof fn lemma_address_from(plugins: Seq<(Seq<char>, Seq<char>)>, name: Seq<char>, i: int)
    requires
        0 <= i,
    ensures
        match address_from(plugins, name, i) {
            Some(a) => exists|k: int|
                i <= k < plugins.len() && (#[trigger] plugins[k]).0 == name && a == plugins[k].1,
            None => forall|k: int| i <= k < plugins.len() ==> (#[trigger] plugins[k]).0 != name,
        },
    decreases plugins.len() - i,
{
    if i < plugins.len() && plugins[i].0 != name {
        lemma_address_from(plugins, name, i + 1);
    }
}

/// The message that calls a plugin with a payload.
pub open spec fn invoke_text(addr: Seq<char>, payload: Seq<char>) -> Seq<char> {
    "POST /handle HTTP/1.1\r\nHost: "@ + addr
        + "\r\nContent-Type: application/json\r\nContent-Length: "@ + seqs::decimal(
        vstd::utf8::encode_utf8(payload).len(),
    ) + "\r\nConnection: close\r\n\r\n"@ + payload
}

/// The message that calls a plugin with a payload.
pub fn invoke_request(addr: &str, payload: &str) -> (r: String)
    ensures
        r@ == invoke_text(addr@, payload@),
{
    let mut out = text::cat3(
        "POST /handle HTTP/1.1\r\nHost: ",
        addr,
        "\r\nContent-Type: application/json\r\nContent-Length: ",
    );
    text::push_decimal(&mut out, payload.as_bytes().len() as u64);
    out.append("\r\nConnection: close\r\n\r\n");
    out.append(payload);
    out
}

/// The body of a plugin's answer, or what went wrong.
pub fn invoke_reply(b: &[u8]) -> (r: Result<Vec<u8>, String>)
    ensures
        match r {
            Ok(body) => head_end(b@) matches Some(i) && body@ == b@.subrange(
                i + 4,
                b@.len() as int,
            ),
            Err(e) => head_end(b@) is None && e@ == "插件响应缺少头部分隔"@,
        },
{
    match find_head_end(b) {
        Some(i) => {
            let body = vstd::slice::slice_subrange(b, i + 4, b.len());
            Ok(vstd::slice::slice_to_vec(body))
        },
        None => Err("插件响应缺少头部分隔".to_string()),
    }
}

// ---- replay ----

/// A request that is to be sent once more.
#[derive(Debug)]
pub struct ComposeRequest {
    pub method: String,
    pub url: String,
    /// The header fields, by name. No name is there twice.
    pub headers: Vec<(String, String)>,
    pub body: Option<String>,
}

/// A text comes before another from position `i` on, by the first character that differs.
pub open spec fn precedes_from(a: Seq<char>, b: Seq<char>, i: int) -> bool
    decreases b.len() - i,
{
    if i < 0 || i >= b.len() {
        false
    } else if i >= a.len() {
        true
    } else if a[i] != b[i] {
        a[i] < b[i]
    } else {
        precedes_from(a, b, i + 1)
    }
}

/// A text comes before another in the order of their characters.
pub open spec fn precedes(a: Seq<char>, b: Seq<char>) -> bool {
    precedes_from(a, b, 0)
}

/// The names come in their order, none twice.
pub open spec fn is_ordered(fields: Seq<(Seq<char>, Seq<char>)>) -> bool {
    forall|i: int, j: int|
        0 <= i < j < fields.len() ==> precedes((#[trigger] fields[i]).0, (#[trigger] fields[j]).0)
}

/// The first position from `i` on whose name does not come before this one.
pub open spec fn place_from(fields: Seq<(Seq<char>, Seq<char>)>, name: Seq<char>, i: int) -> int
    decreases fields.len() - i,
{
    if 0 <= i < fields.len() && precedes(fields[i].0, name) {
        place_from(fields, name, i + 1)
    } else {
        i
    }
}

/// The fields with one set: in place of that of its name, or where its name belongs.
pub open spec fn with_field(
    fields: Seq<(Seq<char>, Seq<char>)>,
    name: Seq<char>,
    value: Seq<char>,
) -> Seq<(Seq<char>, Seq<char>)> {
    let i = place_from(fields, name, 0);
    if i < fields.len() && fields[i].0 == name {
        fields.update(i, (name, value))
    } else {
        fields.insert(i, (name, value))
    }
}

proof fn lemma_place_from(fields: Seq<(Seq<char>, Seq<char>)>, name: Seq<char>, i: int)
    requires
        0 <= i <= fields.len(),
    ensures
        i <= place_from(fields, name, i) <= fields.len(),
        forall|k: int|
            i <= k < place_from(fields, name, i) ==> precedes((#[trigger] fields[k]).0, name),
        place_from(fields, name, i) < fields.len() ==> !precedes(
            fields[place_from(fields, name, i)].0,
            name,
        ),
    decreases fields.len() - i,
{
    if i < fields.len() && precedes(fields[i].0, name) {
        lemma_place_from(fields, name, i + 1);
    }
}

proof fn lemma_one_precedes(a: Seq<char>, b: Seq<char>, i: int)
    requires
        0 <= i <= a.len(),
        i <= b.len(),
        a.take(i) == b.take(i),
    ensures
        !precedes_from(a, a, i),
        precedes_from(a, b, i) || precedes_from(b, a, i) || a == b,
    decreases b.len() - i,
{
    if i < a.len() && i < b.len() && a[i] == b[i] {
        assert(a.take(i + 1) =~= a.take(i).push(a[i]));
        assert(b.take(i + 1) =~= b.take(i).push(b[i]));
        lemma_one_precedes(a, b, i + 1);
    }
    lemma_not_before_itself(a, i);
    if i == a.len() && i == b.len() {
        assert(a.take(i) =~= a);
        assert(b.take(i) =~= b);
    }
}

proof fn lemma_not_before_itself(a: Seq<char>, i: int)
    ensures
        !precedes_from(a, a, i),
    decreases a.len() - i,
{
    if 0 <= i < a.len() {
        lemma_not_before_itself(a, i + 1);
    }
}

proof fn lemma_precedes_goes_on(a: Seq<char>, b: Seq<char>, c: Seq<char>, i: int)
    requires
        precedes_from(a, b, i),
        precedes_from(b, c, i),
    ensures
        precedes_from(a, c, i),
    decreases c.len() - i,
{
    if i < a.len() && i < b.len() && i < c.len() && a[i] == b[i] && b[i] == c[i] {
        lemma_precedes_goes_on(a, b, c, i + 1);
    }
}

/// A header field that was set is there with its value, the others keep theirs, and the names stay
/// in order, none twice.
pub proof fn law_composed_fields_stay_in_order(
    fields: Seq<(Seq<char>, Seq<char>)>,
    name: Seq<char>,
    value: Seq<char>,
)
    requires
        is_ordered(fields),
    ensures
        is_ordered(with_field(fields, name, value)),
        crate::rewrite::one_value_each(with_field(fields, name, value)),
        with_field(fields, name, value).contains((name, value)),
        forall|i: int|
            0 <= i < fields.len() && (#[trigger] fields[i]).0 != name ==> with_field(
                fields,
                name,
                value,
            ).contains(fields[i]),
{
    let after = with_field(fields, name, value);
    let p = place_from(fields, name, 0);
    lemma_place_from(fields, name, 0);
    let there = p < fields.len() && fields[p].0 == name;
    if p < fields.len() {
        assert(fields[p].0.take(0) =~= name.take(0));
        lemma_one_precedes(fields[p].0, name, 0);
    }
    assert(after[p] == (name, value));
    assert forall|i: int, j: int| 0 <= i < j < after.len() implies precedes(
        (#[trigger] after[i]).0,
        (#[trigger] after[j]).0,
    ) by {
        let x = if there || i < p {
            i
        } else {
            i - 1
        };
        let y = if there || j < p {
            j
        } else {
            j - 1
        };
        if there {
            assert(after[i].0 == fields[i].0 && after[j].0 == fields[j].0);
        } else if i == p {
            assert(after[j] == fields[y]);
            if y > p {
                assert(precedes(fields[p].0, fields[y].0));
                lemma_precedes_goes_on(name, fields[p].0, fields[y].0, 0);
            }
        } else if j == p {
            assert(after[i] == fields[x]);
        } else {
            assert(after[i] == fields[x] && after[j] == fields[y]);
        }
    }
    assert forall|i: int, j: int| 0 <= i < j < after.len() implies (#[trigger] after[i]).0 != (
    #[trigger] after[j]).0 by {
        assert(precedes(after[i].0, after[j].0));
        lemma_not_before_itself(after[i].0, 0);
    }
    assert forall|i: int| 0 <= i < fields.len() && (#[trigger] fields[i]).0 != name implies
        after.contains(fields[i]) by {
        if there || i < p {
            assert(after[i] == fields[i]);
        } else {
            assert(after[i + 1] == fields[i]);
        }
    }
}

fn comes_before(a: &str, b: &str) -> (r: bool)
    ensures
        r == precedes(a@, b@),
{
    let x = text::chars_of(a);
    let y = text::chars_of(b);
    let mut i: usize = 0;
    while i < x.len() && i < y.len() && x[i] == y[i]
        invariant
            i <= x.len(),
            i <= y.len(),
            x@ == a@,
            y@ == b@,
            precedes(a@, b@) == precedes_from(a@, b@, i as int),
        decreases x.len() - i,
    {
        i += 1;
    }
    i < y.len() && (i >= x.len() || x[i] < y[i])
}

impl ComposeRequest {
    /// The header fields are in order, and no name is there twice.
    pub open spec fn wf(&self) -> bool {
        is_ordered(seqs::text_pairs(self.headers@))
    }

    /// A request without header fields.
    pub fn new(method: String, url: String, body: Option<String>) -> (r: ComposeRequest)
        ensures
            r.wf(),
            r.method == method,
            r.url == url,
            r.headers@.len() == 0,
            r.body == body,
    {
        ComposeRequest { method, url, headers: Vec::new(), body }
    }

    /// Sets a header field.
    pub fn set_field(&mut self, name: String, value: String)
        requires
            old(self).wf(),
        ensures
            final(self).wf(),
            final(self).method == old(self).method,
            final(self).url == old(self).url,
            final(self).body == old(self).body,
            seqs::text_pairs(final(self).headers@) == with_field(
                seqs::text_pairs(old(self).headers@),
                name@,
                value@,
            ),
    {
        let ghost fields = seqs::text_pairs(self.headers@);
        let mut i: usize = 0;
        while i < self.headers.len() && comes_before(self.headers[i].0.as_str(), name.as_str())
            invariant
                i <= self.headers.len(),
                fields == seqs::text_pairs(self.headers@),
                place_from(fields, name@, 0) == place_from(fields, name@, i as int),
                self.method == old(self).method,
                self.url == old(self).url,
                self.body == old(self).body,
            decreases self.headers.len() - i,
        {
            i += 1;
        }
        let ghost pair = (name@, value@);
        proof {
            law_composed_fields_stay_in_order(fields, name@, value@);
        }
        if i < self.headers.len() && text::same(self.headers[i].0.as_str(), name.as_str()) {
            self.headers.set(i, (name, value));
            proof {
                assert(seqs::text_pairs(self.headers@) =~= fields.update(i as int, pair));
            }
        } else {
            self.headers.insert(i, (name, value));
            proof {
                assert(seqs::text_pairs(self.headers@) =~= fields.insert(i as int, pair));
            }
        }
    }
}

/// A request to this address can be sent once more: it is plain HTTP.
pub open spec fn is_plain_http(url: Seq<char>) -> bool {
    seqs::starts_with(url, "http://"@)
}

/// Whether a request to this address can be sent once more: only plain HTTP can.
pub fn can_replay(url: &str) -> (r: bool)
    ensures
        r == is_plain_http(url@),
{
    text::starts_with(url, "http://")
}

/// The lines of the first `n` header fields.
pub open spec fn field_lines(fields: Seq<(Seq<char>, Seq<char>)>, n: int) -> Seq<char>
    decreases n,
{
    if n <= 0 {
        seq![]
    } else {
        field_lines(fields, n - 1) + fields[n - 1].0 + ": "@ + fields[n - 1].1 + "\r\n"@
    }
}

/// The host of an `http://` address.
pub open spec fn url_authority(url: Seq<char>) -> Seq<char> {
    seqs::authority(
        match seqs::strip_prefix(url, "http://"@) {
            Some(rest) => rest,
            None => url,
        },
    )
}

/// The message that sends a request once more through a proxy.
pub open spec fn replay_text(
    method: Seq<char>,
    url: Seq<char>,
    fields: Seq<(Seq<char>, Seq<char>)>,
    body: Seq<char>,
) -> Seq<char> {
    let length = if body.len() == 0 {
        seq![]
    } else {
        "Content-Length: "@ + seqs::decimal(vstd::utf8::encode_utf8(body).len()) + "\r\n"@
    };
    method + " "@ + url + " HTTP/1.1\r\n"@ + "Host: "@ + url_authority(url) + "\r\n"@
        + "Connection: close\r\n"@ + field_lines(fields, fields.len() as int) + length + "\r\n"@
        + body
}

/// The body of a request, which may have none.
pub open spec fn body_text(body: Option<String>) -> Seq<char> {
    match body {
        Some(s) => s@,
        None => seq![],
    }
}

/// The message that sends a request once more through a proxy.
pub fn replay_request(req: &ComposeRequest) -> (r: String)
    ensures
        r@ == replay_text(
            req.method@,
            req.url@,
            seqs::text_pairs(req.headers@),
            body_text(req.body),
        ),
{
    let url = req.url.as_str();
    let rest = match text::strip_prefix(url, "http://") {
        Some(rest) => rest,
        None => url,
    };
    let host = text::authority(rest);
    let mut out = text::cat3(req.method.as_str(), " ", url);
    out.append(" HTTP/1.1\r\n");
    out.append("Host: ");
    out.append(host);
    out.append("\r\n");
    out.append("Connection: close\r\n");
    let ghost start = out@;
    let ghost fields = seqs::text_pairs(req.headers@);
    let mut i: usize = 0;
    proof {
        assert(start =~= start + field_lines(fields, 0));
    }
    while i < req.headers.len()
        invariant
            i <= req.headers.len(),
            fields == seqs::text_pairs(req.headers@),
            out@ == start + field_lines(fields, i as int),
        decreases req.headers.len() - i,
    {
        out.append(req.headers[i].0.as_str());
        out.append(": ");
        out.append(req.headers[i].1.as_str());
        out.append("\r\n");
        i += 1;
        proof {
            assert(out@ =~= start + field_lines(fields, i as int));
        }
    }
    let body: &str = match &req.body {
        Some(s) => s.as_str(),
        None => "",
    };
    proof {
        reveal_strlit("");
        assert(body@ =~= body_text(req.body));
    }
    let ghost before = out@;
    if !body.is_empty() {
        out.append("Content-Length: ");
        text::push_decimal(&mut out, body.as_bytes().len() as u64);
        out.append("\r\n");
    }
    proof {
        let length = if body@.len() == 0 {
            seq![]
        } else {
            "Content-Length: "@ + seqs::decimal(vstd::utf8::encode_utf8(body@).len()) + "\r\n"@
        };
        assert(out@ =~= before + length);
    }
    out.append("\r\n");
    out.append(body);
    out
}

/// The answer to a request that was sent once more.
#[derive(Debug)]
pub struct ReplayReply {
    pub status: u16,
    /// The status line and the header fields as they came.
    pub head: String,
    pub body: String,
}

/// The head and the body of an answer. Without an empty line all of it is head.
pub open spec fn reply_parts(b: Seq<u8>) -> (Seq<u8>, Seq<u8>) {
    match head_end(b) {
        Some(i) => (b.subrange(0, i), b.subrange(i + 4, b.len() as int)),
        None => (b, seq![]),
    }
}

/// The status that a head gives, or zero.
pub open spec fn reply_status(head: Seq<char>) -> u16 {
    match status_word(head) {
        Some(w) => match action::port_of(w) {
            Some(n) => n,
            None => 0,
        },
        None => 0,
    }
}

/// Reads the answer to a request that was sent once more.
pub fn parse_reply(b: &[u8]) -> (r: ReplayReply)
    ensures
        ({
            let (head, body) = reply_parts(b@);
            &&& r.head@ == text::lossy_utf8(head)
            &&& r.body@ == text::lossy_utf8(body)
            &&& r.status == reply_status(text::lossy_utf8(head))
        }),
{
    let (head, body) = match find_head_end(b) {
        Some(i) => (
            text::lossy(vstd::slice::slice_subrange(b, 0, i)),
            text::lossy(vstd::slice::slice_subrange(b, i + 4, b.len())),
        ),
        None => {
            let none: Vec<u8> = Vec::new();
            proof {
                assert(none@ =~= seq![]);
            }
            (text::lossy(b), text::lossy(none.as_slice()))
        },
    };
    let words = text::words(text::first_line(head.as_str()));
    proof {
        let w = seqs::words(seqs::first_line(head@));
        assert(seqs::slices(words@) == w);
        assert(words@.len() > 1 ==> w[1] == words@[1]@);
    }
    let status: u16 = if words.len() > 1 {
        match action::parse_port(words[1]) {
            Some(n) => n,
            None => 0,
        }
    } else {
        0
    };
    ReplayReply { status, head, body }
}

// The first line of a text that begins with a line.
proof fn lemma_first_line(line: Seq<char>, more: Seq<char>)
    requires
        seqs::lacks(line, '\n'),
    ensures
        seqs::first_line(line + seq!['\r', '\n'] + more) == line,
{
    let cr = line.push('\r');
    seqs::lemma_find_char(cr, '\n', more);
    let s = line + seq!['\r', '\n'] + more;
    assert(s =~= cr.push('\n') + more);
    assert(s.subrange(0, cr.len() as int) =~= cr);
    assert(cr.drop_last() =~= line);
}

/// The status of an answer is the second word of its first line.
pub proof fn law_status_is_read_from_the_first_line(
    version: Seq<char>,
    code: u16,
    reason: Seq<char>,
    more: Seq<char>,
)
    requires
        version.len() > 0,
        forall|i: int| 0 <= i < version.len() ==> !seqs::is_space(#[trigger] version[i]),
        seqs::lacks(reason, '\n'),
    ensures
        reply_status(
            version + seq![' '] + seqs::decimal(code as nat) + seq![' '] + reason + seq![
                '\r',
                '\n',
            ] + more,
        ) == code,
        status_word(
            version + seq![' '] + seqs::decimal(code as nat) + seq![' '] + reason + seq![
                '\r',
                '\n',
            ] + more,
        ) == Some(seqs::decimal(code as nat)),
        reply_status(version) == 0,
{
    let none = Seq::<char>::empty();
    let d = seqs::decimal(code as nat);
    seqs::lemma_decimal(code as nat);
    seqs::law_decimal_is_read_back(code as nat, 65535);
    let rest = d + seq![' '] + reason;
    let line = version + seq![' '] + d + seq![' '] + reason;
    assert forall|i: int| 0 <= i < d.len() implies !seqs::is_space(#[trigger] d[i]) && d[i]
        != '\n' by {
        assert(seqs::is_digit(d[i]));
    }
    assert(seqs::lacks(line, '\n')) by {
        assert forall|i: int| 0 <= i < line.len() implies #[trigger] line[i] != '\n' by {
            let a = version.len();
            let b = a + 1 + d.len();
            if i < a {
                assert(line[i] == version[i]);
            } else if a < i < b {
                assert(line[i] == d[i - a - 1]);
            } else if i > b {
                assert(line[i] == reason[i - b - 1]);
            }
        }
    }
    lemma_first_line(line, more);
    seqs::law_white_space_parts_words(none, version, ' ', rest);
    seqs::law_white_space_parts_words(none, d, ' ', reason);
    assert(none + version + seq![' '] + rest =~= line);
    assert(none + d + seq![' '] + reason =~= rest);
    assert(none + version =~= version);
    assert(seqs::words(line) == seq![version] + (seq![d] + seqs::words(reason)));
    seqs::lemma_before_lacks(version, '\n');
    if let Some(i) = seqs::find(version, seq!['\n']) {
        assert(seqs::is_space(version[i]));
    }
    assert(seqs::first_line(version) == version);
    assert(seqs::words(version).len() == 1);
}

/// A tunnel is opened by an answer whose status is one of success, and by no other.
pub proof fn law_tunnel_is_opened_by_success(
    head: Seq<u8>,
    version: Seq<char>,
    code: u16,
    reason: Seq<char>,
    more: Seq<char>,
)
    requires
        version.len() > 0,
        forall|i: int| 0 <= i < version.len() ==> !seqs::is_space(#[trigger] version[i]),
        seqs::lacks(reason, '\n'),
        100 <= code <= 999,
        text::lossy_utf8(head) == version + seq![' '] + seqs::decimal(code as nat) + seq![' ']
            + reason + seq!['\r', '\n'] + more,
    ensures
        opens_tunnel(head) <==> 200 <= code <= 299,
{
    law_status_is_read_from_the_first_line(version, code, reason, more);
    reveal_strlit("2");
    assert("2"@ =~= seq!['2']);
    let n = code as nat;
    let d = seqs::decimal(n);
    assert(d == seqs::decimal(n / 10).push(seqs::digit((n % 10) as int)));
    assert(seqs::decimal(n / 10) == seqs::decimal(n / 10 / 10).push(
        seqs::digit((n / 10 % 10) as int),
    ));
    assert(seqs::decimal(n / 10 / 10) == seq![seqs::digit((n / 10 / 10) as int)]);
    assert(d[0] == seqs::digit((n / 10 / 10) as int));
    seqs::lemma_occurs_char(d, '2', 0);
    assert(n / 10 / 10 == n / 100);
}

/// A request for a tunnel has two lines, in both of which the host and the port stand, and ends with
/// an empty one.
pub proof fn law_tunnel_is_asked_for_in_two_lines(host: Seq<char>, port: u16)
    ensures
        ({
            let target = host + seq![':'] + seqs::decimal(port as nat);
            connect_text(host, port) == seqs::join(
                seq![
                    "CONNECT "@ + target + " HTTP/1.1"@,
                    "Host: "@ + target,
                    Seq::empty(),
                    Seq::empty(),
                ],
                seq!['\r', '\n'],
            )
        }),
{
    reveal_strlit(":");
    reveal_strlit("CONNECT ");
    reveal_strlit(" HTTP/1.1");
    reveal_strlit("Host: ");
    reveal_strlit(" HTTP/1.1\r\nHost: ");
    reveal_strlit("\r\n\r\n");
    assert(":"@ =~= seq![':']);
    let target = host + seq![':'] + seqs::decimal(port as nat);
    let crlf = seq!['\r', '\n'];
    let a = "CONNECT "@ + target + " HTTP/1.1"@;
    let b = "Host: "@ + target;
    let none = Seq::<char>::empty();
    lemma_join_four(a, b, none, none, crlf);
    assert(connect_text(host, port) =~= a + crlf + b + crlf + none + crlf + none);
}

proof fn lemma_join_four(
    a: Seq<char>,
    b: Seq<char>,
    c: Seq<char>,
    d: Seq<char>,
    sep: Seq<char>,
)
    ensures
        seqs::join(seq![a, b, c, d], sep) == a + sep + b + sep + c + sep + d,
{
    let four = seq![a, b, c, d];
    let three = seq![a, b, c];
    let two = seq![a, b];
    assert(four.drop_last() =~= three);
    assert(three.drop_last() =~= two);
    assert(two.drop_last() =~= seq![a]);
    assert(seqs::join(seq![a], sep) == a);
    assert(seqs::join(two, sep) == a + sep + b);
    assert(seqs::join(three, sep) == a + sep + b + sep + c);
}

/// A plugin is called with a head of lines and its payload behind an empty one. The length that is
/// told is that of the payload in bytes.
pub proof fn law_plugin_is_called_with_its_payload(addr: Seq<char>, payload: Seq<char>)
    ensures
        invoke_text(addr, payload) == seqs::join(
            seq![
                "POST /handle HTTP/1.1"@,
                "Host: "@ + addr,
                "Content-Type: application/json"@,
                "Content-Length: "@ + seqs::decimal(vstd::utf8::encode_utf8(payload).len()),
            ],
            seq!['\r', '\n'],
        ) + seqs::join(
            seq![Seq::empty(), "Connection: close"@, Seq::empty(), payload],
            seq!['\r', '\n'],
        ),
{
    reveal_strlit("POST /handle HTTP/1.1");
    reveal_strlit("Host: ");
    reveal_strlit("Content-Type: application/json");
    reveal_strlit("Content-Length: ");
    reveal_strlit("Connection: close");
    reveal_strlit("POST /handle HTTP/1.1\r\nHost: ");
    reveal_strlit("\r\nContent-Type: application/json\r\nContent-Length: ");
    reveal_strlit("\r\nConnection: close\r\n\r\n");
    let crlf = seq!['\r', '\n'];
    let none = Seq::<char>::empty();
    let n = seqs::decimal(vstd::utf8::encode_utf8(payload).len());
    lemma_join_four(
        "POST /handle HTTP/1.1"@,
        "Host: "@ + addr,
        "Content-Type: application/json"@,
        "Content-Length: "@ + n,
        crlf,
    );
    lemma_join_four(none, "Connection: close"@, none, payload, crlf);
    assert("POST /handle HTTP/1.1\r\nHost: "@ =~= "POST /handle HTTP/1.1"@ + crlf + "Host: "@);
    assert("\r\nContent-Type: application/json\r\nContent-Length: "@ =~= crlf
        + "Content-Type: application/json"@ + crlf + "Content-Length: "@);
    assert("\r\nConnection: close\r\n\r\n"@ =~= none + crlf + "Connection: close"@ + crlf + none
        + crlf);
    assert(invoke_text(addr, payload) =~= ("POST /handle HTTP/1.1"@ + crlf + ("Host: "@ + addr)
        + crlf + "Content-Type: application/json"@ + crlf + ("Content-Length: "@ + n)) + (none
        + crlf + "Connection: close"@ + crlf + none + crlf + payload));
}

/// Each header field has a line of its own, in order: its name, a colon and its value.
pub proof fn law_fields_have_their_lines(
    fields: Seq<(Seq<char>, Seq<char>)>,
    name: Seq<char>,
    value: Seq<char>,
)
    ensures
        field_lines(Seq::empty(), 0) == Seq::<char>::empty(),
        field_lines(fields.push((name, value)), fields.len() + 1int) == field_lines(
            fields,
            fields.len() as int,
        ) + name + seq![':', ' '] + value + seq!['\r', '\n'],
{
    reveal_strlit(": ");
    reveal_strlit("\r\n");
    assert(": "@ =~= seq![':', ' ']);
    assert("\r\n"@ =~= seq!['\r', '\n']);
    let all = fields.push((name, value));
    lemma_field_lines_same(fields, all, fields.len() as int);
    assert(all[fields.len() as int] == (name, value));
}

proof fn lemma_field_lines_same(
    a: Seq<(Seq<char>, Seq<char>)>,
    b: Seq<(Seq<char>, Seq<char>)>,
    n: int,
)
    requires
        n <= a.len(),
        n <= b.len(),
        forall|i: int| 0 <= i < n ==> a[i] == b[i],
    ensures
        field_lines(a, n) == field_lines(b, n),
    decreases n,
{
    if n > 0 {
        lemma_field_lines_same(a, b, n - 1);
    }
}

/// A request is sent once more with its method and address in the first line, its host, the end of
/// the connection and its own fields, and its body behind an empty line. A length is told where
/// there is a body: that of the body in bytes.
pub proof fn law_request_is_sent_once_more(
    method: Seq<char>,
    host: Seq<char>,
    path: Seq<char>,
    fields: Seq<(Seq<char>, Seq<char>)>,
    body: Seq<char>,
)
    requires
        seqs::lacks(host, '/') && seqs::lacks(host, '?') && seqs::lacks(host, '#'),
        path.len() == 0 || path[0] == '/' || path[0] == '?' || path[0] == '#',
    ensures
        ({
            let url = "http://"@ + host + path;
            let start = method + seq![' '] + url + " HTTP/1.1\r\nHost: "@ + host
                + "\r\nConnection: close\r\n"@ + field_lines(fields, fields.len() as int);
            let length = "Content-Length: "@ + seqs::decimal(
                vstd::utf8::encode_utf8(body).len(),
            );
            &&& is_plain_http(url)
            &&& url_authority(url) == host
            &&& body.len() == 0 ==> replay_text(method, url, fields, body) == start + seq![
                '\r',
                '\n',
            ]
            &&& body.len() > 0 ==> replay_text(method, url, fields, body) == start + length + seq![
                '\r',
                '\n',
                '\r',
                '\n',
            ] + body
        }),
{
    reveal_strlit(" ");
    reveal_strlit("\r\n");
    reveal_strlit("Host: ");
    reveal_strlit(" HTTP/1.1\r\n");
    reveal_strlit("Connection: close\r\n");
    reveal_strlit(" HTTP/1.1\r\nHost: ");
    reveal_strlit("\r\nConnection: close\r\n");
    reveal_strlit("Content-Length: ");
    assert(" "@ =~= seq![' ']);
    assert("\r\n"@ =~= seq!['\r', '\n']);
    assert(" HTTP/1.1\r\n"@ + "Host: "@ =~= " HTTP/1.1\r\nHost: "@);
    assert("\r\n"@ + "Connection: close\r\n"@ =~= "\r\nConnection: close\r\n"@);
    let url = "http://"@ + host + path;
    let rest = host + path;
    assert(url =~= "http://"@ + rest);
    seqs::law_a_start_is_followed_by_the_rest(url, "http://"@, rest);
    seqs::law_authority_ends_at_the_path(host, path);
    let lines = field_lines(fields, fields.len() as int);
    let start = method + seq![' '] + url + " HTTP/1.1\r\nHost: "@ + host
        + "\r\nConnection: close\r\n"@ + lines;
    assert(start =~= method + " "@ + url + " HTTP/1.1\r\n"@ + "Host: "@ + host + "\r\n"@
        + "Connection: close\r\n"@ + lines);
    if body.len() == 0 {
        assert(replay_text(method, url, fields, body) =~= start + seq!['\r', '\n']);
    } else {
        let length = "Content-Length: "@ + seqs::decimal(vstd::utf8::encode_utf8(body).len());
        assert(replay_text(method, url, fields, body) =~= start + length + seq![
            '\r',
            '\n',
            '\r',
            '\n',
        ] + body);
    }
}

/// Texts come in the order of the first characters in which they differ, and a text comes before
/// those that it is the start of.
pub proof fn law_texts_come_in_the_order_of_characters(
    start: Seq<char>,
    a: char,
    b: char,
    x: Seq<char>,
    y: Seq<char>,
)
    requires
        a < b,
    ensures
        precedes(start + seq![a] + x, start + seq![b] + y),
        !precedes(start + seq![b] + y, start + seq![a] + x),
        precedes(start, start + seq![a] + x),
        !precedes(start + seq![a] + x, start),
        !precedes(start, start),
{
    let s = start + seq![a] + x;
    let t = start + seq![b] + y;
    let n = start.len() as int;
    assert(s[n] == a && t[n] == b);
    lemma_precedes_behind(start, s, t, 0);
    lemma_precedes_behind(start, t, s, 0);
    lemma_precedes_behind(start, start, s, 0);
    lemma_precedes_behind(start, s, start, 0);
    lemma_precedes_behind(start, start, start, 0);
}

proof fn lemma_precedes_behind(start: Seq<char>, s: Seq<char>, t: Seq<char>, i: int)
    requires
        0 <= i <= start.len() <= s.len(),
        start.len() <= t.len(),
        forall|k: int| 0 <= k < start.len() ==> s[k] == t[k],
    ensures
        precedes_from(s, t, i) == precedes_from(s, t, start.len() as int),
    decreases start.len() - i,
{
    if i < start.len() {
        lemma_precedes_behind(start, s, t, i + 1);
    }
}

/// A head is complete once it ends with an empty line. Before, it is too large with more than 8 KiB.
pub proof fn law_head_ends_with_an_empty_line(bytes: Seq<u8>)
    ensures
        head_progress(bytes + seq![13u8, 10u8, 13u8, 10u8]) is Complete,
        head_progress(bytes) is Complete ==> bytes.len() >= 4 && bytes.skip(bytes.len() - 4)
            == seq![13u8, 10u8, 13u8, 10u8],
        head_progress(bytes) is TooLarge ==> bytes.len() > 8192,
        head_progress(bytes) is More ==> bytes.len() <= 8192,
{
    let b = bytes + seq![13u8, 10u8, 13u8, 10u8];
    let n = bytes.len() as int;
    assert(b[n] == 13 && b[n + 1] == 10 && b[n + 2] == 13 && b[n + 3] == 10);
    if head_progress(bytes) is Complete {
        assert(bytes.skip(bytes.len() - 4) =~= seq![13u8, 10u8, 13u8, 10u8]);
    }
}

/// An answer is read apart at its first empty line, into its head and its body.
pub proof fn law_answer_is_read_apart(head: Seq<u8>, body: Seq<u8>)
    requires
        head_end(head + seq![13u8, 10, 13]) is None,
    ensures
        reply_parts(head + seq![13u8, 10, 13, 10] + body) == (head, body),
        head_end(head) is None ==> reply_parts(head) == (head, Seq::<u8>::empty()),
{
    law_head_and_body_are_read_back(head, body);
    let b = head + seq![13u8, 10, 13, 10] + body;
    assert(b.subrange(0, head.len() as int) =~= head);
    assert(b.subrange(head.len() + 4int, b.len() as int) =~= body);
}

/// The plugin is the one that the last `plugin` names, among those that have an address. The
/// variables for it are those of `plugin-vars`, in order.
pub proof fn law_plugin_is_the_one_named(
    ops: Seq<OpText>,
    plugins: Seq<(Seq<char>, Seq<char>)>,
    name: Seq<char>,
    address: Seq<char>,
    key: Seq<char>,
    value: Seq<char>,
    raw: Seq<char>,
)
    requires
        crate::rewrite::one_value_each(plugins),
        seqs::lacks(key, '=') && seqs::lacks(key, '&'),
        seqs::lacks(value, '&'),
    ensures
        operation::last_of(ops, "plugin"@) is None ==> plugin_of(ops, plugins) is None,
        operation::last_of(ops, "plugin"@) == Some(name) && plugins.contains((name, address))
            ==> plugin_of(ops, plugins) == Some(address),
        operation::last_of(ops, "plugin"@) == Some(name) && plugin_of(ops, plugins) is Some
            ==> plugins.contains((name, plugin_of(ops, plugins)->0)),
        named_vars(
            ops.push(
                OpText { protocol: "plugin-vars"@, value: key + seq!['='] + value, raw },
            ),
        ) == named_vars(ops).push((key, value)),
        operation::all_of(ops, "plugin-vars"@).len() == 0 ==> named_vars(ops).len() == 0,
{
    law_plugin_is_found(plugins, name, address);
    if let Some(a) = address_from(plugins, name, 0) {
        law_plugin_is_found(plugins, name, a);
    }
    reveal_strlit("&");
    assert("&"@ =~= seq!['&']);
    let p = key + seq!['='] + value;
    assert(seqs::lacks(p, '&')) by {
        assert forall|i: int| 0 <= i < p.len() implies #[trigger] p[i] != '&' by {
            if i < key.len() {
                assert(p[i] == key[i]);
            } else if i > key.len() {
                assert(p[i] == value[i - key.len() - 1]);
            }
        }
    }
    seqs::law_joined_texts_are_read_back(seq![p], '&');
    assert(seqs::join(seq![p], seq!['&']) == p);
    seqs::law_pair_is_read_at_the_first_sign(key, value);
    let op = OpText { protocol: "plugin-vars"@, value: p, raw };
    operation::lemma_values_of_more(ops, op, "plugin-vars"@);
    let values = operation::all_of(ops, "plugin-vars"@);
    let n = values.len() as int;
    let more = values.push(p);
    lemma_vars_same(values, more, n);
    assert(more[n] == p);
    assert(seqs::pieces(p, "&"@).map_values(|p: Seq<char>| seqs::pair(p)) =~= seq![(key, value)]);
    assert(vars_of(values, n) + seq![(key, value)] =~= vars_of(values, n).push((key, value)));
}

proof fn lemma_vars_same(a: Seq<Seq<char>>, b: Seq<Seq<char>>, n: int)
    requires
        n <= a.len(),
        n <= b.len(),
        forall|i: int| 0 <= i < n ==> a[i] == b[i],
    ensures
        vars_of(a, n) == vars_of(b, n),
    decreases n,
{
    if n > 0 {
        lemma_vars_same(a, b, n - 1);
    }
}

} // verus!
