//! What the operations of the rules do to the address, the method, the status and the body of a
//! message, and to its pace.
use crate::operation;
use crate::operation::OpText;
use crate::operation::Operation;
use crate::seqs;
use crate::text;
use vstd::prelude::*;

verus! {

// ---- query parameters and path ----

/// Whether a parameter has this key, from position `i` on.
pub open spec fn param_from(params: Seq<(Seq<char>, Seq<char>)>, key: Seq<char>, i: int) -> Option<
    int,
>
    decreases params.len() - i,
{
    if i < 0 || i >= params.len() {
        None
    } else if params[i].0 == key {
        Some(i)
    } else {
        param_from(params, key, i + 1)
    }
}

/// The parameters with one set: in its place where the key is there, behind the others else.
pub open spec fn with_param(
    params: Seq<(Seq<char>, Seq<char>)>,
    key: Seq<char>,
    value: Seq<char>,
) -> Seq<(Seq<char>, Seq<char>)> {
    match param_from(params, key, 0) {
        Some(i) => params.update(i, (key, value)),
        None => params.push((key, value)),
    }
}

/// The parameters with the first `n` of some `key=value` texts set.
pub open spec fn with_pairs(
    params: Seq<(Seq<char>, Seq<char>)>,
    pairs: Seq<Seq<char>>,
    n: int,
) -> Seq<(Seq<char>, Seq<char>)>
    decreases n,
{
    if n <= 0 {
        params
    } else {
        let p = seqs::pair(pairs[n - 1]);
        with_param(with_pairs(params, pairs, n - 1), p.0, p.1)
    }
}

/// The parameters with those of a query set.
pub open spec fn with_query(params: Seq<(Seq<char>, Seq<char>)>, query: Seq<char>) -> Seq<
    (Seq<char>, Seq<char>),
> {
    let pairs = seqs::pieces(query, "&"@);
    with_pairs(params, pairs, pairs.len() as int)
}

/// The parameters with those of the first `n` queries set.
pub open spec fn with_queries(
    params: Seq<(Seq<char>, Seq<char>)>,
    queries: Seq<Seq<char>>,
    n: int,
) -> Seq<(Seq<char>, Seq<char>)>
    decreases n,
{
    if n <= 0 {
        params
    } else {
        with_query(with_queries(params, queries, n - 1), queries[n - 1])
    }
}

/// A query that has these parameters.
pub open spec fn query_text(params: Seq<(Seq<char>, Seq<char>)>) -> Seq<char> {
    seqs::join(params.map_values(|p: (Seq<char>, Seq<char>)| p.0 + "="@ + p.1), "&"@)
}

/// Path and query with the parameters of `urlParams` set. Where there are none, nothing changes.
pub open spec fn merged_params(pq: Seq<char>, ops: Seq<OpText>) -> Seq<char> {
    let additions = operation::all_of(ops, "urlParams"@);
    if additions.len() == 0 {
        pq
    } else {
        let (path, query) = match seqs::split_once(pq, "?"@) {
            Some((p, q)) => (p, q),
            None => (pq, seq![]),
        };
        path + "?"@ + query_text(
            with_queries(with_query(seq![], query), additions, additions.len() as int),
        )
    }
}

proof fn lemma_param_from(params: Seq<(Seq<char>, Seq<char>)>, key: Seq<char>, i: int)
    requires
        0 <= i,
    ensures
        match param_from(params, key, i) {
            Some(k) => i <= k < params.len() && params[k].0 == key && forall|j: int|
                i <= j < k ==> (#[trigger] params[j]).0 != key,
            None => forall|j: int| i <= j < params.len() ==> (#[trigger] params[j]).0 != key,
        },
    decreases params.len() - i,
{
    if i < params.len() && params[i].0 != key {
        lemma_param_from(params, key, i + 1);
    }
}

/// Sets one parameter.
pub fn set_param(params: &mut Vec<(String, String)>, key: &str, value: &str)
    ensures
        seqs::text_pairs(final(params)@) == with_param(
            seqs::text_pairs(old(params)@),
            key@,
            value@,
        ),
{
    let ghost before = seqs::text_pairs(params@);
    let mut i: usize = 0;
    while i < params.len() && !text::same(params[i].0.as_str(), key)
        invariant
            i <= params.len(),
            before == seqs::text_pairs(params@),
            param_from(before, key@, 0) == param_from(before, key@, i as int),
        decreases params.len() - i,
    {
        i += 1;
    }
    if i < params.len() {
        params.set(i, (key.to_string(), value.to_string()));
        proof {
            assert(seqs::text_pairs(params@) =~= before.update(i as int, (key@, value@)));
        }
    } else {
        params.push((key.to_string(), value.to_string()));
        proof {
            assert(seqs::text_pairs(params@) =~= before.push((key@, value@)));
        }
    }
}

fn set_query(params: &mut Vec<(String, String)>, query: &str)
    ensures
        seqs::text_pairs(final(params)@) == with_query(seqs::text_pairs(old(params)@), query@),
{
    let ghost before = seqs::text_pairs(params@);
    let pairs = text::pieces(query, "&");
    let ghost all = seqs::pieces(query@, "&"@);
    let mut i: usize = 0;
    while i < pairs.len()
        invariant
            i <= pairs.len(),
            all == seqs::slices(pairs@),
            seqs::text_pairs(params@) == with_pairs(before, all, i as int),
        decreases pairs.len() - i,
    {
        let (k, v) = text::pair(pairs[i]);
        proof {
            assert(all[i as int] == pairs@[i as int]@);
        }
        set_param(params, k, v);
        i += 1;
    }
}

/// Path and query with the parameters of `urlParams` set.
pub fn merge_url_params(pq: &str, ops: &[Operation]) -> (r: String)
    ensures
        r@ == merged_params(pq@, operation::op_texts(ops@)),
{
    let additions = operation::all_values(ops, "urlParams");
    let ghost all = operation::all_of(operation::op_texts(ops@), "urlParams"@);
    proof {
        assert(seqs::slices(additions@).len() == additions@.len());
    }
    if additions.len() == 0 {
        return pq.to_string();
    }
    let (path, query) = match text::split_once(pq, "?") {
        Some((p, q)) => (p, q),
        None => (pq, ""),
    };
    proof {
        reveal_strlit("");
        assert(""@ =~= seq![]);
    }
    let mut params: Vec<(String, String)> = Vec::new();
    proof {
        assert(seqs::text_pairs(params@) =~= seq![]);
    }
    set_query(&mut params, query);
    let ghost start = seqs::text_pairs(params@);
    let mut i: usize = 0;
    while i < additions.len()
        invariant
            i <= additions.len(),
            all == seqs::slices(additions@),
            seqs::text_pairs(params@) == with_queries(start, all, i as int),
        decreases additions.len() - i,
    {
        set_query(&mut params, additions[i]);
        i += 1;
    }
    let ghost model = seqs::text_pairs(params@);
    let mut shown: Vec<String> = Vec::new();
    let mut j: usize = 0;
    while j < params.len()
        invariant
            j <= params.len(),
            model == seqs::text_pairs(params@),
            shown@.len() == j,
            forall|k: int|
                0 <= k < j ==> #[trigger] shown@[k]@ == model[k].0 + "="@ + model[k].1,
        decreases params.len() - j,
    {
        let s = text::cat3(params[j].0.as_str(), "=", params[j].1.as_str());
        shown.push(s);
        j += 1;
    }
    let q = join_strings(&shown, "&");
    proof {
        assert(seqs::texts(shown@) =~= model.map_values(
            |p: (Seq<char>, Seq<char>)| p.0 + "="@ + p.1,
        ));
    }
    text::cat3(path, "?", q.as_str())
}

/// The texts one after the other, with a separator between them.
fn join_strings(parts: &Vec<String>, sep: &str) -> (r: String)
    ensures
        r@ == seqs::join(seqs::texts(parts@), sep@),
{
    let mut refs: Vec<&str> = Vec::new();
    let mut i: usize = 0;
    while i < parts.len()
        invariant
            i <= parts.len(),
            refs@.len() == i,
            forall|k: int| 0 <= k < i ==> #[trigger] refs@[k]@ == parts@[k]@,
        decreases parts.len() - i,
    {
        refs.push(parts[i].as_str());
        i += 1;
    }
    proof {
        assert(seqs::slices(refs@) =~= seqs::texts(parts@));
    }
    text::join(&refs, sep)
}

/// A path and query with the first `n` of some `from|to` replacements made.
pub open spec fn path_replaced(pq: Seq<char>, values: Seq<Seq<char>>, n: int) -> Seq<char>
    decreases n,
{
    if n <= 0 {
        pq
    } else {
        let before = path_replaced(pq, values, n - 1);
        match seqs::split_once(values[n - 1], "|"@) {
            Some((from, to)) => seqs::replace(before, from, to),
            None => before,
        }
    }
}

/// Path and query with the replacements that the operations ask for.
pub open spec fn path_by(pq: Seq<char>, ops: Seq<OpText>) -> Seq<char> {
    let values = operation::all_of(ops, "pathReplace"@);
    path_replaced(pq, values, values.len() as int)
}

/// Path and query with the replacements of `pathReplace` made, one after the other.
pub fn rewrite_path(pq: &str, ops: &[Operation]) -> (r: String)
    ensures
        r@ == path_by(pq@, operation::op_texts(ops@)),
{
    let values = operation::all_values(ops, "pathReplace");
    let ghost all = operation::all_of(operation::op_texts(ops@), "pathReplace"@);
    let mut out = pq.to_string();
    let mut i: usize = 0;
    proof {
        assert(seqs::slices(values@).len() == values@.len());
    }
    while i < values.len()
        invariant
            i <= values.len(),
            all == seqs::slices(values@),
            out@ == path_replaced(pq@, all, i as int),
        decreases values.len() - i,
    {
        proof {
            assert(all[i as int] == values@[i as int]@);
        }
        if let Some((from, to)) = text::split_once(values[i], "|") {
            out = text::replace(out.as_str(), from, to);
        }
        i += 1;
    }
    out
}

// ---- method and status ----

/// `Method::from_bytes` of hyper: accepts a text of one or more token characters.
#[verifier::external_body]
fn is_method(name: &str) -> (r: bool)
    ensures
        r == crate::headers::is_token(name@),
{
    hyper::Method::from_bytes(name.as_bytes()).is_ok()
}

/// `StatusCode::from_u16` of hyper: accepts 100 to 999.
#[verifier::external_body]
fn is_status(code: u16) -> (r: bool)
    ensures
        r == (100 <= code <= 999),
{
    hyper::StatusCode::from_u16(code).is_ok()
}

/// The status that a text names.
pub open spec fn status_of(code: Seq<char>) -> Option<u16> {
    match seqs::parse_number(code, 65535) {
        Some(n) => if 100 <= n <= 999 {
            Some(n as u16)
        } else {
            None
        },
        None => None,
    }
}

/// Whether a response can have this status.
pub fn is_sendable_status(code: u16) -> (r: bool)
    ensures
        r == (100 <= code <= 999),
{
    is_status(code)
}

/// The status that a text names.
pub fn parse_status(code: &str) -> (r: Option<u16>)
    ensures
        r == status_of(code@),
{
    match text::parse_number(code, 65535) {
        Some(n) => {
            let c: u16 = n as u16;
            if is_status(c) {
                Some(c)
            } else {
                None
            }
        },
        None => None,
    }
}

/// The method that the operations ask for, in place of another.
pub open spec fn method_by(ops: Seq<OpText>, method: Seq<char>) -> Seq<char> {
    match operation::last_of(ops, "method"@) {
        Some(m) => if crate::headers::is_token(seqs::upper(m)) {
            seqs::upper(m)
        } else {
            method
        },
        None => method,
    }
}

/// Sets the method that the operations ask for. A text that no method can be is passed over.
pub fn override_method(ops: &[Operation], method: &mut String)
    ensures
        final(method)@ == method_by(operation::op_texts(ops@), old(method)@),
{
    if let Some(m) = operation::last_value(ops, "method") {
        let up = text::upper(m);
        if is_method(up.as_str()) {
            *method = up;
        }
    }
}

/// The status that the operations ask for, in place of another.
pub open spec fn status_by(ops: Seq<OpText>, status: u16) -> u16 {
    match operation::last_of_either(ops, "replaceStatus"@, "statusCode"@) {
        Some(c) => match status_of(c) {
            Some(code) => code,
            None => status,
        },
        None => status,
    }
}

/// Sets the status that the operations ask for. A text that is no status is passed over.
pub fn override_status(ops: &[Operation], status: &mut u16)
    ensures
        *final(status) == status_by(operation::op_texts(ops@), *old(status)),
{
    if let Some(c) = operation::last_value_of_either(ops, "replaceStatus", "statusCode") {
        if let Some(code) = parse_status(c) {
            *status = code;
        }
    }
}

// ---- bodies ----

/// The operations that rewrite the body of a response.
pub open spec fn res_body_protocols() -> Seq<Seq<char>> {
    seq![
        "resBody"@,
        "htmlBody"@,
        "jsBody"@,
        "cssBody"@,
        "resReplace"@,
        "resPrepend"@,
        "resAppend"@,
        "htmlPrepend"@,
        "htmlAppend"@,
        "jsPrepend"@,
        "jsAppend"@,
        "cssPrepend"@,
        "cssAppend"@,
    ]
}

/// The operations that rewrite the body of a request.
pub open spec fn req_body_protocols() -> Seq<Seq<char>> {
    seq!["reqBody"@, "reqReplace"@, "reqPrepend"@, "reqAppend"@]
}

fn among(name: &str, names: &Vec<&str>) -> (r: bool)
    ensures
        r == seqs::slices(names@).contains(name@),
{
    let ghost all = seqs::slices(names@);
    let mut i: usize = 0;
    while i < names.len()
        invariant
            i <= names.len(),
            all == seqs::slices(names@),
            forall|k: int| 0 <= k < i ==> #[trigger] all[k] != name@,
        decreases names.len() - i,
    {
        if text::same(names[i], name) {
            proof {
                assert(all[i as int] == name@);
            }
            return true;
        }
        i += 1;
    }
    false
}

fn any_among(ops: &[Operation], names: &Vec<&str>) -> (r: bool)
    ensures
        r == operation::mentions(operation::op_texts(ops@), seqs::slices(names@)),
{
    let ghost all = operation::op_texts(ops@);
    let mut i: usize = 0;
    while i < ops.len()
        invariant
            i <= ops.len(),
            all == operation::op_texts(ops@),
            forall|k: int|
                0 <= k < i ==> !seqs::slices(names@).contains(#[trigger] all[k].protocol),
        decreases ops.len() - i,
    {
        proof {
            assert(all[i as int].protocol == ops@[i as int].protocol@);
        }
        if among(ops[i].protocol.as_str(), names) {
            return true;
        }
        i += 1;
    }
    false
}

/// Whether the operations rewrite the body of a response.
pub fn has_res_body_rewrite(ops: &[Operation]) -> (r: bool)
    ensures
        r == operation::mentions(operation::op_texts(ops@), res_body_protocols()),
{
    let names: Vec<&str> = vec![
        "resBody",
        "htmlBody",
        "jsBody",
        "cssBody",
        "resReplace",
        "resPrepend",
        "resAppend",
        "htmlPrepend",
        "htmlAppend",
        "jsPrepend",
        "jsAppend",
        "cssPrepend",
        "cssAppend",
    ];
    proof {
        assert(seqs::slices(names@) =~= res_body_protocols());
    }
    any_among(ops, &names)
}

/// Whether the operations rewrite the body of a request.
pub fn has_req_body_rewrite(ops: &[Operation]) -> (r: bool)
    ensures
        r == operation::mentions(operation::op_texts(ops@), req_body_protocols()),
{
    let names: Vec<&str> = vec!["reqBody", "reqReplace", "reqPrepend", "reqAppend"];
    proof {
        assert(seqs::slices(names@) =~= req_body_protocols());
    }
    any_among(ops, &names)
}

/// A body that the last of the first `n` protocols with an operation gives whole.
pub open spec fn whole_body(
    body: Seq<char>,
    ops: Seq<OpText>,
    protocols: Seq<Seq<char>>,
    n: int,
) -> Seq<char>
    decreases n,
{
    if n <= 0 {
        body
    } else {
        match operation::last_of(ops, protocols[n - 1]) {
            Some(v) => v,
            None => whole_body(body, ops, protocols, n - 1),
        }
    }
}

/// A body with the first `n` of some `from=to` replacements made.
pub open spec fn body_replaced(body: Seq<char>, values: Seq<Seq<char>>, n: int) -> Seq<char>
    decreases n,
{
    if n <= 0 {
        body
    } else {
        let before = body_replaced(body, values, n - 1);
        match seqs::split_once(values[n - 1], "="@) {
            Some((from, to)) => seqs::replace(before, from, to),
            None => before,
        }
    }
}

/// The values of the first `n` protocols, one after the other.
pub open spec fn values_text(ops: Seq<OpText>, protocols: Seq<Seq<char>>, n: int) -> Seq<char>
    decreases n,
{
    if n <= 0 {
        seq![]
    } else {
        values_text(ops, protocols, n - 1) + seqs::concat(
            operation::all_of(ops, protocols[n - 1]),
        )
    }
}

/// The body that the operations make of one: given whole, with replacements made, and with texts
/// in front of it and behind it.
pub open spec fn rewritten(
    body: Seq<u8>,
    ops: Seq<OpText>,
    whole: Seq<Seq<char>>,
    replace: Seq<char>,
    prepend: Seq<Seq<char>>,
    append: Seq<Seq<char>>,
) -> Seq<char> {
    let first = whole_body(text::lossy_utf8(body), ops, whole, whole.len() as int);
    let replaces = operation::all_of(ops, replace);
    values_text(ops, prepend, prepend.len() as int) + body_replaced(
        first,
        replaces,
        replaces.len() as int,
    ) + values_text(ops, append, append.len() as int)
}

fn values_text_of(ops: &[Operation], protocols: &Vec<&str>) -> (r: String)
    ensures
        r@ == values_text(
            operation::op_texts(ops@),
            seqs::slices(protocols@),
            protocols@.len() as int,
        ),
{
    let ghost texts = operation::op_texts(ops@);
    let ghost names = seqs::slices(protocols@);
    let mut out = String::new();
    let mut i: usize = 0;
    while i < protocols.len()
        invariant
            i <= protocols.len(),
            texts == operation::op_texts(ops@),
            names == seqs::slices(protocols@),
            out@ == values_text(texts, names, i as int),
        decreases protocols.len() - i,
    {
        proof {
            assert(names[i as int] == protocols@[i as int]@);
        }
        let values = operation::all_values(ops, protocols[i]);
        let ghost all = seqs::slices(values@);
        let ghost start = out@;
        let mut j: usize = 0;
        proof {
            assert(all.take(0) =~= seq![]);
            assert(start =~= start + seqs::concat(all.take(0)));
        }
        while j < values.len()
            invariant
                j <= values.len(),
                all == seqs::slices(values@),
                out@ == start + seqs::concat(all.take(j as int)),
            decreases values.len() - j,
        {
            out.append(values[j]);
            j += 1;
            proof {
                assert(all.take(j as int).drop_last() =~= all.take(j - 1));
                assert(all.take(j as int).last() == values@[j - 1]@);
                assert(out@ =~= start + seqs::concat(all.take(j as int)));
            }
        }
        i += 1;
        proof {
            assert(all.take(all.len() as int) =~= all);
        }
    }
    out
}

fn rewrite_body(
    bytes: &[u8],
    ops: &[Operation],
    whole: &Vec<&str>,
    replace: &str,
    prepend: &Vec<&str>,
    append: &Vec<&str>,
) -> (r: Vec<u8>)
    ensures
        r@ == vstd::utf8::encode_utf8(
            rewritten(
                bytes@,
                operation::op_texts(ops@),
                seqs::slices(whole@),
                replace@,
                seqs::slices(prepend@),
                seqs::slices(append@),
            ),
        ),
{
    let ghost texts = operation::op_texts(ops@);
    let mut s = text::lossy(bytes);
    let ghost body = s@;
    let ghost names = seqs::slices(whole@);
    let mut i: usize = 0;
    while i < whole.len()
        invariant
            i <= whole.len(),
            texts == operation::op_texts(ops@),
            names == seqs::slices(whole@),
            s@ == whole_body(body, texts, names, i as int),
        decreases whole.len() - i,
    {
        proof {
            assert(names[i as int] == whole@[i as int]@);
        }
        if let Some(v) = operation::last_value(ops, whole[i]) {
            s = v.to_string();
        }
        i += 1;
    }
    let ghost first = s@;
    let replaces = operation::all_values(ops, replace);
    let ghost all = seqs::slices(replaces@);
    let mut j: usize = 0;
    while j < replaces.len()
        invariant
            j <= replaces.len(),
            all == seqs::slices(replaces@),
            s@ == body_replaced(first, all, j as int),
        decreases replaces.len() - j,
    {
        proof {
            assert(all[j as int] == replaces@[j as int]@);
        }
        if let Some((from, to)) = text::split_once(replaces[j], "=") {
            s = text::replace(s.as_str(), from, to);
        }
        j += 1;
    }
    let pre = values_text_of(ops, prepend);
    let post = values_text_of(ops, append);
    let out = text::cat3(pre.as_str(), s.as_str(), post.as_str());
    text::bytes_of(out.as_str())
}

/// The text that the operations make of the body of a response.
pub open spec fn res_body_text(body: Seq<u8>, ops: Seq<OpText>) -> Seq<char> {
    rewritten(
        body,
        ops,
        seq!["resBody"@, "htmlBody"@, "jsBody"@, "cssBody"@],
        "resReplace"@,
        seq!["resPrepend"@, "htmlPrepend"@, "jsPrepend"@, "cssPrepend"@],
        seq!["resAppend"@, "htmlAppend"@, "jsAppend"@, "cssAppend"@],
    )
}

/// The text that the operations make of the body of a request.
pub open spec fn req_body_text(body: Seq<u8>, ops: Seq<OpText>) -> Seq<char> {
    rewritten(
        body,
        ops,
        seq!["reqBody"@],
        "reqReplace"@,
        seq!["reqPrepend"@],
        seq!["reqAppend"@],
    )
}

/// Rewrites the body of a response.
pub fn rewrite_res_body(bytes: &[u8], ops: &[Operation]) -> (r: Vec<u8>)
    ensures
        r@ == vstd::utf8::encode_utf8(res_body_text(bytes@, operation::op_texts(ops@))),
{
    let whole: Vec<&str> = vec!["resBody", "htmlBody", "jsBody", "cssBody"];
    let prepend: Vec<&str> = vec!["resPrepend", "htmlPrepend", "jsPrepend", "cssPrepend"];
    let append: Vec<&str> = vec!["resAppend", "htmlAppend", "jsAppend", "cssAppend"];
    proof {
        assert(seqs::slices(whole@) =~= seq!["resBody"@, "htmlBody"@, "jsBody"@, "cssBody"@]);
        assert(seqs::slices(prepend@) =~= seq![
            "resPrepend"@,
            "htmlPrepend"@,
            "jsPrepend"@,
            "cssPrepend"@,
        ]);
        assert(seqs::slices(append@) =~= seq![
            "resAppend"@,
            "htmlAppend"@,
            "jsAppend"@,
            "cssAppend"@,
        ]);
    }
    rewrite_body(bytes, ops, &whole, "resReplace", &prepend, &append)
}

/// Rewrites the body of a request.
pub fn rewrite_req_body(bytes: &[u8], ops: &[Operation]) -> (r: Vec<u8>)
    ensures
        r@ == vstd::utf8::encode_utf8(req_body_text(bytes@, operation::op_texts(ops@))),
{
    let whole: Vec<&str> = vec!["reqBody"];
    let prepend: Vec<&str> = vec!["reqPrepend"];
    let append: Vec<&str> = vec!["reqAppend"];
    proof {
        assert(seqs::slices(whole@) =~= seq!["reqBody"@]);
        assert(seqs::slices(prepend@) =~= seq!["reqPrepend"@]);
        assert(seqs::slices(append@) =~= seq!["reqAppend"@]);
    }
    rewrite_body(bytes, ops, &whole, "reqReplace", &prepend, &append)
}

// ---- pace ----

/// The duration of some milliseconds.
pub uninterp spec fn duration_of_millis(ms: u64) -> core::time::Duration;

/// `Duration::from_millis` of std: the duration of that many milliseconds.
pub assume_specification[ core::time::Duration::from_millis ](ms: u64) -> (r:
    core::time::Duration)
    ensures
        r == duration_of_millis(ms),
;

/// The milliseconds that the last operation of a protocol names.
pub open spec fn delay_ms(ops: Seq<OpText>, protocol: Seq<char>) -> Option<u64> {
    match operation::last_of(ops, protocol) {
        Some(v) => match seqs::parse_number(v, u64::MAX as nat) {
            Some(n) => Some(n as u64),
            None => None,
        },
        None => None,
    }
}

/// A delay in milliseconds as a duration.
pub open spec fn delay(ms: Option<u64>) -> Option<core::time::Duration> {
    match ms {
        Some(n) => Some(duration_of_millis(n)),
        None => None,
    }
}

/// The milliseconds that the last operation of a protocol names.
pub fn delay_of(ops: &[Operation], protocol: &str) -> (r: Option<u64>)
    ensures
        r == delay_ms(operation::op_texts(ops@), protocol@),
{
    match operation::last_value(ops, protocol) {
        Some(v) => text::parse_number(v, u64::MAX),
        None => None,
    }
}

fn duration_of(ms: Option<u64>) -> (r: Option<core::time::Duration>)
    ensures
        r == delay(ms),
{
    match ms {
        Some(n) => Some(core::time::Duration::from_millis(n)),
        None => None,
    }
}

/// The milliseconds that a request waits before it is sent.
pub open spec fn req_delay_ms(ops: Seq<OpText>) -> Option<u64> {
    delay_ms(ops, "reqDelay"@)
}

/// The milliseconds that a response waits before it is handed on.
pub open spec fn res_delay_ms(ops: Seq<OpText>) -> Option<u64> {
    delay_ms(ops, "resDelay"@)
}

/// How long a request waits before it is sent.
pub fn req_delay(ops: &[Operation]) -> (r: Option<core::time::Duration>)
    ensures
        r == delay(req_delay_ms(operation::op_texts(ops@))),
{
    duration_of(delay_of(ops, "reqDelay"))
}

/// How long a response waits before it is handed on.
pub fn res_delay(ops: &[Operation]) -> (r: Option<core::time::Duration>)
    ensures
        r == delay(res_delay_ms(operation::op_texts(ops@))),
{
    duration_of(delay_of(ops, "resDelay"))
}

/// The milliseconds that a body of `len` bytes takes at a speed in kilobytes per second. A speed
/// of zero is no limit.
pub open spec fn speed_ms(ops: Seq<OpText>, protocol: Seq<char>, len: nat) -> Option<u64> {
    match delay_ms(ops, protocol) {
        Some(speed) => if speed == 0 {
            None
        } else {
            Some((len * 1000 / (speed as nat * 1024)) as u64)
        },
        None => None,
    }
}

fn speed_delay(ops: &[Operation], protocol: &str, len: usize) -> (r: Option<core::time::Duration>)
    ensures
        r == delay(speed_ms(operation::op_texts(ops@), protocol@, len as nat)),
{
    match delay_of(ops, protocol) {
        Some(speed) => if speed == 0 {
            None
        } else {
            proof {
                let s = speed as int;
                let n = len as int;
                assert(s * 1024 <= 0xffff_ffff_ffff_ffff * 1024) by (nonlinear_arith)
                    requires
                        s <= 0xffff_ffff_ffff_ffff,
                ;
                assert(n * 1000 / (s * 1024) <= n) by (nonlinear_arith)
                    requires
                        s >= 1,
                        n >= 0,
                ;
            }
            let ms: u128 = (len as u128) * 1000 / ((speed as u128) * 1024);
            Some(core::time::Duration::from_millis(ms as u64))
        },
        None => None,
    }
}

/// The milliseconds that the body of a request of `len` bytes is held back.
pub open spec fn req_speed_ms(ops: Seq<OpText>, len: nat) -> Option<u64> {
    speed_ms(ops, "reqSpeed"@, len)
}

/// The milliseconds that the body of a response of `len` bytes is held back.
pub open spec fn res_speed_ms(ops: Seq<OpText>, len: nat) -> Option<u64> {
    speed_ms(ops, "resSpeed"@, len)
}

/// How long the body of a request of `len` bytes is held back.
pub fn req_speed_delay(ops: &[Operation], len: usize) -> (r: Option<core::time::Duration>)
    ensures
        r == delay(req_speed_ms(operation::op_texts(ops@), len as nat)),
{
    speed_delay(ops, "reqSpeed", len)
}

/// How long the body of a response of `len` bytes is held back.
pub fn res_speed_delay(ops: &[Operation], len: usize) -> (r: Option<core::time::Duration>)
    ensures
        r == delay(res_speed_ms(operation::op_texts(ops@), len as nat)),
{
    speed_delay(ops, "resSpeed", len)
}

// ---- laws ----

/// No two parameters have the same key.
pub open spec fn one_value_each(params: Seq<(Seq<char>, Seq<char>)>) -> bool {
    forall|i: int, j: int|
        0 <= i < j < params.len() ==> (#[trigger] params[i]).0 != (#[trigger] params[j]).0
}

/// A parameter that was set has the value it was set to, the other parameters keep theirs, and no
/// key is there twice.
pub proof fn law_set_param_is_read_back(
    params: Seq<(Seq<char>, Seq<char>)>,
    key: Seq<char>,
    value: Seq<char>,
)
    requires
        one_value_each(params),
    ensures
        one_value_each(with_param(params, key, value)),
        param_from(with_param(params, key, value), key, 0) matches Some(i) && with_param(
            params,
            key,
            value,
        )[i].1 == value,
        forall|k: int|
            0 <= k < params.len() && (#[trigger] params[k]).0 != key ==> with_param(
                params,
                key,
                value,
            )[k] == params[k],
{
    let after = with_param(params, key, value);
    lemma_param_from(params, key, 0);
    lemma_param_from(after, key, 0);
    match param_from(params, key, 0) {
        Some(i) => {
            assert(after[i].0 == key);
            assert forall|a: int, b: int| 0 <= a < b < after.len() implies (#[trigger] after[a]).0
                != (#[trigger] after[b]).0 by {
                assert(params[a].0 != params[b].0);
            }
            let j = param_from(after, key, 0)->0;
            if j != i {
                if j < i {
                    assert(after[j].0 != after[i].0);
                } else {
                    assert(after[i].0 != after[j].0);
                }
            }
        },
        None => {
            assert(after[params.len() as int].0 == key);
            let j = param_from(after, key, 0)->0;
            if j < params.len() {
                assert(after[j] == params[j]);
            }
            assert forall|a: int, b: int| 0 <= a < b < after.len() implies (#[trigger] after[a]).0
                != (#[trigger] after[b]).0 by {
                assert(after[a] == params[a]);
                if b < params.len() {
                    assert(after[b] == params[b]);
                }
            }
        },
    }
}

/// The parameters of a query have one value each.
pub proof fn law_query_has_one_value_each(
    params: Seq<(Seq<char>, Seq<char>)>,
    pairs: Seq<Seq<char>>,
    n: int,
)
    requires
        one_value_each(params),
    ensures
        one_value_each(with_pairs(params, pairs, n)),
    decreases n,
{
    if n > 0 {
        law_query_has_one_value_each(params, pairs, n - 1);
        let p = seqs::pair(pairs[n - 1]);
        law_set_param_is_read_back(with_pairs(params, pairs, n - 1), p.0, p.1);
    }
}

/// The `key=value` texts of the first `n` queries, one after the other.
pub open spec fn pieces_of(queries: Seq<Seq<char>>, n: int) -> Seq<Seq<char>>
    decreases n,
{
    if n <= 0 {
        seq![]
    } else {
        pieces_of(queries, n - 1) + seqs::pieces(queries[n - 1], "&"@)
    }
}

/// The `key=value` texts that are set where a query is merged: those of the query, and behind them
/// those of the additions.
pub open spec fn settings(query: Seq<char>, additions: Seq<Seq<char>>) -> Seq<Seq<char>> {
    seqs::pieces(query, "&"@) + pieces_of(additions, additions.len() as int)
}

/// The keys of the first `n` texts, each where it appears first.
pub open spec fn first_keys(pairs: Seq<Seq<char>>, n: int) -> Seq<Seq<char>>
    decreases n,
{
    if n <= 0 {
        seq![]
    } else {
        let before = first_keys(pairs, n - 1);
        let key = seqs::pair(pairs[n - 1]).0;
        if before.contains(key) {
            before
        } else {
            before.push(key)
        }
    }
}

/// The value that the last of the first `n` texts with this key has.
pub open spec fn last_value(pairs: Seq<Seq<char>>, n: int, key: Seq<char>) -> Option<Seq<char>>
    decreases n,
{
    if n <= 0 {
        None
    } else {
        let p = seqs::pair(pairs[n - 1]);
        if p.0 == key {
            Some(p.1)
        } else {
            last_value(pairs, n - 1, key)
        }
    }
}

/// The query of a path and query.
pub open spec fn query_of(pq: Seq<char>) -> Seq<char> {
    match seqs::split_once(pq, "?"@) {
        Some((_, q)) => q,
        None => seq![],
    }
}

/// The parameters that a query has after the additions.
pub open spec fn params_after(query: Seq<char>, additions: Seq<Seq<char>>) -> Seq<
    (Seq<char>, Seq<char>),
> {
    with_queries(with_query(seq![], query), additions, additions.len() as int)
}

// What setting some texts does to the parameters.
proof fn lemma_with_pairs(params: Seq<(Seq<char>, Seq<char>)>, pairs: Seq<Seq<char>>, n: int)
    requires
        one_value_each(params),
    ensures
        ({
            let m = with_pairs(params, pairs, n);
            &&& one_value_each(m)
            &&& params.len() <= m.len()
            &&& forall|i: int| 0 <= i < params.len() ==> (#[trigger] m[i]).0 == params[i].0
            &&& forall|i: int|
                0 <= i < m.len() ==> match last_value(pairs, n, (#[trigger] m[i]).0) {
                    Some(v) => m[i].1 == v,
                    None => i < params.len() && m[i] == params[i],
                }
            &&& forall|key: Seq<char>| #[trigger]
                last_value(pairs, n, key) is Some ==> param_from(m, key, 0) is Some
        }),
    decreases n,
{
    let m = with_pairs(params, pairs, n);
    if n > 0 {
        lemma_with_pairs(params, pairs, n - 1);
        let b = with_pairs(params, pairs, n - 1);
        let p = seqs::pair(pairs[n - 1]);
        law_set_param_is_read_back(b, p.0, p.1);
        lemma_param_from(b, p.0, 0);
        assert forall|i: int| 0 <= i < params.len() implies (#[trigger] m[i]).0 == params[i].0 by {
            assert(b[i].0 == params[i].0);
        }
        assert forall|i: int| 0 <= i < m.len() implies match last_value(
            pairs,
            n,
            (#[trigger] m[i]).0,
        ) {
            Some(v) => m[i].1 == v,
            None => i < params.len() && m[i] == params[i],
        } by {
            if m[i].0 == p.0 {
                let k = param_from(m, p.0, 0)->0;
                lemma_param_from(m, p.0, 0);
                if i != k {
                    assert(m[i].0 != m[k].0);
                }
            } else {
                assert(m[i] == b[i]);
            }
        }
        assert forall|key: Seq<char>| #[trigger] last_value(pairs, n,
            key) is Some implies param_from(
            m,
            key,
            0,
        ) is Some by {
            lemma_param_from(m, key, 0);
            if key != p.0 {
                assert(last_value(pairs, n - 1, key) is Some);
                lemma_param_from(b, key, 0);
                let k = param_from(b, key, 0)->0;
                assert(b[k].0 == key);
                assert(m[k] == b[k]);
            }
        }
    }
}

proof fn lemma_set_again(params: Seq<(Seq<char>, Seq<char>)>, pairs: Seq<Seq<char>>, n: int)
    requires
        one_value_each(params),
    ensures
        with_pairs(with_pairs(params, pairs, n), pairs, n) == with_pairs(params, pairs, n),
{
    let m = with_pairs(params, pairs, n);
    let again = with_pairs(m, pairs, n);
    lemma_with_pairs(params, pairs, n);
    lemma_with_pairs(m, pairs, n);
    if again.len() > m.len() {
        let i = m.len() as int;
        let key = again[i].0;
        assert(last_value(pairs, n, key) is Some);
        lemma_param_from(m, key, 0);
        let k = param_from(m, key, 0)->0;
        assert(m[k].0 == key);
        assert(again[k].0 == key);
        assert(again[k].0 != again[i].0);
    }
    assert forall|i: int| 0 <= i < m.len() implies #[trigger] again[i] == m[i] by {
        assert(again[i].0 == m[i].0);
    }
    assert(again =~= m);
}

proof fn lemma_with_pairs_prefix(
    params: Seq<(Seq<char>, Seq<char>)>,
    a: Seq<Seq<char>>,
    b: Seq<Seq<char>>,
    n: int,
)
    requires
        0 <= n <= b.len(),
    ensures
        with_pairs(params, a + b, a.len() + n) == with_pairs(
            with_pairs(params, a, a.len() as int),
            b,
            n,
        ),
    decreases n + a.len(),
{
    if n > 0 {
        lemma_with_pairs_prefix(params, a, b, n - 1);
        assert((a + b)[a.len() + n - 1] == b[n - 1]);
    } else {
        lemma_same_prefix(params, a, b, a.len() as int);
    }
}

proof fn lemma_same_prefix(
    params: Seq<(Seq<char>, Seq<char>)>,
    a: Seq<Seq<char>>,
    b: Seq<Seq<char>>,
    n: int,
)
    requires
        0 <= n <= a.len(),
    ensures
        with_pairs(params, a + b, n) == with_pairs(params, a, n),
    decreases n,
{
    if n > 0 {
        lemma_same_prefix(params, a, b, n - 1);
        assert((a + b)[n - 1] == a[n - 1]);
    }
}

proof fn lemma_queries_as_pairs(
    params: Seq<(Seq<char>, Seq<char>)>,
    queries: Seq<Seq<char>>,
    n: int,
)
    requires
        0 <= n <= queries.len(),
    ensures
        with_queries(params, queries, n) == with_pairs(
            params,
            pieces_of(queries, n),
            pieces_of(queries, n).len() as int,
        ),
    decreases n,
{
    if n > 0 {
        lemma_queries_as_pairs(params, queries, n - 1);
        let more = seqs::pieces(queries[n - 1], "&"@);
        lemma_with_pairs_prefix(params, pieces_of(queries, n - 1), more, more.len() as int);
    }
}

proof fn lemma_keys(pairs: Seq<Seq<char>>, n: int)
    ensures
        ({
            let m = with_pairs(seq![], pairs, n);
            &&& m.len() == first_keys(pairs, n).len()
            &&& forall|i: int|
                0 <= i < m.len() ==> (#[trigger] m[i]).0 == first_keys(pairs, n)[i]
        }),
    decreases n,
{
    if n > 0 {
        lemma_keys(pairs, n - 1);
        let b = with_pairs(seq![], pairs, n - 1);
        let keys = first_keys(pairs, n - 1);
        let p = seqs::pair(pairs[n - 1]);
        lemma_param_from(b, p.0, 0);
        match param_from(b, p.0, 0) {
            Some(k) => {
                assert(keys[k] == b[k].0);
            },
            None => {
                if keys.contains(p.0) {
                    let k = choose|k: int| 0 <= k < keys.len() && keys[k] == p.0;
                    assert(b[k].0 == keys[k]);
                }
            },
        }
    }
}

// A key and a value that a query can hold.
spec fn fits(p: (Seq<char>, Seq<char>)) -> bool {
    &&& seqs::lacks(p.0, '=')
    &&& seqs::lacks(p.0, '&')
    &&& seqs::lacks(p.1, '&')
}

spec fn all_fit(params: Seq<(Seq<char>, Seq<char>)>) -> bool {
    forall|i: int| 0 <= i < params.len() ==> fits(#[trigger] params[i])
}

proof fn lemma_pair_fits(s: Seq<char>)
    requires
        seqs::lacks(s, '&'),
    ensures
        fits(seqs::pair(s)),
{
    seqs::lemma_before_lacks(s, '=');
    match seqs::find(s, seq!['=']) {
        Some(i) => {
            let k = s.subrange(0, i);
            let v = s.subrange(i + 1, s.len() as int);
            assert(forall|j: int| 0 <= j < k.len() ==> #[trigger] k[j] == s[j]);
            assert(forall|j: int| 0 <= j < v.len() ==> #[trigger] v[j] == s[i + 1 + j]);
            assert(seqs::pair(s) == (k, v));
        },
        None => {},
    }
}

proof fn lemma_all_fit(params: Seq<(Seq<char>, Seq<char>)>, pairs: Seq<Seq<char>>, n: int)
    requires
        n <= pairs.len(),
        all_fit(params),
        forall|i: int| 0 <= i < pairs.len() ==> seqs::lacks(#[trigger] pairs[i], '&'),
    ensures
        all_fit(with_pairs(params, pairs, n)),
    decreases n,
{
    if n > 0 {
        lemma_all_fit(params, pairs, n - 1);
        lemma_pair_fits(pairs[n - 1]);
        lemma_param_from(with_pairs(params, pairs, n - 1), seqs::pair(pairs[n - 1]).0, 0);
    }
}

proof fn lemma_settings_lack(query: Seq<char>, additions: Seq<Seq<char>>, n: int)
    requires
        0 <= n <= additions.len(),
    ensures
        forall|i: int|
            0 <= i < pieces_of(additions, n).len() ==> seqs::lacks(
                #[trigger] pieces_of(additions, n)[i],
                '&',
            ),
        forall|i: int|
            0 <= i < seqs::pieces(query, "&"@).len() ==> seqs::lacks(
                #[trigger] seqs::pieces(query, "&"@)[i],
                '&',
            ),
    decreases n,
{
    reveal_strlit("&");
    assert("&"@ =~= seq!['&']);
    seqs::lemma_pieces_lacks(query, '&');
    if n > 0 {
        lemma_settings_lack(query, additions, n - 1);
        seqs::lemma_pieces_lacks(additions[n - 1], '&');
        let a = pieces_of(additions, n - 1);
        let b = seqs::pieces(additions[n - 1], "&"@);
        let all = pieces_of(additions, n);
        assert forall|i: int| 0 <= i < all.len() implies seqs::lacks(#[trigger] all[i], '&') by {
            if i < a.len() {
                assert(all[i] == a[i]);
            } else {
                assert(all[i] == b[i - a.len()]);
            }
        }
    }
}

proof fn lemma_shown_pair(p: (Seq<char>, Seq<char>))
    requires
        fits(p),
    ensures
        seqs::pair(p.0 + "="@ + p.1) == p,
        seqs::lacks(p.0 + "="@ + p.1, '&'),
{
    reveal_strlit("=");
    let s = p.0 + "="@ + p.1;
    seqs::lemma_find_char(p.0, '=', p.1);
    assert(s =~= p.0.push('=') + p.1);
    let n = p.0.len() as int;
    assert(s.subrange(0, n) =~= p.0);
    assert(s.subrange(n + 1, s.len() as int) =~= p.1);
    assert forall|i: int| 0 <= i < s.len() implies #[trigger] s[i] != '&' by {
        if i < n {
            assert(s[i] == p.0[i]);
        } else if i > n {
            assert(s[i] == p.1[i - n - 1]);
        }
    }
}

proof fn lemma_shown_params(params: Seq<(Seq<char>, Seq<char>)>, shown: Seq<Seq<char>>, n: int)
    requires
        one_value_each(params),
        all_fit(params),
        0 <= n <= params.len(),
        shown.len() == params.len(),
        forall|i: int|
            0 <= i < shown.len() ==> #[trigger] shown[i] == params[i].0 + "="@ + params[i].1,
    ensures
        with_pairs(seq![], shown, n) == params.take(n),
    decreases n,
{
    if n > 0 {
        lemma_shown_params(params, shown, n - 1);
        let p = params[n - 1];
        let b = params.take(n - 1);
        assert(fits(p));
        assert(shown[n - 1] == p.0 + "="@ + p.1);
        lemma_shown_pair(p);
        lemma_param_from(b, p.0, 0);
        match param_from(b, p.0, 0) {
            Some(k) => {
                assert(b[k] == params[k]);
                assert(params[k].0 != params[n - 1].0);
            },
            None => {},
        }
        assert(b.push(p) =~= params.take(n));
    } else {
        assert(params.take(n) =~= seq![]);
    }
}

// The parameters that a query shows are read back from it.
proof fn lemma_query_is_read_back(params: Seq<(Seq<char>, Seq<char>)>)
    requires
        one_value_each(params),
        all_fit(params),
    ensures
        with_query(seq![], query_text(params)) == params,
{
    let shown = params.map_values(|p: (Seq<char>, Seq<char>)| p.0 + "="@ + p.1);
    reveal_strlit("&");
    reveal_strlit("=");
    assert("&"@ =~= seq!['&']);
    assert forall|i: int| 0 <= i < shown.len() implies (#[trigger] shown[i]).len() > 0
        && seqs::lacks(shown[i], '&') by {
        assert(fits(params[i]));
        lemma_shown_pair(params[i]);
    }
    seqs::law_joined_texts_are_read_back(shown, '&');
    lemma_shown_params(params, shown, params.len() as int);
    assert(params.take(params.len() as int) =~= params);
}

/// Where no operation adds parameters, merging changes nothing. Else the text up to the first `?`
/// stays, and behind it stand the keys of the query and of the additions, each once, in the order
/// in which they appear first, with the value that was written last.
pub proof fn law_merged_params(pq: Seq<char>, ops: Seq<OpText>)
    ensures
        operation::all_of(ops, "urlParams"@).len() == 0 ==> merged_params(pq, ops) == pq,
        seqs::before(merged_params(pq, ops), "?"@) == seqs::before(pq, "?"@),
        ({
            let additions = operation::all_of(ops, "urlParams"@);
            let texts = settings(query_of(pq), additions);
            let params = params_after(query_of(pq), additions);
            let keys = first_keys(texts, texts.len() as int);
            additions.len() > 0 ==> {
                &&& merged_params(pq, ops) == seqs::before(pq, "?"@) + "?"@ + query_text(params)
                &&& params.len() == keys.len()
                &&& one_value_each(params)
                &&& forall|i: int|
                    0 <= i < params.len() ==> (#[trigger] params[i]).0 == keys[i] && Some(
                        params[i].1,
                    ) == last_value(texts, texts.len() as int, params[i].0)
            }
        }),
{
    let additions = operation::all_of(ops, "urlParams"@);
    if additions.len() > 0 {
        let query = query_of(pq);
        let own = seqs::pieces(query, "&"@);
        let more = pieces_of(additions, additions.len() as int);
        let texts = settings(query, additions);
        let params = params_after(query, additions);
        lemma_queries_as_pairs(with_query(seq![], query), additions, additions.len() as int);
        lemma_with_pairs_prefix(seq![], own, more, more.len() as int);
        assert(params == with_pairs(seq![], texts, texts.len() as int));
        lemma_keys(texts, texts.len() as int);
        lemma_with_pairs(seq![], texts, texts.len() as int);
        lemma_path_kept(pq, query_text(params));
    }
}

proof fn lemma_path_kept(pq: Seq<char>, query: Seq<char>)
    ensures
        seqs::split_once(seqs::before(pq, "?"@) + "?"@ + query, "?"@) == Some(
            (seqs::before(pq, "?"@), query),
        ),
        seqs::before(seqs::before(pq, "?"@) + "?"@ + query, "?"@) == seqs::before(pq, "?"@),
{
    reveal_strlit("?");
    assert("?"@ =~= seq!['?']);
    let path = seqs::before(pq, "?"@);
    let s = path + "?"@ + query;
    seqs::lemma_before_lacks(pq, '?');
    assert(seqs::lacks(path, '?'));
    seqs::lemma_find_char(path, '?', query);
    assert(s =~= path.push('?') + query);
    let n = path.len() as int;
    assert(s.subrange(0, n) =~= path);
    assert(s.subrange(n + 1, s.len() as int) =~= query);
}

/// Merging the same parameters once more changes nothing.
pub proof fn law_merging_twice_is_merging_once(pq: Seq<char>, ops: Seq<OpText>)
    ensures
        merged_params(merged_params(pq, ops), ops) == merged_params(pq, ops),
{
    let additions = operation::all_of(ops, "urlParams"@);
    if additions.len() > 0 {
        let n = additions.len() as int;
        let query = query_of(pq);
        let own = seqs::pieces(query, "&"@);
        let more = pieces_of(additions, n);
        let start = with_query(seq![], query);
        let params = params_after(query, additions);
        lemma_queries_as_pairs(start, additions, n);
        lemma_queries_as_pairs(params, additions, n);
        lemma_settings_lack(query, additions, n);
        lemma_all_fit(seq![], own, own.len() as int);
        lemma_all_fit(start, more, more.len() as int);
        lemma_with_pairs(seq![], own, own.len() as int);
        lemma_with_pairs(start, more, more.len() as int);
        lemma_query_is_read_back(params);
        lemma_set_again(start, more, more.len() as int);
        lemma_path_kept(pq, query_text(params));
        assert(merged_params(pq, ops) == seqs::before(pq, "?"@) + "?"@ + query_text(params));
    }
}

proof fn lemma_not_mentioned(ops: Seq<OpText>, protocol: Seq<char>)
    requires
        forall|i: int| 0 <= i < ops.len() ==> (#[trigger] ops[i]).protocol != protocol,
    ensures
        operation::last_of(ops, protocol) is None,
        operation::all_of(ops, protocol).len() == 0,
    decreases ops.len(),
{
    reveal(Seq::filter);
    if ops.len() > 0 {
        assert(ops.last() == ops[ops.len() - 1]);
        assert forall|i: int| 0 <= i < ops.drop_last().len() implies (
        #[trigger] ops.drop_last()[i]).protocol != protocol by {
            assert(ops.drop_last()[i] == ops[i]);
        }
        lemma_not_mentioned(ops.drop_last(), protocol);
    }
}

proof fn lemma_unmentioned_names(ops: Seq<OpText>, names: Seq<Seq<char>>, k: int)
    requires
        !operation::mentions(ops, names),
        0 <= k < names.len(),
    ensures
        operation::last_of(ops, names[k]) is None,
        operation::all_of(ops, names[k]).len() == 0,
{
    assert forall|i: int| 0 <= i < ops.len() implies (#[trigger] ops[i]).protocol != names[k] by {
        assert(!names.contains(ops[i].protocol));
    }
    lemma_not_mentioned(ops, names[k]);
}

/// Where no operation rewrites the body of a response, its text is the body's.
pub proof fn law_res_body_is_kept(body: Seq<u8>, ops: Seq<OpText>)
    requires
        !operation::mentions(ops, res_body_protocols()),
    ensures
        res_body_text(body, ops) == text::lossy_utf8(body),
{
    let names = res_body_protocols();
    assert forall|k: int| 0 <= k < 13 implies operation::last_of(ops, #[trigger] names[k]) is None
        && operation::all_of(ops, names[k]).len() == 0 by {
        lemma_unmentioned_names(ops, names, k);
    }
    let whole = seq!["resBody"@, "htmlBody"@, "jsBody"@, "cssBody"@];
    let prepend = seq!["resPrepend"@, "htmlPrepend"@, "jsPrepend"@, "cssPrepend"@];
    let append = seq!["resAppend"@, "htmlAppend"@, "jsAppend"@, "cssAppend"@];
    assert(whole[0] == names[0] && whole[1] == names[1] && whole[2] == names[2] && whole[3]
        == names[3]);
    assert(prepend[0] == names[5] && prepend[1] == names[7] && prepend[2] == names[9] && prepend[3]
        == names[11]);
    assert(append[0] == names[6] && append[1] == names[8] && append[2] == names[10] && append[3]
        == names[12]);
    assert(operation::all_of(ops, names[4]).len() == 0);
    reveal_with_fuel(whole_body, 5);
    reveal_with_fuel(values_text, 5);
    assert(values_text(ops, prepend, 4) =~= seq![]);
    assert(values_text(ops, append, 4) =~= seq![]);
    assert(res_body_text(body, ops) =~= text::lossy_utf8(body));
}

/// Where no operation rewrites the body of a request, its text is the body's.
pub proof fn law_req_body_is_kept(body: Seq<u8>, ops: Seq<OpText>)
    requires
        !operation::mentions(ops, req_body_protocols()),
    ensures
        req_body_text(body, ops) == text::lossy_utf8(body),
{
    let names = req_body_protocols();
    assert forall|k: int| 0 <= k < 4 implies operation::last_of(ops, #[trigger] names[k]) is None
        && operation::all_of(ops, names[k]).len() == 0 by {
        lemma_unmentioned_names(ops, names, k);
    }
    let whole = seq!["reqBody"@];
    let prepend = seq!["reqPrepend"@];
    let append = seq!["reqAppend"@];
    assert(whole[0] == names[0] && prepend[0] == names[2] && append[0] == names[3]);
    assert(operation::all_of(ops, names[1]).len() == 0);
    reveal_with_fuel(whole_body, 2);
    reveal_with_fuel(values_text, 2);
    assert(values_text(ops, prepend, 1) =~= seq![]);
    assert(values_text(ops, append, 1) =~= seq![]);
    assert(req_body_text(body, ops) =~= text::lossy_utf8(body));
}

// The body of a response, with every protocol by its name.
#[verifier::spinoff_prover]
#[verifier::rlimit(60)]
proof fn lemma_res_body(body: Seq<u8>, ops: Seq<OpText>)
    ensures
        ({
            let whole = match operation::last_of(ops, "cssBody"@) {
                Some(v) => v,
                None => match operation::last_of(ops, "jsBody"@) {
                    Some(v) => v,
                    None => match operation::last_of(ops, "htmlBody"@) {
                        Some(v) => v,
                        None => match operation::last_of(ops, "resBody"@) {
                            Some(v) => v,
                            None => text::lossy_utf8(body),
                        },
                    },
                },
            };
            let replaces = operation::all_of(ops, "resReplace"@);
            let front = seqs::concat(operation::all_of(ops, "resPrepend"@)) + seqs::concat(
                operation::all_of(ops, "htmlPrepend"@),
            ) + seqs::concat(operation::all_of(ops, "jsPrepend"@)) + seqs::concat(
                operation::all_of(ops, "cssPrepend"@),
            );
            let back = seqs::concat(operation::all_of(ops, "resAppend"@)) + seqs::concat(
                operation::all_of(ops, "htmlAppend"@),
            ) + seqs::concat(operation::all_of(ops, "jsAppend"@)) + seqs::concat(
                operation::all_of(ops, "cssAppend"@),
            );
            res_body_text(body, ops) == front + body_replaced(
                whole,
                replaces,
                replaces.len() as int,
            ) + back
        }),
{
    let whole = seq!["resBody"@, "htmlBody"@, "jsBody"@, "cssBody"@];
    let prepend = seq!["resPrepend"@, "htmlPrepend"@, "jsPrepend"@, "cssPrepend"@];
    let append = seq!["resAppend"@, "htmlAppend"@, "jsAppend"@, "cssAppend"@];
    reveal_with_fuel(whole_body, 5);
    reveal_with_fuel(values_text, 5);
    assert(whole[0] == "resBody"@ && whole[1] == "htmlBody"@ && whole[2] == "jsBody"@ && whole[3]
        == "cssBody"@);
    assert(prepend[0] == "resPrepend"@ && prepend[1] == "htmlPrepend"@ && prepend[2]
        == "jsPrepend"@ && prepend[3] == "cssPrepend"@);
    assert(append[0] == "resAppend"@ && append[1] == "htmlAppend"@ && append[2] == "jsAppend"@
        && append[3] == "cssAppend"@);
    assert(values_text(ops, prepend, 4) =~= seqs::concat(operation::all_of(ops, "resPrepend"@))
        + seqs::concat(operation::all_of(ops, "htmlPrepend"@)) + seqs::concat(
        operation::all_of(ops, "jsPrepend"@),
    ) + seqs::concat(operation::all_of(ops, "cssPrepend"@)));
    assert(values_text(ops, append, 4) =~= seqs::concat(operation::all_of(ops, "resAppend"@))
        + seqs::concat(operation::all_of(ops, "htmlAppend"@)) + seqs::concat(
        operation::all_of(ops, "jsAppend"@),
    ) + seqs::concat(operation::all_of(ops, "cssAppend"@)));
}

/// The texts of the `Prepend` operations stand at the start of the body of a response, and those of
/// the `Append` operations at its end. Between them stands what the other operations make of it: the
/// body under operations that agree on all else and have none of either.
#[verifier::spinoff_prover]
#[verifier::rlimit(60)]
pub proof fn law_res_texts_stand_around_the_body(
    body: Seq<u8>,
    ops: Seq<OpText>,
    others: Seq<OpText>,
)
    requires
        operation::last_of(others, "resBody"@) == operation::last_of(ops, "resBody"@),
        operation::last_of(others, "htmlBody"@) == operation::last_of(ops, "htmlBody"@),
        operation::last_of(others, "jsBody"@) == operation::last_of(ops, "jsBody"@),
        operation::last_of(others, "cssBody"@) == operation::last_of(ops, "cssBody"@),
        operation::all_of(others, "resReplace"@) == operation::all_of(ops, "resReplace"@),
        operation::all_of(others, "resPrepend"@).len() == 0,
        operation::all_of(others, "htmlPrepend"@).len() == 0,
        operation::all_of(others, "jsPrepend"@).len() == 0,
        operation::all_of(others, "cssPrepend"@).len() == 0,
        operation::all_of(others, "resAppend"@).len() == 0,
        operation::all_of(others, "htmlAppend"@).len() == 0,
        operation::all_of(others, "jsAppend"@).len() == 0,
        operation::all_of(others, "cssAppend"@).len() == 0,
    ensures
        res_body_text(body, ops) == seqs::concat(operation::all_of(ops, "resPrepend"@))
            + seqs::concat(operation::all_of(ops, "htmlPrepend"@)) + seqs::concat(
            operation::all_of(ops, "jsPrepend"@),
        ) + seqs::concat(operation::all_of(ops, "cssPrepend"@)) + res_body_text(body, others)
            + seqs::concat(operation::all_of(ops, "resAppend"@)) + seqs::concat(
            operation::all_of(ops, "htmlAppend"@),
        ) + seqs::concat(operation::all_of(ops, "jsAppend"@)) + seqs::concat(
            operation::all_of(ops, "cssAppend"@),
        ),
{
    lemma_res_body(body, ops);
    lemma_res_body(body, others);
    let none = Seq::<char>::empty();
    let replaces = operation::all_of(ops, "resReplace"@);
    assert(none + none + none + none =~= none);
    let p1 = seqs::concat(operation::all_of(ops, "resPrepend"@));
    let p2 = seqs::concat(operation::all_of(ops, "htmlPrepend"@));
    let p3 = seqs::concat(operation::all_of(ops, "jsPrepend"@));
    let p4 = seqs::concat(operation::all_of(ops, "cssPrepend"@));
    let a1 = seqs::concat(operation::all_of(ops, "resAppend"@));
    let a2 = seqs::concat(operation::all_of(ops, "htmlAppend"@));
    let a3 = seqs::concat(operation::all_of(ops, "jsAppend"@));
    let a4 = seqs::concat(operation::all_of(ops, "cssAppend"@));
    let m = res_body_text(body, others);
    assert(none + m + none =~= m);
    assert(p1 + p2 + p3 + p4 + m + (a1 + a2 + a3 + a4) =~= p1 + p2 + p3 + p4 + m + a1 + a2 + a3
        + a4);
}

/// Where one operation alone rewrites the body of a response, an `Append` puts its text behind the
/// body, a `Prepend` in front of it, a `Body` in its place, and a `Replace` changes what it names.
#[verifier::spinoff_prover]
#[verifier::rlimit(60)]
pub proof fn law_one_operation_on_the_res_body(
    body: Seq<u8>,
    ops: Seq<OpText>,
    protocol: Seq<char>,
    value: Seq<char>,
    from: Seq<char>,
    to: Seq<char>,
)
    requires
        operation::all_of(ops, protocol) == seq![value],
        protocol != "resBody"@ ==> operation::all_of(ops, "resBody"@).len() == 0,
        protocol != "htmlBody"@ ==> operation::all_of(ops, "htmlBody"@).len() == 0,
        protocol != "jsBody"@ ==> operation::all_of(ops, "jsBody"@).len() == 0,
        protocol != "cssBody"@ ==> operation::all_of(ops, "cssBody"@).len() == 0,
        protocol != "resReplace"@ ==> operation::all_of(ops, "resReplace"@).len() == 0,
        protocol != "resPrepend"@ ==> operation::all_of(ops, "resPrepend"@).len() == 0,
        protocol != "htmlPrepend"@ ==> operation::all_of(ops, "htmlPrepend"@).len() == 0,
        protocol != "jsPrepend"@ ==> operation::all_of(ops, "jsPrepend"@).len() == 0,
        protocol != "cssPrepend"@ ==> operation::all_of(ops, "cssPrepend"@).len() == 0,
        protocol != "resAppend"@ ==> operation::all_of(ops, "resAppend"@).len() == 0,
        protocol != "htmlAppend"@ ==> operation::all_of(ops, "htmlAppend"@).len() == 0,
        protocol != "jsAppend"@ ==> operation::all_of(ops, "jsAppend"@).len() == 0,
        protocol != "cssAppend"@ ==> operation::all_of(ops, "cssAppend"@).len() == 0,
    ensures
        protocol == "resAppend"@ || protocol == "htmlAppend"@ || protocol == "jsAppend"@ || protocol
            == "cssAppend"@ ==> res_body_text(body, ops) == text::lossy_utf8(body) + value,
        protocol == "resPrepend"@ || protocol == "htmlPrepend"@ || protocol == "jsPrepend"@
            || protocol == "cssPrepend"@ ==> res_body_text(body, ops) == value + text::lossy_utf8(
            body,
        ),
        protocol == "resBody"@ || protocol == "htmlBody"@ || protocol == "jsBody"@ || protocol
            == "cssBody"@ ==> res_body_text(body, ops) == value,
        protocol == "resReplace"@ && seqs::lacks(from, '=') && value == from + seq!['='] + to
            ==> res_body_text(body, ops) == seqs::replace(text::lossy_utf8(body), from, to),
        protocol == "resReplace"@ && seqs::lacks(value, '=') ==> res_body_text(body, ops)
            == text::lossy_utf8(body),
{
    reveal_strlit("resBody");
    reveal_strlit("htmlBody");
    reveal_strlit("jsBody");
    reveal_strlit("cssBody");
    reveal_strlit("resReplace");
    reveal_strlit("resPrepend");
    reveal_strlit("htmlPrepend");
    reveal_strlit("jsPrepend");
    reveal_strlit("cssPrepend");
    reveal_strlit("resAppend");
    reveal_strlit("htmlAppend");
    reveal_strlit("jsAppend");
    reveal_strlit("cssAppend");
    assert("resBody"@.len() == 7 && "resBody"@[0] == 'r' && "resBody"@[3] == 'B');
    assert("htmlBody"@.len() == 8 && "htmlBody"@[0] == 'h' && "htmlBody"@[3] == 'l');
    assert("jsBody"@.len() == 6 && "jsBody"@[0] == 'j' && "jsBody"@[3] == 'o');
    assert("cssBody"@.len() == 7 && "cssBody"@[0] == 'c' && "cssBody"@[3] == 'B');
    assert("resReplace"@.len() == 10 && "resReplace"@[0] == 'r' && "resReplace"@[3] == 'R');
    assert("resPrepend"@.len() == 10 && "resPrepend"@[0] == 'r' && "resPrepend"@[3] == 'P');
    assert("htmlPrepend"@.len() == 11 && "htmlPrepend"@[0] == 'h' && "htmlPrepend"@[3] == 'l');
    assert("jsPrepend"@.len() == 9 && "jsPrepend"@[0] == 'j' && "jsPrepend"@[3] == 'r');
    assert("cssPrepend"@.len() == 10 && "cssPrepend"@[0] == 'c' && "cssPrepend"@[3] == 'P');
    assert("resAppend"@.len() == 9 && "resAppend"@[0] == 'r' && "resAppend"@[3] == 'A');
    assert("htmlAppend"@.len() == 10 && "htmlAppend"@[0] == 'h' && "htmlAppend"@[3] == 'l');
    assert("jsAppend"@.len() == 8 && "jsAppend"@[0] == 'j' && "jsAppend"@[3] == 'p');
    assert("cssAppend"@.len() == 9 && "cssAppend"@[0] == 'c' && "cssAppend"@[3] == 'A');
    lemma_res_body(body, ops);
    operation::law_last_value_ends_all_values(ops, "resBody"@);
    operation::law_last_value_ends_all_values(ops, "htmlBody"@);
    operation::law_last_value_ends_all_values(ops, "jsBody"@);
    operation::law_last_value_ends_all_values(ops, "cssBody"@);
    operation::law_last_value_ends_all_values(ops, "resReplace"@);
    operation::law_last_value_ends_all_values(ops, "resPrepend"@);
    operation::law_last_value_ends_all_values(ops, "htmlPrepend"@);
    operation::law_last_value_ends_all_values(ops, "jsPrepend"@);
    operation::law_last_value_ends_all_values(ops, "cssPrepend"@);
    operation::law_last_value_ends_all_values(ops, "resAppend"@);
    operation::law_last_value_ends_all_values(ops, "htmlAppend"@);
    operation::law_last_value_ends_all_values(ops, "jsAppend"@);
    operation::law_last_value_ends_all_values(ops, "cssAppend"@);
    lemma_concat_one(value);
    let none = Seq::<char>::empty();
    let b = text::lossy_utf8(body);
    assert(none + none + none + none + b + none =~= b);
    if protocol == "resReplace"@ {
        lemma_one_replacement(b, value, from, to);
    }
    assert(res_body_text(body, ops) =~= res_body_text(body, ops) + none);
}

proof fn lemma_concat_one(value: Seq<char>)
    ensures
        seqs::concat(seq![value]) == value,
{
    seqs::law_parts_are_joined_in_order(Seq::empty(), Seq::empty(), value);
    assert(Seq::empty().push(value) =~= seq![value]);
    assert(Seq::<char>::empty() + value =~= value);
}

proof fn lemma_one_replacement(
    body: Seq<char>,
    value: Seq<char>,
    from: Seq<char>,
    to: Seq<char>,
)
    ensures
        seqs::lacks(from, '=') && value == from + seq!['='] + to ==> body_replaced(
            body,
            seq![value],
            1,
        ) == seqs::replace(body, from, to),
        seqs::lacks(value, '=') ==> body_replaced(body, seq![value], 1) == body,
{
    reveal_strlit("=");
    assert("="@ =~= seq!['=']);
    reveal_with_fuel(body_replaced, 2);
    assert(seq![value][0] == value);
    if seqs::lacks(from, '=') && value == from + seq!['='] + to {
        seqs::law_text_is_cut_at_the_first(from, '=', to);
    }
    if seqs::lacks(value, '=') {
        seqs::law_text_is_cut_at_the_first(value, '=', to);
    }
}

/// Replacements in the body are made one after the other: a later one reads what the earlier ones
/// left.
pub proof fn law_replacements_are_made_in_order(
    body: Seq<char>,
    values: Seq<Seq<char>>,
    from: Seq<char>,
    to: Seq<char>,
)
    requires
        seqs::lacks(from, '='),
    ensures
        body_replaced(body, Seq::empty(), 0) == body,
        body_replaced(body, values + seq![from + seq!['='] + to], values.len() + 1int)
            == seqs::replace(body_replaced(body, values, values.len() as int), from, to),
{
    reveal_strlit("=");
    assert("="@ =~= seq!['=']);
    let all = values + seq![from + seq!['='] + to];
    assert(all[values.len() as int] == from + seq!['='] + to);
    seqs::law_text_is_cut_at_the_first(from, '=', to);
    lemma_body_replaced_same(body, values, all, values.len() as int);
}

proof fn lemma_body_replaced_same(
    body: Seq<char>,
    a: Seq<Seq<char>>,
    b: Seq<Seq<char>>,
    n: int,
)
    requires
        n <= a.len(),
        n <= b.len(),
        forall|i: int| 0 <= i < n ==> a[i] == b[i],
    ensures
        body_replaced(body, a, n) == body_replaced(body, b, n),
    decreases n,
{
    if n > 0 {
        lemma_body_replaced_same(body, a, b, n - 1);
    }
}

/// The last `Body` operation that a response has gives its body, whatever it was: that of a style
/// sheet before that of a script, that before the one of a page, and the general one last.
pub proof fn law_given_res_body_takes_its_place(
    body: Seq<u8>,
    other: Seq<u8>,
    ops: Seq<OpText>,
)
    ensures
        operation::last_of(ops, "resBody"@) is Some || operation::last_of(ops, "htmlBody"@) is Some
            || operation::last_of(ops, "jsBody"@) is Some || operation::last_of(
            ops,
            "cssBody"@,
        ) is Some ==> res_body_text(body, ops) == res_body_text(other, ops),
{
    lemma_res_body(body, ops);
    lemma_res_body(other, ops);
}

// The body of a request, with every protocol by its name.
proof fn lemma_req_body(body: Seq<u8>, ops: Seq<OpText>)
    ensures
        ({
            let whole = match operation::last_of(ops, "reqBody"@) {
                Some(v) => v,
                None => text::lossy_utf8(body),
            };
            let replaces = operation::all_of(ops, "reqReplace"@);
            req_body_text(body, ops) == seqs::concat(operation::all_of(ops, "reqPrepend"@))
                + body_replaced(whole, replaces, replaces.len() as int) + seqs::concat(
                operation::all_of(ops, "reqAppend"@),
            )
        }),
{
    let whole = seq!["reqBody"@];
    let prepend = seq!["reqPrepend"@];
    let append = seq!["reqAppend"@];
    reveal_with_fuel(whole_body, 2);
    reveal_with_fuel(values_text, 2);
    assert(whole[0] == "reqBody"@ && prepend[0] == "reqPrepend"@ && append[0] == "reqAppend"@);
    assert(values_text(ops, prepend, 1) =~= seqs::concat(operation::all_of(ops, "reqPrepend"@)));
    assert(values_text(ops, append, 1) =~= seqs::concat(operation::all_of(ops, "reqAppend"@)));
}

/// The texts of `reqPrepend` stand at the start of the body of a request, and those of `reqAppend`
/// at its end. Between them stands what the other operations make of it.
pub proof fn law_req_texts_stand_around_the_body(
    body: Seq<u8>,
    ops: Seq<OpText>,
    others: Seq<OpText>,
)
    requires
        operation::last_of(others, "reqBody"@) == operation::last_of(ops, "reqBody"@),
        operation::all_of(others, "reqReplace"@) == operation::all_of(ops, "reqReplace"@),
        operation::all_of(others, "reqPrepend"@).len() == 0,
        operation::all_of(others, "reqAppend"@).len() == 0,
    ensures
        req_body_text(body, ops) == seqs::concat(operation::all_of(ops, "reqPrepend"@))
            + req_body_text(body, others) + seqs::concat(operation::all_of(ops, "reqAppend"@)),
{
    lemma_req_body(body, ops);
    lemma_req_body(body, others);
    let none = Seq::<char>::empty();
    let m = req_body_text(body, others);
    assert(none + m + none =~= m);
    let whole = match operation::last_of(ops, "reqBody"@) {
        Some(v) => v,
        None => text::lossy_utf8(body),
    };
    let replaces = operation::all_of(ops, "reqReplace"@);
    let r = body_replaced(whole, replaces, replaces.len() as int);
    assert(none + r + none =~= r);
}

/// Where one operation alone rewrites the body of a request, `reqAppend` puts its text behind the
/// body, `reqPrepend` in front of it, `reqBody` in its place, and `reqReplace` changes what it
/// names.
#[verifier::spinoff_prover]
#[verifier::rlimit(60)]
pub proof fn law_one_operation_on_the_req_body(
    body: Seq<u8>,
    ops: Seq<OpText>,
    protocol: Seq<char>,
    value: Seq<char>,
    from: Seq<char>,
    to: Seq<char>,
)
    requires
        operation::all_of(ops, protocol) == seq![value],
        protocol != "reqBody"@ ==> operation::all_of(ops, "reqBody"@).len() == 0,
        protocol != "reqReplace"@ ==> operation::all_of(ops, "reqReplace"@).len() == 0,
        protocol != "reqPrepend"@ ==> operation::all_of(ops, "reqPrepend"@).len() == 0,
        protocol != "reqAppend"@ ==> operation::all_of(ops, "reqAppend"@).len() == 0,
    ensures
        protocol == "reqAppend"@ ==> req_body_text(body, ops) == text::lossy_utf8(body) + value,
        protocol == "reqPrepend"@ ==> req_body_text(body, ops) == value + text::lossy_utf8(body),
        protocol == "reqBody"@ ==> req_body_text(body, ops) == value,
        protocol == "reqReplace"@ && seqs::lacks(from, '=') && value == from + seq!['='] + to
            ==> req_body_text(body, ops) == seqs::replace(text::lossy_utf8(body), from, to),
        protocol == "reqReplace"@ && seqs::lacks(value, '=') ==> req_body_text(body, ops)
            == text::lossy_utf8(body),
{
    reveal_strlit("reqBody");
    reveal_strlit("reqReplace");
    reveal_strlit("reqPrepend");
    reveal_strlit("reqAppend");
    assert("reqBody"@.len() == 7 && "reqBody"@[0] == 'r' && "reqBody"@[3] == 'B');
    assert("reqReplace"@.len() == 10 && "reqReplace"@[0] == 'r' && "reqReplace"@[3] == 'R');
    assert("reqPrepend"@.len() == 10 && "reqPrepend"@[0] == 'r' && "reqPrepend"@[3] == 'P');
    assert("reqAppend"@.len() == 9 && "reqAppend"@[0] == 'r' && "reqAppend"@[3] == 'A');
    lemma_req_body(body, ops);
    operation::law_last_value_ends_all_values(ops, "reqBody"@);
    operation::law_last_value_ends_all_values(ops, "reqReplace"@);
    operation::law_last_value_ends_all_values(ops, "reqPrepend"@);
    operation::law_last_value_ends_all_values(ops, "reqAppend"@);
    lemma_concat_one(value);
    let b = text::lossy_utf8(body);
    if protocol == "reqReplace"@ {
        lemma_one_replacement(b, value, from, to);
    }
    assert(req_body_text(body, ops) =~= req_body_text(body, ops) + Seq::<char>::empty());
}

/// The operations on the body of a response are those on a page, a script, a style sheet or any
/// response: its text given, replaced, put in front or put behind. No other operation changes it.
pub proof fn law_other_operations_leave_the_res_body(body: Seq<u8>, ops: Seq<OpText>)
    requires
        operation::all_of(ops, "resBody"@).len() == 0,
        operation::all_of(ops, "htmlBody"@).len() == 0,
        operation::all_of(ops, "jsBody"@).len() == 0,
        operation::all_of(ops, "cssBody"@).len() == 0,
        operation::all_of(ops, "resReplace"@).len() == 0,
        operation::all_of(ops, "resPrepend"@).len() == 0,
        operation::all_of(ops, "htmlPrepend"@).len() == 0,
        operation::all_of(ops, "jsPrepend"@).len() == 0,
        operation::all_of(ops, "cssPrepend"@).len() == 0,
        operation::all_of(ops, "resAppend"@).len() == 0,
        operation::all_of(ops, "htmlAppend"@).len() == 0,
        operation::all_of(ops, "jsAppend"@).len() == 0,
        operation::all_of(ops, "cssAppend"@).len() == 0,
    ensures
        res_body_text(body, ops) == text::lossy_utf8(body),
        !operation::mentions(ops, res_body_protocols()),
{
    lemma_res_body(body, ops);
    operation::law_last_value_ends_all_values(ops, "resBody"@);
    operation::law_last_value_ends_all_values(ops, "htmlBody"@);
    operation::law_last_value_ends_all_values(ops, "jsBody"@);
    operation::law_last_value_ends_all_values(ops, "cssBody"@);
    operation::law_last_value_ends_all_values(ops, "resReplace"@);
    operation::law_last_value_ends_all_values(ops, "resPrepend"@);
    operation::law_last_value_ends_all_values(ops, "htmlPrepend"@);
    operation::law_last_value_ends_all_values(ops, "jsPrepend"@);
    operation::law_last_value_ends_all_values(ops, "cssPrepend"@);
    operation::law_last_value_ends_all_values(ops, "resAppend"@);
    operation::law_last_value_ends_all_values(ops, "htmlAppend"@);
    operation::law_last_value_ends_all_values(ops, "jsAppend"@);
    operation::law_last_value_ends_all_values(ops, "cssAppend"@);
    let none = Seq::<char>::empty();
    assert(none + none + none + none + text::lossy_utf8(body) + (none + none + none + none)
        =~= text::lossy_utf8(body));
    if operation::mentions(ops, res_body_protocols()) {
        let i = choose|i: int|
            0 <= i < ops.len() && res_body_protocols().contains(#[trigger] ops[i].protocol);
        operation::law_values_are_those_of_the_protocol(ops, ops[i].protocol, ops[i].value);
    }
}

/// No operation but those of the body of a request changes it.
pub proof fn law_other_operations_leave_the_req_body(body: Seq<u8>, ops: Seq<OpText>)
    requires
        operation::all_of(ops, "reqBody"@).len() == 0,
        operation::all_of(ops, "reqReplace"@).len() == 0,
        operation::all_of(ops, "reqPrepend"@).len() == 0,
        operation::all_of(ops, "reqAppend"@).len() == 0,
    ensures
        req_body_text(body, ops) == text::lossy_utf8(body),
        !operation::mentions(ops, req_body_protocols()),
{
    lemma_req_body(body, ops);
    operation::law_last_value_ends_all_values(ops, "reqBody"@);
    operation::law_last_value_ends_all_values(ops, "reqReplace"@);
    operation::law_last_value_ends_all_values(ops, "reqPrepend"@);
    operation::law_last_value_ends_all_values(ops, "reqAppend"@);
    let none = Seq::<char>::empty();
    assert(none + text::lossy_utf8(body) + none =~= text::lossy_utf8(body));
    if operation::mentions(ops, req_body_protocols()) {
        let i = choose|i: int|
            0 <= i < ops.len() && req_body_protocols().contains(#[trigger] ops[i].protocol);
        operation::law_values_are_those_of_the_protocol(ops, ops[i].protocol, ops[i].value);
    }
}

/// A `method` gives the method in capitals, whatever it was. A text that no method can be leaves it,
/// and so do all other operations.
pub proof fn law_method_is_the_one_asked_for(
    ops: Seq<OpText>,
    method: Seq<char>,
    other: Seq<char>,
)
    ensures
        operation::last_of(ops, "method"@) matches Some(m) && crate::headers::is_token(
            seqs::upper(m),
        ) ==> method_by(ops, method) == seqs::upper(operation::last_of(ops, "method"@)->0)
            && method_by(ops, other) == method_by(ops, method),
        operation::last_of(ops, "method"@) matches Some(m) && !crate::headers::is_token(
            seqs::upper(m),
        ) ==> method_by(ops, method) == method,
        operation::last_of(ops, "method"@) is None ==> method_by(ops, method) == method,
{
}

/// A `replaceStatus` gives the status that it writes, and where there is none a `statusCode` does.
/// A number below 100 or above 999 is no status, and leaves the one that was there.
pub proof fn law_status_is_the_one_asked_for(ops: Seq<OpText>, status: u16, code: u16)
    ensures
        operation::last_of(ops, "replaceStatus"@) == Some(seqs::decimal(code as nat)) ==> status_by(
            ops,
            status,
        ) == if 100 <= code <= 999 {
            code
        } else {
            status
        },
        operation::last_of(ops, "replaceStatus"@) is None && operation::last_of(ops, "statusCode"@)
            == Some(seqs::decimal(code as nat)) ==> status_by(ops, status) == if 100 <= code
            <= 999 {
            code
        } else {
            status
        },
        operation::last_of(ops, "replaceStatus"@) is None && operation::last_of(
            ops,
            "statusCode"@,
        ) is None ==> status_by(ops, status) == status,
        status_of(seqs::decimal(code as nat)) == if 100 <= code <= 999 {
            Some(code)
        } else {
            None
        },
{
    seqs::law_decimal_is_read_back(code as nat, 65535);
}

/// A delay is the number of milliseconds that is written, of a request under `reqDelay` and of a
/// response under `resDelay`.
pub proof fn law_delay_is_the_one_asked_for(ops: Seq<OpText>, ms: u64)
    ensures
        operation::last_of(ops, "reqDelay"@) == Some(seqs::decimal(ms as nat)) ==> req_delay_ms(ops)
            == Some(ms),
        operation::last_of(ops, "resDelay"@) == Some(seqs::decimal(ms as nat)) ==> res_delay_ms(ops)
            == Some(ms),
        operation::last_of(ops, "reqDelay"@) is None ==> req_delay_ms(ops) is None,
        operation::last_of(ops, "resDelay"@) is None ==> res_delay_ms(ops) is None,
{
    seqs::law_decimal_is_read_back(ms as nat, u64::MAX as nat);
}

/// A body is held back for as long as it takes at the speed that is written, in units of 1024 bytes
/// a second: no more bytes pass in that time than it has, and one more millisecond would be too
/// many. A speed of zero is no limit.
pub proof fn law_speed_is_the_one_asked_for(ops: Seq<OpText>, speed: u64, len: nat)
    requires
        len <= u64::MAX,
    ensures
        speed > 0 && operation::last_of(ops, "reqSpeed"@) == Some(seqs::decimal(speed as nat)) ==> {
            &&& req_speed_ms(ops, len) is Some
            &&& req_speed_ms(ops, len)->0 * speed * 1024 <= len * 1000
            &&& len * 1000 < (req_speed_ms(ops, len)->0 + 1) * speed * 1024
        },
        speed > 0 && operation::last_of(ops, "resSpeed"@) == Some(seqs::decimal(speed as nat)) ==> {
            &&& res_speed_ms(ops, len) is Some
            &&& res_speed_ms(ops, len)->0 * speed * 1024 <= len * 1000
            &&& len * 1000 < (res_speed_ms(ops, len)->0 + 1) * speed * 1024
        },
        operation::last_of(ops, "reqSpeed"@) == Some(seqs::decimal(0)) ==> req_speed_ms(
            ops,
            len,
        ) is None,
        operation::last_of(ops, "resSpeed"@) == Some(seqs::decimal(0)) ==> res_speed_ms(
            ops,
            len,
        ) is None,
        operation::last_of(ops, "reqSpeed"@) is None ==> req_speed_ms(ops, len) is None,
        operation::last_of(ops, "resSpeed"@) is None ==> res_speed_ms(ops, len) is None,
{
    seqs::law_decimal_is_read_back(speed as nat, u64::MAX as nat);
    seqs::law_decimal_is_read_back(0, u64::MAX as nat);
    if speed > 0 {
        let s = speed as int;
        let n = len as int;
        let q = n * 1000 / (s * 1024);
        assert(0 <= q <= n && q * s * 1024 <= n * 1000 && n * 1000 < (q + 1) * s * 1024)
            by (nonlinear_arith)
            requires
                s >= 1,
                n >= 0,
                q == n * 1000 / (s * 1024),
        ;
    }
}

/// The replacements of `pathReplace` are made in path and query one after the other, each written as
/// two texts with `|` between them. Other operations leave path and query.
pub proof fn law_path_is_replaced_in_order(
    pq: Seq<char>,
    ops: Seq<OpText>,
    from: Seq<char>,
    to: Seq<char>,
    raw: Seq<char>,
    protocol: Seq<char>,
)
    requires
        seqs::lacks(from, '|'),
    ensures
        path_by(pq, Seq::empty()) == pq,
        path_by(
            pq,
            ops.push(OpText { protocol: "pathReplace"@, value: from + seq!['|'] + to, raw }),
        ) == seqs::replace(path_by(pq, ops), from, to),
        path_by(pq, ops.push(OpText { protocol: "pathReplace"@, value: from, raw })) == path_by(
            pq,
            ops,
        ),
        protocol != "pathReplace"@ ==> path_by(
            pq,
            ops.push(OpText { protocol, value: from + seq!['|'] + to, raw }),
        ) == path_by(pq, ops),
{
    reveal_strlit("|");
    assert("|"@ =~= seq!['|']);
    let values = operation::all_of(ops, "pathReplace"@);
    let n = values.len() as int;
    let full = OpText { protocol: "pathReplace"@, value: from + seq!['|'] + to, raw };
    let bare = OpText { protocol: "pathReplace"@, value: from, raw };
    operation::lemma_values_of_more(ops, full, "pathReplace"@);
    operation::lemma_values_of_more(ops, bare, "pathReplace"@);
    operation::lemma_values_of_more(
        ops,
        OpText { protocol, value: from + seq!['|'] + to, raw },
        "pathReplace"@,
    );
    lemma_path_replaced_same(pq, values, values.push(full.value), n);
    lemma_path_replaced_same(pq, values, values.push(bare.value), n);
    seqs::law_text_is_cut_at_the_first(from, '|', to);
}

proof fn lemma_path_replaced_same(pq: Seq<char>, a: Seq<Seq<char>>, b: Seq<Seq<char>>, n: int)
    requires
        n <= a.len(),
        n <= b.len(),
        forall|i: int| 0 <= i < n ==> a[i] == b[i],
    ensures
        path_replaced(pq, a, n) == path_replaced(pq, b, n),
    decreases n,
{
    if n > 0 {
        lemma_path_replaced_same(pq, a, b, n - 1);
    }
}

/// A parameter that `urlParams` names stands in the query behind a parameter with another key, takes
/// the place of one with its own key, and is the whole query where there was none.
#[verifier::spinoff_prover]
#[verifier::rlimit(60)]
pub proof fn law_param_is_added_or_replaced(
    path: Seq<char>,
    own: Seq<char>,
    old_value: Seq<char>,
    key: Seq<char>,
    value: Seq<char>,
    raw: Seq<char>,
)
    requires
        seqs::lacks(path, '?'),
        seqs::lacks(own, '=') && seqs::lacks(own, '&') && own.len() > 0,
        seqs::lacks(key, '=') && seqs::lacks(key, '&') && key.len() > 0,
        seqs::lacks(old_value, '&') && seqs::lacks(value, '&'),
        own != key,
    ensures
        ({
            let ops = seq![
                OpText { protocol: "urlParams"@, value: key + seq!['='] + value, raw },
            ];
            let mine = key + seq!['='] + value;
            let other = own + seq!['='] + old_value;
            &&& merged_params(path, ops) == path + seq!['?'] + mine
            &&& merged_params(path + seq!['?'] + (key + seq!['='] + old_value), ops) == path + seq![
                '?',
            ] + mine
            &&& merged_params(path + seq!['?'] + other, ops) == path + seq!['?'] + other + seq![
                '&',
            ] + mine
        }),
{
    reveal_strlit("?");
    reveal_strlit("&");
    reveal_strlit("=");
    assert("?"@ =~= seq!['?']);
    assert("&"@ =~= seq!['&']);
    assert("="@ =~= seq!['=']);
    let none = Seq::<char>::empty();
    let op = OpText { protocol: "urlParams"@, value: key + seq!['='] + value, raw };
    let ops = seq![op];
    let mine = key + seq!['='] + value;
    let other = own + seq!['='] + old_value;
    let again = key + seq!['='] + old_value;
    operation::law_one_operation_has_one_value(op, "urlParams"@);
    let additions = operation::all_of(ops, "urlParams"@);
    assert(additions[0] == mine && additions.len() == 1);
    lemma_one_piece(mine);
    lemma_one_piece(other);
    lemma_one_piece(again);
    seqs::law_pair_is_read_at_the_first_sign(key, value);
    seqs::law_pair_is_read_at_the_first_sign(own, old_value);
    seqs::law_pair_is_read_at_the_first_sign(key, old_value);
    seqs::law_text_is_cut_at_the_first(path, '?', none);
    seqs::law_text_is_cut_at_the_first(path, '?', other);
    seqs::law_text_is_cut_at_the_first(path, '?', again);
    reveal_with_fuel(with_queries, 2);
    reveal_with_fuel(with_pairs, 2);
    reveal_with_fuel(param_from, 2);
    let start = Seq::<(Seq<char>, Seq<char>)>::empty();
    // No query.
    seqs::law_joined_texts_are_read_back(Seq::empty(), '&');
    assert(seqs::join(Seq::empty(), seq!['&']) =~= none);
    assert(seqs::pieces(none, seq!['&']) =~= Seq::empty());
    assert(with_query(start, none) == start);
    let one = start.push((key, value));
    assert(with_query(start, mine) == one);
    lemma_shown_one(key, value);
    assert(merged_params(path, ops) == path + "?"@ + query_text(one));
    // Its own key.
    let before = start.push((key, old_value));
    assert(with_query(start, again) == before);
    assert(before[0].0 == key);
    assert(with_query(before, mine) == before.update(0, (key, value)));
    assert(before.update(0, (key, value)) =~= one);
    // Another key.
    let left = start.push((own, old_value));
    assert(with_query(start, other) == left);
    assert(left[0].0 == own);
    assert(with_query(left, mine) == left.push((key, value)));
    lemma_shown_two(own, old_value, key, value);
    assert(path + seq!['?'] + (other + seq!['&'] + mine) =~= path + seq!['?'] + other + seq!['&']
        + mine);
}

proof fn lemma_one_piece(s: Seq<char>)
    requires
        seqs::lacks(s, '&'),
        s.len() > 0,
    ensures
        seqs::pieces(s, seq!['&']) == seq![s],
{
    seqs::law_joined_texts_are_read_back(seq![s], '&');
}

proof fn lemma_shown_one(key: Seq<char>, value: Seq<char>)
    ensures
        query_text(seq![(key, value)]) == key + "="@ + value,
        query_text(Seq::<(Seq<char>, Seq<char>)>::empty().push((key, value))) == key + "="@ + value,
{
    let params = Seq::<(Seq<char>, Seq<char>)>::empty().push((key, value));
    assert(params =~= seq![(key, value)]);
    let shown = params.map_values(|p: (Seq<char>, Seq<char>)| p.0 + "="@ + p.1);
    assert(shown =~= seq![key + "="@ + value]);
}

proof fn lemma_shown_two(k1: Seq<char>, v1: Seq<char>, k2: Seq<char>, v2: Seq<char>)
    ensures
        query_text(Seq::<(Seq<char>, Seq<char>)>::empty().push((k1, v1)).push((k2, v2))) == (k1
            + "="@ + v1) + "&"@ + (k2 + "="@ + v2),
{
    let params = Seq::<(Seq<char>, Seq<char>)>::empty().push((k1, v1)).push((k2, v2));
    let shown = params.map_values(|p: (Seq<char>, Seq<char>)| p.0 + "="@ + p.1);
    let a = k1 + "="@ + v1;
    let b = k2 + "="@ + v2;
    assert(shown =~= seq![a].push(b));
    seqs::law_parts_are_joined_in_order(seq![a], "&"@, b);
    seqs::law_parts_are_joined_in_order(seq![a], "&"@, a);
}

/// Of the bodies that are given for a response, that of a style sheet comes before that of a script,
/// that before the one of a page, and the general one is used where there is none of these. Without
/// other operations, the body is just that.
pub proof fn law_given_res_bodies_have_an_order(body: Seq<u8>, ops: Seq<OpText>)
    requires
        operation::all_of(ops, "resReplace"@).len() == 0,
        operation::all_of(ops, "resPrepend"@).len() == 0,
        operation::all_of(ops, "htmlPrepend"@).len() == 0,
        operation::all_of(ops, "jsPrepend"@).len() == 0,
        operation::all_of(ops, "cssPrepend"@).len() == 0,
        operation::all_of(ops, "resAppend"@).len() == 0,
        operation::all_of(ops, "htmlAppend"@).len() == 0,
        operation::all_of(ops, "jsAppend"@).len() == 0,
        operation::all_of(ops, "cssAppend"@).len() == 0,
    ensures
        operation::last_of(ops, "cssBody"@) matches Some(v) ==> res_body_text(body, ops) == v,
        operation::last_of(ops, "cssBody"@) is None ==> (operation::last_of(
            ops,
            "jsBody"@,
        ) matches Some(v) ==> res_body_text(body, ops) == v),
        operation::last_of(ops, "cssBody"@) is None && operation::last_of(ops, "jsBody"@) is None
            ==> (operation::last_of(ops, "htmlBody"@) matches Some(v) ==> res_body_text(body, ops)
            == v),
        operation::last_of(ops, "cssBody"@) is None && operation::last_of(ops, "jsBody"@) is None
            && operation::last_of(ops, "htmlBody"@) is None ==> (operation::last_of(
            ops,
            "resBody"@,
        ) matches Some(v) ==> res_body_text(body, ops) == v),
{
    lemma_res_body(body, ops);
    let none = Seq::<char>::empty();
    assert(none + none + none + none =~= none);
    assert(res_body_text(body, ops) =~= none + res_body_text(body, ops) + none);
}

/// A further replacement in the body of a response is made in what the operations before it made of
/// the body, and one in the body of a request likewise.
pub proof fn law_further_replacement_reads_the_result(
    body: Seq<u8>,
    ops: Seq<OpText>,
    from: Seq<char>,
    to: Seq<char>,
    raw: Seq<char>,
)
    requires
        seqs::lacks(from, '='),
        operation::all_of(ops, "resPrepend"@).len() == 0,
        operation::all_of(ops, "htmlPrepend"@).len() == 0,
        operation::all_of(ops, "jsPrepend"@).len() == 0,
        operation::all_of(ops, "cssPrepend"@).len() == 0,
        operation::all_of(ops, "resAppend"@).len() == 0,
        operation::all_of(ops, "htmlAppend"@).len() == 0,
        operation::all_of(ops, "jsAppend"@).len() == 0,
        operation::all_of(ops, "cssAppend"@).len() == 0,
        operation::all_of(ops, "reqPrepend"@).len() == 0,
        operation::all_of(ops, "reqAppend"@).len() == 0,
    ensures
        res_body_text(
            body,
            ops.push(OpText { protocol: "resReplace"@, value: from + seq!['='] + to, raw }),
        ) == seqs::replace(res_body_text(body, ops), from, to),
        req_body_text(
            body,
            ops.push(OpText { protocol: "reqReplace"@, value: from + seq!['='] + to, raw }),
        ) == seqs::replace(req_body_text(body, ops), from, to),
{
    let none = Seq::<char>::empty();
    let value = from + seq!['='] + to;
    let op = OpText { protocol: "resReplace"@, value, raw };
    lemma_res_body(body, ops);
    lemma_res_body(body, ops.push(op));
    lemma_res_replace_alone(ops, op);
    let values = operation::all_of(ops, "resReplace"@);
    assert(values.push(value) =~= values + seq![value]);
    let whole = match operation::last_of(ops, "cssBody"@) {
        Some(v) => v,
        None => match operation::last_of(ops, "jsBody"@) {
            Some(v) => v,
            None => match operation::last_of(ops, "htmlBody"@) {
                Some(v) => v,
                None => match operation::last_of(ops, "resBody"@) {
                    Some(v) => v,
                    None => text::lossy_utf8(body),
                },
            },
        },
    };
    law_replacements_are_made_in_order(whole, values, from, to);
    assert(none + none + none + none =~= none);
    assert forall|s: Seq<char>| #[trigger] (none + s + none) == s by {
        assert(none + s + none =~= s);
    }
    lemma_req_replace(body, ops, value, from, to, raw);
}

proof fn lemma_req_replace(
    body: Seq<u8>,
    ops: Seq<OpText>,
    value: Seq<char>,
    from: Seq<char>,
    to: Seq<char>,
    raw: Seq<char>,
)
    requires
        seqs::lacks(from, '='),
        value == from + seq!['='] + to,
        operation::all_of(ops, "reqPrepend"@).len() == 0,
        operation::all_of(ops, "reqAppend"@).len() == 0,
    ensures
        req_body_text(body, ops.push(OpText { protocol: "reqReplace"@, value, raw }))
            == seqs::replace(req_body_text(body, ops), from, to),
{
    reveal_strlit("reqBody");
    reveal_strlit("reqReplace");
    reveal_strlit("reqPrepend");
    reveal_strlit("reqAppend");
    assert("reqBody"@.len() == 7 && "reqReplace"@.len() == 10 && "reqAppend"@.len() == 9);
    assert("reqReplace"@[3] == 'R' && "reqPrepend"@[3] == 'P');
    let op = OpText { protocol: "reqReplace"@, value, raw };
    lemma_req_body(body, ops);
    lemma_req_body(body, ops.push(op));
    operation::lemma_values_of_more(ops, op, "reqBody"@);
    operation::lemma_values_of_more(ops, op, "reqReplace"@);
    operation::lemma_values_of_more(ops, op, "reqPrepend"@);
    operation::lemma_values_of_more(ops, op, "reqAppend"@);
    let values = operation::all_of(ops, "reqReplace"@);
    assert(values.push(value) =~= values + seq![value]);
    let whole = match operation::last_of(ops, "reqBody"@) {
        Some(v) => v,
        None => text::lossy_utf8(body),
    };
    law_replacements_are_made_in_order(whole, values, from, to);
    let none = Seq::<char>::empty();
    assert forall|s: Seq<char>| #[trigger] (none + s + none) == s by {
        assert(none + s + none =~= s);
    }
}

proof fn lemma_res_replace_alone(ops: Seq<OpText>, op: OpText)
    requires
        op.protocol == "resReplace"@,
    ensures
        operation::all_of(ops.push(op), "resReplace"@) == operation::all_of(
            ops,
            "resReplace"@,
        ).push(op.value),
        operation::last_of(ops.push(op), "resBody"@) == operation::last_of(ops, "resBody"@),
        operation::last_of(ops.push(op), "htmlBody"@) == operation::last_of(ops, "htmlBody"@),
        operation::last_of(ops.push(op), "jsBody"@) == operation::last_of(ops, "jsBody"@),
        operation::last_of(ops.push(op), "cssBody"@) == operation::last_of(ops, "cssBody"@),
        operation::all_of(ops.push(op), "resPrepend"@) == operation::all_of(ops, "resPrepend"@),
        operation::all_of(ops.push(op), "htmlPrepend"@) == operation::all_of(ops, "htmlPrepend"@),
        operation::all_of(ops.push(op), "jsPrepend"@) == operation::all_of(ops, "jsPrepend"@),
        operation::all_of(ops.push(op), "cssPrepend"@) == operation::all_of(ops, "cssPrepend"@),
        operation::all_of(ops.push(op), "resAppend"@) == operation::all_of(ops, "resAppend"@),
        operation::all_of(ops.push(op), "htmlAppend"@) == operation::all_of(ops, "htmlAppend"@),
        operation::all_of(ops.push(op), "jsAppend"@) == operation::all_of(ops, "jsAppend"@),
        operation::all_of(ops.push(op), "cssAppend"@) == operation::all_of(ops, "cssAppend"@),
{
    reveal_strlit("resBody");
    reveal_strlit("htmlBody");
    reveal_strlit("jsBody");
    reveal_strlit("cssBody");
    reveal_strlit("resReplace");
    reveal_strlit("resPrepend");
    reveal_strlit("htmlPrepend");
    reveal_strlit("jsPrepend");
    reveal_strlit("cssPrepend");
    reveal_strlit("resAppend");
    reveal_strlit("htmlAppend");
    reveal_strlit("jsAppend");
    reveal_strlit("cssAppend");
    assert("resBody"@.len() == 7 && "resBody"@[0] == 'r' && "resBody"@[3] == 'B');
    assert("htmlBody"@.len() == 8 && "htmlBody"@[0] == 'h' && "htmlBody"@[3] == 'l');
    assert("jsBody"@.len() == 6 && "jsBody"@[0] == 'j' && "jsBody"@[3] == 'o');
    assert("cssBody"@.len() == 7 && "cssBody"@[0] == 'c' && "cssBody"@[3] == 'B');
    assert("resReplace"@.len() == 10 && "resReplace"@[0] == 'r' && "resReplace"@[3] == 'R');
    assert("resPrepend"@.len() == 10 && "resPrepend"@[0] == 'r' && "resPrepend"@[3] == 'P');
    assert("htmlPrepend"@.len() == 11 && "htmlPrepend"@[0] == 'h' && "htmlPrepend"@[3] == 'l');
    assert("jsPrepend"@.len() == 9 && "jsPrepend"@[0] == 'j' && "jsPrepend"@[3] == 'r');
    assert("cssPrepend"@.len() == 10 && "cssPrepend"@[0] == 'c' && "cssPrepend"@[3] == 'P');
    assert("resAppend"@.len() == 9 && "resAppend"@[0] == 'r' && "resAppend"@[3] == 'A');
    assert("htmlAppend"@.len() == 10 && "htmlAppend"@[0] == 'h' && "htmlAppend"@[3] == 'l');
    assert("jsAppend"@.len() == 8 && "jsAppend"@[0] == 'j' && "jsAppend"@[3] == 'p');
    assert("cssAppend"@.len() == 9 && "cssAppend"@[0] == 'c' && "cssAppend"@[3] == 'A');
    operation::lemma_values_of_more(ops, op, "resBody"@);
    operation::lemma_values_of_more(ops, op, "htmlBody"@);
    operation::lemma_values_of_more(ops, op, "jsBody"@);
    operation::lemma_values_of_more(ops, op, "cssBody"@);
    operation::lemma_values_of_more(ops, op, "resReplace"@);
    operation::lemma_values_of_more(ops, op, "resPrepend"@);
    operation::lemma_values_of_more(ops, op, "htmlPrepend"@);
    operation::lemma_values_of_more(ops, op, "jsPrepend"@);
    operation::lemma_values_of_more(ops, op, "cssPrepend"@);
    operation::lemma_values_of_more(ops, op, "resAppend"@);
    operation::lemma_values_of_more(ops, op, "htmlAppend"@);
    operation::lemma_values_of_more(ops, op, "jsAppend"@);
    operation::lemma_values_of_more(ops, op, "cssAppend"@);
}

} // verus!
