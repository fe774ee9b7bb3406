//! What the header fields of a message say of its body and its connection.
use crate::headers;
use crate::seqs;
use crate::text;
use vstd::prelude::*;

verus! {

// ---- the length of a body ----

/// The header fields of a message whose body has this length and is not sent in chunks.
pub open spec fn with_length(contents: Map<Seq<char>, Seq<Seq<u8>>>, len: nat) -> Map<
    Seq<char>,
    Seq<Seq<u8>>,
> {
    headers::with_set(
        contents.remove(seqs::lower("transfer-encoding"@)),
        "content-length"@,
        seqs::decimal(len),
    )
}

/// Sets the length of a body that was rewritten.
pub fn set_content_length(headers: &mut hyper::HeaderMap, len: usize)
    requires
        headers::has_room(headers::header_contents(*old(headers)), 1),
    ensures
        headers::header_contents(*final(headers)) == with_length(
            headers::header_contents(*old(headers)),
            len as nat,
        ),
{
    let ghost before = headers::header_contents(*headers);
    headers::remove_header(headers, "transfer-encoding");
    proof {
        reveal_strlit("transfer-encoding");
        headers::lemma_plain_name("transfer-encoding"@);
        let name = seqs::lower("transfer-encoding"@);
        assert(before.remove(name).dom() =~= before.dom().remove(name));
    }
    let value = text::decimal(len as u64);
    headers::set_header(headers, "content-length", value.as_str());
}

/// The length that the header fields give for the body.
pub open spec fn length_of(contents: Map<Seq<char>, Seq<Seq<u8>>>) -> Option<nat> {
    match headers::first_text(contents, "content-length"@) {
        Some(t) => seqs::parse_number(t, usize::MAX as nat),
        None => None,
    }
}

/// The header fields give a length for the body, above zero and within a limit.
pub open spec fn is_within_limit(contents: Map<Seq<char>, Seq<Seq<u8>>>, limit: nat) -> bool {
    length_of(contents) matches Some(n) && 0 < n <= limit
}

/// Whether the body has a known length, above zero and within a limit.
pub fn body_within_limit(headers: &hyper::HeaderMap, limit: usize) -> (r: bool)
    ensures
        r == is_within_limit(headers::header_contents(*headers), limit as nat),
{
    match headers::header_text(headers, "content-length") {
        Some(t) => match text::parse_number(t, usize::MAX as u64) {
            Some(n) => n > 0 && n <= limit as u64,
            None => false,
        },
        None => false,
    }
}

// ---- headers of one connection ----

/// The headers that concern one connection and are not handed on.
pub open spec fn hop_names() -> Seq<Seq<char>> {
    seq![
        "connection"@,
        "proxy-authenticate"@,
        "proxy-authorization"@,
        "te"@,
        "trailer"@,
        "transfer-encoding"@,
        "upgrade"@,
        "keep-alive"@,
        "proxy-connection"@,
    ]
}

/// The header fields without the first `n` of some names.
pub open spec fn without_names(
    contents: Map<Seq<char>, Seq<Seq<u8>>>,
    names: Seq<Seq<char>>,
    n: int,
) -> Map<Seq<char>, Seq<Seq<u8>>>
    decreases n,
{
    if n <= 0 {
        contents
    } else {
        without_names(contents, names, n - 1).remove(seqs::lower(names[n - 1]))
    }
}

/// The header fields without those that concern one connection.
pub open spec fn without_hops(contents: Map<Seq<char>, Seq<Seq<u8>>>) -> Map<
    Seq<char>,
    Seq<Seq<u8>>,
> {
    without_names(contents, hop_names(), 9)
}

proof fn lemma_hop_names(k: int)
    requires
        0 <= k < 9,
    ensures
        headers::is_header_name(hop_names()[k]),
{
    reveal_strlit("connection");
    reveal_strlit("proxy-authenticate");
    reveal_strlit("proxy-authorization");
    reveal_strlit("te");
    reveal_strlit("trailer");
    reveal_strlit("transfer-encoding");
    reveal_strlit("upgrade");
    reveal_strlit("keep-alive");
    reveal_strlit("proxy-connection");
    headers::lemma_plain_name(hop_names()[k]);
}

/// Takes out the headers that concern one connection.
pub fn remove_hop_headers(headers: &mut hyper::HeaderMap)
    ensures
        headers::header_contents(*final(headers)) == without_hops(
            headers::header_contents(*old(headers)),
        ),
{
    let ghost before = headers::header_contents(*headers);
    let names: Vec<&str> = vec![
        "connection",
        "proxy-authenticate",
        "proxy-authorization",
        "te",
        "trailer",
        "transfer-encoding",
        "upgrade",
        "keep-alive",
        "proxy-connection",
    ];
    let mut i: usize = 0;
    proof {
        assert(seqs::slices(names@) =~= hop_names());
    }
    while i < names.len()
        invariant
            i <= names.len(),
            names.len() == 9,
            seqs::slices(names@) == hop_names(),
            headers::header_contents(*headers) == without_names(before, hop_names(), i as int),
        decreases names.len() - i,
    {
        proof {
            assert(hop_names()[i as int] == names@[i as int]@);
            lemma_hop_names(i as int);
        }
        headers::remove_header(headers, names[i]);
        i += 1;
    }
}

// ---- WebSocket ----

/// The header fields ask for a WebSocket.
pub open spec fn asks_for_websocket(contents: Map<Seq<char>, Seq<Seq<u8>>>) -> bool {
    &&& headers::first_text(contents, "upgrade"@) matches Some(u) && seqs::same_ignoring_case(
        u,
        "websocket"@,
    )
    &&& headers::first_text(contents, "connection"@) matches Some(c) && seqs::contains(
        seqs::lower(c),
        "upgrade"@,
    )
}

/// Whether the header fields ask for a WebSocket.
pub fn is_ws_upgrade(headers: &hyper::HeaderMap) -> (r: bool)
    ensures
        r == asks_for_websocket(headers::header_contents(*headers)),
{
    let upgrade: bool = match headers::header_text(headers, "upgrade") {
        Some(u) => text::same_ignoring_case(u, "websocket"),
        None => false,
    };
    let connection: bool = match headers::header_text(headers, "connection") {
        Some(c) => {
            let low = text::lower(c);
            text::contains(low.as_str(), "upgrade")
        },
        None => false,
    };
    upgrade && connection
}

// ---- laws ----

/// A header that concerns one connection does not go on.
pub proof fn law_hop_headers_do_not_go_on(
    contents: Map<Seq<char>, Seq<Seq<u8>>>,
    names: Seq<Seq<char>>,
    n: int,
    k: int,
)
    requires
        0 <= k < n <= names.len(),
    ensures
        !without_names(contents, names, n).contains_key(seqs::lower(names[k])),
    decreases n,
{
    if k < n - 1 {
        law_hop_headers_do_not_go_on(contents, names, n - 1, k);
    }
}

/// Any other header goes on as it is.
pub proof fn law_other_headers_go_on(
    contents: Map<Seq<char>, Seq<Seq<u8>>>,
    names: Seq<Seq<char>>,
    n: int,
    name: Seq<char>,
)
    requires
        0 <= n <= names.len(),
        forall|k: int| 0 <= k < n ==> seqs::lower(#[trigger] names[k]) != name,
    ensures
        headers::values_of(without_names(contents, names, n), name) == headers::values_of(
            contents,
            name,
        ),
    decreases n,
{
    if n > 0 {
        law_other_headers_go_on(contents, names, n - 1, name);
        assert(seqs::lower(names[n - 1]) != name);
    }
}

/// Of a message that goes on, the fields that concern one connection are taken out, each of them,
/// and all other fields stay.
pub proof fn law_hop_fields_are_taken_out(
    contents: Map<Seq<char>, Seq<Seq<u8>>>,
    name: Seq<char>,
)
    ensures
        headers::values_of(without_hops(contents), name) == if name == "connection"@
            || name == "proxy-authenticate"@ || name == "proxy-authorization"@ || name == "te"@
            || name == "trailer"@ || name == "transfer-encoding"@ || name == "upgrade"@
            || name == "keep-alive"@ || name == "proxy-connection"@ {
            seq![]
        } else {
            headers::values_of(contents, name)
        },
{
    let names = hop_names();
    assert(names[0] == "connection"@);
    assert(names[1] == "proxy-authenticate"@);
    assert(names[2] == "proxy-authorization"@);
    assert(names[3] == "te"@);
    assert(names[4] == "trailer"@);
    assert(names[5] == "transfer-encoding"@);
    assert(names[6] == "upgrade"@);
    assert(names[7] == "keep-alive"@);
    assert(names[8] == "proxy-connection"@);
    assert(seqs::lower("connection"@) == "connection"@) by {
        reveal_strlit("connection");
        assert(seqs::lower("connection"@) =~= "connection"@);
    }
    assert(seqs::lower("proxy-authenticate"@) == "proxy-authenticate"@) by {
        reveal_strlit("proxy-authenticate");
        assert(seqs::lower("proxy-authenticate"@) =~= "proxy-authenticate"@);
    }
    assert(seqs::lower("proxy-authorization"@) == "proxy-authorization"@) by {
        reveal_strlit("proxy-authorization");
        assert(seqs::lower("proxy-authorization"@) =~= "proxy-authorization"@);
    }
    assert(seqs::lower("te"@) == "te"@) by {
        reveal_strlit("te");
        assert(seqs::lower("te"@) =~= "te"@);
    }
    assert(seqs::lower("trailer"@) == "trailer"@) by {
        reveal_strlit("trailer");
        assert(seqs::lower("trailer"@) =~= "trailer"@);
    }
    assert(seqs::lower("transfer-encoding"@) == "transfer-encoding"@) by {
        reveal_strlit("transfer-encoding");
        assert(seqs::lower("transfer-encoding"@) =~= "transfer-encoding"@);
    }
    assert(seqs::lower("upgrade"@) == "upgrade"@) by {
        reveal_strlit("upgrade");
        assert(seqs::lower("upgrade"@) =~= "upgrade"@);
    }
    assert(seqs::lower("keep-alive"@) == "keep-alive"@) by {
        reveal_strlit("keep-alive");
        assert(seqs::lower("keep-alive"@) =~= "keep-alive"@);
    }
    assert(seqs::lower("proxy-connection"@) == "proxy-connection"@) by {
        reveal_strlit("proxy-connection");
        assert(seqs::lower("proxy-connection"@) =~= "proxy-connection"@);
    }
    if name == "connection"@ || name == "proxy-authenticate"@ || name == "proxy-authorization"@
        || name == "te"@ || name == "trailer"@ || name == "transfer-encoding"@
        || name == "upgrade"@ || name == "keep-alive"@ || name == "proxy-connection"@ {
        let k = choose|k: int| 0 <= k < 9 && #[trigger] names[k] == name;
        law_hop_headers_do_not_go_on(contents, names, 9, k);
    } else {
        assert forall|k: int| 0 <= k < 9 implies seqs::lower(#[trigger] names[k]) != name by {
            assert(k == 0 || k == 1 || k == 2 || k == 3 || k == 4 || k == 5 || k == 6 || k == 7 || k
                == 8);
        }
        law_other_headers_go_on(contents, names, 9, name);
    }
}

proof fn lemma_length_names()
    ensures
        seqs::lower("content-length"@) == "content-length"@,
        seqs::lower("transfer-encoding"@) == "transfer-encoding"@,
        headers::is_header_name("content-length"@),
        "content-length"@ != "transfer-encoding"@,
{
    reveal_strlit("content-length");
    reveal_strlit("transfer-encoding");
    assert(seqs::lower("content-length"@) =~= "content-length"@);
    assert(seqs::lower("transfer-encoding"@) =~= "transfer-encoding"@);
    headers::lemma_plain_name("content-length"@);
    assert("content-length"@.len() != "transfer-encoding"@.len());
}

/// The length that is set for a body is the one that is read. The body is then not sent in chunks,
/// and no other field changes.
pub proof fn law_length_is_read_back(
    contents: Map<Seq<char>, Seq<Seq<u8>>>,
    len: nat,
    name: Seq<char>,
)
    requires
        len <= usize::MAX,
    ensures
        length_of(with_length(contents, len)) == Some(len),
        !with_length(contents, len).contains_key("transfer-encoding"@),
        name != "content-length"@ && name != "transfer-encoding"@ ==> headers::values_of(
            with_length(contents, len),
            name,
        ) == headers::values_of(contents, name),
{
    lemma_length_names();
    let d = seqs::decimal(len);
    seqs::lemma_decimal(len);
    seqs::law_decimal_is_read_back(len, usize::MAX as nat);
    assert forall|i: int| 0 <= i < d.len() implies '0' <= #[trigger] d[i] <= '9' by {
        assert(seqs::is_digit(d[i]));
    }
    assert(headers::is_header_value(d));
    headers::lemma_ascii_is_read_back(d);
}

/// A body is within a limit where a length is given for it that is above zero and no more than the
/// limit.
pub proof fn law_limit_is_on_the_length(
    contents: Map<Seq<char>, Seq<Seq<u8>>>,
    len: nat,
    limit: nat,
)
    requires
        len <= usize::MAX,
    ensures
        is_within_limit(with_length(contents, len), limit) <==> 1 <= len <= limit,
        !is_within_limit(contents.remove("content-length"@), limit),
{
    law_length_is_read_back(contents, len, "content-length"@);
    lemma_length_names();
}

/// A request asks for a WebSocket by both of two fields: one names the protocol, the other says,
/// among other things, that the protocol is to change. Letter case makes no difference.
pub proof fn law_websocket_is_asked_for_by_both_fields(
    contents: Map<Seq<char>, Seq<Seq<u8>>>,
    protocol: Seq<char>,
    before: Seq<char>,
    word: Seq<char>,
    after: Seq<char>,
)
    requires
        seqs::same_ignoring_case(protocol, "websocket"@),
        seqs::same_ignoring_case(word, "upgrade"@),
    ensures
        headers::first_text(contents, "upgrade"@) == Some(protocol) && headers::first_text(
            contents,
            "connection"@,
        ) == Some(before + word + after) ==> asks_for_websocket(contents),
        headers::first_text(contents, "upgrade"@) is None ==> !asks_for_websocket(contents),
        headers::first_text(contents, "connection"@) is None ==> !asks_for_websocket(contents),
        headers::first_text(contents, "upgrade"@) matches Some(u) && !seqs::same_ignoring_case(
            u,
            "websocket"@,
        ) ==> !asks_for_websocket(contents),
{
    seqs::law_case_is_ignored_on_both_sides(before, word);
    seqs::law_case_is_ignored_on_both_sides(before + word, after);
    reveal_strlit("upgrade");
    assert(seqs::lower("upgrade"@) =~= "upgrade"@);
    seqs::law_a_part_is_found(seqs::lower(before), "upgrade"@, seqs::lower(after));
}

} // verus!
