//! What the operations of the rules do to a request and its response.
use crate::headers;
use crate::headers::EditModel;
use crate::headers::HeaderEdit;
use crate::operation;
use crate::operation::OpText;
use crate::operation::Operation;
use crate::seqs;
use crate::text;
use vstd::prelude::*;

verus! {

// ---- content types ----

/// The content type of a short name. Anything else stands for itself.
pub open spec fn mime(t: Seq<char>) -> Seq<char> {
    if seqs::contains(t, "/"@) {
        t
    } else if t == "html"@ {
        "text/html"@
    } else if t == "json"@ {
        "application/json"@
    } else if t == "js"@ || t == "javascript"@ {
        "application/javascript"@
    } else if t == "css"@ {
        "text/css"@
    } else if t == "xml"@ {
        "application/xml"@
    } else if t == "text"@ || t == "txt"@ {
        "text/plain"@
    } else if t == "png"@ {
        "image/png"@
    } else if t == "jpg"@ || t == "jpeg"@ {
        "image/jpeg"@
    } else if t == "gif"@ {
        "image/gif"@
    } else {
        t
    }
}

/// The content type of a short name. Anything else stands for itself.
pub fn mime_of(t: &str) -> (r: String)
    ensures
        r@ == mime(t@),
{
    let m: &str = if text::contains(t, "/") {
        t
    } else if text::same(t, "html") {
        "text/html"
    } else if text::same(t, "json") {
        "application/json"
    } else if text::same(t, "js") || text::same(t, "javascript") {
        "application/javascript"
    } else if text::same(t, "css") {
        "text/css"
    } else if text::same(t, "xml") {
        "application/xml"
    } else if text::same(t, "text") || text::same(t, "txt") {
        "text/plain"
    } else if text::same(t, "png") {
        "image/png"
    } else if text::same(t, "jpg") || text::same(t, "jpeg") {
        "image/jpeg"
    } else if text::same(t, "gif") {
        "image/gif"
    } else {
        t
    };
    m.to_string()
}

/// The content type of a file by its extension, whatever its case.
pub open spec fn file_mime(path: Seq<char>) -> Seq<char> {
    let ext = seqs::lower(seqs::after_last(path, "."@));
    if ext == "html"@ || ext == "htm"@ {
        "text/html; charset=utf-8"@
    } else if ext == "json"@ {
        "application/json; charset=utf-8"@
    } else if ext == "js"@ || ext == "mjs"@ {
        "application/javascript; charset=utf-8"@
    } else if ext == "css"@ {
        "text/css; charset=utf-8"@
    } else if ext == "xml"@ {
        "application/xml; charset=utf-8"@
    } else if ext == "txt"@ {
        "text/plain; charset=utf-8"@
    } else if ext == "png"@ {
        "image/png"@
    } else if ext == "jpg"@ || ext == "jpeg"@ {
        "image/jpeg"@
    } else if ext == "gif"@ {
        "image/gif"@
    } else if ext == "svg"@ {
        "image/svg+xml"@
    } else if ext == "wasm"@ {
        "application/wasm"@
    } else {
        "application/octet-stream"@
    }
}

/// The content type of a file by its extension.
pub fn guess_mime_by_ext(path: &str) -> (r: &'static str)
    ensures
        r@ == file_mime(path@),
{
    let low = text::lower(text::after_last(path, "."));
    let ext = low.as_str();
    if text::same(ext, "html") || text::same(ext, "htm") {
        "text/html; charset=utf-8"
    } else if text::same(ext, "json") {
        "application/json; charset=utf-8"
    } else if text::same(ext, "js") || text::same(ext, "mjs") {
        "application/javascript; charset=utf-8"
    } else if text::same(ext, "css") {
        "text/css; charset=utf-8"
    } else if text::same(ext, "xml") {
        "application/xml; charset=utf-8"
    } else if text::same(ext, "txt") {
        "text/plain; charset=utf-8"
    } else if text::same(ext, "png") {
        "image/png"
    } else if text::same(ext, "jpg") || text::same(ext, "jpeg") {
        "image/jpeg"
    } else if text::same(ext, "gif") {
        "image/gif"
    } else if text::same(ext, "svg") {
        "image/svg+xml"
    } else if text::same(ext, "wasm") {
        "application/wasm"
    } else {
        "application/octet-stream"
    }
}

// ---- base64 ----

/// The character of a base64 digit.
pub open spec fn digit64(n: int) -> char {
    if n < 26 {
        (65 + n) as char
    } else if n < 52 {
        (71 + n) as char
    } else if n < 62 {
        (n - 4) as char
    } else if n == 62 {
        '+'
    } else {
        '/'
    }
}

/// Bytes in base64: four digits for each three bytes, and `=` for what is missing at the end.
pub open spec fn base64_text(s: Seq<u8>) -> Seq<char>
    decreases s.len(),
{
    if s.len() == 0 {
        seq![]
    } else if s.len() == 1 {
        seq![digit64(s[0] as int / 4), digit64(s[0] as int % 4 * 16), '=', '=']
    } else if s.len() == 2 {
        seq![
            digit64(s[0] as int / 4),
            digit64(s[0] as int % 4 * 16 + s[1] as int / 16),
            digit64(s[1] as int % 16 * 4),
            '=',
        ]
    } else {
        seq![
            digit64(s[0] as int / 4),
            digit64(s[0] as int % 4 * 16 + s[1] as int / 16),
            digit64(s[1] as int % 16 * 4 + s[2] as int / 64),
            digit64(s[2] as int % 64),
        ] + base64_text(s.subrange(3, s.len() as int))
    }
}

/// The character of a base64 digit.
fn digit64_of(n: u8) -> (r: char)
    requires
        n < 64,
    ensures
        r == digit64(n as int),
{
    if n < 26 {
        (65 + n) as char
    } else if n < 52 {
        (71 + n) as char
    } else if n < 62 {
        (n - 4) as char
    } else if n == 62 {
        '+'
    } else {
        '/'
    }
}

/// Bytes in base64.
pub fn base64(input: &[u8]) -> (r: String)
    ensures
        r@ == base64_text(input@),
{
    let mut out = String::new();
    let mut i: usize = 0;
    proof {
        assert(input@.subrange(0, input@.len() as int) =~= input@);
        assert(out@ + base64_text(input@) =~= base64_text(input@));
    }
    while input.len() - i >= 3
        invariant
            i <= input.len(),
            out@ + base64_text(input@.subrange(i as int, input@.len() as int)) == base64_text(
                input@,
            ),
        decreases input.len() - i,
    {
        let ghost rest = input@.subrange(i as int, input@.len() as int);
        let ghost before = out@;
        let a: u8 = input[i];
        let b: u8 = input[i + 1];
        let c: u8 = input[i + 2];
        out.push(digit64_of(a / 4));
        out.push(digit64_of(a % 4 * 16 + b / 16));
        out.push(digit64_of(b % 16 * 4 + c / 64));
        out.push(digit64_of(c % 64));
        i += 3;
        proof {
            let tail = input@.subrange(i as int, input@.len() as int);
            assert(rest[0] == a && rest[1] == b && rest[2] == c);
            assert(rest.subrange(3, rest.len() as int) =~= tail);
            assert(out@ + base64_text(tail) =~= before + base64_text(rest));
        }
    }
    let ghost rest = input@.subrange(i as int, input@.len() as int);
    let ghost before = out@;
    if input.len() - i == 1 {
        let a: u8 = input[i];
        out.push(digit64_of(a / 4));
        out.push(digit64_of(a % 4 * 16));
        out.push('=');
        out.push('=');
        proof {
            assert(rest[0] == a);
            assert(out@ =~= before + base64_text(rest));
        }
    } else if input.len() - i == 2 {
        let a: u8 = input[i];
        let b: u8 = input[i + 1];
        out.push(digit64_of(a / 4));
        out.push(digit64_of(a % 4 * 16 + b / 16));
        out.push(digit64_of(b % 16 * 4));
        out.push('=');
        proof {
            assert(rest[0] == a && rest[1] == b);
            assert(out@ =~= before + base64_text(rest));
        }
    } else {
        proof {
            assert(out@ =~= before + base64_text(rest));
        }
    }
    out
}

/// The digit that a base64 character stands for.
pub open spec fn value64(c: char) -> Option<int> {
    let n = c as int;
    if 'A' <= c <= 'Z' {
        Some(n - 65)
    } else if 'a' <= c <= 'z' {
        Some(n - 71)
    } else if '0' <= c <= '9' {
        Some(n + 4)
    } else if c == '+' {
        Some(62)
    } else if c == '/' {
        Some(63)
    } else {
        None
    }
}

/// The bytes that four base64 characters stand for, the last ones of a text where `=` is among
/// them.
pub open spec fn group64(a: char, b: char, c: char, d: char) -> Option<Seq<u8>> {
    match (value64(a), value64(b), value64(c), value64(d)) {
        (Some(w), Some(x), Some(y), Some(z)) => Some(
            seq![(w * 4 + x / 16) as u8, (x % 16 * 16 + y / 4) as u8, (y % 4 * 64 + z) as u8],
        ),
        (Some(w), Some(x), Some(y), None) => if d == '=' && y % 4 == 0 {
            Some(seq![(w * 4 + x / 16) as u8, (x % 16 * 16 + y / 4) as u8])
        } else {
            None
        },
        (Some(w), Some(x), None, None) => if c == '=' && d == '=' && x % 16 == 0 {
            Some(seq![(w * 4 + x / 16) as u8])
        } else {
            None
        },
        _ => None,
    }
}

/// The bytes that a base64 text stands for, where it is one. Only the last group can be padded.
pub open spec fn decoded64(s: Seq<char>) -> Option<Seq<u8>>
    decreases s.len(),
{
    if s.len() == 0 {
        Some(seq![])
    } else if s.len() < 4 {
        None
    } else {
        let rest = s.subrange(4, s.len() as int);
        match (group64(s[0], s[1], s[2], s[3]), decoded64(rest)) {
            (Some(g), Some(more)) => if g.len() == 3 || rest.len() == 0 {
                Some(g + more)
            } else {
                None
            },
            _ => None,
        }
    }
}

proof fn lemma_digit64_is_read(n: int)
    requires
        0 <= n < 64,
    ensures
        value64(digit64(n)) == Some(n),
        digit64(n) != '=',
{
}

proof fn lemma_group_of_three(x: u8, y: u8, z: u8)
    ensures
        group64(
            digit64(x as int / 4),
            digit64(x as int % 4 * 16 + y as int / 16),
            digit64(y as int % 16 * 4 + z as int / 64),
            digit64(z as int % 64),
        ) == Some(seq![x, y, z]),
{
    let a = x as int / 4;
    let b = x as int % 4 * 16 + y as int / 16;
    let c = y as int % 16 * 4 + z as int / 64;
    let d = z as int % 64;
    lemma_digit64_is_read(a);
    lemma_digit64_is_read(b);
    lemma_digit64_is_read(c);
    lemma_digit64_is_read(d);
    assert(a * 4 + b / 16 == x);
    assert(b % 16 * 16 + c / 4 == y);
    assert(c % 4 * 64 + d == z);
}

proof fn lemma_group_of_two(x: u8, y: u8)
    ensures
        group64(
            digit64(x as int / 4),
            digit64(x as int % 4 * 16 + y as int / 16),
            digit64(y as int % 16 * 4),
            '=',
        ) == Some(seq![x, y]),
{
    let a = x as int / 4;
    let b = x as int % 4 * 16 + y as int / 16;
    let c = y as int % 16 * 4;
    lemma_digit64_is_read(a);
    lemma_digit64_is_read(b);
    lemma_digit64_is_read(c);
    assert(a * 4 + b / 16 == x);
    assert(b % 16 * 16 + c / 4 == y);
}

proof fn lemma_group_of_one(x: u8)
    ensures
        group64(digit64(x as int / 4), digit64(x as int % 4 * 16), '=', '=') == Some(seq![x]),
{
    let a = x as int / 4;
    let b = x as int % 4 * 16;
    lemma_digit64_is_read(a);
    lemma_digit64_is_read(b);
    assert(a * 4 + b / 16 == x);
}

proof fn lemma_decoded_step(s: Seq<char>)
    requires
        s.len() >= 4,
    ensures
        decoded64(s) == match (
            group64(s[0], s[1], s[2], s[3]),
            decoded64(s.subrange(4, s.len() as int)),
        ) {
            (Some(g), Some(more)) => if g.len() == 3 || s.len() == 4 {
                Some(g + more)
            } else {
                None
            },
            _ => None,
        },
{
}

/// The base64 text of some bytes is decoded to those bytes.
pub proof fn law_base64_is_decoded(s: Seq<u8>)
    ensures
        decoded64(base64_text(s)) == Some(s),
    decreases s.len(),
{
    let t = base64_text(s);
    if s.len() == 0 {
        assert(s =~= seq![]);
    } else {
        let rest = t.subrange(4, t.len() as int);
        lemma_decoded_step(t);
        if s.len() == 1 {
            lemma_group_of_one(s[0]);
            assert(rest =~= seq![]);
            assert(seq![s[0]] + Seq::<u8>::empty() =~= s);
        } else if s.len() == 2 {
            lemma_group_of_two(s[0], s[1]);
            assert(rest =~= seq![]);
            assert(seq![s[0], s[1]] + Seq::<u8>::empty() =~= s);
        } else {
            let tail = s.subrange(3, s.len() as int);
            lemma_group_of_three(s[0], s[1], s[2]);
            law_base64_is_decoded(tail);
            assert(rest =~= base64_text(tail));
            assert(seq![s[0], s[1], s[2]] + tail =~= s);
        }
    }
}

/// The number of `=` at the end of the base64 text of `n` bytes.
pub open spec fn padding64(n: nat) -> int {
    (3 - n as int % 3) % 3
}

/// The base64 text of some bytes has four characters for each three bytes or what is left of them,
/// and `=` stands at its end alone, for each byte that is missing there.
pub proof fn law_base64_is_padded(s: Seq<u8>)
    ensures
        base64_text(s).len() == 4 * ((s.len() + 2) / 3),
        forall|i: int|
            0 <= i < base64_text(s).len() ==> (#[trigger] base64_text(s)[i] == '=') == (i
                >= base64_text(s).len() - padding64(s.len())),
    decreases s.len(),
{
    let t = base64_text(s);
    if s.len() > 0 {
        let x = s[0] as int;
        lemma_digit64_is_read(x / 4);
        if s.len() == 1 {
            lemma_digit64_is_read(x % 4 * 16);
        } else {
            let y = s[1] as int;
            lemma_digit64_is_read(x % 4 * 16 + y / 16);
            if s.len() == 2 {
                lemma_digit64_is_read(y % 16 * 4);
            } else {
                let z = s[2] as int;
                let tail = s.subrange(3, s.len() as int);
                lemma_digit64_is_read(y % 16 * 4 + z / 64);
                lemma_digit64_is_read(z % 64);
                law_base64_is_padded(tail);
                let more = base64_text(tail);
                assert(padding64(tail.len()) == padding64(s.len()));
                assert forall|i: int| 0 <= i < t.len() implies (#[trigger] t[i] == '=') == (i
                    >= t.len() - padding64(s.len())) by {
                    if i >= 4 {
                        assert(t[i] == more[i - 4]);
                    } else if tail.len() == 0 {
                        assert(more.len() == 0);
                    }
                }
            }
        }
    }
}

/// Base64 tells bytes apart: two byte strings with the same text are the same.
pub proof fn law_base64_tells_bytes_apart(a: Seq<u8>, b: Seq<u8>)
    requires
        base64_text(a) == base64_text(b),
    ensures
        a == b,
{
    law_base64_is_decoded(a);
    law_base64_is_decoded(b);
}

// ---- header fields ----

/// The header that `name=value` sets.
pub open spec fn pair_edit(p: Seq<char>) -> EditModel {
    EditModel::Put(seqs::trim(seqs::pair(p).0), seqs::trim(seqs::pair(p).1))
}

/// The headers that the first `n` texts of the form `a=1&b=2` set.
pub open spec fn pairs_edits(values: Seq<Seq<char>>, n: int) -> Seq<EditModel>
    decreases n,
{
    if n <= 0 {
        seq![]
    } else {
        pairs_edits(values, n - 1) + seqs::pieces(values[n - 1], "&"@).map_values(
            |p: Seq<char>| pair_edit(p),
        )
    }
}

/// The header that the last operation of a protocol sets to its value.
pub open spec fn value_edit(ops: Seq<OpText>, protocol: Seq<char>, name: Seq<char>) -> Seq<
    EditModel,
> {
    match operation::last_of(ops, protocol) {
        Some(v) => seq![EditModel::Put(name, v)],
        None => seq![],
    }
}

/// The content type that the last operation of a protocol names.
pub open spec fn type_edit(ops: Seq<OpText>, protocol: Seq<char>) -> Seq<EditModel> {
    match operation::last_of(ops, protocol) {
        Some(t) => seq![EditModel::Put("content-type"@, mime(t))],
        None => seq![],
    }
}

/// The character set that the last operation of a protocol names.
pub open spec fn charset_edit(ops: Seq<OpText>, protocol: Seq<char>) -> Seq<EditModel> {
    match operation::last_of(ops, protocol) {
        Some(c) => seq![EditModel::Charset(c)],
        None => seq![],
    }
}

/// The cookies that the first `n` texts of the form `a=1&b=2` name.
pub open spec fn cookies_of(values: Seq<Seq<char>>, n: int) -> Seq<Seq<char>>
    decreases n,
{
    if n <= 0 {
        seq![]
    } else {
        cookies_of(values, n - 1) + seqs::pieces(values[n - 1], "&"@).map_values(
            |p: Seq<char>| seqs::trim(p),
        )
    }
}

/// The cookies that `reqCookies` adds, where there are such operations.
pub open spec fn cookies_edit(ops: Seq<OpText>) -> Seq<EditModel> {
    let values = operation::all_of(ops, "reqCookies"@);
    if values.len() > 0 {
        seq![EditModel::Cookies(cookies_of(values, values.len() as int))]
    } else {
        seq![]
    }
}

/// The `authorization` header that `auth` sets.
pub open spec fn auth_edit(ops: Seq<OpText>) -> Seq<EditModel> {
    match operation::last_of(ops, "auth"@) {
        Some(v) => seq![
            EditModel::Put(
                "authorization"@,
                "Basic "@ + base64_text(vstd::utf8::encode_utf8(v)),
            ),
        ],
        None => seq![],
    }
}

/// The replacement that `name=from|to` asks for; nothing where it is not of that form.
pub open spec fn replace_edit(v: Seq<char>) -> Seq<EditModel> {
    match seqs::split_once(v, "="@) {
        Some((name, rest)) => match seqs::split_once(rest, "|"@) {
            Some((from, to)) => seq![EditModel::Replace(name, from, to)],
            None => seq![],
        },
        None => seq![],
    }
}

/// The replacements that the first `n` texts ask for.
pub open spec fn replace_edits(values: Seq<Seq<char>>, n: int) -> Seq<EditModel>
    decreases n,
{
    if n <= 0 {
        seq![]
    } else {
        replace_edits(values, n - 1) + replace_edit(values[n - 1])
    }
}

/// The header that a target names behind a prefix leaves.
pub open spec fn delete_edit(target: Seq<char>, prefix: Seq<char>) -> Seq<EditModel> {
    match seqs::strip_prefix(target, prefix) {
        Some(name) => seq![EditModel::Remove(name)],
        None => seq![],
    }
}

/// The headers that the first `n` targets name behind a prefix leave.
pub open spec fn delete_edits(values: Seq<Seq<char>>, prefix: Seq<char>, n: int) -> Seq<EditModel>
    decreases n,
{
    if n <= 0 {
        seq![]
    } else {
        delete_edits(values, prefix, n - 1) + delete_edit(values[n - 1], prefix)
    }
}

/// The changes that the operations make to the header fields of a request.
pub open spec fn request_edits(ops: Seq<OpText>) -> Seq<EditModel> {
    let set = operation::all_of(ops, "reqHeaders"@);
    let replaced = operation::all_of(ops, "headerReplace"@);
    let deleted = operation::all_of(ops, "delete"@);
    pairs_edits(set, set.len() as int) + type_edit(ops, "reqType"@) + value_edit(
        ops,
        "ua"@,
        "user-agent"@,
    ) + value_edit(ops, "referer"@, "referer"@) + cookies_edit(ops) + auth_edit(ops) + value_edit(
        ops,
        "reqCors"@,
        "origin"@,
    ) + value_edit(ops, "forwardedFor"@, "x-forwarded-for"@) + replace_edits(
        replaced,
        replaced.len() as int,
    ) + delete_edits(deleted, "reqHeaders."@, deleted.len() as int) + charset_edit(
        ops,
        "reqCharset"@,
    )
}

/// The cookies that the first `n` texts of the form `a=1&b=2` set in a response.
pub open spec fn set_cookie_edits(values: Seq<Seq<char>>, n: int) -> Seq<EditModel>
    decreases n,
{
    if n <= 0 {
        seq![]
    } else {
        set_cookie_edits(values, n - 1) + seqs::pieces(values[n - 1], "&"@).map_values(
            |p: Seq<char>| EditModel::Append("set-cookie"@, p),
        )
    }
}

/// The `content-disposition` header that `attachment` sets.
pub open spec fn attachment_edit(ops: Seq<OpText>) -> Seq<EditModel> {
    match operation::last_of(ops, "attachment"@) {
        Some(name) => seq![
            EditModel::Put(
                "content-disposition"@,
                "attachment; filename=\""@ + name + "\""@,
            ),
        ],
        None => seq![],
    }
}

/// The headers that `resCors` sets.
pub open spec fn cors_edits(ops: Seq<OpText>) -> Seq<EditModel> {
    match operation::last_of(ops, "resCors"@) {
        Some(origin) => {
            let three = seq![
                EditModel::Put("access-control-allow-origin"@, origin),
                EditModel::Put(
                    "access-control-allow-methods"@,
                    "GET, POST, PUT, DELETE, PATCH, OPTIONS, HEAD"@,
                ),
                EditModel::Put("access-control-allow-headers"@, "*"@),
            ];
            if origin == "*"@ {
                three
            } else {
                three.push(EditModel::Put("access-control-allow-credentials"@, "true"@))
            }
        },
        None => seq![],
    }
}

/// The changes that the operations make to the header fields of a response.
pub open spec fn response_edits(ops: Seq<OpText>) -> Seq<EditModel> {
    let set = operation::all_of(ops, "resHeaders"@);
    let cookies = operation::all_of(ops, "resCookies"@);
    let deleted = operation::all_of(ops, "delete"@);
    pairs_edits(set, set.len() as int) + type_edit(ops, "resType"@) + charset_edit(
        ops,
        "resCharset"@,
    ) + set_cookie_edits(cookies, cookies.len() as int) + attachment_edit(ops) + cors_edits(ops)
        + value_edit(ops, "locationHref"@, "location"@) + value_edit(
        ops,
        "cache"@,
        "cache-control"@,
    ) + delete_edits(
        deleted,
        "resHeaders."@,
        deleted.len() as int,
    )
}

fn push_edit(out: &mut Vec<HeaderEdit>, edit: HeaderEdit)
    ensures
        headers::edit_models(final(out)@) == headers::edit_models(old(out)@) + seq![edit@],
{
    let ghost before = headers::edit_models(out@);
    out.push(edit);
    proof {
        assert(headers::edit_models(out@) =~= before + seq![edit@]);
    }
}

fn push_value(out: &mut Vec<HeaderEdit>, ops: &[Operation], protocol: &str, name: &str)
    ensures
        headers::edit_models(final(out)@) == headers::edit_models(old(out)@) + value_edit(
            operation::op_texts(ops@),
            protocol@,
            name@,
        ),
{
    if let Some(v) = operation::last_value(ops, protocol) {
        push_edit(out, HeaderEdit::Put(name.to_string(), v.to_string()));
    } else {
        proof {
            assert(headers::edit_models(out@) =~= headers::edit_models(out@) + seq![]);
        }
    }
}

fn push_type(out: &mut Vec<HeaderEdit>, ops: &[Operation], protocol: &str)
    ensures
        headers::edit_models(final(out)@) == headers::edit_models(old(out)@) + type_edit(
            operation::op_texts(ops@),
            protocol@,
        ),
{
    if let Some(v) = operation::last_value(ops, protocol) {
        push_edit(out, HeaderEdit::Put("content-type".to_string(), mime_of(v)));
    } else {
        proof {
            assert(headers::edit_models(out@) =~= headers::edit_models(out@) + seq![]);
        }
    }
}

fn push_charset(out: &mut Vec<HeaderEdit>, ops: &[Operation], protocol: &str)
    ensures
        headers::edit_models(final(out)@) == headers::edit_models(old(out)@) + charset_edit(
            operation::op_texts(ops@),
            protocol@,
        ),
{
    if let Some(v) = operation::last_value(ops, protocol) {
        push_edit(out, HeaderEdit::Charset(v.to_string()));
    } else {
        proof {
            assert(headers::edit_models(out@) =~= headers::edit_models(out@) + seq![]);
        }
    }
}

fn push_pairs(out: &mut Vec<HeaderEdit>, values: &Vec<&str>)
    ensures
        headers::edit_models(final(out)@) == headers::edit_models(old(out)@) + pairs_edits(
            seqs::slices(values@),
            values@.len() as int,
        ),
{
    let ghost before = headers::edit_models(out@);
    let ghost all = seqs::slices(values@);
    let mut i: usize = 0;
    proof {
        assert(before =~= before + pairs_edits(all, 0));
    }
    while i < values.len()
        invariant
            i <= values.len(),
            all == seqs::slices(values@),
            headers::edit_models(out@) == before + pairs_edits(all, i as int),
        decreases values.len() - i,
    {
        let list = text::pieces(values[i], "&");
        let ghost parts = seqs::pieces(all[i as int], "&"@);
        let ghost edits = parts.map_values(|p: Seq<char>| pair_edit(p));
        let ghost start = headers::edit_models(out@);
        let mut j: usize = 0;
        proof {
            assert(start =~= start + edits.take(0));
        }
        while j < list.len()
            invariant
                j <= list.len(),
                seqs::slices(list@) == parts,
                edits == parts.map_values(|p: Seq<char>| pair_edit(p)),
                headers::edit_models(out@) == start + edits.take(j as int),
            decreases list.len() - j,
        {
            proof {
                assert(parts[j as int] == list@[j as int]@);
            }
            let (name, value) = text::pair(list[j]);
            push_edit(
                out,
                HeaderEdit::Put(text::trim(name).to_string(), text::trim(value).to_string()),
            );
            j += 1;
            proof {
                assert(start + edits.take(j - 1) + seq![edits[j - 1]] =~= start + edits.take(
                    j as int,
                ));
            }
        }
        i += 1;
        proof {
            assert(edits.take(edits.len() as int) =~= edits);
            assert(before + pairs_edits(all, i - 1) + edits =~= before + pairs_edits(
                all,
                i as int,
            ));
        }
    }
}

fn push_set_cookies(out: &mut Vec<HeaderEdit>, values: &Vec<&str>)
    ensures
        headers::edit_models(final(out)@) == headers::edit_models(old(out)@) + set_cookie_edits(
            seqs::slices(values@),
            values@.len() as int,
        ),
{
    let ghost before = headers::edit_models(out@);
    let ghost all = seqs::slices(values@);
    let mut i: usize = 0;
    proof {
        assert(before =~= before + set_cookie_edits(all, 0));
    }
    while i < values.len()
        invariant
            i <= values.len(),
            all == seqs::slices(values@),
            headers::edit_models(out@) == before + set_cookie_edits(all, i as int),
        decreases values.len() - i,
    {
        let list = text::pieces(values[i], "&");
        let ghost parts = seqs::pieces(all[i as int], "&"@);
        let ghost edits = parts.map_values(|p: Seq<char>| EditModel::Append("set-cookie"@, p));
        let ghost start = headers::edit_models(out@);
        let mut j: usize = 0;
        proof {
            assert(start =~= start + edits.take(0));
        }
        while j < list.len()
            invariant
                j <= list.len(),
                seqs::slices(list@) == parts,
                edits == parts.map_values(|p: Seq<char>| EditModel::Append("set-cookie"@, p)),
                headers::edit_models(out@) == start + edits.take(j as int),
            decreases list.len() - j,
        {
            proof {
                assert(parts[j as int] == list@[j as int]@);
            }
            push_edit(
                out,
                HeaderEdit::Append("set-cookie".to_string(), list[j].to_string()),
            );
            j += 1;
            proof {
                assert(start + edits.take(j - 1) + seq![edits[j - 1]] =~= start + edits.take(
                    j as int,
                ));
            }
        }
        i += 1;
        proof {
            assert(edits.take(edits.len() as int) =~= edits);
            assert(before + set_cookie_edits(all, i - 1) + edits =~= before + set_cookie_edits(
                all,
                i as int,
            ));
        }
    }
}

/// The cookies that texts of the form `a=1&b=2` name.
fn cookie_list(values: &Vec<&str>) -> (r: Vec<String>)
    ensures
        seqs::texts(r@) == cookies_of(seqs::slices(values@), values@.len() as int),
{
    let mut out: Vec<String> = Vec::new();
    let ghost all = seqs::slices(values@);
    let mut i: usize = 0;
    proof {
        assert(seqs::texts(out@) =~= cookies_of(all, 0));
    }
    while i < values.len()
        invariant
            i <= values.len(),
            all == seqs::slices(values@),
            seqs::texts(out@) == cookies_of(all, i as int),
        decreases values.len() - i,
    {
        let list = text::pieces(values[i], "&");
        let ghost parts = seqs::pieces(all[i as int], "&"@);
        let ghost trimmed = parts.map_values(|p: Seq<char>| seqs::trim(p));
        let ghost start = seqs::texts(out@);
        let mut j: usize = 0;
        proof {
            assert(start =~= start + trimmed.take(0));
        }
        while j < list.len()
            invariant
                j <= list.len(),
                seqs::slices(list@) == parts,
                trimmed == parts.map_values(|p: Seq<char>| seqs::trim(p)),
                seqs::texts(out@) == start + trimmed.take(j as int),
            decreases list.len() - j,
        {
            proof {
                assert(parts[j as int] == list@[j as int]@);
            }
            let ghost now = seqs::texts(out@);
            let c = text::trim(list[j]).to_string();
            out.push(c);
            j += 1;
            proof {
                assert(seqs::texts(out@) =~= now.push(trimmed[j - 1]));
                assert(seqs::texts(out@) =~= start + trimmed.take(j as int));
            }
        }
        i += 1;
        proof {
            assert(trimmed.take(trimmed.len() as int) =~= trimmed);
        }
    }
    out
}

fn push_cookies(out: &mut Vec<HeaderEdit>, ops: &[Operation])
    ensures
        headers::edit_models(final(out)@) == headers::edit_models(old(out)@) + cookies_edit(
            operation::op_texts(ops@),
        ),
{
    let values = operation::all_values(ops, "reqCookies");
    proof {
        assert(seqs::slices(values@).len() == values@.len());
    }
    if values.len() > 0 {
        let cookies = cookie_list(&values);
        push_edit(out, HeaderEdit::Cookies(cookies));
    } else {
        proof {
            assert(headers::edit_models(out@) =~= headers::edit_models(out@) + seq![]);
        }
    }
}

fn push_auth(out: &mut Vec<HeaderEdit>, ops: &[Operation])
    ensures
        headers::edit_models(final(out)@) == headers::edit_models(old(out)@) + auth_edit(
            operation::op_texts(ops@),
        ),
{
    if let Some(v) = operation::last_value(ops, "auth") {
        let code = base64(v.as_bytes());
        push_edit(
            out,
            HeaderEdit::Put("authorization".to_string(), text::cat("Basic ", code.as_str())),
        );
    } else {
        proof {
            assert(headers::edit_models(out@) =~= headers::edit_models(out@) + seq![]);
        }
    }
}

fn push_replaces(out: &mut Vec<HeaderEdit>, values: &Vec<&str>)
    ensures
        headers::edit_models(final(out)@) == headers::edit_models(old(out)@) + replace_edits(
            seqs::slices(values@),
            values@.len() as int,
        ),
{
    let ghost before = headers::edit_models(out@);
    let ghost all = seqs::slices(values@);
    let mut i: usize = 0;
    proof {
        assert(before =~= before + replace_edits(all, 0));
    }
    while i < values.len()
        invariant
            i <= values.len(),
            all == seqs::slices(values@),
            headers::edit_models(out@) == before + replace_edits(all, i as int),
        decreases values.len() - i,
    {
        let ghost now = headers::edit_models(out@);
        if let Some((name, rest)) = text::split_once(values[i], "=") {
            if let Some((from, to)) = text::split_once(rest, "|") {
                push_edit(
                    out,
                    HeaderEdit::Replace(name.to_string(), from.to_string(), to.to_string()),
                );
            }
        }
        i += 1;
        proof {
            assert(all[i - 1] == values@[i - 1]@);
            assert(headers::edit_models(out@) =~= now + replace_edit(all[i - 1]));
            assert(headers::edit_models(out@) =~= before + replace_edits(all, i as int));
        }
    }
}

fn push_deletes(out: &mut Vec<HeaderEdit>, values: &Vec<&str>, prefix: &str)
    ensures
        headers::edit_models(final(out)@) == headers::edit_models(old(out)@) + delete_edits(
            seqs::slices(values@),
            prefix@,
            values@.len() as int,
        ),
{
    let ghost before = headers::edit_models(out@);
    let ghost all = seqs::slices(values@);
    let mut i: usize = 0;
    proof {
        assert(before =~= before + delete_edits(all, prefix@, 0));
    }
    while i < values.len()
        invariant
            i <= values.len(),
            all == seqs::slices(values@),
            headers::edit_models(out@) == before + delete_edits(all, prefix@, i as int),
        decreases values.len() - i,
    {
        let ghost now = headers::edit_models(out@);
        if let Some(name) = text::strip_prefix(values[i], prefix) {
            push_edit(out, HeaderEdit::Remove(name.to_string()));
        }
        i += 1;
        proof {
            assert(all[i - 1] == values@[i - 1]@);
            assert(headers::edit_models(out@) =~= now + delete_edit(all[i - 1], prefix@));
            assert(headers::edit_models(out@) =~= before + delete_edits(all, prefix@, i as int));
        }
    }
}

fn push_attachment(out: &mut Vec<HeaderEdit>, ops: &[Operation])
    ensures
        headers::edit_models(final(out)@) == headers::edit_models(old(out)@) + attachment_edit(
            operation::op_texts(ops@),
        ),
{
    if let Some(name) = operation::last_value(ops, "attachment") {
        push_edit(
            out,
            HeaderEdit::Put(
                "content-disposition".to_string(),
                text::cat3("attachment; filename=\"", name, "\""),
            ),
        );
    } else {
        proof {
            assert(headers::edit_models(out@) =~= headers::edit_models(out@) + seq![]);
        }
    }
}

fn push_cors(out: &mut Vec<HeaderEdit>, ops: &[Operation])
    ensures
        headers::edit_models(final(out)@) == headers::edit_models(old(out)@) + cors_edits(
            operation::op_texts(ops@),
        ),
{
    let ghost before = headers::edit_models(out@);
    if let Some(origin) = operation::last_value(ops, "resCors") {
        push_edit(
            out,
            HeaderEdit::Put("access-control-allow-origin".to_string(), origin.to_string()),
        );
        push_edit(
            out,
            HeaderEdit::Put(
                "access-control-allow-methods".to_string(),
                "GET, POST, PUT, DELETE, PATCH, OPTIONS, HEAD".to_string(),
            ),
        );
        push_edit(
            out,
            HeaderEdit::Put("access-control-allow-headers".to_string(), "*".to_string()),
        );
        if !text::same(origin, "*") {
            push_edit(
                out,
                HeaderEdit::Put(
                    "access-control-allow-credentials".to_string(),
                    "true".to_string(),
                ),
            );
        }
    }
    proof {
        assert(headers::edit_models(out@) =~= before + cors_edits(operation::op_texts(ops@)));
    }
}

/// The changes that the operations make to the header fields of a request.
pub fn request_header_edits(ops: &[Operation]) -> (r: Vec<HeaderEdit>)
    ensures
        headers::edit_models(r@) == request_edits(operation::op_texts(ops@)),
{
    let mut out: Vec<HeaderEdit> = Vec::new();
    let ghost texts = operation::op_texts(ops@);
    let set = operation::all_values(ops, "reqHeaders");
    push_pairs(&mut out, &set);
    proof {
        assert(seqs::slices(set@).len() == set@.len());
        assert(headers::edit_models(out@) =~= pairs_edits(
            operation::all_of(texts, "reqHeaders"@),
            operation::all_of(texts, "reqHeaders"@).len() as int,
        ));
    }
    push_type(&mut out, ops, "reqType");
    push_value(&mut out, ops, "ua", "user-agent");
    push_value(&mut out, ops, "referer", "referer");
    push_cookies(&mut out, ops);
    push_auth(&mut out, ops);
    push_value(&mut out, ops, "reqCors", "origin");
    push_value(&mut out, ops, "forwardedFor", "x-forwarded-for");
    let replaced = operation::all_values(ops, "headerReplace");
    push_replaces(&mut out, &replaced);
    let deleted = operation::all_values(ops, "delete");
    push_deletes(&mut out, &deleted, "reqHeaders.");
    push_charset(&mut out, ops, "reqCharset");
    proof {
        assert(seqs::slices(replaced@).len() == replaced@.len());
        assert(seqs::slices(deleted@).len() == deleted@.len());
    }
    out
}

/// The changes that the operations make to the header fields of a response.
pub fn response_header_edits(ops: &[Operation]) -> (r: Vec<HeaderEdit>)
    ensures
        headers::edit_models(r@) == response_edits(operation::op_texts(ops@)),
{
    let mut out: Vec<HeaderEdit> = Vec::new();
    let ghost texts = operation::op_texts(ops@);
    let set = operation::all_values(ops, "resHeaders");
    push_pairs(&mut out, &set);
    proof {
        assert(seqs::slices(set@).len() == set@.len());
        assert(headers::edit_models(out@) =~= pairs_edits(
            operation::all_of(texts, "resHeaders"@),
            operation::all_of(texts, "resHeaders"@).len() as int,
        ));
    }
    push_type(&mut out, ops, "resType");
    push_charset(&mut out, ops, "resCharset");
    let cookies = operation::all_values(ops, "resCookies");
    push_set_cookies(&mut out, &cookies);
    push_attachment(&mut out, ops);
    push_cors(&mut out, ops);
    push_value(&mut out, ops, "locationHref", "location");
    push_value(&mut out, ops, "cache", "cache-control");
    let deleted = operation::all_values(ops, "delete");
    push_deletes(&mut out, &deleted, "resHeaders.");
    proof {
        assert(seqs::slices(cookies@).len() == cookies@.len());
        assert(seqs::slices(deleted@).len() == deleted@.len());
    }
    out
}

/// Makes the changes of the operations to the header fields of a request.
pub fn apply_request_headers(headers: &mut hyper::HeaderMap, ops: &[Operation])
    requires
        headers::has_room(
            headers::header_contents(*old(headers)),
            request_edits(operation::op_texts(ops@)).len() as int,
        ),
    ensures
        headers::header_contents(*final(headers)) == headers::edited_by(
            headers::header_contents(*old(headers)),
            request_edits(operation::op_texts(ops@)),
            request_edits(operation::op_texts(ops@)).len() as int,
        ),
{
    let edits = request_header_edits(ops);
    proof {
        assert(headers::edit_models(edits@).len() == edits@.len());
    }
    headers::apply_edits(headers, &edits);
}

/// Makes the changes of the operations to the header fields of a response.
pub fn apply_response(headers: &mut hyper::HeaderMap, ops: &[Operation])
    requires
        headers::has_room(
            headers::header_contents(*old(headers)),
            response_edits(operation::op_texts(ops@)).len() as int,
        ),
    ensures
        headers::header_contents(*final(headers)) == headers::edited_by(
            headers::header_contents(*old(headers)),
            response_edits(operation::op_texts(ops@)),
            response_edits(operation::op_texts(ops@)).len() as int,
        ),
{
    let edits = response_header_edits(ops);
    proof {
        assert(headers::edit_models(edits@).len() == edits@.len());
    }
    headers::apply_edits(headers, &edits);
}

// ---- laws ----

/// The header fields of a request once the operations were applied to it.
#[verifier::opaque]
pub open spec fn request_fields(contents: Map<Seq<char>, Seq<Seq<u8>>>, ops: Seq<OpText>) -> Map<
    Seq<char>,
    Seq<Seq<u8>>,
> {
    headers::edited_by(contents, request_edits(ops), request_edits(ops).len() as int)
}

/// The header fields of a response once the operations were applied to it.
#[verifier::opaque]
pub open spec fn response_fields(contents: Map<Seq<char>, Seq<Seq<u8>>>, ops: Seq<OpText>) -> Map<
    Seq<char>,
    Seq<Seq<u8>>,
> {
    headers::edited_by(contents, response_edits(ops), response_edits(ops).len() as int)
}

// The changes to a response where its operations are all of one protocol, and there is one of it.
#[verifier::spinoff_prover]
#[verifier::rlimit(60)]
proof fn lemma_one_response_edit(ops: Seq<OpText>, protocol: Seq<char>, value: Seq<char>)
    requires
        operation::all_of(ops, protocol) == seq![value],
        protocol != "resHeaders"@ ==> operation::all_of(ops, "resHeaders"@).len() == 0,
        protocol != "resType"@ ==> operation::all_of(ops, "resType"@).len() == 0,
        protocol != "resCharset"@ ==> operation::all_of(ops, "resCharset"@).len() == 0,
        protocol != "resCookies"@ ==> operation::all_of(ops, "resCookies"@).len() == 0,
        protocol != "attachment"@ ==> operation::all_of(ops, "attachment"@).len() == 0,
        protocol != "resCors"@ ==> operation::all_of(ops, "resCors"@).len() == 0,
        protocol != "locationHref"@ ==> operation::all_of(ops, "locationHref"@).len() == 0,
        protocol != "cache"@ ==> operation::all_of(ops, "cache"@).len() == 0,
        protocol != "delete"@ ==> operation::all_of(ops, "delete"@).len() == 0,
    ensures
        protocol == "resHeaders"@ ==> response_edits(ops) == pairs_edits(seq![value], 1),
        protocol == "resType"@
            ==> response_edits(ops) == seq![EditModel::Put("content-type"@, mime(value))],
        protocol == "resCharset"@ ==> response_edits(ops) == seq![EditModel::Charset(value)],
        protocol == "resCookies"@ ==> response_edits(ops) == set_cookie_edits(seq![value], 1),
        protocol == "attachment"@ ==> response_edits(ops) == attachment_edit(ops),
        protocol == "resCors"@ ==> response_edits(ops) == cors_edits(ops),
        protocol == "locationHref"@
            ==> response_edits(ops) == seq![EditModel::Put("location"@, value)],
        protocol == "cache"@
            ==> response_edits(ops) == seq![EditModel::Put("cache-control"@, value)],
        protocol == "delete"@
            ==> response_edits(ops) == delete_edits(seq![value], "resHeaders."@, 1),
{
    reveal_strlit("resHeaders");
    reveal_strlit("resType");
    reveal_strlit("resCharset");
    reveal_strlit("resCookies");
    reveal_strlit("attachment");
    reveal_strlit("resCors");
    reveal_strlit("locationHref");
    reveal_strlit("cache");
    reveal_strlit("delete");
    assert("resHeaders"@.len() == 10 && "resHeaders"@[0] == 'r' && "resHeaders"@[2] == 's'
        && "resHeaders"@[3] == 'H' && "resHeaders"@[4] == 'e');
    assert("resType"@.len() == 7 && "resType"@[0] == 'r' && "resType"@[2] == 's'
        && "resType"@[3] == 'T' && "resType"@[4] == 'y');
    assert("resCharset"@.len() == 10 && "resCharset"@[0] == 'r' && "resCharset"@[2] == 's'
        && "resCharset"@[3] == 'C' && "resCharset"@[4] == 'h');
    assert("resCookies"@.len() == 10 && "resCookies"@[0] == 'r' && "resCookies"@[2] == 's'
        && "resCookies"@[3] == 'C' && "resCookies"@[4] == 'o');
    assert("attachment"@.len() == 10 && "attachment"@[0] == 'a' && "attachment"@[2] == 't'
        && "attachment"@[3] == 'a' && "attachment"@[4] == 'c');
    assert("resCors"@.len() == 7 && "resCors"@[0] == 'r' && "resCors"@[2] == 's'
        && "resCors"@[3] == 'C' && "resCors"@[4] == 'o');
    assert("locationHref"@.len() == 12 && "locationHref"@[0] == 'l' && "locationHref"@[2] == 'c'
        && "locationHref"@[3] == 'a' && "locationHref"@[4] == 't');
    assert("cache"@.len() == 5 && "cache"@[0] == 'c' && "cache"@[2] == 'c' && "cache"@[3] == 'h'
        && "cache"@[4] == 'e');
    assert("delete"@.len() == 6 && "delete"@[0] == 'd' && "delete"@[2] == 'l'
        && "delete"@[3] == 'e' && "delete"@[4] == 't');
    operation::law_last_value_ends_all_values(ops, "resHeaders"@);
    operation::law_last_value_ends_all_values(ops, "resType"@);
    operation::law_last_value_ends_all_values(ops, "resCharset"@);
    operation::law_last_value_ends_all_values(ops, "resCookies"@);
    operation::law_last_value_ends_all_values(ops, "attachment"@);
    operation::law_last_value_ends_all_values(ops, "resCors"@);
    operation::law_last_value_ends_all_values(ops, "locationHref"@);
    operation::law_last_value_ends_all_values(ops, "cache"@);
    operation::law_last_value_ends_all_values(ops, "delete"@);
    let none = Seq::<EditModel>::empty();
    assert(seq![value].len() == 1);
    if protocol == "resHeaders"@ {
        assert(response_edits(ops) =~= pairs_edits(seq![value], 1));
    }
    if protocol == "resType"@ {
        assert(response_edits(ops) =~= seq![EditModel::Put("content-type"@, mime(value))]);
    }
    if protocol == "resCharset"@ {
        assert(response_edits(ops) =~= seq![EditModel::Charset(value)]);
    }
    if protocol == "resCookies"@ {
        assert(response_edits(ops) =~= set_cookie_edits(seq![value], 1));
    }
    if protocol == "attachment"@ {
        assert(response_edits(ops) =~= attachment_edit(ops));
    }
    if protocol == "resCors"@ {
        assert(response_edits(ops) =~= cors_edits(ops));
    }
    if protocol == "locationHref"@ {
        assert(response_edits(ops) =~= seq![EditModel::Put("location"@, value)]);
    }
    if protocol == "cache"@ {
        assert(response_edits(ops) =~= seq![EditModel::Put("cache-control"@, value)]);
    }
    if protocol == "delete"@ {
        assert(response_edits(ops) =~= delete_edits(seq![value], "resHeaders."@, 1));
    }
}

// Without such operations, nothing changes in a response.
proof fn lemma_no_response_edit(ops: Seq<OpText>)
    requires
        operation::all_of(ops, "resHeaders"@).len() == 0,
        operation::all_of(ops, "resType"@).len() == 0,
        operation::all_of(ops, "resCharset"@).len() == 0,
        operation::all_of(ops, "resCookies"@).len() == 0,
        operation::all_of(ops, "attachment"@).len() == 0,
        operation::all_of(ops, "resCors"@).len() == 0,
        operation::all_of(ops, "locationHref"@).len() == 0,
        operation::all_of(ops, "cache"@).len() == 0,
        operation::all_of(ops, "delete"@).len() == 0,
    ensures
        response_edits(ops) == Seq::<EditModel>::empty(),
{
    operation::law_last_value_ends_all_values(ops, "resHeaders"@);
    operation::law_last_value_ends_all_values(ops, "resType"@);
    operation::law_last_value_ends_all_values(ops, "resCharset"@);
    operation::law_last_value_ends_all_values(ops, "resCookies"@);
    operation::law_last_value_ends_all_values(ops, "attachment"@);
    operation::law_last_value_ends_all_values(ops, "resCors"@);
    operation::law_last_value_ends_all_values(ops, "locationHref"@);
    operation::law_last_value_ends_all_values(ops, "cache"@);
    operation::law_last_value_ends_all_values(ops, "delete"@);
    assert(response_edits(ops) =~= Seq::<EditModel>::empty());
}

// The changes to a request where its operations are all of one protocol, and there is one of it.
#[verifier::spinoff_prover]
#[verifier::rlimit(60)]
proof fn lemma_one_request_edit(ops: Seq<OpText>, protocol: Seq<char>, value: Seq<char>)
    requires
        operation::all_of(ops, protocol) == seq![value],
        protocol != "reqHeaders"@ ==> operation::all_of(ops, "reqHeaders"@).len() == 0,
        protocol != "reqType"@ ==> operation::all_of(ops, "reqType"@).len() == 0,
        protocol != "ua"@ ==> operation::all_of(ops, "ua"@).len() == 0,
        protocol != "referer"@ ==> operation::all_of(ops, "referer"@).len() == 0,
        protocol != "reqCookies"@ ==> operation::all_of(ops, "reqCookies"@).len() == 0,
        protocol != "auth"@ ==> operation::all_of(ops, "auth"@).len() == 0,
        protocol != "reqCors"@ ==> operation::all_of(ops, "reqCors"@).len() == 0,
        protocol != "forwardedFor"@ ==> operation::all_of(ops, "forwardedFor"@).len() == 0,
        protocol != "headerReplace"@ ==> operation::all_of(ops, "headerReplace"@).len() == 0,
        protocol != "delete"@ ==> operation::all_of(ops, "delete"@).len() == 0,
        protocol != "reqCharset"@ ==> operation::all_of(ops, "reqCharset"@).len() == 0,
    ensures
        protocol == "reqHeaders"@ ==> request_edits(ops) == pairs_edits(seq![value], 1),
        protocol == "reqType"@
            ==> request_edits(ops) == seq![EditModel::Put("content-type"@, mime(value))],
        protocol == "ua"@ ==> request_edits(ops) == seq![EditModel::Put("user-agent"@, value)],
        protocol == "referer"@ ==> request_edits(ops) == seq![EditModel::Put("referer"@, value)],
        protocol == "reqCookies"@
            ==> request_edits(ops) == seq![EditModel::Cookies(cookies_of(seq![value], 1))],
        protocol == "auth"@ ==> request_edits(ops) == auth_edit(ops),
        protocol == "reqCors"@ ==> request_edits(ops) == seq![EditModel::Put("origin"@, value)],
        protocol == "forwardedFor"@
            ==> request_edits(ops) == seq![EditModel::Put("x-forwarded-for"@, value)],
        protocol == "headerReplace"@ ==> request_edits(ops) == replace_edits(seq![value], 1),
        protocol == "delete"@
            ==> request_edits(ops) == delete_edits(seq![value], "reqHeaders."@, 1),
        protocol == "reqCharset"@ ==> request_edits(ops) == seq![EditModel::Charset(value)],
{
    reveal_strlit("reqHeaders");
    reveal_strlit("reqType");
    reveal_strlit("ua");
    reveal_strlit("referer");
    reveal_strlit("reqCookies");
    reveal_strlit("auth");
    reveal_strlit("reqCors");
    reveal_strlit("forwardedFor");
    reveal_strlit("headerReplace");
    reveal_strlit("delete");
    reveal_strlit("reqCharset");
    assert("reqHeaders"@.len() == 10 && "reqHeaders"@[0] == 'r' && "reqHeaders"@[2] == 'q'
        && "reqHeaders"@[3] == 'H' && "reqHeaders"@[4] == 'e');
    assert("reqType"@.len() == 7 && "reqType"@[0] == 'r' && "reqType"@[2] == 'q'
        && "reqType"@[3] == 'T' && "reqType"@[4] == 'y');
    assert("ua"@.len() == 2 && "ua"@[0] == 'u');
    assert("referer"@.len() == 7 && "referer"@[0] == 'r' && "referer"@[2] == 'f'
        && "referer"@[3] == 'e' && "referer"@[4] == 'r');
    assert("reqCookies"@.len() == 10 && "reqCookies"@[0] == 'r' && "reqCookies"@[2] == 'q'
        && "reqCookies"@[3] == 'C' && "reqCookies"@[4] == 'o');
    assert("auth"@.len() == 4 && "auth"@[0] == 'a' && "auth"@[2] == 't' && "auth"@[3] == 'h');
    assert("reqCors"@.len() == 7 && "reqCors"@[0] == 'r' && "reqCors"@[2] == 'q'
        && "reqCors"@[3] == 'C' && "reqCors"@[4] == 'o');
    assert("forwardedFor"@.len() == 12 && "forwardedFor"@[0] == 'f' && "forwardedFor"@[2] == 'r'
        && "forwardedFor"@[3] == 'w' && "forwardedFor"@[4] == 'a');
    assert("headerReplace"@.len() == 13 && "headerReplace"@[0] == 'h'
        && "headerReplace"@[2] == 'a' && "headerReplace"@[3] == 'd' && "headerReplace"@[4] == 'e');
    assert("delete"@.len() == 6 && "delete"@[0] == 'd' && "delete"@[2] == 'l'
        && "delete"@[3] == 'e' && "delete"@[4] == 't');
    assert("reqCharset"@.len() == 10 && "reqCharset"@[0] == 'r' && "reqCharset"@[2] == 'q'
        && "reqCharset"@[3] == 'C' && "reqCharset"@[4] == 'h');
    operation::law_last_value_ends_all_values(ops, "reqHeaders"@);
    operation::law_last_value_ends_all_values(ops, "reqType"@);
    operation::law_last_value_ends_all_values(ops, "ua"@);
    operation::law_last_value_ends_all_values(ops, "referer"@);
    operation::law_last_value_ends_all_values(ops, "reqCookies"@);
    operation::law_last_value_ends_all_values(ops, "auth"@);
    operation::law_last_value_ends_all_values(ops, "reqCors"@);
    operation::law_last_value_ends_all_values(ops, "forwardedFor"@);
    operation::law_last_value_ends_all_values(ops, "headerReplace"@);
    operation::law_last_value_ends_all_values(ops, "delete"@);
    operation::law_last_value_ends_all_values(ops, "reqCharset"@);
    let none = Seq::<EditModel>::empty();
    assert(seq![value].len() == 1);
    if protocol == "reqHeaders"@ {
        assert(request_edits(ops) =~= pairs_edits(seq![value], 1));
    }
    if protocol == "reqType"@ {
        assert(request_edits(ops) =~= seq![EditModel::Put("content-type"@, mime(value))]);
    }
    if protocol == "ua"@ {
        assert(request_edits(ops) =~= seq![EditModel::Put("user-agent"@, value)]);
    }
    if protocol == "referer"@ {
        assert(request_edits(ops) =~= seq![EditModel::Put("referer"@, value)]);
    }
    if protocol == "reqCookies"@ {
        assert(request_edits(ops) =~= seq![EditModel::Cookies(cookies_of(seq![value], 1))]);
    }
    if protocol == "auth"@ {
        assert(request_edits(ops) =~= auth_edit(ops));
    }
    if protocol == "reqCors"@ {
        assert(request_edits(ops) =~= seq![EditModel::Put("origin"@, value)]);
    }
    if protocol == "forwardedFor"@ {
        assert(request_edits(ops) =~= seq![EditModel::Put("x-forwarded-for"@, value)]);
    }
    if protocol == "headerReplace"@ {
        assert(request_edits(ops) =~= replace_edits(seq![value], 1));
    }
    if protocol == "delete"@ {
        assert(request_edits(ops) =~= delete_edits(seq![value], "reqHeaders."@, 1));
    }
    if protocol == "reqCharset"@ {
        assert(request_edits(ops) =~= seq![EditModel::Charset(value)]);
    }
}

// Without such operations, nothing changes in a request.
proof fn lemma_no_request_edit(ops: Seq<OpText>)
    requires
        operation::all_of(ops, "reqHeaders"@).len() == 0,
        operation::all_of(ops, "reqType"@).len() == 0,
        operation::all_of(ops, "ua"@).len() == 0,
        operation::all_of(ops, "referer"@).len() == 0,
        operation::all_of(ops, "reqCookies"@).len() == 0,
        operation::all_of(ops, "auth"@).len() == 0,
        operation::all_of(ops, "reqCors"@).len() == 0,
        operation::all_of(ops, "forwardedFor"@).len() == 0,
        operation::all_of(ops, "headerReplace"@).len() == 0,
        operation::all_of(ops, "delete"@).len() == 0,
        operation::all_of(ops, "reqCharset"@).len() == 0,
    ensures
        request_edits(ops) == Seq::<EditModel>::empty(),
{
    operation::law_last_value_ends_all_values(ops, "reqHeaders"@);
    operation::law_last_value_ends_all_values(ops, "reqType"@);
    operation::law_last_value_ends_all_values(ops, "ua"@);
    operation::law_last_value_ends_all_values(ops, "referer"@);
    operation::law_last_value_ends_all_values(ops, "reqCookies"@);
    operation::law_last_value_ends_all_values(ops, "auth"@);
    operation::law_last_value_ends_all_values(ops, "reqCors"@);
    operation::law_last_value_ends_all_values(ops, "forwardedFor"@);
    operation::law_last_value_ends_all_values(ops, "headerReplace"@);
    operation::law_last_value_ends_all_values(ops, "delete"@);
    operation::law_last_value_ends_all_values(ops, "reqCharset"@);
    assert(request_edits(ops) =~= Seq::<EditModel>::empty());
}

// A pair alone sets its field.
proof fn lemma_one_pair(name: Seq<char>, value: Seq<char>)
    requires
        headers::is_header_name(name),
        seqs::lacks(name, '&') && seqs::lacks(value, '&'),
        seqs::trim(value) == value,
    ensures
        pairs_edits(seq![name + seq!['='] + value], 1) == seq![EditModel::Put(name, value)],
{
    let p = name + seq!['='] + value;
    reveal_strlit("&");
    assert("&"@ =~= seq!['&']);
    assert forall|i: int| 0 <= i < p.len() implies #[trigger] p[i] != '&' by {
        if i < name.len() {
            assert(p[i] == name[i]);
        } else if i > name.len() {
            assert(p[i] == value[i - name.len() - 1]);
        }
    }
    seqs::law_joined_texts_are_read_back(seq![p], '&');
    assert(seqs::join(seq![p], seq!['&']) == p);
    assert(seqs::pieces(p, "&"@) == seq![p]);
    headers::lemma_names_are_words(name);
    seqs::law_pair_is_read_at_the_first_sign(name, value);
    let none = Seq::<char>::empty();
    seqs::law_trim_takes_white_space_off(none, name, none);
    assert(none + name + none =~= name);
    reveal_with_fuel(pairs_edits, 2);
    assert(seq![p][0] == p);
    assert(pairs_edits(seq![p], 1) =~= seq![EditModel::Put(name, value)]);
}

// One change alone.
proof fn lemma_edited_once(contents: Map<Seq<char>, Seq<Seq<u8>>>, edit: EditModel)
    ensures
        headers::edited_by(contents, seq![edit], 1) == headers::edited(contents, edit),
        headers::edited_by(contents, Seq::empty(), 0) == contents,
{
    reveal_with_fuel(headers::edited_by, 2);
    assert(seq![edit][0] == edit);
}

proof fn lemma_response_fields(
    contents: Map<Seq<char>, Seq<Seq<u8>>>,
    ops: Seq<OpText>,
    edit: EditModel,
)
    requires
        response_edits(ops) == seq![edit],
    ensures
        response_fields(contents, ops) == headers::edited(contents, edit),
{
    reveal(response_fields);
    lemma_edited_once(contents, edit);
}

proof fn lemma_request_fields(
    contents: Map<Seq<char>, Seq<Seq<u8>>>,
    ops: Seq<OpText>,
    edit: EditModel,
)
    requires
        request_edits(ops) == seq![edit],
    ensures
        request_fields(contents, ops) == headers::edited(contents, edit),
{
    reveal(request_fields);
    lemma_edited_once(contents, edit);
}

#[verifier::spinoff_prover]
#[verifier::rlimit(60)]
proof fn lemma_one_response_field(
    contents: Map<Seq<char>, Seq<Seq<u8>>>,
    ops: Seq<OpText>,
    protocol: Seq<char>,
    value: Seq<char>,
)
    requires
        operation::all_of(ops, protocol) == seq![value],
        protocol != "resHeaders"@ ==> operation::all_of(ops, "resHeaders"@).len() == 0,
        protocol != "resType"@ ==> operation::all_of(ops, "resType"@).len() == 0,
        protocol != "resCharset"@ ==> operation::all_of(ops, "resCharset"@).len() == 0,
        protocol != "resCookies"@ ==> operation::all_of(ops, "resCookies"@).len() == 0,
        protocol != "attachment"@ ==> operation::all_of(ops, "attachment"@).len() == 0,
        protocol != "resCors"@ ==> operation::all_of(ops, "resCors"@).len() == 0,
        protocol != "locationHref"@ ==> operation::all_of(ops, "locationHref"@).len() == 0,
        protocol != "cache"@ ==> operation::all_of(ops, "cache"@).len() == 0,
        protocol != "delete"@ ==> operation::all_of(ops, "delete"@).len() == 0,
    ensures
        protocol == "resType"@
            ==> response_fields(contents, ops)
            == headers::edited(contents, EditModel::Put("content-type"@, mime(value))),
        protocol == "resCharset"@
            ==> response_fields(contents, ops)
            == headers::edited(contents, EditModel::Charset(value)),
        protocol == "locationHref"@
            ==> response_fields(contents, ops)
            == headers::edited(contents, EditModel::Put("location"@, value)),
        protocol == "cache"@
            ==> response_fields(contents, ops)
            == headers::edited(contents, EditModel::Put("cache-control"@, value)),
        protocol == "attachment"@
            ==> response_fields(contents, ops)
            == headers::edited(contents, EditModel::Put("content-disposition"@,
            "attachment; filename=\""@ + value + "\""@)),
        protocol == "resCookies"@ && set_cookie_edits(seq![value], 1).len() == 1
            ==> response_fields(contents, ops)
            == headers::edited(contents, set_cookie_edits(seq![value], 1)[0]),
{
    lemma_one_response_edit(ops, protocol, value);
    operation::law_last_value_ends_all_values(ops, protocol);
    let edits = response_edits(ops);
    if edits.len() == 1 {
        assert(edits =~= seq![edits[0]]);
        lemma_response_fields(contents, ops, edits[0]);
    }
}

#[verifier::spinoff_prover]
#[verifier::rlimit(60)]
proof fn lemma_one_request_field(
    contents: Map<Seq<char>, Seq<Seq<u8>>>,
    ops: Seq<OpText>,
    protocol: Seq<char>,
    value: Seq<char>,
)
    requires
        operation::all_of(ops, protocol) == seq![value],
        protocol != "reqHeaders"@ ==> operation::all_of(ops, "reqHeaders"@).len() == 0,
        protocol != "reqType"@ ==> operation::all_of(ops, "reqType"@).len() == 0,
        protocol != "ua"@ ==> operation::all_of(ops, "ua"@).len() == 0,
        protocol != "referer"@ ==> operation::all_of(ops, "referer"@).len() == 0,
        protocol != "reqCookies"@ ==> operation::all_of(ops, "reqCookies"@).len() == 0,
        protocol != "auth"@ ==> operation::all_of(ops, "auth"@).len() == 0,
        protocol != "reqCors"@ ==> operation::all_of(ops, "reqCors"@).len() == 0,
        protocol != "forwardedFor"@ ==> operation::all_of(ops, "forwardedFor"@).len() == 0,
        protocol != "headerReplace"@ ==> operation::all_of(ops, "headerReplace"@).len() == 0,
        protocol != "delete"@ ==> operation::all_of(ops, "delete"@).len() == 0,
        protocol != "reqCharset"@ ==> operation::all_of(ops, "reqCharset"@).len() == 0,
    ensures
        protocol == "reqType"@
            ==> request_fields(contents, ops)
            == headers::edited(contents, EditModel::Put("content-type"@, mime(value))),
        protocol == "reqCharset"@
            ==> request_fields(contents, ops)
            == headers::edited(contents, EditModel::Charset(value)),
        protocol == "ua"@
            ==> request_fields(contents, ops)
            == headers::edited(contents, EditModel::Put("user-agent"@, value)),
        protocol == "referer"@
            ==> request_fields(contents, ops)
            == headers::edited(contents, EditModel::Put("referer"@, value)),
        protocol == "reqCors"@
            ==> request_fields(contents, ops)
            == headers::edited(contents, EditModel::Put("origin"@, value)),
        protocol == "forwardedFor"@
            ==> request_fields(contents, ops)
            == headers::edited(contents, EditModel::Put("x-forwarded-for"@, value)),
        protocol == "auth"@
            ==> request_fields(contents, ops)
            == headers::edited(contents, EditModel::Put("authorization"@, "Basic "@
            + base64_text(vstd::utf8::encode_utf8(value)))),
        protocol == "reqCookies"@
            ==> request_fields(contents, ops)
            == headers::edited(contents, EditModel::Cookies(cookies_of(seq![value], 1))),
{
    lemma_one_request_edit(ops, protocol, value);
    operation::law_last_value_ends_all_values(ops, protocol);
    let edits = request_edits(ops);
    if edits.len() == 1 {
        assert(edits =~= seq![edits[0]]);
        lemma_request_fields(contents, ops, edits[0]);
    }
}

/// A `resHeaders` with a name and a value sets that field of the response, and that field alone.
#[verifier::spinoff_prover]
#[verifier::rlimit(60)]
pub proof fn law_res_headers_set_the_field(
    contents: Map<Seq<char>, Seq<Seq<u8>>>,
    ops: Seq<OpText>,
    name: Seq<char>,
    value: Seq<char>,
)
    requires
        ({
            let protocol = "resHeaders"@;
            &&& operation::all_of(ops, protocol) == seq![name + seq!['='] + value]
            &&& (protocol != "resHeaders"@ ==> operation::all_of(ops, "resHeaders"@).len() == 0)
            &&& (protocol != "resType"@ ==> operation::all_of(ops, "resType"@).len() == 0)
            &&& (protocol != "resCharset"@ ==> operation::all_of(ops, "resCharset"@).len() == 0)
            &&& (protocol != "resCookies"@ ==> operation::all_of(ops, "resCookies"@).len() == 0)
            &&& (protocol != "attachment"@ ==> operation::all_of(ops, "attachment"@).len() == 0)
            &&& (protocol != "resCors"@ ==> operation::all_of(ops, "resCors"@).len() == 0)
            &&& (protocol != "locationHref"@ ==> operation::all_of(ops, "locationHref"@).len() == 0)
            &&& (protocol != "cache"@ ==> operation::all_of(ops, "cache"@).len() == 0)
            &&& (protocol != "delete"@ ==> operation::all_of(ops, "delete"@).len() == 0)
        }),
        headers::is_header_name(name),
        headers::is_header_value(value),
        seqs::lacks(name, '&') && seqs::lacks(value, '&'),
        seqs::trim(value) == value,
    ensures
        response_fields(contents, ops) == contents.insert(
            seqs::lower(name),
            seq![vstd::utf8::encode_utf8(value)],
        ),
{
    assert(response_edits(ops) == seq![EditModel::Put(name, value)]) by {
        lemma_one_response_edit(ops, "resHeaders"@, name + seq!['='] + value);
        lemma_one_pair(name, value);
    }
    lemma_response_fields(contents, ops, EditModel::Put(name, value));
}

/// A `reqHeaders` with a name and a value sets that field of the request, and that field alone.
#[verifier::spinoff_prover]
#[verifier::rlimit(60)]
pub proof fn law_req_headers_set_the_field(
    contents: Map<Seq<char>, Seq<Seq<u8>>>,
    ops: Seq<OpText>,
    name: Seq<char>,
    value: Seq<char>,
)
    requires
        ({
            let protocol = "reqHeaders"@;
            &&& operation::all_of(ops, protocol) == seq![name + seq!['='] + value]
            &&& (protocol != "reqHeaders"@ ==> operation::all_of(ops, "reqHeaders"@).len() == 0)
            &&& (protocol != "reqType"@ ==> operation::all_of(ops, "reqType"@).len() == 0)
            &&& (protocol != "ua"@ ==> operation::all_of(ops, "ua"@).len() == 0)
            &&& (protocol != "referer"@ ==> operation::all_of(ops, "referer"@).len() == 0)
            &&& (protocol != "reqCookies"@ ==> operation::all_of(ops, "reqCookies"@).len() == 0)
            &&& (protocol != "auth"@ ==> operation::all_of(ops, "auth"@).len() == 0)
            &&& (protocol != "reqCors"@ ==> operation::all_of(ops, "reqCors"@).len() == 0)
            &&& (protocol != "forwardedFor"@ ==> operation::all_of(ops, "forwardedFor"@).len() == 0)
            &&& (protocol != "headerReplace"@
                ==> operation::all_of(ops, "headerReplace"@).len() == 0)
            &&& (protocol != "delete"@ ==> operation::all_of(ops, "delete"@).len() == 0)
            &&& (protocol != "reqCharset"@ ==> operation::all_of(ops, "reqCharset"@).len() == 0)
        }),
        headers::is_header_name(name),
        headers::is_header_value(value),
        seqs::lacks(name, '&') && seqs::lacks(value, '&'),
        seqs::trim(value) == value,
    ensures
        request_fields(contents, ops) == contents.insert(
            seqs::lower(name),
            seq![vstd::utf8::encode_utf8(value)],
        ),
{
    assert(request_edits(ops) == seq![EditModel::Put(name, value)]) by {
        lemma_one_request_edit(ops, "reqHeaders"@, name + seq!['='] + value);
        lemma_one_pair(name, value);
    }
    lemma_request_fields(contents, ops, EditModel::Put(name, value));
}

/// Operations of protocols that are about no response leave the fields of a response as they are,
/// and those that are about no request leave the fields of a request: what sets fields of the one
/// does nothing to the other.
#[verifier::spinoff_prover]
#[verifier::rlimit(60)]
pub proof fn law_fields_of_the_other_side_are_left(
    contents: Map<Seq<char>, Seq<Seq<u8>>>,
    op: OpText,
)
    ensures
        op.protocol == "reqHeaders"@ || op.protocol == "reqType"@ || op.protocol == "ua"@
            || op.protocol == "referer"@ || op.protocol == "reqCookies"@ || op.protocol == "auth"@
            || op.protocol == "reqCors"@ || op.protocol == "forwardedFor"@ || op.protocol
            == "headerReplace"@ || op.protocol == "reqCharset"@ ==> response_fields(
            contents,
            seq![op],
        ) == contents,
        op.protocol == "resHeaders"@ || op.protocol == "resType"@ || op.protocol == "resCharset"@
            || op.protocol == "resCookies"@ || op.protocol == "attachment"@ || op.protocol
            == "resCors"@ || op.protocol == "locationHref"@ || op.protocol == "cache"@
            ==> request_fields(contents, seq![op]) == contents,
{
    reveal_strlit("resHeaders");
    reveal_strlit("resType");
    reveal_strlit("resCharset");
    reveal_strlit("resCookies");
    reveal_strlit("attachment");
    reveal_strlit("resCors");
    reveal_strlit("locationHref");
    reveal_strlit("cache");
    reveal_strlit("delete");
    reveal_strlit("reqHeaders");
    reveal_strlit("reqType");
    reveal_strlit("ua");
    reveal_strlit("referer");
    reveal_strlit("reqCookies");
    reveal_strlit("auth");
    reveal_strlit("reqCors");
    reveal_strlit("forwardedFor");
    reveal_strlit("headerReplace");
    reveal_strlit("reqCharset");
    assert("resHeaders"@.len() == 10 && "resHeaders"@[0] == 'r' && "resHeaders"@[2] == 's'
        && "resHeaders"@[3] == 'H' && "resHeaders"@[4] == 'e');
    assert("resType"@.len() == 7 && "resType"@[0] == 'r' && "resType"@[2] == 's'
        && "resType"@[3] == 'T' && "resType"@[4] == 'y');
    assert("resCharset"@.len() == 10 && "resCharset"@[0] == 'r' && "resCharset"@[2] == 's'
        && "resCharset"@[3] == 'C' && "resCharset"@[4] == 'h');
    assert("resCookies"@.len() == 10 && "resCookies"@[0] == 'r' && "resCookies"@[2] == 's'
        && "resCookies"@[3] == 'C' && "resCookies"@[4] == 'o');
    assert("attachment"@.len() == 10 && "attachment"@[0] == 'a' && "attachment"@[2] == 't'
        && "attachment"@[3] == 'a' && "attachment"@[4] == 'c');
    assert("resCors"@.len() == 7 && "resCors"@[0] == 'r' && "resCors"@[2] == 's'
        && "resCors"@[3] == 'C' && "resCors"@[4] == 'o');
    assert("locationHref"@.len() == 12 && "locationHref"@[0] == 'l' && "locationHref"@[2] == 'c'
        && "locationHref"@[3] == 'a' && "locationHref"@[4] == 't');
    assert("cache"@.len() == 5 && "cache"@[0] == 'c' && "cache"@[2] == 'c' && "cache"@[3] == 'h'
        && "cache"@[4] == 'e');
    assert("delete"@.len() == 6 && "delete"@[0] == 'd' && "delete"@[2] == 'l'
        && "delete"@[3] == 'e' && "delete"@[4] == 't');
    assert("reqHeaders"@.len() == 10 && "reqHeaders"@[0] == 'r' && "reqHeaders"@[2] == 'q'
        && "reqHeaders"@[3] == 'H' && "reqHeaders"@[4] == 'e');
    assert("reqType"@.len() == 7 && "reqType"@[0] == 'r' && "reqType"@[2] == 'q'
        && "reqType"@[3] == 'T' && "reqType"@[4] == 'y');
    assert("ua"@.len() == 2 && "ua"@[0] == 'u');
    assert("referer"@.len() == 7 && "referer"@[0] == 'r' && "referer"@[2] == 'f'
        && "referer"@[3] == 'e' && "referer"@[4] == 'r');
    assert("reqCookies"@.len() == 10 && "reqCookies"@[0] == 'r' && "reqCookies"@[2] == 'q'
        && "reqCookies"@[3] == 'C' && "reqCookies"@[4] == 'o');
    assert("auth"@.len() == 4 && "auth"@[0] == 'a' && "auth"@[2] == 't' && "auth"@[3] == 'h');
    assert("reqCors"@.len() == 7 && "reqCors"@[0] == 'r' && "reqCors"@[2] == 'q'
        && "reqCors"@[3] == 'C' && "reqCors"@[4] == 'o');
    assert("forwardedFor"@.len() == 12 && "forwardedFor"@[0] == 'f' && "forwardedFor"@[2] == 'r'
        && "forwardedFor"@[3] == 'w' && "forwardedFor"@[4] == 'a');
    assert("headerReplace"@.len() == 13 && "headerReplace"@[0] == 'h'
        && "headerReplace"@[2] == 'a' && "headerReplace"@[3] == 'd' && "headerReplace"@[4] == 'e');
    assert("reqCharset"@.len() == 10 && "reqCharset"@[0] == 'r' && "reqCharset"@[2] == 'q'
        && "reqCharset"@[3] == 'C' && "reqCharset"@[4] == 'h');
    operation::law_one_operation_has_one_value(op, "resHeaders"@);
    operation::law_one_operation_has_one_value(op, "resType"@);
    operation::law_one_operation_has_one_value(op, "resCharset"@);
    operation::law_one_operation_has_one_value(op, "resCookies"@);
    operation::law_one_operation_has_one_value(op, "attachment"@);
    operation::law_one_operation_has_one_value(op, "resCors"@);
    operation::law_one_operation_has_one_value(op, "locationHref"@);
    operation::law_one_operation_has_one_value(op, "cache"@);
    operation::law_one_operation_has_one_value(op, "delete"@);
    operation::law_one_operation_has_one_value(op, "reqHeaders"@);
    operation::law_one_operation_has_one_value(op, "reqType"@);
    operation::law_one_operation_has_one_value(op, "ua"@);
    operation::law_one_operation_has_one_value(op, "referer"@);
    operation::law_one_operation_has_one_value(op, "reqCookies"@);
    operation::law_one_operation_has_one_value(op, "auth"@);
    operation::law_one_operation_has_one_value(op, "reqCors"@);
    operation::law_one_operation_has_one_value(op, "forwardedFor"@);
    operation::law_one_operation_has_one_value(op, "headerReplace"@);
    operation::law_one_operation_has_one_value(op, "reqCharset"@);
    if op.protocol == "reqHeaders"@ || op.protocol == "reqType"@ || op.protocol == "ua"@
        || op.protocol
        == "referer"@ || op.protocol == "reqCookies"@ || op.protocol == "auth"@ || op.protocol
        == "reqCors"@ || op.protocol == "forwardedFor"@ || op.protocol == "headerReplace"@
        || op.protocol == "reqCharset"@ {
        lemma_no_response_edit(seq![op]);
        reveal(response_fields);
    }
    if op.protocol == "resHeaders"@ || op.protocol == "resType"@ || op.protocol == "resCharset"@
        || op.protocol == "resCookies"@ || op.protocol == "attachment"@ || op.protocol
        == "resCors"@ || op.protocol == "locationHref"@ || op.protocol == "cache"@ {
        lemma_no_request_edit(seq![op]);
        reveal(request_fields);
    }
}

/// Where no operation is about the fields of a response, they stay as they are.
pub proof fn law_res_fields_are_left(
    contents: Map<Seq<char>, Seq<Seq<u8>>>,
    ops: Seq<OpText>,
)
    requires
        operation::all_of(ops, "resHeaders"@).len() == 0,
        operation::all_of(ops, "resType"@).len() == 0,
        operation::all_of(ops, "resCharset"@).len() == 0,
        operation::all_of(ops, "resCookies"@).len() == 0,
        operation::all_of(ops, "attachment"@).len() == 0,
        operation::all_of(ops, "resCors"@).len() == 0,
        operation::all_of(ops, "locationHref"@).len() == 0,
        operation::all_of(ops, "cache"@).len() == 0,
        operation::all_of(ops, "delete"@).len() == 0,
    ensures
        response_fields(contents, ops) == contents,
{
    lemma_no_response_edit(ops);
    reveal(response_fields);
}

/// Where no operation is about the fields of a request, they stay as they are.
pub proof fn law_req_fields_are_left(
    contents: Map<Seq<char>, Seq<Seq<u8>>>,
    ops: Seq<OpText>,
)
    requires
        operation::all_of(ops, "reqHeaders"@).len() == 0,
        operation::all_of(ops, "reqType"@).len() == 0,
        operation::all_of(ops, "ua"@).len() == 0,
        operation::all_of(ops, "referer"@).len() == 0,
        operation::all_of(ops, "reqCookies"@).len() == 0,
        operation::all_of(ops, "auth"@).len() == 0,
        operation::all_of(ops, "reqCors"@).len() == 0,
        operation::all_of(ops, "forwardedFor"@).len() == 0,
        operation::all_of(ops, "headerReplace"@).len() == 0,
        operation::all_of(ops, "delete"@).len() == 0,
        operation::all_of(ops, "reqCharset"@).len() == 0,
    ensures
        request_fields(contents, ops) == contents,
{
    lemma_no_request_edit(ops);
    reveal(request_fields);
}

/// Each operation on a response sets the field that it is about, where it alone is about the
/// fields: the content type, the target of a redirection, what caches may do, the name of a file to
/// save, and a cookie behind those that are set already.
#[verifier::spinoff_prover]
#[verifier::rlimit(60)]
pub proof fn law_one_operation_on_the_res_fields(
    contents: Map<Seq<char>, Seq<Seq<u8>>>,
    ops: Seq<OpText>,
    protocol: Seq<char>,
    value: Seq<char>,
)
    requires
        operation::all_of(ops, protocol) == seq![value],
        protocol != "resHeaders"@ ==> operation::all_of(ops, "resHeaders"@).len() == 0,
        protocol != "resType"@ ==> operation::all_of(ops, "resType"@).len() == 0,
        protocol != "resCharset"@ ==> operation::all_of(ops, "resCharset"@).len() == 0,
        protocol != "resCookies"@ ==> operation::all_of(ops, "resCookies"@).len() == 0,
        protocol != "attachment"@ ==> operation::all_of(ops, "attachment"@).len() == 0,
        protocol != "resCors"@ ==> operation::all_of(ops, "resCors"@).len() == 0,
        protocol != "locationHref"@ ==> operation::all_of(ops, "locationHref"@).len() == 0,
        protocol != "cache"@ ==> operation::all_of(ops, "cache"@).len() == 0,
        protocol != "delete"@ ==> operation::all_of(ops, "delete"@).len() == 0,
    ensures
        protocol == "resType"@ ==> response_fields(contents, ops) == headers::with_set(
            contents,
            "content-type"@,
            mime(value),
        ),
        protocol == "resCharset"@ ==> response_fields(contents, ops) == headers::with_set(
            contents,
            "content-type"@,
            headers::charset_type(headers::first_text(contents, "content-type"@), value),
        ),
        protocol == "locationHref"@ ==> response_fields(contents, ops) == headers::with_set(
            contents,
            "location"@,
            value,
        ),
        protocol == "cache"@ ==> response_fields(contents, ops) == headers::with_set(
            contents,
            "cache-control"@,
            value,
        ),
        protocol == "attachment"@ ==> response_fields(contents, ops) == headers::with_set(
            contents,
            "content-disposition"@,
            "attachment; filename=\""@ + value + seq!['"'],
        ),
        protocol == "resCookies"@ && value.len() > 0 && seqs::lacks(value, '&')
            && headers::is_header_value(value) ==> response_fields(contents, ops)
            == contents.insert(
            "set-cookie"@,
            headers::values_of(contents, "set-cookie"@).push(vstd::utf8::encode_utf8(value)),
        ),
{
    reveal_strlit("\"");
    assert("\""@ =~= seq!['"']);
    lemma_one_response_field(contents, ops, protocol, value);
    if protocol == "resCookies"@ && value.len() > 0 && seqs::lacks(value, '&') {
        lemma_one_set_cookie(value);
        reveal_strlit("set-cookie");
        assert(seqs::lower("set-cookie"@) =~= "set-cookie"@);
        headers::lemma_plain_name("set-cookie"@);
    }
}

proof fn lemma_one_set_cookie(value: Seq<char>)
    requires
        value.len() > 0,
        seqs::lacks(value, '&'),
    ensures
        set_cookie_edits(seq![value], 1) == seq![EditModel::Append("set-cookie"@, value)],
{
    reveal_strlit("&");
    assert("&"@ =~= seq!['&']);
    seqs::law_joined_texts_are_read_back(seq![value], '&');
    reveal_with_fuel(set_cookie_edits, 2);
    assert(seq![value][0] == value);
    assert(set_cookie_edits(seq![value], 1) =~= seq![EditModel::Append("set-cookie"@, value)]);
}

/// A `resCors` names the origin that may read the response, and lets it use any method and field.
/// Unless any origin may, it may send its credentials.
#[verifier::spinoff_prover]
#[verifier::rlimit(60)]
pub proof fn law_res_cors_allows_the_origin(
    contents: Map<Seq<char>, Seq<Seq<u8>>>,
    ops: Seq<OpText>,
    origin: Seq<char>,
)
    requires
        ({
            let protocol = "resCors"@;
            &&& operation::all_of(ops, protocol) == seq![origin]
            &&& (protocol != "resHeaders"@ ==> operation::all_of(ops, "resHeaders"@).len() == 0)
            &&& (protocol != "resType"@ ==> operation::all_of(ops, "resType"@).len() == 0)
            &&& (protocol != "resCharset"@ ==> operation::all_of(ops, "resCharset"@).len() == 0)
            &&& (protocol != "resCookies"@ ==> operation::all_of(ops, "resCookies"@).len() == 0)
            &&& (protocol != "attachment"@ ==> operation::all_of(ops, "attachment"@).len() == 0)
            &&& (protocol != "resCors"@ ==> operation::all_of(ops, "resCors"@).len() == 0)
            &&& (protocol != "locationHref"@ ==> operation::all_of(ops, "locationHref"@).len() == 0)
            &&& (protocol != "cache"@ ==> operation::all_of(ops, "cache"@).len() == 0)
            &&& (protocol != "delete"@ ==> operation::all_of(ops, "delete"@).len() == 0)
        }),
        headers::is_header_value(origin),
    ensures
        ({
            let open = contents.insert(
                "access-control-allow-origin"@,
                seq![vstd::utf8::encode_utf8(origin)],
            ).insert(
                "access-control-allow-methods"@,
                seq![vstd::utf8::encode_utf8("GET, POST, PUT, DELETE, PATCH, OPTIONS, HEAD"@)],
            ).insert(
                "access-control-allow-headers"@,
                seq![vstd::utf8::encode_utf8(seq!['*'])],
            );
            response_fields(contents, ops) == if origin == seq!['*'] {
                open
            } else {
                open.insert(
                    "access-control-allow-credentials"@,
                    seq![vstd::utf8::encode_utf8(seq!['t', 'r', 'u', 'e'])],
                )
            }
        }),
{
    reveal(response_fields);
    assert(response_edits(ops) == cors_edits(ops)) by {
        lemma_one_response_edit(ops, "resCors"@, origin);
    }
    operation::law_last_value_ends_all_values(ops, "resCors"@);
    lemma_cors_fields(contents, ops, origin);
}

#[verifier::spinoff_prover]
#[verifier::rlimit(60)]
proof fn lemma_cors_fields(
    contents: Map<Seq<char>, Seq<Seq<u8>>>,
    ops: Seq<OpText>,
    origin: Seq<char>,
)
    requires
        operation::last_of(ops, "resCors"@) == Some(origin),
        headers::is_header_value(origin),
    ensures
        ({
            let open = contents.insert(
                "access-control-allow-origin"@,
                seq![vstd::utf8::encode_utf8(origin)],
            ).insert(
                "access-control-allow-methods"@,
                seq![vstd::utf8::encode_utf8("GET, POST, PUT, DELETE, PATCH, OPTIONS, HEAD"@)],
            ).insert(
                "access-control-allow-headers"@,
                seq![vstd::utf8::encode_utf8(seq!['*'])],
            );
            headers::edited_by(contents, cors_edits(ops), cors_edits(ops).len() as int)
                == if origin == seq!['*'] {
                open
            } else {
                open.insert(
                    "access-control-allow-credentials"@,
                    seq![vstd::utf8::encode_utf8(seq!['t', 'r', 'u', 'e'])],
                )
            }
        }),
{
    reveal_strlit("*");
    assert("*"@ =~= seq!['*']);
    reveal_strlit("true");
    assert("true"@ =~= seq!['t', 'r', 'u', 'e']);
    assert(headers::is_header_value("GET, POST, PUT, DELETE, PATCH, OPTIONS, HEAD"@)) by {
        reveal_strlit("GET, POST, PUT, DELETE, PATCH, OPTIONS, HEAD");
    }
    assert(headers::is_header_name("access-control-allow-origin"@) && seqs::lower(
        "access-control-allow-origin"@,
    ) == "access-control-allow-origin"@) by {
        reveal_strlit("access-control-allow-origin");
        assert(seqs::lower("access-control-allow-origin"@) =~= "access-control-allow-origin"@);
        headers::lemma_plain_name("access-control-allow-origin"@);
    }
    assert(headers::is_header_name("access-control-allow-methods"@) && seqs::lower(
        "access-control-allow-methods"@,
    ) == "access-control-allow-methods"@) by {
        reveal_strlit("access-control-allow-methods");
        assert(seqs::lower("access-control-allow-methods"@) =~= "access-control-allow-methods"@);
        headers::lemma_plain_name("access-control-allow-methods"@);
    }
    assert(headers::is_header_name("access-control-allow-headers"@) && seqs::lower(
        "access-control-allow-headers"@,
    ) == "access-control-allow-headers"@) by {
        reveal_strlit("access-control-allow-headers");
        assert(seqs::lower("access-control-allow-headers"@) =~= "access-control-allow-headers"@);
        headers::lemma_plain_name("access-control-allow-headers"@);
    }
    assert(headers::is_header_name("access-control-allow-credentials"@) && seqs::lower(
        "access-control-allow-credentials"@,
    ) == "access-control-allow-credentials"@) by {
        reveal_strlit("access-control-allow-credentials");
        assert(seqs::lower("access-control-allow-credentials"@)
            =~= "access-control-allow-credentials"@);
        headers::lemma_plain_name("access-control-allow-credentials"@);
    }
    reveal_with_fuel(headers::edited_by, 5);
    let edits = cors_edits(ops);
    let m1 = headers::edited_by(contents, edits, 1);
    assert(m1 == headers::edited(contents, edits[0]));
    let m2 = headers::edited_by(contents, edits, 2);
    assert(m2 == headers::edited(m1, edits[1]));
    let m3 = headers::edited_by(contents, edits, 3);
    assert(m3 == headers::edited(m2, edits[2]));
}

/// Each operation on a request sets the field that it is about, where it alone is about the fields.
/// Credentials are those of the basic scheme, in base64.
#[verifier::spinoff_prover]
#[verifier::rlimit(60)]
pub proof fn law_one_operation_on_the_req_fields(
    contents: Map<Seq<char>, Seq<Seq<u8>>>,
    ops: Seq<OpText>,
    protocol: Seq<char>,
    value: Seq<char>,
)
    requires
        operation::all_of(ops, protocol) == seq![value],
        protocol != "reqHeaders"@ ==> operation::all_of(ops, "reqHeaders"@).len() == 0,
        protocol != "reqType"@ ==> operation::all_of(ops, "reqType"@).len() == 0,
        protocol != "ua"@ ==> operation::all_of(ops, "ua"@).len() == 0,
        protocol != "referer"@ ==> operation::all_of(ops, "referer"@).len() == 0,
        protocol != "reqCookies"@ ==> operation::all_of(ops, "reqCookies"@).len() == 0,
        protocol != "auth"@ ==> operation::all_of(ops, "auth"@).len() == 0,
        protocol != "reqCors"@ ==> operation::all_of(ops, "reqCors"@).len() == 0,
        protocol != "forwardedFor"@ ==> operation::all_of(ops, "forwardedFor"@).len() == 0,
        protocol != "headerReplace"@ ==> operation::all_of(ops, "headerReplace"@).len() == 0,
        protocol != "delete"@ ==> operation::all_of(ops, "delete"@).len() == 0,
        protocol != "reqCharset"@ ==> operation::all_of(ops, "reqCharset"@).len() == 0,
    ensures
        protocol == "reqType"@ ==> request_fields(contents, ops) == headers::with_set(
            contents,
            "content-type"@,
            mime(value),
        ),
        protocol == "reqCharset"@ ==> request_fields(contents, ops) == headers::with_set(
            contents,
            "content-type"@,
            headers::charset_type(headers::first_text(contents, "content-type"@), value),
        ),
        protocol == "ua"@ ==> request_fields(contents, ops) == headers::with_set(
            contents,
            "user-agent"@,
            value,
        ),
        protocol == "referer"@ ==> request_fields(contents, ops) == headers::with_set(
            contents,
            "referer"@,
            value,
        ),
        protocol == "reqCors"@ ==> request_fields(contents, ops) == headers::with_set(
            contents,
            "origin"@,
            value,
        ),
        protocol == "forwardedFor"@ ==> request_fields(contents, ops) == headers::with_set(
            contents,
            "x-forwarded-for"@,
            value,
        ),
        protocol == "auth"@ ==> request_fields(contents, ops) == headers::with_set(
            contents,
            "authorization"@,
            seq!['B', 'a', 's', 'i', 'c', ' '] + base64_text(vstd::utf8::encode_utf8(value)),
        ),
        protocol == "reqCookies"@ && value.len() > 0 && seqs::lacks(value, '&') && seqs::trim(value)
            == value ==> request_fields(contents, ops) == headers::with_set(
            contents,
            "cookie"@,
            match headers::first_text(contents, "cookie"@) {
                Some(t) => t + seq![';', ' '] + value,
                None => value,
            },
        ),
{
    reveal_strlit("Basic ");
    assert("Basic "@ =~= seq!['B', 'a', 's', 'i', 'c', ' ']);
    lemma_one_request_field(contents, ops, protocol, value);
    if protocol == "reqCookies"@ && value.len() > 0 && seqs::lacks(value, '&') && seqs::trim(value)
        == value {
        lemma_one_cookie(value);
        reveal_strlit("; ");
        assert("; "@ =~= seq![';', ' ']);
        if let Some(t) = headers::first_text(contents, "cookie"@) {
            assert(seq![t] + seq![value] =~= seq![t].push(value));
            seqs::law_parts_are_joined_in_order(seq![t], "; "@, value);
            assert(seqs::join(seq![t], "; "@) == t);
        }
    }
}

proof fn lemma_one_cookie(value: Seq<char>)
    requires
        value.len() > 0,
        seqs::lacks(value, '&'),
        seqs::trim(value) == value,
    ensures
        cookies_of(seq![value], 1) == seq![value],
{
    reveal_strlit("&");
    assert("&"@ =~= seq!['&']);
    seqs::law_joined_texts_are_read_back(seq![value], '&');
    reveal_with_fuel(cookies_of, 2);
    assert(seq![value][0] == value);
    assert(cookies_of(seq![value], 1) =~= seq![value]);
}

/// A `delete` of `resHeaders.` and a name takes that field out of the response, and one of
/// `reqHeaders.` and a name out of the request. Neither does anything to the other.
#[verifier::spinoff_prover]
#[verifier::rlimit(60)]
pub proof fn law_deleted_field_leaves_its_side(
    contents: Map<Seq<char>, Seq<Seq<u8>>>,
    name: Seq<char>,
    raw: Seq<char>,
)
    requires
        headers::is_header_name(name),
    ensures
        ({
            let of_res = seq![
                OpText { protocol: "delete"@, value: "resHeaders."@ + name, raw },
            ];
            let of_req = seq![
                OpText { protocol: "delete"@, value: "reqHeaders."@ + name, raw },
            ];
            &&& response_fields(contents, of_res) == contents.remove(seqs::lower(name))
            &&& request_fields(contents, of_req) == contents.remove(seqs::lower(name))
            &&& response_fields(contents, of_req) == contents
            &&& request_fields(contents, of_res) == contents
        }),
{
    reveal(request_fields);
    reveal(response_fields);
    let a = "resHeaders."@ + name;
    let b = "reqHeaders."@ + name;
    let of_res = OpText { protocol: "delete"@, value: a, raw };
    let of_req = OpText { protocol: "delete"@, value: b, raw };
    lemma_delete_alone(of_res);
    lemma_delete_alone(of_req);
    reveal_strlit("resHeaders.");
    reveal_strlit("reqHeaders.");
    seqs::law_a_start_is_followed_by_the_rest(a, "resHeaders."@, name);
    seqs::law_a_start_is_followed_by_the_rest(b, "reqHeaders."@, name);
    assert(!seqs::starts_with(a, "reqHeaders."@)) by {
        assert(a.subrange(0, 11)[2] == 's');
        assert("reqHeaders."@[2] == 'q');
    }
    assert(!seqs::starts_with(b, "resHeaders."@)) by {
        assert(b.subrange(0, 11)[2] == 'q');
        assert("resHeaders."@[2] == 's');
    }
    reveal_with_fuel(delete_edits, 2);
    assert(seq![a][0] == a && seq![b][0] == b);
    let remove = EditModel::Remove(name);
    assert(delete_edits(seq![a], "resHeaders."@, 1) =~= seq![remove]);
    assert(delete_edits(seq![b], "reqHeaders."@, 1) =~= seq![remove]);
    assert(delete_edits(seq![a], "reqHeaders."@, 1) =~= seq![]);
    assert(delete_edits(seq![b], "resHeaders."@, 1) =~= seq![]);
    lemma_edited_once(contents, remove);
}

#[verifier::spinoff_prover]
#[verifier::rlimit(60)]
proof fn lemma_delete_alone(op: OpText)
    requires
        op.protocol == "delete"@,
    ensures
        response_edits(seq![op]) == delete_edits(seq![op.value], "resHeaders."@, 1),
        request_edits(seq![op]) == delete_edits(seq![op.value], "reqHeaders."@, 1),
{
    reveal_strlit("resHeaders");
    reveal_strlit("resType");
    reveal_strlit("resCharset");
    reveal_strlit("resCookies");
    reveal_strlit("attachment");
    reveal_strlit("resCors");
    reveal_strlit("locationHref");
    reveal_strlit("cache");
    reveal_strlit("delete");
    reveal_strlit("reqHeaders");
    reveal_strlit("reqType");
    reveal_strlit("ua");
    reveal_strlit("referer");
    reveal_strlit("reqCookies");
    reveal_strlit("auth");
    reveal_strlit("reqCors");
    reveal_strlit("forwardedFor");
    reveal_strlit("headerReplace");
    reveal_strlit("reqCharset");
    assert("resHeaders"@.len() == 10 && "resHeaders"@[0] == 'r' && "resHeaders"@[2] == 's'
        && "resHeaders"@[3] == 'H' && "resHeaders"@[4] == 'e');
    assert("resType"@.len() == 7 && "resType"@[0] == 'r' && "resType"@[2] == 's'
        && "resType"@[3] == 'T' && "resType"@[4] == 'y');
    assert("resCharset"@.len() == 10 && "resCharset"@[0] == 'r' && "resCharset"@[2] == 's'
        && "resCharset"@[3] == 'C' && "resCharset"@[4] == 'h');
    assert("resCookies"@.len() == 10 && "resCookies"@[0] == 'r' && "resCookies"@[2] == 's'
        && "resCookies"@[3] == 'C' && "resCookies"@[4] == 'o');
    assert("attachment"@.len() == 10 && "attachment"@[0] == 'a' && "attachment"@[2] == 't'
        && "attachment"@[3] == 'a' && "attachment"@[4] == 'c');
    assert("resCors"@.len() == 7 && "resCors"@[0] == 'r' && "resCors"@[2] == 's'
        && "resCors"@[3] == 'C' && "resCors"@[4] == 'o');
    assert("locationHref"@.len() == 12 && "locationHref"@[0] == 'l' && "locationHref"@[2] == 'c'
        && "locationHref"@[3] == 'a' && "locationHref"@[4] == 't');
    assert("cache"@.len() == 5 && "cache"@[0] == 'c' && "cache"@[2] == 'c' && "cache"@[3] == 'h'
        && "cache"@[4] == 'e');
    assert("delete"@.len() == 6 && "delete"@[0] == 'd' && "delete"@[2] == 'l'
        && "delete"@[3] == 'e' && "delete"@[4] == 't');
    assert("reqHeaders"@.len() == 10 && "reqHeaders"@[0] == 'r' && "reqHeaders"@[2] == 'q'
        && "reqHeaders"@[3] == 'H' && "reqHeaders"@[4] == 'e');
    assert("reqType"@.len() == 7 && "reqType"@[0] == 'r' && "reqType"@[2] == 'q'
        && "reqType"@[3] == 'T' && "reqType"@[4] == 'y');
    assert("ua"@.len() == 2 && "ua"@[0] == 'u');
    assert("referer"@.len() == 7 && "referer"@[0] == 'r' && "referer"@[2] == 'f'
        && "referer"@[3] == 'e' && "referer"@[4] == 'r');
    assert("reqCookies"@.len() == 10 && "reqCookies"@[0] == 'r' && "reqCookies"@[2] == 'q'
        && "reqCookies"@[3] == 'C' && "reqCookies"@[4] == 'o');
    assert("auth"@.len() == 4 && "auth"@[0] == 'a' && "auth"@[2] == 't' && "auth"@[3] == 'h');
    assert("reqCors"@.len() == 7 && "reqCors"@[0] == 'r' && "reqCors"@[2] == 'q'
        && "reqCors"@[3] == 'C' && "reqCors"@[4] == 'o');
    assert("forwardedFor"@.len() == 12 && "forwardedFor"@[0] == 'f' && "forwardedFor"@[2] == 'r'
        && "forwardedFor"@[3] == 'w' && "forwardedFor"@[4] == 'a');
    assert("headerReplace"@.len() == 13 && "headerReplace"@[0] == 'h'
        && "headerReplace"@[2] == 'a' && "headerReplace"@[3] == 'd' && "headerReplace"@[4] == 'e');
    assert("reqCharset"@.len() == 10 && "reqCharset"@[0] == 'r' && "reqCharset"@[2] == 'q'
        && "reqCharset"@[3] == 'C' && "reqCharset"@[4] == 'h');
    operation::law_one_operation_has_one_value(op, "resHeaders"@);
    operation::law_one_operation_has_one_value(op, "resType"@);
    operation::law_one_operation_has_one_value(op, "resCharset"@);
    operation::law_one_operation_has_one_value(op, "resCookies"@);
    operation::law_one_operation_has_one_value(op, "attachment"@);
    operation::law_one_operation_has_one_value(op, "resCors"@);
    operation::law_one_operation_has_one_value(op, "locationHref"@);
    operation::law_one_operation_has_one_value(op, "cache"@);
    operation::law_one_operation_has_one_value(op, "delete"@);
    operation::law_one_operation_has_one_value(op, "reqHeaders"@);
    operation::law_one_operation_has_one_value(op, "reqType"@);
    operation::law_one_operation_has_one_value(op, "ua"@);
    operation::law_one_operation_has_one_value(op, "referer"@);
    operation::law_one_operation_has_one_value(op, "reqCookies"@);
    operation::law_one_operation_has_one_value(op, "auth"@);
    operation::law_one_operation_has_one_value(op, "reqCors"@);
    operation::law_one_operation_has_one_value(op, "forwardedFor"@);
    operation::law_one_operation_has_one_value(op, "headerReplace"@);
    operation::law_one_operation_has_one_value(op, "reqCharset"@);
    lemma_one_response_edit(seq![op], "delete"@, op.value);
    lemma_one_request_edit(seq![op], "delete"@, op.value);
}

/// A `headerReplace` of `name=from|to` makes the replacement in the value of that field of the
/// request, where the field is there and holds what is to be replaced. Else nothing changes.
#[verifier::spinoff_prover]
#[verifier::rlimit(60)]
pub proof fn law_header_replace_changes_the_field(
    contents: Map<Seq<char>, Seq<Seq<u8>>>,
    ops: Seq<OpText>,
    name: Seq<char>,
    from: Seq<char>,
    to: Seq<char>,
)
    requires
        ({
            let protocol = "headerReplace"@;
            &&& operation::all_of(ops, protocol) == seq![
                name + seq!['='] + (from + seq!['|'] + to),
            ]
            &&& (protocol != "reqHeaders"@ ==> operation::all_of(ops, "reqHeaders"@).len() == 0)
            &&& (protocol != "reqType"@ ==> operation::all_of(ops, "reqType"@).len() == 0)
            &&& (protocol != "ua"@ ==> operation::all_of(ops, "ua"@).len() == 0)
            &&& (protocol != "referer"@ ==> operation::all_of(ops, "referer"@).len() == 0)
            &&& (protocol != "reqCookies"@ ==> operation::all_of(ops, "reqCookies"@).len() == 0)
            &&& (protocol != "auth"@ ==> operation::all_of(ops, "auth"@).len() == 0)
            &&& (protocol != "reqCors"@ ==> operation::all_of(ops, "reqCors"@).len() == 0)
            &&& (protocol != "forwardedFor"@ ==> operation::all_of(ops, "forwardedFor"@).len() == 0)
            &&& (protocol != "headerReplace"@
                ==> operation::all_of(ops, "headerReplace"@).len() == 0)
            &&& (protocol != "delete"@ ==> operation::all_of(ops, "delete"@).len() == 0)
            &&& (protocol != "reqCharset"@ ==> operation::all_of(ops, "reqCharset"@).len() == 0)
        }),
        seqs::lacks(name, '='),
        seqs::lacks(from, '|'),
    ensures
        request_fields(contents, ops) == match headers::first_text(contents, name) {
            Some(t) => if seqs::contains(t, from) {
                headers::with_set(contents, name, seqs::replace(t, from, to))
            } else {
                contents
            },
            None => contents,
        },
{
    let v = name + seq!['='] + (from + seq!['|'] + to);
    lemma_one_request_edit(ops, "headerReplace"@, v);
    reveal_strlit("=");
    reveal_strlit("|");
    assert("="@ =~= seq!['=']);
    assert("|"@ =~= seq!['|']);
    seqs::law_text_is_cut_at_the_first(name, '=', from + seq!['|'] + to);
    seqs::law_text_is_cut_at_the_first(from, '|', to);
    reveal_with_fuel(replace_edits, 2);
    assert(seq![v][0] == v);
    reveal(request_fields);
    let edit = EditModel::Replace(name, from, to);
    assert(replace_edits(seq![v], 1) =~= seq![edit]);
    lemma_edited_once(contents, edit);
}

/// Fields are set in the order of the operations, and within one in the order of its pairs.
pub proof fn law_pairs_are_set_in_order(values: Seq<Seq<char>>, pairs: Seq<Seq<char>>)
    requires
        forall|i: int|
            0 <= i < pairs.len() ==> (#[trigger] pairs[i]).len() > 0 && seqs::lacks(pairs[i], '&'),
    ensures
        pairs_edits(values.push(seqs::join(pairs, seq!['&'])), values.len() + 1int) == pairs_edits(
            values,
            values.len() as int,
        ) + Seq::new(
            pairs.len(),
            |i: int|
                EditModel::Put(
                    seqs::trim(seqs::pair(pairs[i]).0),
                    seqs::trim(seqs::pair(pairs[i]).1),
                ),
        ),
{
    reveal_strlit("&");
    assert("&"@ =~= seq!['&']);
    seqs::law_joined_texts_are_read_back(pairs, '&');
    let n = values.len() as int;
    let all = values.push(seqs::join(pairs, seq!['&']));
    lemma_pairs_same(values, all, n);
    assert(all[n] == seqs::join(pairs, seq!['&']));
    assert(pairs.map_values(|p: Seq<char>| pair_edit(p)) =~= Seq::new(
        pairs.len(),
        |i: int|
            EditModel::Put(
                seqs::trim(seqs::pair(pairs[i]).0),
                seqs::trim(seqs::pair(pairs[i]).1),
            ),
    ));
}

proof fn lemma_pairs_same(a: Seq<Seq<char>>, b: Seq<Seq<char>>, n: int)
    requires
        n <= a.len(),
        n <= b.len(),
        forall|i: int| 0 <= i < n ==> a[i] == b[i],
    ensures
        pairs_edits(a, n) == pairs_edits(b, n),
    decreases n,
{
    if n > 0 {
        lemma_pairs_same(a, b, n - 1);
    }
}

/// A deleted field of a response is gone, whatever the other operations set.
pub proof fn law_deleted_field_is_gone(
    contents: Map<Seq<char>, Seq<Seq<u8>>>,
    ops: Seq<OpText>,
    name: Seq<char>,
)
    requires
        headers::is_header_name(name),
        operation::all_of(ops, "delete"@).contains("resHeaders."@ + name),
    ensures
        !response_fields(contents, ops).contains_key(seqs::lower(name)),
{
    reveal(response_fields);
    let deleted = operation::all_of(ops, "delete"@);
    let all = response_edits(ops);
    let tail = delete_edits(deleted, "resHeaders."@, deleted.len() as int);
    let head = all.take(all.len() - tail.len());
    assert(all =~= head + tail);
    lemma_edited_in_turn(contents, head, tail, tail.len() as int);
    seqs::law_a_start_is_followed_by_the_rest("resHeaders."@ + name, "resHeaders."@, name);
    let k = choose|k: int| 0 <= k < deleted.len() && deleted[k] == "resHeaders."@ + name;
    let start = headers::edited_by(contents, head, head.len() as int);
    lemma_deletes_remove(start, deleted, "resHeaders."@, k, deleted.len() as int, name);
}

proof fn lemma_edited_in_turn(
    contents: Map<Seq<char>, Seq<Seq<u8>>>,
    a: Seq<EditModel>,
    b: Seq<EditModel>,
    n: int,
)
    requires
        0 <= n <= b.len(),
    ensures
        headers::edited_by(contents, a + b, a.len() + n) == headers::edited_by(
            headers::edited_by(contents, a, a.len() as int),
            b,
            n,
        ),
    decreases n,
{
    if n > 0 {
        lemma_edited_in_turn(contents, a, b, n - 1);
        assert((a + b)[a.len() + n - 1] == b[n - 1]);
    } else {
        lemma_edited_same(contents, a, a + b, a.len() as int);
    }
}

proof fn lemma_edited_same(
    contents: Map<Seq<char>, Seq<Seq<u8>>>,
    a: Seq<EditModel>,
    b: Seq<EditModel>,
    n: int,
)
    requires
        n <= a.len(),
        n <= b.len(),
        forall|i: int| 0 <= i < n ==> a[i] == b[i],
    ensures
        headers::edited_by(contents, a, n) == headers::edited_by(contents, b, n),
    decreases n,
{
    if n > 0 {
        lemma_edited_same(contents, a, b, n - 1);
    }
}

proof fn lemma_deletes_remove(
    contents: Map<Seq<char>, Seq<Seq<u8>>>,
    deleted: Seq<Seq<char>>,
    prefix: Seq<char>,
    k: int,
    n: int,
    name: Seq<char>,
)
    requires
        0 <= k < n <= deleted.len(),
        headers::is_header_name(name),
        seqs::strip_prefix(deleted[k], prefix) == Some(name),
    ensures
        ({
            let edits = delete_edits(deleted, prefix, n);
            !headers::edited_by(contents, edits, edits.len() as int).contains_key(seqs::lower(name))
        }),
    decreases n,
{
    let before = delete_edits(deleted, prefix, n - 1);
    let last = delete_edit(deleted[n - 1], prefix);
    let edits = delete_edits(deleted, prefix, n);
    assert(edits == before + last);
    lemma_edited_in_turn(contents, before, last, last.len() as int);
    let mid = headers::edited_by(contents, before, before.len() as int);
    if last.len() > 0 {
        lemma_edited_once(mid, last[0]);
        assert(last =~= seq![last[0]]);
    } else {
        assert(last =~= Seq::empty());
        lemma_edited_once(mid, EditModel::Remove(name));
    }
    if k < n - 1 {
        lemma_deletes_remove(contents, deleted, prefix, k, n - 1, name);
    }
}

/// A content type with a `/` stands for itself, and so does a name that is none of the short ones.
/// The short names stand for types of texts, programs and pictures.
pub proof fn law_short_names_of_types(t: Seq<char>)
    ensures
        t.contains('/') ==> mime(t) == t,
        t == "html"@ ==> mime(t) == "text/html"@,
        t == "css"@ ==> mime(t) == "text/css"@,
        t == "text"@ || t == "txt"@ ==> mime(t) == "text/plain"@,
        t == "json"@ ==> mime(t) == "application/json"@,
        t == "js"@ || t == "javascript"@ ==> mime(t) == "application/javascript"@,
        t == "xml"@ ==> mime(t) == "application/xml"@,
        t == "png"@ || t == "gif"@ || t == "jpeg"@ ==> mime(t) == "image/"@ + t,
        t == "jpg"@ ==> mime(t) == "image/jpeg"@,
        mime(t) != t ==> t == "html"@ || t == "css"@ || t == "text"@ || t == "txt"@ || t == "json"@
            || t == "js"@ || t == "javascript"@ || t == "xml"@ || t == "png"@ || t == "gif"@ || t
            == "jpeg"@ || t == "jpg"@,
{
    reveal_strlit("/");
    assert("/"@ =~= seq!['/']);
    seqs::law_characters_are_found(t, '/');
    reveal_strlit("html");
    reveal_strlit("css");
    reveal_strlit("text");
    reveal_strlit("txt");
    reveal_strlit("json");
    reveal_strlit("js");
    reveal_strlit("javascript");
    reveal_strlit("xml");
    reveal_strlit("png");
    reveal_strlit("gif");
    reveal_strlit("jpeg");
    reveal_strlit("jpg");
    reveal_strlit("image/png");
    reveal_strlit("image/gif");
    reveal_strlit("image/jpeg");
    assert("html"@.len() == 4 && "html"@[0] == 'h' && "html"@[1] == 't' && "html"@[2] == 'm'
        && "html"@[3] == 'l');
    assert("css"@.len() == 3 && "css"@[0] == 'c' && "css"@[1] == 's' && "css"@[2] == 's');
    assert("text"@.len() == 4 && "text"@[0] == 't' && "text"@[1] == 'e' && "text"@[2] == 'x'
        && "text"@[3] == 't');
    assert("txt"@.len() == 3 && "txt"@[0] == 't' && "txt"@[1] == 'x' && "txt"@[2] == 't');
    assert("json"@.len() == 4 && "json"@[0] == 'j' && "json"@[1] == 's' && "json"@[2] == 'o'
        && "json"@[3] == 'n');
    assert("js"@.len() == 2 && "js"@[0] == 'j' && "js"@[1] == 's');
    assert("javascript"@.len() == 10 && "javascript"@[0] == 'j' && "javascript"@[1] == 'a'
        && "javascript"@[2] == 'v' && "javascript"@[3] == 'a');
    assert("xml"@.len() == 3 && "xml"@[0] == 'x' && "xml"@[1] == 'm' && "xml"@[2] == 'l');
    assert("png"@.len() == 3 && "png"@[0] == 'p' && "png"@[1] == 'n' && "png"@[2] == 'g');
    assert("gif"@.len() == 3 && "gif"@[0] == 'g' && "gif"@[1] == 'i' && "gif"@[2] == 'f');
    assert("jpeg"@.len() == 4 && "jpeg"@[0] == 'j' && "jpeg"@[1] == 'p' && "jpeg"@[2] == 'e'
        && "jpeg"@[3] == 'g');
    assert("jpg"@.len() == 3 && "jpg"@[0] == 'j' && "jpg"@[1] == 'p' && "jpg"@[2] == 'g');
    reveal_strlit("image/");
    assert("image/"@ + "png"@ =~= "image/png"@);
    assert("image/"@ + "gif"@ =~= "image/gif"@);
    assert("image/"@ + "jpeg"@ =~= "image/jpeg"@);
}

/// The type of a file is that of its extension, in whatever case, and texts are in UTF-8. A file
/// with any other extension is bytes.
pub proof fn law_files_have_the_type_of_their_extension(stem: Seq<char>, ext: Seq<char>)
    requires
        seqs::lacks(ext, '.'),
    ensures
        ({
            let t = file_mime(stem + seq!['.'] + ext);
            let e = seqs::lower(ext);
            &&& e == "html"@ || e == "htm"@ ==> t == "text/html"@ + "; charset=utf-8"@
            &&& e == "css"@ ==> t == "text/css"@ + "; charset=utf-8"@
            &&& e == "txt"@ ==> t == "text/plain"@ + "; charset=utf-8"@
            &&& e == "json"@ ==> t == "application/json"@ + "; charset=utf-8"@
            &&& e == "js"@ || e == "mjs"@ ==> t == "application/javascript"@ + "; charset=utf-8"@
            &&& e == "xml"@ ==> t == "application/xml"@ + "; charset=utf-8"@
            &&& e == "png"@ || e == "gif"@ || e == "jpeg"@ ==> t == "image/"@ + e
            &&& e == "jpg"@ ==> t == "image/jpeg"@
            &&& e == "svg"@ ==> t == "image/svg+xml"@
            &&& e == "wasm"@ ==> t == "application/wasm"@
            &&& t == "application/octet-stream"@ || e == "html"@ || e == "htm"@ || e == "css"@ || e
                == "txt"@ || e == "json"@ || e == "js"@ || e == "mjs"@ || e == "xml"@ || e
                == "png"@ || e == "gif"@ || e == "jpeg"@ || e == "jpg"@ || e == "svg"@ || e
                == "wasm"@
        }),
{
    reveal_strlit(".");
    assert("."@ =~= seq!['.']);
    seqs::law_text_is_cut_at_the_last(stem, '.', ext);
    reveal_strlit("html");
    reveal_strlit("htm");
    reveal_strlit("css");
    reveal_strlit("txt");
    reveal_strlit("json");
    reveal_strlit("js");
    reveal_strlit("mjs");
    reveal_strlit("xml");
    reveal_strlit("png");
    reveal_strlit("gif");
    reveal_strlit("jpeg");
    reveal_strlit("jpg");
    reveal_strlit("svg");
    reveal_strlit("wasm");
    reveal_strlit("image/png");
    reveal_strlit("image/gif");
    reveal_strlit("image/jpeg");
    reveal_strlit("text/html");
    reveal_strlit("text/css");
    reveal_strlit("text/plain");
    reveal_strlit("application/json");
    reveal_strlit("application/javascript");
    reveal_strlit("application/xml");
    reveal_strlit("text/html; charset=utf-8");
    reveal_strlit("text/css; charset=utf-8");
    reveal_strlit("text/plain; charset=utf-8");
    reveal_strlit("application/json; charset=utf-8");
    reveal_strlit("application/javascript; charset=utf-8");
    reveal_strlit("application/xml; charset=utf-8");
    assert("html"@.len() == 4 && "html"@[0] == 'h' && "html"@[1] == 't' && "html"@[2] == 'm'
        && "html"@[3] == 'l');
    assert("htm"@.len() == 3 && "htm"@[0] == 'h' && "htm"@[1] == 't' && "htm"@[2] == 'm');
    assert("css"@.len() == 3 && "css"@[0] == 'c' && "css"@[1] == 's' && "css"@[2] == 's');
    assert("txt"@.len() == 3 && "txt"@[0] == 't' && "txt"@[1] == 'x' && "txt"@[2] == 't');
    assert("json"@.len() == 4 && "json"@[0] == 'j' && "json"@[1] == 's' && "json"@[2] == 'o'
        && "json"@[3] == 'n');
    assert("js"@.len() == 2 && "js"@[0] == 'j' && "js"@[1] == 's');
    assert("mjs"@.len() == 3 && "mjs"@[0] == 'm' && "mjs"@[1] == 'j' && "mjs"@[2] == 's');
    assert("xml"@.len() == 3 && "xml"@[0] == 'x' && "xml"@[1] == 'm' && "xml"@[2] == 'l');
    assert("png"@.len() == 3 && "png"@[0] == 'p' && "png"@[1] == 'n' && "png"@[2] == 'g');
    assert("gif"@.len() == 3 && "gif"@[0] == 'g' && "gif"@[1] == 'i' && "gif"@[2] == 'f');
    assert("jpeg"@.len() == 4 && "jpeg"@[0] == 'j' && "jpeg"@[1] == 'p' && "jpeg"@[2] == 'e'
        && "jpeg"@[3] == 'g');
    assert("jpg"@.len() == 3 && "jpg"@[0] == 'j' && "jpg"@[1] == 'p' && "jpg"@[2] == 'g');
    assert("svg"@.len() == 3 && "svg"@[0] == 's' && "svg"@[1] == 'v' && "svg"@[2] == 'g');
    assert("wasm"@.len() == 4 && "wasm"@[0] == 'w' && "wasm"@[1] == 'a' && "wasm"@[2] == 's'
        && "wasm"@[3] == 'm');
    reveal_strlit("image/");
    reveal_strlit("; charset=utf-8");
    assert("image/"@ + "png"@ =~= "image/png"@);
    assert("image/"@ + "gif"@ =~= "image/gif"@);
    assert("image/"@ + "jpeg"@ =~= "image/jpeg"@);
    assert("text/html"@ + "; charset=utf-8"@ =~= "text/html; charset=utf-8"@);
    assert("text/css"@ + "; charset=utf-8"@ =~= "text/css; charset=utf-8"@);
    assert("text/plain"@ + "; charset=utf-8"@ =~= "text/plain; charset=utf-8"@);
    assert("application/json"@ + "; charset=utf-8"@ =~= "application/json; charset=utf-8"@);
    assert("application/javascript"@ + "; charset=utf-8"@
        =~= "application/javascript; charset=utf-8"@);
    assert("application/xml"@ + "; charset=utf-8"@ =~= "application/xml; charset=utf-8"@);
}

/// The changes to a request are made in order: first the fields that are named, and behind all that
/// set other fields the replacements, then what is deleted, and the character set at the end.
#[verifier::spinoff_prover]
#[verifier::rlimit(60)]
pub proof fn law_request_changes_are_in_order(ops: Seq<OpText>)
    ensures
        ({
            let set = operation::all_of(ops, "reqHeaders"@);
            let replaced = operation::all_of(ops, "headerReplace"@);
            let deleted = operation::all_of(ops, "delete"@);
            let first = pairs_edits(set, set.len() as int);
            let last = replace_edits(replaced, replaced.len() as int) + delete_edits(
                deleted,
                "reqHeaders."@,
                deleted.len() as int,
            ) + charset_edit(ops, "reqCharset"@);
            &&& request_edits(ops).len() >= first.len() + last.len()
            &&& request_edits(ops).take(first.len() as int) == first
            &&& request_edits(ops).skip(request_edits(ops).len() - last.len()) == last
        }),
{
    let set = operation::all_of(ops, "reqHeaders"@);
    let replaced = operation::all_of(ops, "headerReplace"@);
    let deleted = operation::all_of(ops, "delete"@);
    let first = pairs_edits(set, set.len() as int);
    lemma_parts_in_order(
        first,
        seq![
            type_edit(ops, "reqType"@),
            value_edit(ops, "ua"@, "user-agent"@),
            value_edit(ops, "referer"@, "referer"@),
            cookies_edit(ops),
            auth_edit(ops),
            value_edit(ops, "reqCors"@, "origin"@),
            value_edit(ops, "forwardedFor"@, "x-forwarded-for"@),
        ],
        replace_edits(replaced, replaced.len() as int),
        delete_edits(deleted, "reqHeaders."@, deleted.len() as int),
        charset_edit(ops, "reqCharset"@),
    );
}

// Seven lists stand between a first one and the last three.
proof fn lemma_parts_in_order(
    first: Seq<EditModel>,
    mid: Seq<Seq<EditModel>>,
    a: Seq<EditModel>,
    b: Seq<EditModel>,
    c: Seq<EditModel>,
)
    requires
        mid.len() == 7,
    ensures
        ({
            let all = first + mid[0] + mid[1] + mid[2] + mid[3] + mid[4] + mid[5] + mid[6] + a + b
                + c;
            let last = a + b + c;
            &&& all.len() >= first.len() + last.len()
            &&& all.take(first.len() as int) == first
            &&& all.skip(all.len() - last.len()) == last
        }),
{
    let between = mid[0] + mid[1] + mid[2] + mid[3] + mid[4] + mid[5] + mid[6];
    let last = a + b + c;
    let all = first + mid[0] + mid[1] + mid[2] + mid[3] + mid[4] + mid[5] + mid[6] + a + b + c;
    assert(first + mid[0] + mid[1] + mid[2] + mid[3] + mid[4] + mid[5] + mid[6] =~= first
        + between);
    assert(all =~= first + between + last);
    assert(all.take(first.len() as int) =~= first);
    assert(all.skip(all.len() - last.len()) =~= last);
}

/// The changes to a response are made in order: first the fields that are named, then the content
/// type and its character set, and what is deleted at the end.
#[verifier::spinoff_prover]
#[verifier::rlimit(60)]
pub proof fn law_response_changes_are_in_order(ops: Seq<OpText>)
    ensures
        ({
            let set = operation::all_of(ops, "resHeaders"@);
            let deleted = operation::all_of(ops, "delete"@);
            let first = pairs_edits(set, set.len() as int) + type_edit(ops, "resType"@)
                + charset_edit(ops, "resCharset"@);
            let last = delete_edits(deleted, "resHeaders."@, deleted.len() as int);
            &&& response_edits(ops).len() >= first.len() + last.len()
            &&& response_edits(ops).take(first.len() as int) == first
            &&& response_edits(ops).skip(response_edits(ops).len() - last.len()) == last
        }),
{
    let set = operation::all_of(ops, "resHeaders"@);
    let cookies = operation::all_of(ops, "resCookies"@);
    let deleted = operation::all_of(ops, "delete"@);
    let first = pairs_edits(set, set.len() as int) + type_edit(ops, "resType"@) + charset_edit(
        ops,
        "resCharset"@,
    );
    let mid = set_cookie_edits(cookies, cookies.len() as int) + attachment_edit(ops) + cors_edits(
        ops,
    ) + value_edit(ops, "locationHref"@, "location"@) + value_edit(ops, "cache"@, "cache-control"@);
    let last = delete_edits(deleted, "resHeaders."@, deleted.len() as int);
    assert(response_edits(ops) =~= first + mid + last);
    assert(response_edits(ops).take(first.len() as int) =~= first);
    assert(response_edits(ops).skip(response_edits(ops).len() - last.len()) =~= last);
}

/// A deleted field of a request is gone, whatever the other operations set, unless it is the content
/// type, of which the character set can be named still.
#[verifier::spinoff_prover]
#[verifier::rlimit(60)]
pub proof fn law_deleted_request_field_is_gone(
    contents: Map<Seq<char>, Seq<Seq<u8>>>,
    ops: Seq<OpText>,
    name: Seq<char>,
)
    requires
        headers::is_header_name(name),
        operation::all_of(ops, "delete"@).contains("reqHeaders."@ + name),
        operation::last_of(ops, "reqCharset"@) is None || seqs::lower(name)
            != "content-type"@,
    ensures
        !request_fields(contents, ops).contains_key(seqs::lower(name)),
{
    reveal(request_fields);
    law_request_changes_are_in_order(ops);
    let replaced = operation::all_of(ops, "headerReplace"@);
    let deleted = operation::all_of(ops, "delete"@);
    let all = request_edits(ops);
    let a = replace_edits(replaced, replaced.len() as int);
    let b = delete_edits(deleted, "reqHeaders."@, deleted.len() as int);
    let c = charset_edit(ops, "reqCharset"@);
    let last = a + b + c;
    let head = all.take(all.len() - last.len());
    assert(all =~= head + last);
    let before = head + a;
    assert(all =~= before + b + c);
    lemma_edited_in_turn(contents, before + b, c, c.len() as int);
    lemma_edited_in_turn(contents, before, b, b.len() as int);
    let start = headers::edited_by(contents, before, before.len() as int);
    let mid = headers::edited_by(contents, before + b, (before + b).len() as int);
    seqs::law_a_start_is_followed_by_the_rest("reqHeaders."@ + name, "reqHeaders."@, name);
    let k = choose|k: int| 0 <= k < deleted.len() && deleted[k] == "reqHeaders."@ + name;
    lemma_deletes_remove(start, deleted, "reqHeaders."@, k, deleted.len() as int, name);
    assert(!mid.contains_key(seqs::lower(name)));
    match operation::last_of(ops, "reqCharset"@) {
        Some(v) => {
            reveal_strlit("content-type");
            assert(seqs::lower("content-type"@) =~= "content-type"@);
            lemma_edited_once(mid, EditModel::Charset(v));
        },
        None => {
            lemma_edited_once(mid, EditModel::Remove(name));
        },
    }
}

/// Cookies are added in the order of the operations, and within one in the order in which they are
/// written, to a request without the white space around them and to a response as they are.
pub proof fn law_cookies_are_added_in_order(values: Seq<Seq<char>>, cookies: Seq<Seq<char>>)
    requires
        forall|i: int|
            0 <= i < cookies.len() ==> (#[trigger] cookies[i]).len() > 0 && seqs::lacks(
                cookies[i],
                '&',
            ),
    ensures
        cookies_of(values.push(seqs::join(cookies, seq!['&'])), values.len() + 1int) == cookies_of(
            values,
            values.len() as int,
        ) + Seq::new(cookies.len(), |i: int| seqs::trim(cookies[i])),
        set_cookie_edits(values.push(seqs::join(cookies, seq!['&'])), values.len() + 1int)
            == set_cookie_edits(values, values.len() as int) + Seq::new(
            cookies.len(),
            |i: int| EditModel::Append("set-cookie"@, cookies[i]),
        ),
{
    reveal_strlit("&");
    assert("&"@ =~= seq!['&']);
    seqs::law_joined_texts_are_read_back(cookies, '&');
    let n = values.len() as int;
    let all = values.push(seqs::join(cookies, seq!['&']));
    lemma_cookies_same(values, all, n);
    assert(all[n] == seqs::join(cookies, seq!['&']));
    assert(cookies.map_values(|p: Seq<char>| seqs::trim(p)) =~= Seq::new(
        cookies.len(),
        |i: int| seqs::trim(cookies[i]),
    ));
    assert(cookies.map_values(|p: Seq<char>| EditModel::Append("set-cookie"@, p)) =~= Seq::new(
        cookies.len(),
        |i: int| EditModel::Append("set-cookie"@, cookies[i]),
    ));
}

proof fn lemma_cookies_same(a: Seq<Seq<char>>, b: Seq<Seq<char>>, n: int)
    requires
        n <= a.len(),
        n <= b.len(),
        forall|i: int| 0 <= i < n ==> a[i] == b[i],
    ensures
        cookies_of(a, n) == cookies_of(b, n),
        set_cookie_edits(a, n) == set_cookie_edits(b, n),
    decreases n,
{
    if n > 0 {
        lemma_cookies_same(a, b, n - 1);
    }
}

} // verus!
