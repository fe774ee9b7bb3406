//! The header fields of a message, held in a `hyper::HeaderMap`, and the edits that rules make.
use crate::capture::Header;
use crate::capture::HeaderText;
use crate::seqs;
use crate::text;
use vstd::prelude::*;

verus! {

// ---- the outside crate ----

/// `hyper::HeaderMap`: the values of each header name, in order.
#[verifier::external_type_specification]
#[verifier::external_body]
#[verifier::reject_recursive_types(T)]
pub struct ExHeaderMap<T>(hyper::HeaderMap<T>);

/// `hyper::header::HeaderName`: the name of a header.
#[verifier::external_type_specification]
#[verifier::external_body]
pub struct ExHeaderName(hyper::header::HeaderName);

/// `hyper::header::HeaderValue`: the value of a header.
#[verifier::external_type_specification]
#[verifier::external_body]
pub struct ExHeaderValue(hyper::header::HeaderValue);

/// The values that a header map holds for each name, in order. Names are in lower case, and each
/// has at least one value.
pub uninterp spec fn header_contents(headers: hyper::HeaderMap) -> Map<Seq<char>, Seq<Seq<u8>>>;

/// The text of a header name, in lower case.
pub uninterp spec fn name_text(name: hyper::header::HeaderName) -> Seq<char>;

/// The bytes of a header value.
pub uninterp spec fn value_bytes(value: hyper::header::HeaderValue) -> Seq<u8>;

/// A character that may stand in a header name or a method.
pub open spec fn is_token_char(c: char) -> bool {
    ||| '0' <= c <= '9'
    ||| 'a' <= c <= 'z'
    ||| 'A' <= c <= 'Z'
    ||| "!#$%&'*+-.^_`|~"@.contains(c)
}

/// A text that is not empty and is made of token characters.
pub open spec fn is_token(s: Seq<char>) -> bool {
    s.len() > 0 && forall|i: int| 0 <= i < s.len() ==> is_token_char(#[trigger] s[i])
}

/// A text that can be a header name.
pub open spec fn is_header_name(s: Seq<char>) -> bool {
    is_token(s) && s.len() <= 65535
}

/// A text that can be a header value: no control characters but the tab.
pub open spec fn is_header_value(s: Seq<char>) -> bool {
    forall|i: int|
        0 <= i < s.len() ==> #[trigger] s[i] == '\t' || (s[i] >= ' ' && s[i] != '\u{7f}')
}

/// Bytes that can be read as the text of a header value: visible ASCII, spaces and tabs.
pub open spec fn is_visible(bytes: Seq<u8>) -> bool {
    forall|i: int| 0 <= i < bytes.len() ==> #[trigger] bytes[i] == 9 || 32 <= bytes[i] < 127
}

/// ASCII bytes as text.
pub open spec fn ascii_text(bytes: Seq<u8>) -> Seq<char> {
    Seq::new(bytes.len(), |i: int| bytes[i] as char)
}

/// A header map takes one more name without a panic while it holds no more than this.
pub const MAX_HEADER_NAMES: usize = 6553;

/// The number of names, where it is finite.
pub open spec fn name_count(contents: Map<Seq<char>, Seq<Seq<u8>>>) -> Option<nat> {
    if contents.dom().finite() {
        Some(contents.dom().len())
    } else {
        None
    }
}

/// A header map takes `n` more names without a panic.
pub open spec fn has_room(contents: Map<Seq<char>, Seq<Seq<u8>>>, n: int) -> bool {
    name_count(contents) matches Some(k) && k + n <= MAX_HEADER_NAMES + 1
}

/// `HeaderName::from_bytes`: a name of 1 to 65535 token characters, in lower case; anything else
/// is refused.
#[verifier::external_body]
fn header_name(name: &str) -> (r: Option<hyper::header::HeaderName>)
    ensures
        r is Some == is_header_name(name@),
        r matches Some(n) ==> name_text(n) == seqs::lower(name@),
{
    hyper::header::HeaderName::from_bytes(name.as_bytes()).ok()
}

/// `HeaderValue::from_str`: the text's UTF-8 bytes; a text with a control character other than
/// the tab is refused.
#[verifier::external_body]
fn header_value(value: &str) -> (r: Option<hyper::header::HeaderValue>)
    ensures
        r is Some == is_header_value(value@),
        r matches Some(v) ==> value_bytes(v) == vstd::utf8::encode_utf8(value@),
{
    hyper::header::HeaderValue::from_str(value).ok()
}

/// `HeaderValue::to_str`: the text of a value made of visible ASCII, spaces and tabs; any other
/// value has none.
#[verifier::external_body]
fn value_text(value: &hyper::header::HeaderValue) -> (r: Option<&str>)
    ensures
        r is Some == is_visible(value_bytes(*value)),
        r matches Some(t) ==> t@ == ascii_text(value_bytes(*value)),
{
    value.to_str().ok()
}

/// `HeaderMap::insert`: the value takes the place of all values of the name. It does not panic
/// while the map holds at most `MAX_HEADER_NAMES` names.
#[verifier::external_body]
fn insert(
    headers: &mut hyper::HeaderMap,
    name: hyper::header::HeaderName,
    value: hyper::header::HeaderValue,
)
    requires
        has_room(header_contents(*old(headers)), 1),
    ensures
        header_contents(*final(headers)) == header_contents(*old(headers)).insert(
            name_text(name),
            seq![value_bytes(value)],
        ),
{
    headers.insert(name, value);
}

/// `HeaderMap::append`: the value comes behind the values that the name has. It does not panic
/// while the map holds at most `MAX_HEADER_NAMES` names.
#[verifier::external_body]
fn append(
    headers: &mut hyper::HeaderMap,
    name: hyper::header::HeaderName,
    value: hyper::header::HeaderValue,
)
    requires
        has_room(header_contents(*old(headers)), 1),
    ensures
        header_contents(*final(headers)) == header_contents(*old(headers)).insert(
            name_text(name),
            values_of(header_contents(*old(headers)), name_text(name)).push(value_bytes(value)),
        ),
{
    headers.append(name, value);
}

/// A header map holds no more names than this.
pub const MOST_HEADER_NAMES: usize = 24576;

/// A header map takes no more names.
pub open spec fn is_full(contents: Map<Seq<char>, Seq<Seq<u8>>>) -> bool {
    name_count(contents) matches Some(k) && k >= MOST_HEADER_NAMES
}

/// No header fields.
pub open spec fn no_fields() -> Map<Seq<char>, Seq<Seq<u8>>> {
    Map::empty()
}

/// `HeaderMap::new`: a map that holds nothing.
#[verifier::external_body]
fn new_map() -> (r: hyper::HeaderMap)
    ensures
        header_contents(r) == no_fields(),
{
    hyper::HeaderMap::new()
}

/// `HeaderMap::try_append`: the value comes behind the values that the name has, or the map has no
/// room and stays as it is. It has room while it holds at most `MAX_HEADER_NAMES` names, and none
/// where it holds `MOST_HEADER_NAMES`. Between the two, that depends on where the hashes of the
/// names fall.
#[verifier::external_body]
fn try_append(
    headers: &mut hyper::HeaderMap,
    name: hyper::header::HeaderName,
    value: hyper::header::HeaderValue,
) -> (r: bool)
    ensures
        has_room(header_contents(*old(headers)), 1) ==> r,
        r ==> !is_full(header_contents(*old(headers))),
        header_contents(*final(headers)) == if r {
            header_contents(*old(headers)).insert(
                name_text(name),
                values_of(header_contents(*old(headers)), name_text(name)).push(value_bytes(value)),
            )
        } else {
            header_contents(*old(headers))
        },
{
    headers.try_append(name, value).is_ok()
}

/// The header fields without those of a name, whatever its case. A text that can be no header name
/// takes nothing out.
pub open spec fn without_name(contents: Map<Seq<char>, Seq<Seq<u8>>>, name: Seq<char>) -> Map<
    Seq<char>,
    Seq<Seq<u8>>,
> {
    if is_header_name(name) {
        contents.remove(seqs::lower(name))
    } else {
        contents
    }
}

/// `HeaderMap::remove`: all values of the name leave, whatever its case. Nothing leaves by a text
/// that `HeaderName::from_bytes` refuses.
#[verifier::external_body]
fn remove(headers: &mut hyper::HeaderMap, name: &str)
    ensures
        header_contents(*final(headers)) == without_name(header_contents(*old(headers)), name@),
{
    headers.remove(name);
}

/// `HeaderMap::get`: the first value of the name, whatever its case. Nothing is found by a text
/// that `HeaderName::from_bytes` refuses.
#[verifier::external_body]
fn get<'a>(headers: &'a hyper::HeaderMap, name: &str) -> (r: Option<&'a hyper::header::HeaderValue>)
    ensures
        r is Some == (is_header_name(name@) && header_contents(*headers).contains_key(
            seqs::lower(name@),
        )),
        r matches Some(v) ==> header_contents(*headers)[seqs::lower(name@)].len() > 0
            && value_bytes(*v) == header_contents(*headers)[seqs::lower(name@)][0],
{
    headers.get(name)
}

/// `HeaderMap::keys_len`: the number of names.
#[verifier::external_body]
fn keys_len(headers: &hyper::HeaderMap) -> (r: usize)
    ensures
        name_count(header_contents(*headers)) == Some(r as nat),
{
    headers.keys_len()
}

/// `HeaderMap::iter`: each name once for each of its values, and the values of a name in order.
/// The order of the names is left open.
#[verifier::external_body]
fn entries(headers: &hyper::HeaderMap) -> (r: Vec<(String, Vec<u8>)>)
    ensures
        forall|name: Seq<char>| #[trigger]
            entries_of(r@, name) == values_of(header_contents(*headers), name),
{
    headers.iter().map(|e| (e.0.to_string(), e.1.as_bytes().to_vec())).collect()
}

/// The values that a list of entries has for a name, in order.
pub open spec fn entries_of(list: Seq<(String, Vec<u8>)>, name: Seq<char>) -> Seq<Seq<u8>> {
    list.filter(|e: (String, Vec<u8>)| e.0@ == name).map_values(|e: (String, Vec<u8>)| e.1@)
}

// ---- reading ----

/// The values of a name.
pub open spec fn values_of(contents: Map<Seq<char>, Seq<Seq<u8>>>, name: Seq<char>) -> Seq<
    Seq<u8>,
> {
    if contents.contains_key(name) {
        contents[name]
    } else {
        seq![]
    }
}

/// The text of the first value of a name, where it has one that can be read as text.
pub open spec fn first_text(contents: Map<Seq<char>, Seq<Seq<u8>>>, name: Seq<char>) -> Option<
    Seq<char>,
> {
    if is_header_name(name) && contents.contains_key(seqs::lower(name)) && is_visible(
        contents[seqs::lower(name)][0],
    ) {
        Some(ascii_text(contents[seqs::lower(name)][0]))
    } else {
        None
    }
}

/// The text of the first value of a name.
pub fn header_text<'a>(headers: &'a hyper::HeaderMap, name: &str) -> (r: Option<&'a str>)
    ensures
        match r {
            Some(t) => first_text(header_contents(*headers), name@) == Some(t@),
            None => first_text(header_contents(*headers), name@) is None,
        },
{
    match get(headers, name) {
        Some(v) => value_text(v),
        None => None,
    }
}

/// Whether the map takes `n` more names without a panic.
pub fn room_for(headers: &hyper::HeaderMap, n: usize) -> (r: bool)
    ensures
        r == has_room(header_contents(*headers), n as int),
{
    let k: usize = keys_len(headers);
    k <= MAX_HEADER_NAMES + 1 && n <= MAX_HEADER_NAMES + 1 - k
}

/// The values that a list of header fields has for a name, in order.
pub open spec fn fields_of(list: Seq<HeaderText>, name: Seq<char>) -> Seq<Seq<char>> {
    list.filter(|h: HeaderText| h.name == name).map_values(|h: HeaderText| h.value)
}

/// Bytes as texts, with what is not UTF-8 replaced.
pub open spec fn lossy_texts(values: Seq<Seq<u8>>) -> Seq<Seq<char>> {
    Seq::new(values.len(), |i: int| text::lossy_utf8(values[i]))
}

/// The entries as header fields.
spec fn fields(list: Seq<(String, Vec<u8>)>) -> Seq<HeaderText> {
    Seq::new(
        list.len(),
        |i: int| HeaderText { name: list[i].0@, value: text::lossy_utf8(list[i].1@) },
    )
}

proof fn lemma_fields(list: Seq<(String, Vec<u8>)>, name: Seq<char>)
    ensures
        fields_of(fields(list), name) == lossy_texts(entries_of(list, name)),
    decreases list.len(),
{
    reveal(Seq::filter);
    if list.len() == 0 {
        assert(fields_of(fields(list), name) =~= lossy_texts(entries_of(list, name)));
    } else {
        let rest = list.drop_last();
        lemma_fields(rest, name);
        assert(fields(list).drop_last() =~= fields(rest));
        assert(fields(list).last().name == list.last().0@);
        if list.last().0@ == name {
            assert(entries_of(list, name) =~= entries_of(rest, name).push(list.last().1@));
            assert(fields_of(fields(list), name) =~= fields_of(fields(rest), name).push(
                text::lossy_utf8(list.last().1@),
            ));
        } else {
            assert(entries_of(list, name) =~= entries_of(rest, name));
            assert(fields_of(fields(list), name) =~= fields_of(fields(rest), name));
        }
        assert(fields_of(fields(list), name) =~= lossy_texts(entries_of(list, name)));
    }
}

/// The header fields as a list: the values of each name in order. The order of the names is left
/// open.
pub fn collect_headers(headers: &hyper::HeaderMap) -> (r: Vec<Header>)
    ensures
        forall|name: Seq<char>| #[trigger]
            fields_of(crate::capture::header_texts(r@), name) == lossy_texts(
                values_of(header_contents(*headers), name),
            ),
{
    let list = entries(headers);
    let mut out: Vec<Header> = Vec::new();
    let mut i: usize = 0;
    while i < list.len()
        invariant
            i <= list.len(),
            crate::capture::header_texts(out@) =~= fields(list@).take(i as int),
        decreases list.len() - i,
    {
        let ghost before = crate::capture::header_texts(out@);
        let h = Header { name: list[i].0.clone(), value: text::lossy(list[i].1.as_slice()) };
        proof {
            assert(h@ == fields(list@)[i as int]);
        }
        out.push(h);
        i += 1;
        proof {
            assert(crate::capture::header_texts(out@) =~= before.push(h@));
        }
    }
    proof {
        assert(crate::capture::header_texts(out@) =~= fields(list@));
        assert forall|name: Seq<char>| #[trigger]
            fields_of(crate::capture::header_texts(out@), name) == lossy_texts(
                values_of(header_contents(*headers), name),
            ) by {
            lemma_fields(list@, name);
            assert(entries_of(list@, name) == values_of(header_contents(*headers), name));
        }
    }
    out
}

// ---- edits ----

/// A change to the header fields of a message.
#[derive(Debug)]
pub enum HeaderEdit {
    /// The header has this value and no other. Not done where the name or the value cannot be
    /// one of a header.
    Put(String, String),
    /// The header has this value too. Not done where it cannot be a header's value.
    Append(String, String),
    /// The header leaves.
    Remove(String),
    /// The content type names this character set and no other.
    Charset(String),
    /// In the first value of the header, one text is replaced by another.
    Replace(String, String, String),
    /// These cookies come behind those of the `cookie` header.
    Cookies(Vec<String>),
}

/// The texts of a change.
pub enum EditModel {
    Put(Seq<char>, Seq<char>),
    Append(Seq<char>, Seq<char>),
    Remove(Seq<char>),
    Charset(Seq<char>),
    Replace(Seq<char>, Seq<char>, Seq<char>),
    Cookies(Seq<Seq<char>>),
}

impl View for HeaderEdit {
    type V = EditModel;

    open spec fn view(&self) -> EditModel {
        match *self {
            HeaderEdit::Put(n, v) => EditModel::Put(n@, v@),
            HeaderEdit::Append(n, v) => EditModel::Append(n@, v@),
            HeaderEdit::Remove(n) => EditModel::Remove(n@),
            HeaderEdit::Charset(c) => EditModel::Charset(c@),
            HeaderEdit::Replace(n, a, b) => EditModel::Replace(n@, a@, b@),
            HeaderEdit::Cookies(v) => EditModel::Cookies(seqs::texts(v@)),
        }
    }
}

/// The texts of a list of changes.
pub open spec fn edit_models(v: Seq<HeaderEdit>) -> Seq<EditModel> {
    Seq::new(v.len(), |i: int| v[i]@)
}

/// The header fields with one header set.
pub open spec fn with_set(
    contents: Map<Seq<char>, Seq<Seq<u8>>>,
    name: Seq<char>,
    value: Seq<char>,
) -> Map<Seq<char>, Seq<Seq<u8>>> {
    if is_header_name(name) && is_header_value(value) {
        contents.insert(seqs::lower(name), seq![vstd::utf8::encode_utf8(value)])
    } else {
        contents
    }
}

/// The parts of a content type that are not empty and do not name a character set.
pub open spec fn type_parts(content_type: Seq<char>) -> Seq<Seq<char>> {
    seqs::split(content_type, ";"@).map_values(|p: Seq<char>| seqs::trim(p)).filter(
        |p: Seq<char>| p.len() > 0 && !seqs::starts_with(seqs::lower(p), "charset="@),
    )
}

/// A content type with a character set; plain text where there was none.
pub open spec fn charset_type(content_type: Option<Seq<char>>, charset: Seq<char>) -> Seq<char> {
    let base = match content_type {
        Some(t) => seqs::join(type_parts(t), "; "@),
        None => "text/plain"@,
    };
    base + "; charset="@ + charset
}

/// The cookies of a header followed by others.
pub open spec fn cookie_text(existing: Option<Seq<char>>, cookies: Seq<Seq<char>>) -> Seq<char> {
    match existing {
        Some(t) => seqs::join(seq![t] + cookies, "; "@),
        None => seqs::join(cookies, "; "@),
    }
}

/// The header fields after a change.
pub open spec fn edited(
    contents: Map<Seq<char>, Seq<Seq<u8>>>,
    edit: EditModel,
) -> Map<Seq<char>, Seq<Seq<u8>>> {
    match edit {
        EditModel::Put(name, value) => with_set(contents, name, value),
        EditModel::Append(name, value) => if is_header_name(name) && is_header_value(value) {
            contents.insert(
                seqs::lower(name),
                values_of(contents, seqs::lower(name)).push(vstd::utf8::encode_utf8(value)),
            )
        } else {
            contents
        },
        EditModel::Remove(name) => without_name(contents, name),
        EditModel::Charset(charset) => with_set(
            contents,
            "content-type"@,
            charset_type(first_text(contents, "content-type"@), charset),
        ),
        EditModel::Replace(name, from, to) => match first_text(contents, name) {
            Some(t) => if seqs::contains(t, from) {
                with_set(contents, name, seqs::replace(t, from, to))
            } else {
                contents
            },
            None => contents,
        },
        EditModel::Cookies(cookies) => with_set(
            contents,
            "cookie"@,
            cookie_text(first_text(contents, "cookie"@), cookies),
        ),
    }
}

/// The header fields after the first `n` changes.
pub open spec fn edited_by(
    contents: Map<Seq<char>, Seq<Seq<u8>>>,
    edits: Seq<EditModel>,
    n: int,
) -> Map<Seq<char>, Seq<Seq<u8>>>
    decreases n,
{
    if n <= 0 {
        contents
    } else {
        edited(edited_by(contents, edits, n - 1), edits[n - 1])
    }
}

/// Whether a text can be a header value.
pub fn can_be_value(value: &str) -> (r: bool)
    ensures
        r == is_header_value(value@),
{
    header_value(value).is_some()
}

/// Takes a header out, whatever the case of its name. A text that can be no header name takes
/// nothing out.
pub fn remove_header(headers: &mut hyper::HeaderMap, name: &str)
    ensures
        header_contents(*final(headers)) == without_name(header_contents(*old(headers)), name@),
{
    remove(headers, name);
}

/// Sets a header, unless its name or value cannot be one of a header.
pub fn set_header(headers: &mut hyper::HeaderMap, name: &str, value: &str)
    requires
        has_room(header_contents(*old(headers)), 1),
    ensures
        header_contents(*final(headers)) == with_set(header_contents(*old(headers)), name@, value@),
{
    match (header_name(name), header_value(value)) {
        (Some(n), Some(v)) => insert(headers, n, v),
        _ => {},
    }
}

/// All of some names and values can be header fields.
pub open spec fn fields_are_sound(fields: Seq<(Seq<char>, Seq<char>)>) -> bool {
    forall|i: int|
        0 <= i < fields.len() ==> is_header_name((#[trigger] fields[i]).0) && is_header_value(
            fields[i].1,
        )
}

/// The first `n` of some names and values as header fields: the values of each name in order.
pub open spec fn field_map(fields: Seq<(Seq<char>, Seq<char>)>, n: int) -> Map<
    Seq<char>,
    Seq<Seq<u8>>,
>
    decreases n,
{
    if n <= 0 {
        Map::empty()
    } else {
        let before = field_map(fields, n - 1);
        let name = seqs::lower(fields[n - 1].0);
        before.insert(
            name,
            values_of(before, name).push(vstd::utf8::encode_utf8(fields[n - 1].1)),
        )
    }
}

proof fn lemma_field_map(fields: Seq<(Seq<char>, Seq<char>)>, k: int, n: int)
    requires
        0 <= k <= n <= fields.len(),
    ensures
        field_map(fields, n).dom().finite(),
        field_map(fields, k).dom().subset_of(field_map(fields, n).dom()),
        field_map(fields, k).dom().len() <= field_map(fields, n).dom().len(),
        field_map(fields, n).dom().len() <= n,
    decreases n,
{
    if n > 0 {
        lemma_field_map(fields, if k < n {
            k
        } else {
            n - 1
        }, n - 1);
    }
    if k < n {
        vstd::set_lib::lemma_len_subset(field_map(fields, k).dom(), field_map(fields, n).dom());
    }
}

/// The header map with some names and values, where they can be header fields and a map has room
/// for them.
pub fn header_map_of(list: &Vec<(String, String)>) -> (r: Option<hyper::HeaderMap>)
    ensures
        ({
            let fields = seqs::text_pairs(list@);
            let names = field_map(fields, fields.len() as int).dom();
            match r {
                Some(h) => fields_are_sound(fields) && header_contents(h) == field_map(
                    fields,
                    fields.len() as int,
                ) && names.len() <= MOST_HEADER_NAMES,
                None => !fields_are_sound(fields) || names.len() > MAX_HEADER_NAMES,
            }
        }),
{
    let ghost fields = seqs::text_pairs(list@);
    let mut out = new_map();
    let mut i: usize = 0;
    while i < list.len()
        invariant
            i <= list.len(),
            fields == seqs::text_pairs(list@),
            header_contents(out) == field_map(fields, i as int),
            field_map(fields, i as int).dom().len() <= MOST_HEADER_NAMES,
            forall|k: int|
                0 <= k < i ==> is_header_name((#[trigger] fields[k]).0) && is_header_value(
                    fields[k].1,
                ),
        decreases list.len() - i,
    {
        proof {
            assert(fields[i as int] == (list@[i as int].0@, list@[i as int].1@));
            lemma_field_map(fields, i as int, i as int);
            lemma_field_map(fields, i as int, fields.len() as int);
        }
        match (header_name(list[i].0.as_str()), header_value(list[i].1.as_str())) {
            (Some(n), Some(v)) => {
                if !try_append(&mut out, n, v) {
                    return None;
                }
            },
            _ => return None,
        }
        i += 1;
    }
    Some(out)
}

/// A content type with a character set.
fn charset_type_of(content_type: Option<&str>, charset: &str) -> (r: String)
    ensures
        r@ == charset_type(
            match content_type {
                Some(t) => Some(t@),
                None => None,
            },
            charset@,
        ),
{
    let base: String = match content_type {
        Some(t) => {
            let all = text::split(t, ";");
            let mut parts: Vec<&str> = Vec::new();
            let ghost trimmed = seqs::split(t@, ";"@).map_values(|p: Seq<char>| seqs::trim(p));
            let ghost keep = |p: Seq<char>|
                p.len() > 0 && !seqs::starts_with(seqs::lower(p), "charset="@);
            let mut i: usize = 0;
            proof {
                reveal(Seq::filter);
                assert(seqs::slices(parts@) =~= trimmed.take(0).filter(keep));
            }
            while i < all.len()
                invariant
                    i <= all.len(),
                    all.len() == trimmed.len(),
                    seqs::slices(all@) == seqs::split(t@, ";"@),
                    trimmed == seqs::split(t@, ";"@).map_values(|p: Seq<char>| seqs::trim(p)),
                    keep == (|p: Seq<char>|
                        p.len() > 0 && !seqs::starts_with(seqs::lower(p), "charset="@)),
                    seqs::slices(parts@) == trimmed.take(i as int).filter(keep),
                decreases all.len() - i,
            {
                let ghost before = seqs::slices(parts@);
                proof {
                    seqs::lemma_filter_step(trimmed, i as int, keep);
                    assert(seqs::slices(all@)[i as int] == all@[i as int]@);
                }
                let p = text::trim(all[i]);
                let low = text::lower(p);
                if !p.is_empty() && !text::starts_with(low.as_str(), "charset=") {
                    parts.push(p);
                    proof {
                        assert(seqs::slices(parts@) =~= before.push(p@));
                    }
                }
                i += 1;
            }
            proof {
                assert(trimmed.take(trimmed.len() as int) =~= trimmed);
            }
            text::join(&parts, "; ")
        },
        None => "text/plain".to_string(),
    };
    text::cat3(base.as_str(), "; charset=", charset)
}

/// Cookies behind those of a header.
fn cookie_text_of(existing: Option<&str>, cookies: &Vec<String>) -> (r: String)
    ensures
        r@ == cookie_text(
            match existing {
                Some(t) => Some(t@),
                None => None,
            },
            seqs::texts(cookies@),
        ),
{
    let mut parts: Vec<&str> = Vec::new();
    if let Some(t) = existing {
        parts.push(t);
    }
    let ghost head = seqs::slices(parts@);
    proof {
        match existing {
            Some(t) => assert(head =~= seq![t@]),
            None => assert(head =~= seq![]),
        }
    }
    let mut i: usize = 0;
    while i < cookies.len()
        invariant
            i <= cookies.len(),
            seqs::slices(parts@) =~= head + seqs::texts(cookies@).take(i as int),
        decreases cookies.len() - i,
    {
        let ghost before = seqs::slices(parts@);
        let c = cookies[i].as_str();
        parts.push(c);
        proof {
            assert(seqs::slices(parts@) =~= before.push(c@));
            assert(seqs::texts(cookies@)[i as int] == c@);
        }
        i += 1;
    }
    proof {
        assert(seqs::slices(parts@) =~= head + seqs::texts(cookies@));
        if existing is None {
            assert(head + seqs::texts(cookies@) =~= seqs::texts(cookies@));
        }
    }
    text::join(&parts, "; ")
}

/// Changes the header fields.
pub fn apply_edit(headers: &mut hyper::HeaderMap, edit: &HeaderEdit)
    requires
        has_room(header_contents(*old(headers)), 1),
    ensures
        header_contents(*final(headers)) == edited(header_contents(*old(headers)), edit@),
{
    match edit {
        HeaderEdit::Put(name, value) => set_header(headers, name.as_str(), value.as_str()),
        HeaderEdit::Append(name, value) => {
            match (header_name(name.as_str()), header_value(value.as_str())) {
                (Some(n), Some(v)) => append(headers, n, v),
                _ => {},
            }
        },
        HeaderEdit::Remove(name) => remove(headers, name.as_str()),
        HeaderEdit::Charset(charset) => {
            let value = charset_type_of(header_text(headers, "content-type"), charset.as_str());
            set_header(headers, "content-type", value.as_str())
        },
        HeaderEdit::Replace(name, from, to) => {
            let value: Option<String> = match header_text(headers, name.as_str()) {
                Some(t) => if text::contains(t, from.as_str()) {
                    Some(text::replace(t, from.as_str(), to.as_str()))
                } else {
                    None
                },
                None => None,
            };
            if let Some(v) = value {
                set_header(headers, name.as_str(), v.as_str())
            }
        },
        HeaderEdit::Cookies(cookies) => {
            let value = cookie_text_of(header_text(headers, "cookie"), cookies);
            set_header(headers, "cookie", value.as_str())
        },
    }
}

proof fn lemma_edit_needs_room(
    contents: Map<Seq<char>, Seq<Seq<u8>>>,
    edit: EditModel,
    n: int,
)
    requires
        has_room(contents, n),
        n >= 1,
    ensures
        has_room(edited(contents, edit), n - 1),
{
    let after = edited(contents, edit);
    assert forall|k: Seq<char>, v: Seq<Seq<u8>>|
        #![trigger contents.insert(k, v)]
        contents.insert(k, v).dom().finite() && contents.insert(k, v).dom().len()
            <= contents.dom().len() + 1 by {
        assert(contents.insert(k, v).dom() =~= contents.dom().insert(k));
    }
    assert forall|k: Seq<char>|
        #![trigger contents.remove(k)]
        contents.remove(k).dom().finite() && contents.remove(k).dom().len()
            <= contents.dom().len() by {
        assert(contents.remove(k).dom() =~= contents.dom().remove(k));
    }
}

/// The changes leave the room that they do not need.
pub proof fn lemma_edits_leave_room(
    contents: Map<Seq<char>, Seq<Seq<u8>>>,
    edits: Seq<EditModel>,
    n: int,
    k: int,
)
    requires
        0 <= n <= edits.len(),
        0 <= k,
        has_room(contents, n + k),
    ensures
        has_room(edited_by(contents, edits, n), k),
    decreases n,
{
    if n > 0 {
        lemma_edits_leave_room(contents, edits, n - 1, k + 1);
        lemma_edit_needs_room(edited_by(contents, edits, n - 1), edits[n - 1], k + 1);
    }
}

/// Makes changes to the header fields one after the other.
pub fn apply_edits(headers: &mut hyper::HeaderMap, edits: &Vec<HeaderEdit>)
    requires
        has_room(header_contents(*old(headers)), edits@.len() as int),
    ensures
        header_contents(*final(headers)) == edited_by(
            header_contents(*old(headers)),
            edit_models(edits@),
            edits@.len() as int,
        ),
{
    let ghost before = header_contents(*headers);
    let mut i: usize = 0;
    while i < edits.len()
        invariant
            i <= edits.len(),
            header_contents(*headers) == edited_by(before, edit_models(edits@), i as int),
            has_room(header_contents(*headers), edits@.len() - i),
        decreases edits.len() - i,
    {
        proof {
            lemma_edit_needs_room(header_contents(*headers), edits@[i as int]@, edits@.len() - i);
        }
        apply_edit(headers, &edits[i]);
        i += 1;
    }
}

/// Makes changes to the header fields, where the map has room for them; else it stays as it is.
pub fn try_edits(headers: &mut hyper::HeaderMap, edits: &Vec<HeaderEdit>) -> (r: bool)
    ensures
        r == has_room(header_contents(*old(headers)), edits@.len() as int),
        header_contents(*final(headers)) == if r {
            edited_by(
                header_contents(*old(headers)),
                edit_models(edits@),
                edits@.len() as int,
            )
        } else {
            header_contents(*old(headers))
        },
{
    if room_for(headers, edits.len()) {
        apply_edits(headers, edits);
        true
    } else {
        false
    }
}

// ---- laws ----

/// A header that was set is read back as it was set, whatever the case of its name.
pub proof fn law_set_header_is_read_back(
    contents: Map<Seq<char>, Seq<Seq<u8>>>,
    name: Seq<char>,
    other: Seq<char>,
    value: Seq<char>,
)
    requires
        is_header_name(name),
        is_header_value(value),
        seqs::same_ignoring_case(name, other),
    ensures
        values_of(with_set(contents, name, value), seqs::lower(other)) == seq![
            vstd::utf8::encode_utf8(value),
        ],
{
}

/// A change to one header leaves the others as they are.
pub proof fn law_set_header_keeps_the_others(
    contents: Map<Seq<char>, Seq<Seq<u8>>>,
    name: Seq<char>,
    other: Seq<char>,
    value: Seq<char>,
)
    requires
        !seqs::same_ignoring_case(name, other),
    ensures
        values_of(with_set(contents, name, value), seqs::lower(other)) == values_of(
            contents,
            seqs::lower(other),
        ),
        values_of(edited(contents, EditModel::Remove(name)), seqs::lower(other)) == values_of(
            contents,
            seqs::lower(other),
        ),
{
}

/// A name or a value that no header can have changes nothing.
pub proof fn law_bad_headers_are_skipped(
    contents: Map<Seq<char>, Seq<Seq<u8>>>,
    name: Seq<char>,
    value: Seq<char>,
)
    requires
        !is_header_name(name) || !is_header_value(value),
    ensures
        edited(contents, EditModel::Put(name, value)) == contents,
        edited(contents, EditModel::Append(name, value)) == contents,
        !is_header_name(name) ==> edited(contents, EditModel::Remove(name)) == contents,
        !is_header_name(name) ==> first_text(contents, name) is None,
{
}

/// A text of small letters and hyphens can be a header name.
pub proof fn lemma_plain_name(name: Seq<char>)
    requires
        0 < name.len() <= 65535,
        forall|i: int| 0 <= i < name.len() ==> 'a' <= #[trigger] name[i] <= 'z' || name[i] == '-',
    ensures
        is_header_name(name),
{
    reveal_strlit("!#$%&'*+-.^_`|~");
    assert("!#$%&'*+-.^_`|~"@[8] == '-');
}

/// A header name is one word, and no `=` stands in it.
pub proof fn lemma_names_are_words(name: Seq<char>)
    requires
        is_header_name(name),
    ensures
        seqs::lacks(name, '='),
        forall|i: int| 0 <= i < name.len() ==> !seqs::is_space(#[trigger] name[i]),
{
    reveal_strlit("!#$%&'*+-.^_`|~");
    let signs = "!#$%&'*+-.^_`|~"@;
    assert forall|i: int| 0 <= i < name.len() implies !seqs::is_space(#[trigger] name[i]) && name[i]
        != '=' by {
        assert(is_token_char(name[i]));
        if signs.contains(name[i]) {
            let k = choose|k: int| 0 <= k < signs.len() && signs[k] == name[i];
            assert(0 <= k < 15);
        }
    }
}

/// A character set is named at the end of the content type. One that was named before is not named
/// any more, and the type is plain text where there was none.
pub proof fn law_charset_is_named_once(
    base: Seq<char>,
    blank: Seq<char>,
    earlier: Seq<char>,
    charset: Seq<char>,
)
    requires
        base.len() > 0 && seqs::lacks(base, ';'),
        !seqs::is_space(base[0]) && !seqs::is_space(base.last()),
        !seqs::starts_with(seqs::lower(base), "charset="@),
        seqs::lacks(earlier, ';'),
        earlier.len() > 0 && !seqs::is_space(earlier.last()),
        forall|i: int| 0 <= i < blank.len() ==> #[trigger] blank[i] == ' ',
    ensures
        charset_type(None, charset) == "text/plain"@ + "; charset="@ + charset,
        charset_type(Some(base), charset) == base + "; charset="@ + charset,
        charset_type(Some(base + seq![';'] + (blank + "charset="@ + earlier)), charset) == base
            + "; charset="@ + charset,
        charset_type(Some(base + seq![';'] + (blank + "Charset="@ + earlier)), charset) == base
            + "; charset="@ + charset,
{
    reveal_strlit("charset=");
    reveal_strlit("Charset=");
    reveal_strlit("; ");
    let none = Seq::<char>::empty();
    seqs::law_trim_takes_white_space_off(none, base, none);
    assert(none + base + none =~= base);
    lemma_type_of_parts(seq![base], seq![base]);
    assert(seqs::join(seq![base], seq![';']) == base);
    assert(seqs::join(seq![base], "; "@) == base);
    let small = "charset="@ + earlier;
    let large = "Charset="@ + earlier;
    assert(small.subrange(0, 8) =~= "charset="@);
    assert(large.subrange(0, 8) =~= "Charset="@);
    lemma_named_charset(base, blank, small);
    lemma_named_charset(base, blank, large);
    assert(blank + small =~= blank + "charset="@ + earlier);
    assert(blank + large =~= blank + "Charset="@ + earlier);
}

proof fn lemma_named_charset(base: Seq<char>, blank: Seq<char>, named: Seq<char>)
    requires
        base.len() > 0 && seqs::lacks(base, ';'),
        !seqs::is_space(base[0]) && !seqs::is_space(base.last()),
        !seqs::starts_with(seqs::lower(base), "charset="@),
        named.len() > 8 && !seqs::is_space(named.last()),
        forall|i: int| 8 <= i < named.len() ==> #[trigger] named[i] != ';',
        named.subrange(0, 8) == "charset="@ || named.subrange(0, 8) == "Charset="@,
        forall|i: int| 0 <= i < blank.len() ==> #[trigger] blank[i] == ' ',
    ensures
        seqs::join(type_parts(base + seq![';'] + (blank + named)), "; "@) == base,
{
    reveal_strlit("charset=");
    reveal_strlit("Charset=");
    let none = Seq::<char>::empty();
    let second = blank + named;
    let parts = seq![base, second];
    let head = named.subrange(0, 8);
    assert forall|i: int| 0 <= i < 8 implies #[trigger] named[i] == head[i] by {}
    assert(named[0] == head[0]);
    seqs::law_trim_takes_white_space_off(none, base, none);
    assert(none + base + none =~= base);
    seqs::law_trim_takes_white_space_off(blank, named, none);
    assert(blank + named + none =~= second);
    assert(seqs::lacks(second, ';')) by {
        assert forall|i: int| 0 <= i < second.len() implies #[trigger] second[i] != ';' by {
            if i < blank.len() {
                assert(second[i] == blank[i]);
            } else {
                assert(second[i] == named[i - blank.len()]);
                if i - blank.len() < 8 {
                    assert(named[i - blank.len()] == head[i - blank.len()]);
                }
            }
        }
    }
    assert(seqs::starts_with(seqs::lower(named), "charset="@)) by {
        assert(seqs::lower(named).subrange(0, 8) =~= "charset="@) by {
            assert forall|i: int| 0 <= i < 8 implies #[trigger] seqs::lower(named)[i]
                == "charset="@[i] by {
                assert(named[i] == head[i]);
            }
        }
    }
    let trimmed = seq![base, named];
    lemma_type_of_parts(parts, trimmed);
    assert(parts.drop_last() =~= seq![base]);
    assert(seqs::join(parts, seq![';']) =~= base + seq![';'] + second) by {
        reveal_with_fuel(seqs::join, 3);
    }
    let keep = |p: Seq<char>| p.len() > 0 && !seqs::starts_with(seqs::lower(p), "charset="@);
    reveal(Seq::filter);
    assert(trimmed.drop_last() =~= seq![base]);
    assert(seq![base].drop_last() =~= seq![]);
    assert(seq![base].filter(keep) =~= seq![base]);
    assert(trimmed.filter(keep) =~= seq![base]);
    assert(seqs::join(seq![base], "; "@) == base);
}

proof fn lemma_type_of_parts(parts: Seq<Seq<char>>, trimmed: Seq<Seq<char>>)
    requires
        parts.len() > 0,
        parts.len() == trimmed.len(),
        forall|i: int|
            0 <= i < parts.len() ==> seqs::lacks(#[trigger] parts[i], ';') && seqs::trim(parts[i])
                == trimmed[i],
    ensures
        type_parts(seqs::join(parts, seq![';'])) == trimmed.filter(
            |p: Seq<char>| p.len() > 0 && !seqs::starts_with(seqs::lower(p), "charset="@),
        ),
        parts.len() == 1 && trimmed[0].len() > 0 && !seqs::starts_with(
            seqs::lower(trimmed[0]),
            "charset="@,
        ) ==> type_parts(seqs::join(parts, seq![';'])) == trimmed,
{
    reveal_strlit(";");
    assert(";"@ =~= seq![';']);
    seqs::lemma_split_joined(parts, ';');
    assert(parts.map_values(|p: Seq<char>| seqs::trim(p)) =~= trimmed);
    let keep = |p: Seq<char>| p.len() > 0 && !seqs::starts_with(seqs::lower(p), "charset="@);
    if parts.len() == 1 && trimmed[0].len() > 0 && !seqs::starts_with(
        seqs::lower(trimmed[0]),
        "charset="@,
    ) {
        seqs::lemma_keep_all(trimmed, keep);
    }
}

/// A value that is added to a field comes behind those that are there, and other fields stay. Field
/// names are told apart without regard to letter case.
pub proof fn law_added_value_comes_last(
    contents: Map<Seq<char>, Seq<Seq<u8>>>,
    name: Seq<char>,
    other: Seq<char>,
    value: Seq<char>,
)
    requires
        is_header_name(name),
        is_header_value(value),
    ensures
        values_of(edited(contents, EditModel::Append(name, value)), seqs::lower(name)) == values_of(
            contents,
            seqs::lower(name),
        ) + seq![vstd::utf8::encode_utf8(value)],
        !seqs::same_ignoring_case(name, other) ==> values_of(
            edited(contents, EditModel::Append(name, value)),
            seqs::lower(other),
        ) == values_of(contents, seqs::lower(other)),
{
    let before = values_of(contents, seqs::lower(name));
    let v = vstd::utf8::encode_utf8(value);
    assert(before.push(v) =~= before + seq![v]);
}

/// A field is read as text where its first value is visible ASCII, blanks and tabs: as the
/// characters that its bytes stand for.
pub proof fn law_first_value_is_read_as_text(
    contents: Map<Seq<char>, Seq<Seq<u8>>>,
    name: Seq<char>,
    bytes: Seq<u8>,
    more: Seq<Seq<u8>>,
)
    requires
        is_header_name(name),
        contents.contains_key(seqs::lower(name)),
        contents[seqs::lower(name)] == seq![bytes] + more,
    ensures
        (forall|i: int| 0 <= i < bytes.len() ==> #[trigger] bytes[i] == 9 || 32 <= bytes[i] <= 126)
            ==> first_text(contents, name) == Some(
            Seq::new(bytes.len(), |i: int| bytes[i] as char),
        ),
        (exists|i: int|
            0 <= i < bytes.len() && (#[trigger] bytes[i] < 32 && bytes[i] != 9 || bytes[i] > 126))
            ==> first_text(contents, name) is None,
        first_text(contents.remove(seqs::lower(name)), name) is None,
{
    assert(contents[seqs::lower(name)][0] == bytes);
}

/// A list of fields is read in order: the values of each name as they come, whatever the case in
/// which the name is written.
pub proof fn law_fields_are_read_in_order(
    fields: Seq<(Seq<char>, Seq<char>)>,
    name: Seq<char>,
    value: Seq<char>,
    other: Seq<char>,
)
    ensures
        field_map(Seq::empty(), 0) == Map::<Seq<char>, Seq<Seq<u8>>>::empty(),
        values_of(field_map(fields.push((name, value)), fields.len() + 1int), seqs::lower(name))
            == values_of(field_map(fields, fields.len() as int), seqs::lower(name)) + seq![
            vstd::utf8::encode_utf8(value),
        ],
        seqs::lower(name) != other ==> values_of(
            field_map(fields.push((name, value)), fields.len() + 1int),
            other,
        ) == values_of(field_map(fields, fields.len() as int), other),
{
    let all = fields.push((name, value));
    let n = fields.len() as int;
    lemma_field_map_same(fields, all, n);
    assert(all[n] == (name, value));
    let before = values_of(field_map(fields, n), seqs::lower(name));
    let v = vstd::utf8::encode_utf8(value);
    assert(before.push(v) =~= before + seq![v]);
}

proof fn lemma_field_map_same(
    a: Seq<(Seq<char>, Seq<char>)>,
    b: Seq<(Seq<char>, Seq<char>)>,
    n: int,
)
    requires
        n <= a.len(),
        n <= b.len(),
        forall|i: int| 0 <= i < n ==> a[i] == b[i],
    ensures
        field_map(a, n) == field_map(b, n),
    decreases n,
{
    if n > 0 {
        lemma_field_map_same(a, b, n - 1);
    }
}

/// A value of visible ASCII characters and blanks is read back as the text that it was written as.
pub proof fn lemma_ascii_is_read_back(value: Seq<char>)
    requires
        forall|i: int| 0 <= i < value.len() ==> ' ' <= #[trigger] value[i] <= '~',
    ensures
        is_visible(vstd::utf8::encode_utf8(value)),
        ascii_text(vstd::utf8::encode_utf8(value)) == value,
{
    assert(vstd::utf8::is_ascii_chars(value));
    vstd::utf8::is_ascii_chars_encode_utf8(value);
    assert(ascii_text(vstd::utf8::encode_utf8(value)) =~= value);
}

/// A field that was set to visible ASCII characters and blanks is read as that text.
pub proof fn law_set_text_is_read_back(
    contents: Map<Seq<char>, Seq<Seq<u8>>>,
    name: Seq<char>,
    value: Seq<char>,
)
    requires
        is_header_name(name),
        forall|i: int| 0 <= i < value.len() ==> ' ' <= #[trigger] value[i] <= '~',
    ensures
        first_text(with_set(contents, name, value), name) == Some(value),
        first_text(edited(contents, EditModel::Put(name, value)), name) == Some(value),
        first_text(edited(contents, EditModel::Remove(name)), name) is None,
{
    lemma_ascii_is_read_back(value);
}

} // verus!
