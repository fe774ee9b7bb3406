//! Text functions, each with a contract over the sequence functions of [`crate::seqs`].
use crate::seqs;
use vstd::prelude::*;

verus! {

/// `str == str` of std: two string slices are equal exactly when they hold the same characters.
pub assume_specification[ <str as PartialEq<str>>::eq ](a: &str, b: &str) -> (r: bool)
    ensures
        r == (a@ == b@),
;

/// `String::push` of std: appends one character to the end.
pub assume_specification[ String::push ](s: &mut String, c: char)
    ensures
        final(s)@ == old(s)@.push(c),
;

/// The text that `String::from_utf8_lossy` makes of bytes that are not UTF-8.
pub uninterp spec fn replaced_utf8(bytes: Seq<u8>) -> Seq<char>;

/// `String::from_utf8_lossy` of std: bytes that are UTF-8 are decoded as such. What it makes of
/// other bytes depends on them alone, and is left to the name.
#[verifier::external_body]
pub(crate) fn lossy(bytes: &[u8]) -> (r: String)
    ensures
        r@ == if vstd::utf8::valid_utf8(bytes@) {
            vstd::utf8::decode_utf8(bytes@)
        } else {
            replaced_utf8(bytes@)
        },
{
    String::from_utf8_lossy(bytes).into_owned()
}

/// Bytes as text, with what is not UTF-8 replaced.
pub open spec fn lossy_utf8(bytes: Seq<u8>) -> Seq<char> {
    if vstd::utf8::valid_utf8(bytes) {
        vstd::utf8::decode_utf8(bytes)
    } else {
        replaced_utf8(bytes)
    }
}

/// The bytes of a text are read back as that text.
pub proof fn law_utf8_is_read_back(s: Seq<char>)
    ensures
        lossy_utf8(vstd::utf8::encode_utf8(s)) == s,
{
    vstd::utf8::encode_utf8_valid_utf8(s);
    vstd::utf8::encode_utf8_decode_utf8(s);
}

/// The two texts hold the same characters.
pub fn same(a: &str, b: &str) -> (r: bool)
    ensures
        r == (a@ == b@),
{
    *a == *b
}

/// The characters of a text.
pub fn chars_of(s: &str) -> (r: Vec<char>)
    ensures
        r@ == s@,
{
    let mut out: Vec<char> = Vec::new();
    for c in it: s.chars()
        invariant
            out@ == s@.take(it.index()),
            it.seq() == s@,
    {
        out.push(c);
    }
    out
}

/// The UTF-8 bytes of a text.
pub fn bytes_of(s: &str) -> (r: Vec<u8>)
    ensures
        r@ == vstd::utf8::encode_utf8(s@),
{
    vstd::slice::slice_to_vec(s.as_bytes())
}

/// The text that bytes are, where they are UTF-8.
pub fn read_utf8(bytes: &[u8]) -> (r: Option<String>)
    ensures
        match r {
            Some(s) => vstd::utf8::valid_utf8(bytes@) && s@ == vstd::utf8::decode_utf8(bytes@),
            None => !vstd::utf8::valid_utf8(bytes@),
        },
{
    let s = lossy(bytes);
    let back = bytes_of(s.as_str());
    proof {
        vstd::utf8::encode_utf8_valid_utf8(s@);
        if vstd::utf8::valid_utf8(bytes@) {
            vstd::utf8::decode_utf8_encode_utf8(bytes@);
        }
    }
    if back.len() != bytes.len() {
        return None;
    }
    let mut i: usize = 0;
    while i < bytes.len()
        invariant
            i <= bytes.len(),
            back@.len() == bytes@.len(),
            forall|k: int| 0 <= k < i ==> back@[k] == bytes@[k],
            vstd::utf8::valid_utf8(bytes@) ==> back@ == bytes@,
        decreases bytes.len() - i,
    {
        if back[i] != bytes[i] {
            return None;
        }
        i += 1;
    }
    proof {
        assert(back@ =~= bytes@);
    }
    Some(s)
}

/// `a` followed by `b`.
pub fn cat(a: &str, b: &str) -> (r: String)
    ensures
        r@ == a@ + b@,
{
    let mut out = a.to_string();
    out.append(b);
    out
}

/// `a`, `b` and `c` one after another.
pub fn cat3(a: &str, b: &str, c: &str) -> (r: String)
    ensures
        r@ == a@ + b@ + c@,
{
    let mut out = a.to_string();
    out.append(b);
    out.append(c);
    out
}

// ---- finding ----

/// Whether `p` stands in `s` at position `i`.
fn occurs(s: &Vec<char>, p: &Vec<char>, i: usize) -> (r: bool)
    requires
        i + p.len() <= s.len(),
    ensures
        r == seqs::occurs_at(s@, p@, i as int),
{
    let mut k: usize = 0;
    while k < p.len()
        invariant
            i + p.len() <= s.len(),
            k <= p.len(),
            forall|j: int| 0 <= j < k ==> s@[i + j] == p@[j],
        decreases p.len() - k,
    {
        if s[i + k] != p[k] {
            proof {
                assert(s@.subrange(i as int, i + p.len())[k as int] == s@[i + k]);
            }
            return false;
        }
        k += 1;
    }
    proof {
        assert(s@.subrange(i as int, i + p.len()) =~= p@);
    }
    true
}

/// The first position of `p` in `s`, counted in characters.
pub fn find(s: &str, p: &str) -> (r: Option<usize>)
    ensures
        match r {
            Some(i) => seqs::find(s@, p@) == Some(i as int) && i + p@.len() <= s@.len(),
            None => seqs::find(s@, p@) is None,
        },
{
    let sc = chars_of(s);
    let pc = chars_of(p);
    if pc.len() > sc.len() {
        return None;
    }
    let last: usize = sc.len() - pc.len();
    let mut i: usize = 0;
    while i <= last
        invariant
            i <= last + 1,
            last + pc@.len() == sc@.len(),
            sc@.len() <= usize::MAX,
            sc@ == s@,
            pc@ == p@,
            seqs::find(s@, p@) == seqs::find_from(s@, p@, i as int),
        decreases last + 1 - i,
    {
        if occurs(&sc, &pc, i) {
            return Some(i);
        }
        if i == last {
            proof {
                reveal_with_fuel(seqs::find_from, 2);
            }
            return None;
        }
        i += 1;
    }
    None
}

/// The last position of `p` in `s`, counted in characters.
pub fn rfind(s: &str, p: &str) -> (r: Option<usize>)
    ensures
        match r {
            Some(i) => seqs::rfind(s@, p@) == Some(i as int) && i + p@.len() <= s@.len(),
            None => seqs::rfind(s@, p@) is None,
        },
{
    let sc = chars_of(s);
    let pc = chars_of(p);
    if pc.len() > sc.len() {
        return None;
    }
    let mut i: usize = sc.len() - pc.len();
    loop
        invariant
            i + pc@.len() <= sc@.len(),
            sc@ == s@,
            pc@ == p@,
            seqs::rfind(s@, p@) == seqs::rfind_to(s@, p@, i as int),
        decreases i,
    {
        if occurs(&sc, &pc, i) {
            return Some(i);
        }
        if i == 0 {
            proof {
                reveal_with_fuel(seqs::rfind_to, 2);
            }
            return None;
        }
        i -= 1;
    }
}

/// Whether `p` stands somewhere in `s`.
pub fn contains(s: &str, p: &str) -> (r: bool)
    ensures
        r == seqs::contains(s@, p@),
{
    find(s, p).is_some()
}

/// What follows `p` in a text that begins with it.
pub fn strip_prefix<'a>(s: &'a str, p: &str) -> (r: Option<&'a str>)
    ensures
        match r {
            Some(t) => seqs::strip_prefix(s@, p@) == Some(t@),
            None => seqs::strip_prefix(s@, p@) is None,
        },
{
    let sc = chars_of(s);
    let pc = chars_of(p);
    if pc.len() <= sc.len() && occurs(&sc, &pc, 0) {
        Some(s.substring_char(pc.len(), sc.len()))
    } else {
        None
    }
}

/// Whether `s` begins with `p`.
pub fn starts_with(s: &str, p: &str) -> (r: bool)
    ensures
        r == seqs::starts_with(s@, p@),
{
    let sc = chars_of(s);
    let pc = chars_of(p);
    pc.len() <= sc.len() && occurs(&sc, &pc, 0)
}

// ---- splitting ----

/// The text before and after the first `p`.
pub fn split_once<'a>(s: &'a str, p: &str) -> (r: Option<(&'a str, &'a str)>)
    ensures
        match r {
            Some((a, b)) => seqs::split_once(s@, p@) == Some((a@, b@)),
            None => seqs::split_once(s@, p@) is None,
        },
{
    match find(s, p) {
        Some(i) => {
            let n: usize = s.unicode_len();
            let m: usize = p.unicode_len();
            Some((s.substring_char(0, i), s.substring_char(i + m, n)))
        },
        None => None,
    }
}

/// The text before and after the last `p`.
pub fn rsplit_once<'a>(s: &'a str, p: &str) -> (r: Option<(&'a str, &'a str)>)
    ensures
        match r {
            Some((a, b)) => seqs::rsplit_once(s@, p@) == Some((a@, b@)),
            None => seqs::rsplit_once(s@, p@) is None,
        },
{
    match rfind(s, p) {
        Some(i) => {
            let n: usize = s.unicode_len();
            let m: usize = p.unicode_len();
            Some((s.substring_char(0, i), s.substring_char(i + m, n)))
        },
        None => None,
    }
}

/// The text up to the first `p`, or all of it.
pub fn before<'a>(s: &'a str, p: &str) -> (r: &'a str)
    ensures
        r@ == seqs::before(s@, p@),
{
    match find(s, p) {
        Some(i) => s.substring_char(0, i),
        None => s,
    }
}

/// The text after the last `p`, or all of it.
pub fn after_last<'a>(s: &'a str, p: &str) -> (r: &'a str)
    ensures
        r@ == seqs::after_last(s@, p@),
{
    match rsplit_once(s, p) {
        Some((_, b)) => b,
        None => s,
    }
}

/// The pieces of `s` between the `p`s.
pub fn split<'a>(s: &'a str, p: &str) -> (r: Vec<&'a str>)
    ensures
        seqs::slices(r@) == seqs::split(s@, p@),
{
    let mut out: Vec<&'a str> = Vec::new();
    if p.is_empty() {
        out.push(s);
        proof {
            seqs::lemma_find_from(s@, p@, 0);
            assert(seqs::slices(out@) =~= seq![s@]);
        }
        return out;
    }
    let mut rest: &'a str = s;
    loop
        invariant
            p@.len() > 0,
            seqs::slices(out@) + seqs::split(rest@, p@) == seqs::split(s@, p@),
        decreases rest@.len(),
    {
        let ghost before_out = out@;
        let ghost before_rest = rest@;
        proof {
            seqs::lemma_find_from(rest@, p@, 0);
        }
        match split_once(rest, p) {
            Some((a, b)) => {
                out.push(a);
                rest = b;
                proof {
                    assert(seqs::slices(out@) =~= seqs::slices(before_out).push(a@));
                    assert(seqs::slices(out@) + seqs::split(b@, p@) =~= seqs::slices(before_out) + (
                    seq![a@] + seqs::split(b@, p@)));
                }
            },
            None => {
                out.push(rest);
                proof {
                    assert(seqs::slices(out@) =~= seqs::slices(before_out).push(rest@));
                    assert(seqs::slices(out@) =~= seqs::slices(before_out) + seq![rest@]);
                }
                return out;
            },
        }
    }
}

/// The pieces of `s` between the `p`s that are not empty.
pub fn pieces<'a>(s: &'a str, p: &str) -> (r: Vec<&'a str>)
    ensures
        seqs::slices(r@) == seqs::pieces(s@, p@),
{
    let all = split(s, p);
    let mut out: Vec<&'a str> = Vec::new();
    let ghost keep = |t: Seq<char>| t.len() > 0;
    let ghost parts = seqs::slices(all@);
    let mut i: usize = 0;
    proof {
        reveal(Seq::filter);
        assert(parts.take(0) =~= Seq::empty());
        assert(seqs::slices(out@) =~= Seq::empty());
    }
    while i < all.len()
        invariant
            i <= all.len(),
            parts == seqs::slices(all@),
            keep == (|t: Seq<char>| t.len() > 0),
            seqs::slices(out@) == parts.take(i as int).filter(keep),
        decreases all.len() - i,
    {
        let ghost before_out = out@;
        proof {
            seqs::lemma_filter_step(parts, i as int, keep);
        }
        let t = all[i];
        if !t.is_empty() {
            out.push(t);
            proof {
                assert(seqs::slices(out@) =~= seqs::slices(before_out).push(t@));
            }
        }
        i += 1;
    }
    proof {
        assert(parts.take(parts.len() as int) =~= parts);
    }
    out
}

/// A `name=value` pair; the value is empty where there is no `=`.
pub fn pair<'a>(s: &'a str) -> (r: (&'a str, &'a str))
    ensures
        (r.0@, r.1@) == seqs::pair(s@),
{
    proof {
        reveal_strlit("=");
        reveal_strlit("");
        assert("="@ =~= seq!['=']);
        assert(""@ =~= Seq::<char>::empty());
    }
    match split_once(s, "=") {
        Some((k, v)) => (k, v),
        None => (s, ""),
    }
}

/// The text up to the first `/`, `?` or `#`.
pub fn authority<'a>(s: &'a str) -> (r: &'a str)
    ensures
        r@ == seqs::authority(s@),
{
    let sc = chars_of(s);
    let mut i: usize = 0;
    while i < sc.len() && sc[i] != '/' && sc[i] != '?' && sc[i] != '#'
        invariant
            i <= sc.len(),
            sc@ == s@,
            seqs::authority_end(s@, 0) == seqs::authority_end(s@, i as int),
        decreases sc.len() - i,
    {
        i += 1;
    }
    s.substring_char(0, i)
}

/// Appends the line read so far to the lines, without one carriage return at its end.
fn end_line(out: &mut Vec<String>, line: &Vec<char>)
    ensures
        seqs::texts(final(out)@) == seqs::texts(old(out)@).push(seqs::strip_cr(line@)),
{
    let n: usize = if line.len() > 0 && line[line.len() - 1] == '\r' {
        line.len() - 1
    } else {
        line.len()
    };
    let t = string_of(line, n);
    proof {
        assert(t@ =~= seqs::strip_cr(line@));
    }
    out.push(t);
    proof {
        assert(seqs::texts(out@) =~= seqs::texts(old(out)@).push(t@));
    }
}

/// The first `n` characters as a text.
fn string_of(chars: &Vec<char>, n: usize) -> (r: String)
    requires
        n <= chars.len(),
    ensures
        r@ == chars@.take(n as int),
{
    let mut out = String::new();
    let mut i: usize = 0;
    while i < n
        invariant
            i <= n <= chars.len(),
            out@ == chars@.take(i as int),
        decreases n - i,
    {
        out.push(chars[i]);
        i += 1;
        proof {
            assert(chars@.take(i as int) =~= chars@.take(i - 1).push(chars@[i - 1]));
        }
    }
    out
}

/// The lines of a text: each ends with `\n` or `\r\n`, the last one need not.
pub fn lines(s: &str) -> (r: Vec<String>)
    ensures
        seqs::texts(r@) == seqs::lines(s@),
{
    let sc = chars_of(s);
    let mut out: Vec<String> = Vec::new();
    let mut line: Vec<char> = Vec::new();
    let mut i: usize = 0;
    proof {
        assert(line@ + s@.subrange(0, s@.len() as int) =~= s@);
        assert(seqs::texts(out@) =~= Seq::empty());
        assert(seqs::texts(out@) + seqs::lines(s@) =~= seqs::lines(s@));
    }
    while i < sc.len()
        invariant
            i <= sc.len(),
            sc@ == s@,
            forall|k: int| 0 <= k < line@.len() ==> line@[k] != '\n',
            seqs::texts(out@) + seqs::lines(line@ + s@.subrange(i as int, s@.len() as int))
                == seqs::lines(s@),
        decreases sc.len() - i,
    {
        let c = sc[i];
        let ghost tail = s@.subrange(i as int, s@.len() as int);
        let ghost rest = s@.subrange(i + 1, s@.len() as int);
        let ghost outs = seqs::texts(out@);
        proof {
            assert(tail =~= seq![c] + rest);
            assert(line@ + tail =~= line@.push(c) + rest);
        }
        if c == '\n' {
            end_line(&mut out, &line);
            proof {
                let whole = line@.push('\n') + rest;
                seqs::lemma_find_char(line@, '\n', rest);
                assert(whole.subrange(0, line@.len() as int) =~= line@);
                assert(whole.subrange(line@.len() as int + 1, whole.len() as int) =~= rest);
                assert(Seq::<char>::empty() + rest =~= rest);
                assert(outs + (seq![seqs::strip_cr(line@)] + seqs::lines(rest)) =~= outs.push(
                    seqs::strip_cr(line@),
                ) + seqs::lines(rest));
            }
            line.clear();
        } else {
            line.push(c);
        }
        i += 1;
    }
    proof {
        assert(line@ + s@.subrange(i as int, s@.len() as int) =~= line@);
        seqs::lemma_find_char(line@, '\n', seq![]);
    }
    if line.len() > 0 {
        let t = string_of(&line, line.len());
        let ghost outs = seqs::texts(out@);
        out.push(t);
        proof {
            assert(t@ =~= line@);
            assert(seqs::texts(out@) =~= outs + seq![line@]);
        }
    } else {
        proof {
            assert(seqs::lines(line@) =~= Seq::empty());
            assert(seqs::texts(out@) + seqs::lines(line@) =~= seqs::texts(out@));
        }
    }
    out
}

/// The first line of a text, empty where the text is.
pub fn first_line<'a>(s: &'a str) -> (r: &'a str)
    ensures
        r@ == seqs::first_line(s@),
{
    proof {
        reveal_strlit("\n");
        assert("\n"@ =~= seq!['\n']);
    }
    match find(s, "\n") {
        Some(i) => {
            if i > 0 && s.get_char(i - 1) == '\r' {
                proof {
                    assert(s@.subrange(0, i as int).drop_last() =~= s@.subrange(0, i - 1));
                }
                s.substring_char(0, i - 1)
            } else {
                s.substring_char(0, i)
            }
        },
        None => s,
    }
}

// ---- white space ----

/// Whether a character has Unicode's White_Space property.
pub fn is_space(c: char) -> (r: bool)
    ensures
        r == seqs::is_space(c),
{
    let n: u32 = c as u32;
    (0x9 <= n && n <= 0xD) || n == 0x20 || n == 0x85 || n == 0xA0 || n == 0x1680 || (0x2000 <= n
        && n <= 0x200A) || n == 0x2028 || n == 0x2029 || n == 0x202F || n == 0x205F || n == 0x3000
}

/// `s` without the white space at its start.
pub fn trim_start<'a>(s: &'a str) -> (r: &'a str)
    ensures
        r@ == seqs::trim_start(s@),
{
    let sc = chars_of(s);
    let mut a: usize = 0;
    while a < sc.len() && is_space(sc[a])
        invariant
            a <= sc.len(),
            sc@ == s@,
            seqs::skip_spaces(s@, 0) == seqs::skip_spaces(s@, a as int),
        decreases sc.len() - a,
    {
        a += 1;
    }
    s.substring_char(a, sc.len())
}

/// `s` without the white space at its start and end.
pub fn trim<'a>(s: &'a str) -> (r: &'a str)
    ensures
        r@ == seqs::trim(s@),
{
    let sc = chars_of(s);
    let mut a: usize = 0;
    while a < sc.len() && is_space(sc[a])
        invariant
            a <= sc.len(),
            sc@ == s@,
            seqs::skip_spaces(s@, 0) == seqs::skip_spaces(s@, a as int),
        decreases sc.len() - a,
    {
        a += 1;
    }
    let mut b: usize = sc.len();
    while b > 0 && is_space(sc[b - 1])
        invariant
            b <= sc.len(),
            sc@ == s@,
            seqs::trim_end_at(s@, s@.len() as int) == seqs::trim_end_at(s@, b as int),
        decreases b,
    {
        b -= 1;
    }
    if a <= b {
        s.substring_char(a, b)
    } else {
        proof {
            assert(s@.subrange(0, 0) =~= Seq::<char>::empty());
        }
        s.substring_char(0, 0)
    }
}

/// The words of `s`: the runs of characters that are no white space.
pub fn words<'a>(s: &'a str) -> (r: Vec<&'a str>)
    ensures
        seqs::slices(r@) == seqs::words(s@),
{
    let sc = chars_of(s);
    let mut out: Vec<&'a str> = Vec::new();
    let mut i: usize = 0;
    proof {
        assert(seqs::slices(out@) =~= Seq::empty());
        assert(seqs::slices(out@) + seqs::words(s@) =~= seqs::words(s@));
    }
    loop
        invariant
            i <= sc.len(),
            sc@ == s@,
            seqs::slices(out@) + seqs::words_from(s@, i as int) == seqs::words(s@),
        decreases sc.len() - i,
    {
        let mut a: usize = i;
        while a < sc.len() && is_space(sc[a])
            invariant
                i <= a <= sc.len(),
                sc@ == s@,
                seqs::skip_spaces(s@, i as int) == seqs::skip_spaces(s@, a as int),
            decreases sc.len() - a,
        {
            a += 1;
        }
        if a >= sc.len() {
            proof {
                assert(seqs::slices(out@) + seqs::words_from(s@, i as int) =~= seqs::slices(out@));
            }
            return out;
        }
        let mut b: usize = a;
        while b < sc.len() && !is_space(sc[b])
            invariant
                a <= b <= sc.len(),
                sc@ == s@,
                seqs::word_end(s@, a as int) == seqs::word_end(s@, b as int),
            decreases sc.len() - b,
        {
            b += 1;
        }
        proof {
            seqs::lemma_word_end(s@, a as int);
        }
        let w = s.substring_char(a, b);
        let ghost outs = seqs::slices(out@);
        out.push(w);
        proof {
            assert(seqs::slices(out@) =~= outs.push(w@));
            assert(outs + (seq![w@] + seqs::words_from(s@, b as int)) =~= outs.push(w@)
                + seqs::words_from(s@, b as int));
        }
        i = b;
    }
}

// ---- letter case ----

/// An ASCII capital as its small letter; any other character as it is.
pub fn lower_char(c: char) -> (r: char)
    ensures
        r == seqs::lower_char(c),
{
    if 'A' <= c && c <= 'Z' {
        ((c as u8) + 32) as char
    } else {
        c
    }
}

/// `s` with its ASCII capitals as small letters.
pub fn lower(s: &str) -> (r: String)
    ensures
        r@ == seqs::lower(s@),
{
    let mut out = String::new();
    for c in it: s.chars()
        invariant
            out@ == seqs::lower(s@.take(it.index())),
            it.seq() == s@,
    {
        let ghost done = out@;
        out.push(lower_char(c));
        proof {
            assert(out@ =~= seqs::lower(s@.take(it.index() + 1)));
        }
    }
    proof {
        assert(s@.take(s@.len() as int) =~= s@);
    }
    out
}

/// `s` with its ASCII small letters as capitals.
pub fn upper(s: &str) -> (r: String)
    ensures
        r@ == seqs::upper(s@),
{
    let mut out = String::new();
    for c in it: s.chars()
        invariant
            out@ == seqs::upper(s@.take(it.index())),
            it.seq() == s@,
    {
        let u: char = if 'a' <= c && c <= 'z' {
            ((c as u8) - 32) as char
        } else {
            c
        };
        out.push(u);
        proof {
            assert(out@ =~= seqs::upper(s@.take(it.index() + 1)));
        }
    }
    proof {
        assert(s@.take(s@.len() as int) =~= s@);
    }
    out
}

/// Whether the two texts are equal but for the case of ASCII letters.
pub fn same_ignoring_case(a: &str, b: &str) -> (r: bool)
    ensures
        r == seqs::same_ignoring_case(a@, b@),
{
    let x = lower(a);
    let y = lower(b);
    same(x.as_str(), y.as_str())
}

// ---- replacing and joining ----

/// `s` with each `from` as `to`.
pub fn replace(s: &str, from: &str, to: &str) -> (r: String)
    ensures
        r@ == seqs::replace(s@, from@, to@),
{
    let sc = chars_of(s);
    let fc = chars_of(from);
    let mut out = String::new();
    let mut i: usize = 0;
    if fc.len() == 0 {
        proof {
            assert(out@ + seqs::interleave_from(s@, to@, 0) =~= seqs::interleave_from(s@, to@, 0));
        }
        while i < sc.len()
            invariant
                i <= sc.len(),
                sc@ == s@,
                out@ + seqs::interleave_from(s@, to@, i as int)
                    == seqs::interleave_from(s@, to@, 0),
            decreases sc.len() - i,
        {
            let ghost done = out@;
            out.append(to);
            out.push(sc[i]);
            proof {
                let rest = seqs::interleave_from(s@, to@, i + 1);
                assert(done + (to@ + seq![s@[i as int]] + rest) =~= (done + to@).push(s@[i as int])
                    + rest);
            }
            i += 1;
        }
        out.append(to);
        return out;
    }
    proof {
        assert(out@ + seqs::replace_from(s@, from@, to@, 0) =~= seqs::replace_from(
            s@,
            from@,
            to@,
            0,
        ));
    }
    while i < sc.len()
        invariant
            i <= sc.len(),
            sc@ == s@,
            fc@ == from@,
            fc@.len() > 0,
            out@ + seqs::replace_from(s@, from@, to@, i as int) == seqs::replace_from(
                s@,
                from@,
                to@,
                0,
            ),
        decreases sc.len() - i,
    {
        let ghost done = out@;
        if fc.len() <= sc.len() - i && occurs(&sc, &fc, i) {
            out.append(to);
            proof {
                let rest = seqs::replace_from(s@, from@, to@, i + from@.len());
                assert(done + (to@ + rest) =~= (done + to@) + rest);
            }
            i += fc.len();
        } else {
            out.push(sc[i]);
            proof {
                let rest = seqs::replace_from(s@, from@, to@, i + 1);
                assert(done + (seq![s@[i as int]] + rest) =~= done.push(s@[i as int]) + rest);
            }
            i += 1;
        }
    }
    proof {
        assert(out@ + seqs::replace_from(s@, from@, to@, i as int) =~= out@);
    }
    out
}

/// The parts one after another with `sep` between them.
pub fn join(parts: &Vec<&str>, sep: &str) -> (r: String)
    ensures
        r@ == seqs::join(seqs::slices(parts@), sep@),
{
    let ghost all = seqs::slices(parts@);
    let mut out = String::new();
    let mut i: usize = 0;
    proof {
        assert(seqs::join(all.take(0), sep@) =~= out@);
    }
    while i < parts.len()
        invariant
            i <= parts.len(),
            all == seqs::slices(parts@),
            out@ == seqs::join(all.take(i as int), sep@),
        decreases parts.len() - i,
    {
        proof {
            assert(all.take(i + 1).drop_last() =~= all.take(i as int));
            assert(all.take(i + 1).last() == parts@[i as int]@);
            assert(i == 0 ==> out@ + parts@[0]@ =~= parts@[0]@);
        }
        if i > 0 {
            out.append(sep);
        }
        out.append(parts[i]);
        i += 1;
    }
    proof {
        assert(all.take(all.len() as int) =~= all);
    }
    out
}

// ---- decimal numbers ----

/// Appends `n` in decimal digits.
pub fn push_decimal(out: &mut String, n: u64)
    ensures
        final(out)@ == old(out)@ + seqs::decimal(n as nat),
    decreases n,
{
    if n >= 10 {
        push_decimal(out, n / 10);
    }
    let d: u8 = (n % 10) as u8;
    out.push((48 + d) as char);
    proof {
        if n < 10 {
            assert(out@ =~= old(out)@ + seqs::decimal(n as nat));
        } else {
            assert(old(out)@ + seqs::decimal(n as nat) =~= (old(out)@ + seqs::decimal(
                (n / 10) as nat,
            )).push(seqs::digit((n % 10) as int)));
        }
    }
}

/// `n` in decimal digits.
pub fn decimal(n: u64) -> (r: String)
    ensures
        r@ == seqs::decimal(n as nat),
{
    let mut out = String::new();
    push_decimal(&mut out, n);
    proof {
        assert(out@ =~= seqs::decimal(n as nat));
    }
    out
}

/// The number that `s` writes: an optional plus sign and decimal digits, up to `max`.
pub fn parse_number(s: &str, max: u64) -> (r: Option<u64>)
    ensures
        match r {
            Some(n) => seqs::parse_number(s@, max as nat) == Some(n as nat),
            None => seqs::parse_number(s@, max as nat) is None,
        },
{
    let sc = chars_of(s);
    let start: usize = if sc.len() > 0 && sc[0] == '+' {
        1
    } else {
        0
    };
    let ghost d = seqs::strip_plus(s@);
    proof {
        assert(d =~= s@.subrange(start as int, s@.len() as int));
        assert(d.take(0) =~= Seq::<char>::empty());
    }
    if start >= sc.len() {
        return None;
    }
    let mut n: u64 = 0;
    let mut i: usize = start;
    while i < sc.len()
        invariant
            start <= i <= sc.len(),
            start < sc.len(),
            start <= 1,
            sc@ == s@,
            d == s@.subrange(start as int, s@.len() as int),
            d == seqs::strip_plus(s@),
            seqs::all_digits(d.take(i - start)),
            n == seqs::digits_value(d.take(i - start)),
            n <= max,
        decreases sc.len() - i,
    {
        let c = sc[i];
        proof {
            assert(c == d[i - start]);
        }
        if c < '0' || c > '9' {
            proof {
                assert(!seqs::is_digit(d[i - start]));
            }
            return None;
        }
        let v: u64 = (c as u64) - 48;
        proof {
            let t = d.take(i - start + 1);
            assert(t.drop_last() =~= d.take(i - start));
            assert(t.last() == c);
            assert forall|k: int| 0 <= k < t.len() implies seqs::is_digit(#[trigger] t[k]) by {
                if k < i - start {
                    assert(t[k] == d.take(i - start)[k]);
                }
            }
            seqs::lemma_digits_value_grows(d, i - start + 1);
        }
        let wide: u128 = (n as u128) * 10 + (v as u128);
        if wide > max as u128 {
            return None;
        }
        n = wide as u64;
        i += 1;
    }
    proof {
        assert(d.take(i - start) =~= d);
    }
    Some(n)
}

} // verus!
