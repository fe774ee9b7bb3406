//! The file that tells which process runs the proxy.
use crate::seqs;
use crate::text;
use vstd::prelude::*;

verus! {

/// The name of the file.
pub open spec fn pid_file(dir: Seq<char>) -> Seq<char> {
    crate::config::joined(dir, "whistle-rs.pid"@)
}

/// The name of the file.
pub fn pid_file_path(dir: &str) -> (r: String)
    ensures
        r@ == pid_file(dir@),
{
    crate::config::join_path(dir, "whistle-rs.pid")
}

/// The process that runs the proxy.
#[derive(Debug, PartialEq, Eq, Structural, Clone, Copy)]
pub struct PidInfo {
    pub pid: u32,
    /// The port of the proxy.
    pub port: u16,
    /// The port of the dashboard.
    pub ui_port: u16,
}

/// The content of the file.
pub open spec fn pid_text(info: PidInfo) -> Seq<char> {
    "{\"pid\":"@ + seqs::decimal(info.pid as nat) + ",\"port\":"@ + seqs::decimal(info.port as nat)
        + ",\"ui_port\":"@ + seqs::decimal(info.ui_port as nat) + "}"@
}

/// The content of the file.
pub fn write_pid(info: PidInfo) -> (r: String)
    ensures
        r@ == pid_text(info),
{
    let mut out = "{\"pid\":".to_string();
    text::push_decimal(&mut out, info.pid as u64);
    out.append(",\"port\":");
    text::push_decimal(&mut out, info.port as u64);
    out.append(",\"ui_port\":");
    text::push_decimal(&mut out, info.ui_port as u64);
    out.append("}");
    out
}

/// The number of digits that a text begins with, from `i` on.
pub open spec fn digits_end(s: Seq<char>, i: int) -> int
    decreases s.len() - i,
{
    if 0 <= i < s.len() && seqs::is_digit(s[i]) {
        digits_end(s, i + 1)
    } else {
        i
    }
}

/// The digits that a text begins with.
pub open spec fn leading_digits(s: Seq<char>) -> Seq<char> {
    s.subrange(0, digits_end(s, 0))
}

/// The number behind a key in quotes and a colon, at its first place in a text.
pub open spec fn number_field(s: Seq<char>, key: Seq<char>) -> Option<nat> {
    let needle = "\""@ + key + "\""@;
    match seqs::find(s, needle) {
        Some(i) => match seqs::strip_prefix(
            seqs::trim_start(s.subrange(i + needle.len(), s.len() as int)),
            ":"@,
        ) {
            Some(rest) => {
                let digits = leading_digits(seqs::trim_start(rest));
                if digits.len() > 0 && seqs::digits_value(digits) <= u64::MAX {
                    Some(seqs::digits_value(digits))
                } else {
                    None
                }
            },
            None => None,
        },
        None => None,
    }
}

proof fn lemma_digits_end(s: Seq<char>, i: int)
    requires
        0 <= i <= s.len(),
        forall|k: int| 0 <= k < i ==> seqs::is_digit(#[trigger] s[k]),
    ensures
        i <= digits_end(s, i) <= s.len(),
        forall|k: int| 0 <= k < digits_end(s, i) ==> seqs::is_digit(#[trigger] s[k]),
        digits_end(s, i) < s.len() ==> !seqs::is_digit(s[digits_end(s, i)]),
    decreases s.len() - i,
{
    if i < s.len() && seqs::is_digit(s[i]) {
        lemma_digits_end(s, i + 1);
    }
}

/// The number behind a key in quotes and a colon, at its first place in a text.
pub fn json_number_field(s: &str, key: &str) -> (r: Option<u64>)
    ensures
        match r {
            Some(n) => number_field(s@, key@) == Some(n as nat),
            None => number_field(s@, key@) is None,
        },
{
    let needle = text::cat3("\"", key, "\"");
    let n: usize = needle.as_str().unicode_len();
    match text::find(s, needle.as_str()) {
        Some(i) => {
            let len: usize = s.unicode_len();
            let after = text::trim_start(s.substring_char(i + n, len));
            match text::strip_prefix(after, ":") {
                Some(rest) => {
                    let value = text::trim_start(rest);
                    let cs = text::chars_of(value);
                    let mut k: usize = 0;
                    while k < cs.len() && '0' <= cs[k] && cs[k] <= '9'
                        invariant
                            k <= cs.len(),
                            cs@ == value@,
                            digits_end(value@, 0) == digits_end(value@, k as int),
                        decreases cs.len() - k,
                    {
                        k += 1;
                    }
                    let digits = value.substring_char(0, k);
                    proof {
                        lemma_digits_end(value@, 0);
                        assert(digits@ == leading_digits(value@));
                        assert(seqs::all_digits(digits@));
                        if digits@.len() > 0 {
                            assert(seqs::is_digit(digits@[0]));
                            assert(seqs::strip_plus(digits@) == digits@);
                        } else {
                            assert(seqs::strip_plus(digits@) == digits@);
                        }
                    }
                    text::parse_number(digits, u64::MAX)
                },
                None => None,
            }
        },
        None => None,
    }
}

/// The process that a file tells of.
pub open spec fn pid_of(s: Seq<char>) -> Option<PidInfo> {
    match (number_field(s, "pid"@), number_field(s, "port"@), number_field(s, "ui_port"@)) {
        (Some(pid), Some(port), Some(ui_port)) => if pid <= u32::MAX && port <= u16::MAX && ui_port
            <= u16::MAX {
            Some(PidInfo { pid: pid as u32, port: port as u16, ui_port: ui_port as u16 })
        } else {
            None
        },
        _ => None,
    }
}

/// Reads the file. A file that is damaged tells of no process.
pub fn parse_pid_file(s: &str) -> (r: Option<PidInfo>)
    ensures
        r == pid_of(s@),
{
    match (
        json_number_field(s, "pid"),
        json_number_field(s, "port"),
        json_number_field(s, "ui_port"),
    ) {
        (Some(pid), Some(port), Some(ui_port)) => {
            if pid <= u32::MAX as u64 && port <= u16::MAX as u64 && ui_port <= u16::MAX as u64 {
                Some(PidInfo { pid: pid as u32, port: port as u16, ui_port: ui_port as u16 })
            } else {
                None
            }
        },
        _ => None,
    }
}

/// What the bytes of the file tell. Bytes that are no text tell of no process.
pub open spec fn pid_of_bytes(b: Seq<u8>) -> Option<PidInfo> {
    if vstd::utf8::valid_utf8(b) {
        pid_of(vstd::utf8::decode_utf8(b))
    } else {
        None
    }
}

/// Reads the bytes of the file. A file that is damaged tells of no process.
pub fn parse_pid_bytes(b: &[u8]) -> (r: Option<PidInfo>)
    ensures
        r == pid_of_bytes(b@),
{
    match text::read_utf8(b) {
        Some(s) => parse_pid_file(s.as_str()),
        None => None,
    }
}

// ---- laws ----

/// The bytes that the file was written with are read back.
pub proof fn law_pid_bytes_are_read_back(info: PidInfo)
    ensures
        pid_of_bytes(vstd::utf8::encode_utf8(pid_text(info))) == Some(info),
{
    vstd::utf8::encode_utf8_valid_utf8(pid_text(info));
    vstd::utf8::encode_utf8_decode_utf8(pid_text(info));
    law_pid_file_is_read_back(info);
}

proof fn lemma_field(s: Seq<char>, key: Seq<char>, at: int, n: nat, tail: int)
    requires
        n <= u64::MAX,
        ({
            let needle = "\""@ + key + "\""@;
            &&& 0 <= at
            &&& at + needle.len() + 1 + seqs::decimal(n).len() == tail
            &&& tail < s.len()
            &&& s.subrange(at, at + needle.len()) == needle
            &&& s[at + needle.len()] == ':'
            &&& s.subrange(at + needle.len() + 1, tail) == seqs::decimal(n)
            &&& !seqs::is_digit(s[tail])
            &&& forall|j: int| 0 <= j < at ==> !#[trigger] seqs::occurs_at(s, needle, j)
        }),
    ensures
        number_field(s, key) == Some(n),
{
    let needle = "\""@ + key + "\""@;
    reveal_strlit(":");
    seqs::lemma_find_is(s, needle, 0, at);
    let after = s.subrange(at + needle.len(), s.len() as int);
    assert(after[0] == ':');
    assert(seqs::trim_start(after) =~= after);
    assert(after.subrange(0, 1) =~= ":"@);
    let rest = after.subrange(1, after.len() as int);
    let d = seqs::decimal(n);
    seqs::lemma_decimal(n);
    assert forall|k: int| 0 <= k < d.len() implies rest[k] == d[k] by {
        assert(s.subrange(at + needle.len() + 1, tail)[k] == d[k]);
    }
    assert(seqs::is_digit(d[0]));
    assert(rest[0] == d[0]);
    assert(seqs::trim_start(rest) =~= rest);
    assert forall|k: int| 0 <= k < d.len() implies seqs::is_digit(#[trigger] rest[k]) by {
        assert(seqs::is_digit(d[k]));
    }
    assert(rest[d.len() as int] == s[tail]);
    lemma_digits_stop(rest, d.len() as int, 0);
    assert(leading_digits(rest) =~= d);
}

proof fn lemma_digits_stop(s: Seq<char>, n: int, i: int)
    requires
        0 <= i <= n < s.len(),
        forall|k: int| 0 <= k < n ==> seqs::is_digit(#[trigger] s[k]),
        !seqs::is_digit(s[n]),
    ensures
        digits_end(s, i) == n,
    decreases n - i,
{
    if i < n {
        lemma_digits_stop(s, n, i + 1);
    }
}

/// What the file was written with is read back.
pub proof fn law_pid_file_is_read_back(info: PidInfo)
    ensures
        pid_of(pid_text(info)) == Some(info),
        number_field(pid_text(info), "pid"@) == Some(info.pid as nat),
        number_field(pid_text(info), "port"@) == Some(info.port as nat),
        number_field(pid_text(info), "ui_port"@) == Some(info.ui_port as nat),
{
    let s = pid_text(info);
    let a = seqs::decimal(info.pid as nat);
    let b = seqs::decimal(info.port as nat);
    let c = seqs::decimal(info.ui_port as nat);
    seqs::lemma_decimal(info.pid as nat);
    seqs::lemma_decimal(info.port as nat);
    seqs::lemma_decimal(info.ui_port as nat);
    reveal_strlit("{\"pid\":");
    reveal_strlit(",\"port\":");
    reveal_strlit(",\"ui_port\":");
    reveal_strlit("}");
    reveal_strlit("\"");
    reveal_strlit("pid");
    reveal_strlit("port");
    reveal_strlit("ui_port");
    let la = a.len() as int;
    let lb = b.len() as int;
    let lc = c.len() as int;
    let p1 = 7 + la;
    let p2 = p1 + 8 + lb;
    assert(s.len() == p2 + 11 + lc + 1);
    let pid_needle = "\""@ + "pid"@ + "\""@;
    let port_needle = "\""@ + "port"@ + "\""@;
    let ui_needle = "\""@ + "ui_port"@ + "\""@;
    assert forall|k: int| 0 <= k < la implies s[7 + k] == a[k] && seqs::is_digit(
        #[trigger] s[7 + k],
    ) by {
        assert(seqs::is_digit(a[k]));
    }
    assert forall|k: int| 0 <= k < lb implies s[p1 + 8 + k] == b[k] && seqs::is_digit(
        #[trigger] s[p1 + 8 + k],
    ) by {
        assert(seqs::is_digit(b[k]));
    }
    assert forall|k: int| 0 <= k < lc implies s[p2 + 11 + k] == c[k] && seqs::is_digit(
        #[trigger] s[p2 + 11 + k],
    ) by {
        assert(seqs::is_digit(c[k]));
    }
    assert(s[0] == '{' && s[1] == '"' && s[2] == 'p' && s[3] == 'i' && s[4] == 'd' && s[5] == '"'
        && s[6] == ':');
    assert(s[p1] == ',' && s[p1 + 1] == '"' && s[p1 + 2] == 'p' && s[p1 + 3] == 'o' && s[p1 + 4]
        == 'r' && s[p1 + 5] == 't' && s[p1 + 6] == '"' && s[p1 + 7] == ':');
    assert(s[p2] == ',' && s[p2 + 1] == '"' && s[p2 + 2] == 'u' && s[p2 + 3] == 'i' && s[p2 + 4]
        == '_' && s[p2 + 5] == 'p' && s[p2 + 6] == 'o' && s[p2 + 7] == 'r' && s[p2 + 8] == 't'
        && s[p2 + 9] == '"' && s[p2 + 10] == ':');
    assert(s[p2 + 11 + lc] == '}');
    assert(s.subrange(1, 6) =~= pid_needle);
    assert(s.subrange(7, 7 + la) =~= a);
    assert(!seqs::occurs_at(s, pid_needle, 0)) by {
        assert(s.subrange(0, 5)[0] == '{');
        assert(pid_needle[0] == '"');
    }
    lemma_field(s, "pid"@, 1, info.pid as nat, p1);
    assert(s.subrange(p1 + 1, p1 + 7) =~= port_needle);
    assert(s.subrange(p1 + 8, p2) =~= b);
    assert forall|j: int| 0 <= j < p1
        + 1 implies !#[trigger] seqs::occurs_at(s, port_needle, j) by {
        lemma_no_occurrence(s, port_needle, j, la, 'o');
    }
    lemma_field(s, "port"@, p1 + 1, info.port as nat, p2);
    assert(s.subrange(p2 + 1, p2 + 10) =~= ui_needle);
    assert(s.subrange(p2 + 11, p2 + 11 + lc) =~= c);
    assert forall|j: int| 0 <= j < p2 + 1 implies !#[trigger] seqs::occurs_at(s, ui_needle, j) by {
        if seqs::occurs_at(s, ui_needle, j) {
            let t = s.subrange(j, j + ui_needle.len());
            assert(t[0] == s[j] && t[1] == s[j + 1]);
            assert(ui_needle[0] == '"' && ui_needle[1] == 'u');
            if 7 <= j < p1 {
                assert(seqs::is_digit(s[7 + (j - 7)]));
            }
            if p1 + 8 <= j < p2 {
                assert(seqs::is_digit(s[p1 + 8 + (j - p1 - 8)]));
            }
        }
    }
    lemma_field(s, "ui_port"@, p2 + 1, info.ui_port as nat, p2 + 11 + lc);
}

proof fn lemma_no_occurrence(s: Seq<char>, needle: Seq<char>, j: int, la: int, third: char)
    requires
        0 <= j < 8 + la,
        s.len() >= 8 + la,
        la >= 1,
        needle.len() >= 3,
        needle[0] == '"',
        needle[1] == 'p',
        needle[2] == third,
        third != 'i',
        s[0] == '{' && s[1] == '"' && s[2] == 'p' && s[3] == 'i' && s[4] == 'd' && s[5] == '"'
            && s[6] == ':',
        s[7 + la] == ',',
        forall|k: int| 0 <= k < la ==> seqs::is_digit(#[trigger] s[7 + k]),
    ensures
        !seqs::occurs_at(s, needle, j),
{
    if seqs::occurs_at(s, needle, j) {
        let t = s.subrange(j, j + needle.len());
        assert(t[0] == s[j] && t[1] == s[j + 1] && t[2] == s[j + 2]);
        if 7 <= j < 7 + la {
            assert(seqs::is_digit(s[7 + (j - 7)]));
        }
    }
}

/// The file stands in the directory for data, under its own name.
pub proof fn law_pid_file_stands_with_the_data(dir: Seq<char>)
    requires
        dir.len() > 0 && dir.last() != '/',
    ensures
        pid_file(dir) == dir + seq!['/'] + "whistle-rs.pid"@,
{
    reveal_strlit("whistle-rs.pid");
    crate::config::law_path_stands_in_its_directory(dir, "whistle-rs.pid"@);
}

} // verus!
