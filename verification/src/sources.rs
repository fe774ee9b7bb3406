//! Rule texts that take in other rule files: a line `@path`, or `@include path`, stands for the
//! lines of that file.
use crate::pattern::ParseError;
use crate::rules;
use crate::rules::RuleModel;
use crate::rules::RuleSet;
use crate::seqs;
use crate::text;
use vstd::prelude::*;

verus! {

/// The path that stands behind an `@`, with or without the keyword in front of it.
pub open spec fn named_path(s: Seq<char>) -> Seq<char> {
    let rest = seqs::trim(s);
    match seqs::strip_prefix(rest, "include"@) {
        Some(t) => if t.len() > 0 && seqs::is_space(t[0]) {
            seqs::trim(t)
        } else {
            rest
        },
        None => rest,
    }
}

/// The file that a line takes in. An `@` with nothing behind it takes in none.
pub open spec fn path_of(raw: Seq<char>) -> Option<Seq<char>> {
    match seqs::strip_prefix(rules::line_text(raw), "@"@) {
        Some(s) => if named_path(s).len() > 0 {
            Some(named_path(s))
        } else {
            None
        },
        None => None,
    }
}

/// The files that the first `n` lines take in, in order.
pub open spec fn paths_of(lines: Seq<Seq<char>>, n: int) -> Seq<Seq<char>>
    decreases n,
{
    if n <= 0 {
        seq![]
    } else {
        match path_of(lines[n - 1]) {
            Some(p) => paths_of(lines, n - 1).push(p),
            None => paths_of(lines, n - 1),
        }
    }
}

/// The first `n` lines, with the lines of the given texts in place of those that take in a file:
/// the first text for the first of them, and so on. A line that no text is given for stays.
pub open spec fn lines_with(lines: Seq<Seq<char>>, texts: Seq<Seq<char>>, n: int) -> Seq<Seq<char>>
    decreases n,
{
    if n <= 0 {
        seq![]
    } else {
        let k = paths_of(lines, n - 1).len() as int;
        let before = lines_with(lines, texts, n - 1);
        if path_of(lines[n - 1]) is Some && k < texts.len() {
            before + seqs::lines(texts[k])
        } else {
            before.push(lines[n - 1])
        }
    }
}

/// The lines one after another, each with its end.
pub open spec fn text_of(lines: Seq<Seq<char>>) -> Seq<char>
    decreases lines.len(),
{
    if lines.len() == 0 {
        seq![]
    } else {
        text_of(lines.drop_last()) + lines.last().push('\n')
    }
}

/// A rule text with the given texts in place of the lines that take in a file.
pub open spec fn expanded(text: Seq<char>, texts: Seq<Seq<char>>) -> Seq<char> {
    let lines = seqs::lines(text);
    text_of(lines_with(lines, texts, lines.len() as int))
}

/// The rules of a text and of the files that it takes in, or the number of the first line that is
/// refused, counted with the lines of the files in place.
pub open spec fn rules_with(text: Seq<char>, texts: Seq<Seq<char>>) -> Result<
    Seq<RuleModel>,
    int,
> {
    rules::parse_model(expanded(text, texts))
}

fn read_path(raw: &str) -> (r: Option<String>)
    ensures
        match r {
            Some(p) => path_of(raw@) == Some(p@),
            None => path_of(raw@) is None,
        },
{
    let line = text::trim(rules::strip_comment(raw));
    match text::strip_prefix(line, "@") {
        Some(s) => {
            let rest = text::trim(s);
            let mut path = rest;
            if let Some(t) = text::strip_prefix(rest, "include") {
                let chars = text::chars_of(t);
                if chars.len() > 0 && text::is_space(chars[0]) {
                    path = text::trim(t);
                }
            }
            if path.is_empty() {
                None
            } else {
                Some(path.to_string())
            }
        },
        None => None,
    }
}

/// The files that a rule text takes in, in the order of its lines.
pub fn included_paths(text: &str) -> (r: Vec<String>)
    ensures
        seqs::texts(r@) == paths_of(seqs::lines(text@), seqs::lines(text@).len() as int),
{
    let lines = text::lines(text);
    let ghost all = seqs::lines(text@);
    let mut out: Vec<String> = Vec::new();
    let mut i: usize = 0;
    proof {
        assert(seqs::texts(out@) =~= seq![]);
        assert(seqs::texts(lines@).len() == lines@.len());
    }
    while i < lines.len()
        invariant
            i <= lines.len(),
            all == seqs::texts(lines@),
            seqs::texts(out@) == paths_of(all, i as int),
        decreases lines.len() - i,
    {
        let ghost before = out@;
        proof {
            assert(all[i as int] == lines@[i as int]@);
        }
        if let Some(p) = read_path(lines[i].as_str()) {
            let ghost path = p@;
            out.push(p);
            proof {
                assert(seqs::texts(out@) =~= seqs::texts(before).push(path));
            }
        }
        i += 1;
    }
    out
}

fn push_line(out: &mut String, line: &str)
    ensures
        final(out)@ == old(out)@ + line@.push('\n'),
{
    let ghost before = out@;
    out.append(line);
    out.append("\n");
    proof {
        reveal_strlit("\n");
        assert(out@ =~= before + line@.push('\n'));
    }
}

fn push_lines(out: &mut String, lines: &Vec<String>)
    ensures
        final(out)@ == old(out)@ + text_of(seqs::texts(lines@)),
{
    let ghost before = out@;
    let ghost all = seqs::texts(lines@);
    let mut i: usize = 0;
    proof {
        assert(all.take(0) =~= seq![]);
        assert(before + text_of(all.take(0)) =~= before);
    }
    while i < lines.len()
        invariant
            i <= lines.len(),
            all == seqs::texts(lines@),
            out@ == before + text_of(all.take(i as int)),
        decreases lines.len() - i,
    {
        push_line(out, lines[i].as_str());
        i += 1;
        proof {
            let t = all.take(i as int);
            assert(t.drop_last() =~= all.take(i - 1));
            assert(t.last() == lines@[i - 1]@);
            assert(out@ =~= before + text_of(t));
        }
    }
    proof {
        assert(all.take(all.len() as int) =~= all);
    }
}

proof fn lemma_text_of_more(a: Seq<Seq<char>>, b: Seq<Seq<char>>)
    ensures
        text_of(a + b) == text_of(a) + text_of(b),
    decreases b.len(),
{
    if b.len() == 0 {
        assert(a + b =~= a);
        assert(text_of(a) + text_of(b) =~= text_of(a));
    } else {
        lemma_text_of_more(a, b.drop_last());
        assert((a + b).drop_last() =~= a + b.drop_last());
        assert((a + b).last() == b.last());
        assert(text_of(a + b) =~= text_of(a) + text_of(b));
    }
}

/// A rule text with the given texts in place of the lines that take in a file: the first text for
/// the first of them, and so on. A line that no text is given for stays, and the texts are not
/// looked through for further such lines.
pub fn with_included(text: &str, texts: &[String]) -> (r: String)
    ensures
        r@ == expanded(text@, seqs::texts(texts@)),
{
    let lines = text::lines(text);
    let ghost all = seqs::lines(text@);
    let ghost given = seqs::texts(texts@);
    let mut out = String::new();
    let mut k: usize = 0;
    let mut i: usize = 0;
    proof {
        assert(seqs::texts(lines@).len() == lines@.len());
        assert(out@ =~= seq![]);
    }
    while i < lines.len()
        invariant
            i <= lines.len(),
            k <= texts@.len(),
            all == seqs::texts(lines@),
            given == seqs::texts(texts@),
            k == if paths_of(all, i as int).len() < given.len() {
                paths_of(all, i as int).len()
            } else {
                given.len()
            },
            out@ == text_of(lines_with(all, given, i as int)),
        decreases lines.len() - i,
    {
        let ghost done = lines_with(all, given, i as int);
        proof {
            assert(all[i as int] == lines@[i as int]@);
        }
        let takes = read_path(lines[i].as_str()).is_some();
        if takes && k < texts.len() {
            let more = text::lines(texts[k].as_str());
            push_lines(&mut out, &more);
            proof {
                lemma_text_of_more(done, seqs::lines(given[k as int]));
            }
            k += 1;
        } else {
            push_line(&mut out, lines[i].as_str());
            proof {
                assert(done.push(all[i as int]).drop_last() =~= done);
            }
        }
        i += 1;
    }
    out
}

/// Reads the rules of a text, with the given texts in place of the lines that take in a file.
pub fn parse_with(text: &str, texts: &[String]) -> (r: Result<RuleSet, ParseError>)
    ensures
        match r {
            Ok(set) => rules_with(text@, seqs::texts(texts@)) == Ok::<Seq<RuleModel>, int>(set@),
            Err(ParseError::BadRegex { line, .. }) => rules_with(text@, seqs::texts(texts@))
                == Err::<Seq<RuleModel>, int>(line as int),
        },
{
    let whole = with_included(text, texts);
    RuleSet::parse(whole.as_str())
}

// ---- laws ----

proof fn lemma_lines_lack_end(s: Seq<char>)
    ensures
        forall|i: int| 0 <= i < seqs::lines(s).len()
            ==> seqs::lacks(#[trigger] seqs::lines(s)[i], '\n'),
    decreases s.len(),
{
    if s.len() > 0 {
        seqs::lemma_before_lacks(s, '\n');
        match seqs::find(s, seq!['\n']) {
            Some(k) => {
                let rest = s.subrange(k + 1, s.len() as int);
                let first = s.subrange(0, k);
                lemma_lines_lack_end(rest);
                let all = seqs::lines(s);
                assert(all == seq![seqs::strip_cr(first)] + seqs::lines(rest));
                assert forall|i: int| 0 <= i < all.len() implies seqs::lacks(
                    #[trigger] all[i],
                    '\n',
                ) by {
                    if i == 0 {
                        let line = seqs::strip_cr(first);
                        assert(forall|j: int| 0 <= j < line.len()
                            ==> #[trigger] line[j] == first[j]);
                    } else {
                        assert(all[i] == seqs::lines(rest)[i - 1]);
                    }
                }
            },
            None => {},
        }
    }
}

proof fn lemma_text_of_first(lines: Seq<Seq<char>>)
    requires
        lines.len() > 0,
    ensures
        text_of(lines) == lines[0].push('\n') + text_of(lines.drop_first()),
{
    let one = seq![lines[0]];
    lemma_text_of_more(one, lines.drop_first());
    assert(one + lines.drop_first() =~= lines);
    assert(one.drop_last() =~= Seq::empty());
    assert(text_of(one.drop_last()) =~= Seq::empty());
    assert(text_of(one) =~= lines[0].push('\n'));
}

// Lines that hold no line end are the lines of their text, but for a carriage return at the end.
proof fn lemma_lines_of_text(lines: Seq<Seq<char>>)
    requires
        forall|i: int| 0 <= i < lines.len() ==> seqs::lacks(#[trigger] lines[i], '\n'),
    ensures
        seqs::lines(text_of(lines)).len() == lines.len(),
        forall|i: int|
            0 <= i < lines.len() ==> #[trigger] seqs::lines(text_of(lines))[i] == seqs::strip_cr(
                lines[i],
            ),
    decreases lines.len(),
{
    if lines.len() > 0 {
        let rest = lines.drop_first();
        let s = text_of(lines);
        lemma_text_of_first(lines);
        assert(seqs::lacks(lines[0], '\n'));
        seqs::lemma_find_char(lines[0], '\n', text_of(rest));
        let n = lines[0].len() as int;
        assert(s.subrange(0, n) =~= lines[0]);
        assert(s.subrange(n + 1, s.len() as int) =~= text_of(rest));
        assert forall|i: int| 0 <= i < rest.len() implies seqs::lacks(#[trigger] rest[i], '\n') by {
            assert(rest[i] == lines[i + 1]);
        }
        lemma_lines_of_text(rest);
        let all = seqs::lines(s);
        let more = seqs::lines(text_of(rest));
        assert(all == seq![seqs::strip_cr(lines[0])] + more);
        assert forall|i: int| 0 <= i < lines.len() implies #[trigger] all[i] == seqs::strip_cr(
            lines[i],
        ) by {
            if i > 0 {
                assert(all[i] == more[i - 1]);
                assert(rest[i - 1] == lines[i]);
            }
        }
    }
}

proof fn lemma_skip_more(s: Seq<char>, c: char, i: int)
    requires
        0 <= i <= s.len(),
        seqs::is_space(c),
    ensures
        seqs::skip_spaces(s, i) < s.len() ==> seqs::skip_spaces(s.push(c), i) == seqs::skip_spaces(
            s,
            i,
        ),
        seqs::skip_spaces(s, i) >= s.len() ==> seqs::skip_spaces(s.push(c), i) == s.len() + 1
            && forall|k: int| i <= k < s.len() ==> seqs::is_space(#[trigger] s[k]),
    decreases s.len() - i,
{
    let t = s.push(c);
    if i < s.len() {
        assert(t[i] == s[i]);
        if seqs::is_space(s[i]) {
            lemma_skip_more(s, c, i + 1);
        }
    } else {
        assert(t[i] == c);
        assert(seqs::skip_spaces(t, i + 1) == i + 1);
    }
}

proof fn lemma_trim_end_more(s: Seq<char>, c: char, j: int)
    requires
        0 <= j <= s.len(),
    ensures
        seqs::trim_end_at(s.push(c), j) == seqs::trim_end_at(s, j),
        0 <= seqs::trim_end_at(s, j) <= j,
        (forall|k: int| 0 <= k < j ==> seqs::is_space(#[trigger] s[k])) ==> seqs::trim_end_at(s, j)
            == 0,
    decreases j,
{
    if j > 0 {
        assert(s.push(c)[j - 1] == s[j - 1]);
        if seqs::is_space(s[j - 1]) {
            lemma_trim_end_more(s, c, j - 1);
        }
    }
}

proof fn lemma_trim_more(s: Seq<char>, c: char)
    requires
        seqs::is_space(c),
    ensures
        seqs::trim(s.push(c)) == seqs::trim(s),
{
    let t = s.push(c);
    seqs::lemma_skip_spaces(s, 0);
    lemma_skip_more(s, c, 0);
    lemma_trim_end_more(s, c, s.len() as int);
    assert(t[t.len() - 1] == c);
    assert(seqs::trim_end_at(t, t.len() as int) == seqs::trim_end_at(t, s.len() as int));
    assert(seqs::trim(t) =~= seqs::trim(s));
}

// A carriage return at the end of a line is white space to a rule.
proof fn lemma_line_text_of_more(s: Seq<char>)
    ensures
        rules::line_text(s.push('\r')) == rules::line_text(s),
{
    reveal_strlit("#");
    assert("#"@ =~= seq!['#']);
    let t = s.push('\r');
    seqs::lemma_before_lacks(s, '#');
    match seqs::find(s, seq!['#']) {
        Some(i) => {
            let a = s.subrange(0, i);
            let b = s.subrange(i + 1, s.len() as int).push('\r');
            seqs::lemma_find_char(a, '#', b);
            assert(t =~= a.push('#') + b);
            assert(t.subrange(0, i) =~= a);
        },
        None => {
            seqs::lemma_find_char(t, '#', seq![]);
            lemma_trim_more(s, '\r');
        },
    }
}

proof fn lemma_same_rules(a: Seq<Seq<char>>, b: Seq<Seq<char>>, n: int)
    requires
        n <= a.len(),
        a.len() == b.len(),
        forall|i: int|
            0 <= i < a.len() ==> rules::line_text(#[trigger] a[i]) == rules::line_text(b[i]),
    ensures
        rules::rules_of(a, n) == rules::rules_of(b, n),
    decreases n,
{
    if n > 0 {
        lemma_same_rules(a, b, n - 1);
        assert(rules::line_text(a[n - 1]) == rules::line_text(b[n - 1]));
    }
}

proof fn lemma_lines_with_lack_end(lines: Seq<Seq<char>>, texts: Seq<Seq<char>>, n: int)
    requires
        n <= lines.len(),
        forall|i: int| 0 <= i < lines.len() ==> seqs::lacks(#[trigger] lines[i], '\n'),
    ensures
        forall|i: int|
            0 <= i < lines_with(lines, texts, n).len() ==> seqs::lacks(
                #[trigger] lines_with(lines, texts, n)[i],
                '\n',
            ),
    decreases n,
{
    if n > 0 {
        lemma_lines_with_lack_end(lines, texts, n - 1);
        let k = paths_of(lines, n - 1).len() as int;
        let before = lines_with(lines, texts, n - 1);
        let all = lines_with(lines, texts, n);
        lemma_lines_lack_end(texts[k]);
        assert forall|i: int| 0 <= i < all.len() implies seqs::lacks(#[trigger] all[i], '\n') by {
            if i < before.len() {
                assert(all[i] == before[i]);
            } else if path_of(lines[n - 1]) is Some && k < texts.len() {
                assert(all[i] == seqs::lines(texts[k])[i - before.len()]);
            } else {
                assert(all[i] == lines[n - 1]);
            }
        }
    }
}

/// The rules of a text that takes in files are those of its lines with the lines of the files in
/// their place.
pub proof fn law_included_rules_stand_in_place(text: Seq<char>, texts: Seq<Seq<char>>)
    ensures
        ({
            let all = lines_with(seqs::lines(text), texts, seqs::lines(text).len() as int);
            rules_with(text, texts) == rules::rules_of(all, all.len() as int)
        }),
{
    let lines = seqs::lines(text);
    let all = lines_with(lines, texts, lines.len() as int);
    let read = seqs::lines(text_of(all));
    lemma_lines_lack_end(text);
    lemma_lines_with_lack_end(lines, texts, lines.len() as int);
    lemma_lines_of_text(all);
    assert forall|i: int| 0 <= i < read.len() implies rules::line_text(#[trigger] read[i])
        == rules::line_text(all[i]) by {
        assert(read[i] == seqs::strip_cr(all[i]));
        if read[i] != all[i] {
            assert(all[i] =~= read[i].push('\r'));
            lemma_line_text_of_more(read[i]);
        }
    }
    lemma_same_rules(read, all, all.len() as int);
}

/// A text that takes in no file keeps its lines.
pub proof fn law_nothing_taken_in_nothing_changed(
    lines: Seq<Seq<char>>,
    texts: Seq<Seq<char>>,
    n: int,
)
    requires
        0 <= n <= lines.len(),
        forall|i: int| 0 <= i < lines.len() ==> path_of(#[trigger] lines[i]) is None,
    ensures
        paths_of(lines, n).len() == 0,
        lines_with(lines, texts, n) == lines.take(n),
    decreases n,
{
    if n > 0 {
        law_nothing_taken_in_nothing_changed(lines, texts, n - 1);
        assert(path_of(lines[n - 1]) is None);
        assert(lines.take(n - 1).push(lines[n - 1]) =~= lines.take(n));
    } else {
        assert(lines.take(n) =~= seq![]);
    }
}

proof fn lemma_lines_with_none(lines: Seq<Seq<char>>, n: int)
    requires
        0 <= n <= lines.len(),
    ensures
        lines_with(lines, seq![], n) == lines.take(n),
    decreases n,
{
    if n > 0 {
        lemma_lines_with_none(lines, n - 1);
        assert(lines.take(n - 1).push(lines[n - 1]) =~= lines.take(n));
    } else {
        assert(lines.take(n) =~= seq![]);
    }
}

/// Where no texts are given, the rules are those of the text alone.
pub proof fn law_no_texts_no_change(text: Seq<char>)
    ensures
        rules_with(text, seq![]) == rules::parse_model(text),
{
    let lines = seqs::lines(text);
    law_included_rules_stand_in_place(text, seq![]);
    lemma_lines_with_none(lines, lines.len() as int);
    assert(lines.take(lines.len() as int) =~= lines);
}

// A line that begins and ends with characters other than white space, and a comment behind it.
proof fn lemma_line(line: Seq<char>, comment: Seq<char>)
    requires
        line.len() > 0 && !seqs::is_space(line[0]) && !seqs::is_space(line.last()),
        seqs::lacks(line, '#'),
    ensures
        rules::line_text(line) == line,
        rules::line_text(line + seq!['#'] + comment) == line,
{
    reveal_strlit("#");
    assert("#"@ =~= seq!['#']);
    seqs::law_text_is_cut_at_the_first(line, '#', comment);
    let none = Seq::<char>::empty();
    seqs::law_trim_takes_white_space_off(none, line, none);
    assert(none + line + none =~= line);
}

/// A line with `@` and a path takes that file in, with or without the word `include` before the
/// path. A comment behind it makes no difference. A line that does not begin with `@` takes nothing
/// in.
pub proof fn law_line_names_the_file(path: Seq<char>, comment: Seq<char>, other: Seq<char>)
    requires
        path.len() > 0,
        forall|i: int|
            0 <= i < path.len() ==> !seqs::is_space(#[trigger] path[i]) && path[i] != '#',
        rules::line_text(other).len() > 0 ==> rules::line_text(other)[0] != '@',
    ensures
        !seqs::starts_with(path, "include"@) ==> path_of(seq!['@'] + path) == Some(path) && path_of(
            seq!['@'] + path + seq!['#'] + comment,
        ) == Some(path),
        path_of("@include "@ + path) == Some(path),
        path_of("@include "@ + path + seq!['#'] + comment) == Some(path),
        path_of(seq!['@']) is None,
        path_of(other) is None,
{
    reveal_strlit("@");
    reveal_strlit("include");
    reveal_strlit("@include ");
    assert("@"@ =~= seq!['@']);
    let none = Seq::<char>::empty();
    seqs::law_trim_takes_white_space_off(none, path, none);
    assert(none + path + none =~= path);
    // The path alone.
    let bare = seq!['@'] + path;
    assert(seqs::lacks(bare, '#')) by {
        assert forall|i: int| 0 <= i < bare.len() implies #[trigger] bare[i] != '#' by {
            if i > 0 {
                assert(bare[i] == path[i - 1]);
            }
        }
    }
    assert(bare.last() == path.last());
    lemma_line(bare, comment);
    seqs::law_a_start_is_followed_by_the_rest(bare, seq!['@'], path);
    // The path behind the word.
    let long = "@include "@ + path;
    let rest = "include"@ + (seq![' '] + path);
    assert(long =~= seq!['@'] + rest);
    assert(seqs::lacks(long, '#')) by {
        assert forall|i: int| 0 <= i < long.len() implies #[trigger] long[i] != '#' by {
            if i >= 9 {
                assert(long[i] == path[i - 9]);
            }
        }
    }
    assert(long.last() == path.last() && long[0] == '@');
    lemma_line(long, comment);
    seqs::law_a_start_is_followed_by_the_rest(long, seq!['@'], rest);
    assert(rest.last() == path.last() && rest[0] == 'i');
    seqs::law_trim_takes_white_space_off(none, rest, none);
    assert(none + rest + none =~= rest);
    seqs::law_a_start_is_followed_by_the_rest(rest, "include"@, seq![' '] + path);
    assert((seq![' '] + path)[0] == ' ');
    seqs::law_trim_takes_white_space_off(seq![' '], path, none);
    assert(seq![' '] + path + none =~= seq![' '] + path);
    // No path, and another line.
    lemma_line(seq!['@'], comment);
    seqs::law_a_start_is_followed_by_the_rest(seq!['@'], seq!['@'], none);
    assert(seq!['@'] + none =~= seq!['@']);
    seqs::law_trim_takes_white_space_off(none, none, none);
    assert(none + none + none =~= none);
    assert(named_path(none).len() == 0);
    seqs::lemma_occurs_char(rules::line_text(other), '@', 0);
}

/// The files are taken in one for one, each where its line stands: the lines before it stay before
/// its own, and a line for which there is no text stays as it is.
pub proof fn law_files_stand_where_their_lines_do(
    lines: Seq<Seq<char>>,
    texts: Seq<Seq<char>>,
    line: Seq<char>,
    n: int,
)
    requires
        n == lines.len(),
    ensures
        path_of(line) is None ==> lines_with(lines.push(line), texts, n + 1) == lines_with(
            lines,
            texts,
            n,
        ) + seq![line],
        path_of(line) is Some && paths_of(lines, n).len() < texts.len() ==> lines_with(
            lines.push(line),
            texts,
            n + 1,
        ) == lines_with(lines, texts, n) + seqs::lines(texts[paths_of(lines, n).len() as int]),
        path_of(line) is Some ==> paths_of(lines.push(line), n + 1) == paths_of(lines, n).push(
            path_of(line)->0,
        ),
        path_of(line) is None ==> paths_of(lines.push(line), n + 1) == paths_of(lines, n),
{
    let more = lines.push(line);
    lemma_paths_same(lines, more, n);
    lemma_lines_same(lines, more, texts, n);
    assert(more[n] == line);
    let before = lines_with(lines, texts, n);
    assert(before.push(line) =~= before + seq![line]);
}

proof fn lemma_paths_same(a: Seq<Seq<char>>, b: Seq<Seq<char>>, n: int)
    requires
        n <= a.len(),
        n <= b.len(),
        forall|i: int| 0 <= i < n ==> a[i] == b[i],
    ensures
        paths_of(a, n) == paths_of(b, n),
    decreases n,
{
    if n > 0 {
        lemma_paths_same(a, b, n - 1);
    }
}

proof fn lemma_lines_same(
    a: Seq<Seq<char>>,
    b: Seq<Seq<char>>,
    texts: Seq<Seq<char>>,
    n: int,
)
    requires
        n <= a.len(),
        n <= b.len(),
        forall|i: int| 0 <= i < n ==> a[i] == b[i],
    ensures
        lines_with(a, texts, n) == lines_with(b, texts, n),
    decreases n,
{
    if n > 0 {
        lemma_lines_same(a, b, texts, n - 1);
        lemma_paths_same(a, b, n - 1);
    }
}

} // verus!
