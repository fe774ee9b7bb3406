//! What the text functions of [`crate::text`] compute, as functions on sequences of characters.
//!
//! Every contract of the library that speaks of text goes through this vocabulary: finding,
//! splitting, trimming, replacing, joining, letter case and decimal numbers.
use vstd::prelude::*;

verus! {

// ---- finding ----

/// `p` stands in `s` at position `i`.
pub open spec fn occurs_at(s: Seq<char>, p: Seq<char>, i: int) -> bool {
    &&& 0 <= i
    &&& i + p.len() <= s.len()
    &&& s.subrange(i, i + p.len()) == p
}

/// The first position from `i` on at which `p` stands in `s`.
pub open spec fn find_from(s: Seq<char>, p: Seq<char>, i: int) -> Option<int>
    decreases s.len() - i + 1,
{
    if i < 0 || i + p.len() > s.len() {
        None
    } else if occurs_at(s, p, i) {
        Some(i)
    } else {
        find_from(s, p, i + 1)
    }
}

/// The first position at which `p` stands in `s`.
pub open spec fn find(s: Seq<char>, p: Seq<char>) -> Option<int> {
    find_from(s, p, 0)
}

/// The last position up to `i` at which `p` stands in `s`.
pub open spec fn rfind_to(s: Seq<char>, p: Seq<char>, i: int) -> Option<int>
    decreases i + 1,
{
    if i < 0 {
        None
    } else if occurs_at(s, p, i) {
        Some(i)
    } else {
        rfind_to(s, p, i - 1)
    }
}

/// The last position at which `p` stands in `s`.
pub open spec fn rfind(s: Seq<char>, p: Seq<char>) -> Option<int> {
    rfind_to(s, p, s.len() - p.len())
}

/// `p` stands somewhere in `s`.
pub open spec fn contains(s: Seq<char>, p: Seq<char>) -> bool {
    find(s, p) is Some
}

/// `s` begins with `p`.
pub open spec fn starts_with(s: Seq<char>, p: Seq<char>) -> bool {
    occurs_at(s, p, 0)
}

/// What follows `p` in a text that begins with it.
pub open spec fn strip_prefix(s: Seq<char>, p: Seq<char>) -> Option<Seq<char>> {
    if starts_with(s, p) {
        Some(s.subrange(p.len() as int, s.len() as int))
    } else {
        None
    }
}

/// A found position is one, and none before it is.
pub proof fn lemma_find_from(s: Seq<char>, p: Seq<char>, i: int)
    requires
        0 <= i,
    ensures
        match find_from(s, p, i) {
            Some(k) => i <= k && occurs_at(s, p, k) && forall|j: int|
                i <= j < k ==> !#[trigger] occurs_at(s, p, j),
            None => forall|j: int| i <= j ==> !#[trigger] occurs_at(s, p, j),
        },
    decreases s.len() - i + 1,
{
    if i + p.len() <= s.len() && !occurs_at(s, p, i) {
        lemma_find_from(s, p, i + 1);
        assert forall|j: int|
            i <= j && (find_from(s, p, i) matches Some(k) ==> j < k) implies !#[trigger] occurs_at(
            s,
            p,
            j,
        ) by {
            if j > i {
                assert(i + 1 <= j);
            }
        }
    }
}

/// A position that nothing before it shares is the one that is found.
pub proof fn lemma_find_is(s: Seq<char>, p: Seq<char>, i: int, k: int)
    requires
        0 <= i <= k,
        occurs_at(s, p, k),
        forall|j: int| i <= j < k ==> !#[trigger] occurs_at(s, p, j),
    ensures
        find_from(s, p, i) == Some(k),
    decreases k - i,
{
    if i < k {
        assert(!occurs_at(s, p, i));
        lemma_find_is(s, p, i + 1, k);
    }
}

/// Where a pattern stands nowhere, nothing is found.
pub proof fn lemma_find_none(s: Seq<char>, p: Seq<char>, i: int)
    requires
        0 <= i,
        forall|j: int| i <= j ==> !#[trigger] occurs_at(s, p, j),
    ensures
        find_from(s, p, i) is None,
    decreases s.len() - i + 1,
{
    if i + p.len() <= s.len() {
        assert(!occurs_at(s, p, i));
        lemma_find_none(s, p, i + 1);
    }
}

/// A last position is one, and none after it is.
pub proof fn lemma_rfind_to(s: Seq<char>, p: Seq<char>, i: int)
    ensures
        match rfind_to(s, p, i) {
            Some(k) => 0 <= k <= i && occurs_at(s, p, k) && forall|j: int|
                k < j <= i ==> !#[trigger] occurs_at(s, p, j),
            None => forall|j: int| j <= i ==> !#[trigger] occurs_at(s, p, j),
        },
    decreases i + 1,
{
    if i >= 0 && !occurs_at(s, p, i) {
        lemma_rfind_to(s, p, i - 1);
        assert forall|j: int|
            j <= i && (rfind_to(s, p, i) matches Some(k) ==> k < j) implies !#[trigger] occurs_at(
            s,
            p,
            j,
        ) by {
            if j < i {
                assert(j <= i - 1);
            }
        }
    }
}

/// One character stands where it is.
pub proof fn lemma_occurs_char(s: Seq<char>, c: char, i: int)
    ensures
        occurs_at(s, seq![c], i) <==> (0 <= i < s.len() && s[i] == c),
{
    if 0 <= i < s.len() {
        assert(s.subrange(i, i + 1) =~= seq![s[i]]);
        assert(seq![s[i]][0] == s[i]);
        assert(seq![c][0] == c);
    }
}

/// A text that holds no `c` up to the `c` that follows it: that `c` is the first.
pub proof fn lemma_find_char(a: Seq<char>, c: char, b: Seq<char>)
    requires
        forall|k: int| 0 <= k < a.len() ==> a[k] != c,
    ensures
        find(a, seq![c]) is None,
        find(a.push(c) + b, seq![c]) == Some(a.len() as int),
{
    assert forall|j: int| 0 <= j implies !#[trigger] occurs_at(a, seq![c], j) by {
        lemma_occurs_char(a, c, j);
    }
    lemma_find_none(a, seq![c], 0);
    let s = a.push(c) + b;
    lemma_occurs_char(s, c, a.len() as int);
    assert forall|j: int| 0 <= j < a.len() implies !#[trigger] occurs_at(s, seq![c], j) by {
        lemma_occurs_char(s, c, j);
        assert(s[j] == a[j]);
    }
    lemma_find_is(s, seq![c], 0, a.len() as int);
}

// ---- splitting ----

/// The text before and after the first `p`.
pub open spec fn split_once(s: Seq<char>, p: Seq<char>) -> Option<(Seq<char>, Seq<char>)> {
    match find(s, p) {
        Some(i) => Some((s.subrange(0, i), s.subrange(i + p.len(), s.len() as int))),
        None => None,
    }
}

/// The text before and after the last `p`.
pub open spec fn rsplit_once(s: Seq<char>, p: Seq<char>) -> Option<(Seq<char>, Seq<char>)> {
    match rfind(s, p) {
        Some(i) => Some((s.subrange(0, i), s.subrange(i + p.len(), s.len() as int))),
        None => None,
    }
}

/// The text up to the first `p`, or all of it.
pub open spec fn before(s: Seq<char>, p: Seq<char>) -> Seq<char> {
    match find(s, p) {
        Some(i) => s.subrange(0, i),
        None => s,
    }
}

/// The text after the last `p`, or all of it.
pub open spec fn after_last(s: Seq<char>, p: Seq<char>) -> Seq<char> {
    match rfind(s, p) {
        Some(i) => s.subrange(i + p.len(), s.len() as int),
        None => s,
    }
}

/// The pieces of `s` between the `p`s.
pub open spec fn split(s: Seq<char>, p: Seq<char>) -> Seq<Seq<char>>
    decreases s.len(),
{
    proof {
        lemma_find_from(s, p, 0);
    }
    match find(s, p) {
        Some(i) => if p.len() == 0 {
            seq![s]
        } else {
            seq![s.subrange(0, i)] + split(s.subrange(i + p.len(), s.len() as int), p)
        },
        None => seq![s],
    }
}

/// The pieces of `s` between the `p`s that are not empty.
pub open spec fn pieces(s: Seq<char>, p: Seq<char>) -> Seq<Seq<char>> {
    split(s, p).filter(|t: Seq<char>| t.len() > 0)
}

/// A `name=value` pair; the value is empty where there is no `=`.
pub open spec fn pair(s: Seq<char>) -> (Seq<char>, Seq<char>) {
    match split_once(s, seq!['=']) {
        Some((k, v)) => (k, v),
        None => (s, seq![]),
    }
}

/// The number of leading characters that are none of `/`, `?` and `#`.
pub open spec fn authority_end(s: Seq<char>, i: int) -> int
    decreases s.len() - i,
{
    if 0 <= i < s.len() && s[i] != '/' && s[i] != '?' && s[i] != '#' {
        authority_end(s, i + 1)
    } else {
        i
    }
}

/// The text up to the first `/`, `?` or `#`.
pub open spec fn authority(s: Seq<char>) -> Seq<char> {
    s.subrange(0, authority_end(s, 0))
}

/// `line` without one carriage return at its end.
pub open spec fn strip_cr(line: Seq<char>) -> Seq<char> {
    if line.len() > 0 && line.last() == '\r' {
        line.drop_last()
    } else {
        line
    }
}

/// The lines of a text: each ends with `\n` or `\r\n`, the last one need not.
pub open spec fn lines(s: Seq<char>) -> Seq<Seq<char>>
    decreases s.len(),
{
    proof {
        lemma_find_from(s, seq!['\n'], 0);
    }
    if s.len() == 0 {
        seq![]
    } else {
        match find(s, seq!['\n']) {
            Some(i) => seq![strip_cr(s.subrange(0, i))] + lines(
                s.subrange(i + 1, s.len() as int),
            ),
            None => seq![s],
        }
    }
}

/// The first line of a text, empty where the text is.
pub open spec fn first_line(s: Seq<char>) -> Seq<char> {
    match find(s, seq!['\n']) {
        Some(i) => strip_cr(s.subrange(0, i)),
        None => s,
    }
}

// ---- white space ----

/// A character of Unicode's White_Space property.
pub open spec fn is_space(c: char) -> bool {
    let n = c as int;
    ||| 0x9 <= n <= 0xD
    ||| n == 0x20
    ||| n == 0x85
    ||| n == 0xA0
    ||| n == 0x1680
    ||| 0x2000 <= n <= 0x200A
    ||| n == 0x2028
    ||| n == 0x2029
    ||| n == 0x202F
    ||| n == 0x205F
    ||| n == 0x3000
}

/// The first position from `i` on that holds no white space, or the end.
pub open spec fn skip_spaces(s: Seq<char>, i: int) -> int
    decreases s.len() - i,
{
    if 0 <= i < s.len() && is_space(s[i]) {
        skip_spaces(s, i + 1)
    } else {
        i
    }
}

/// The first position from `i` on that holds white space, or the end.
pub open spec fn word_end(s: Seq<char>, i: int) -> int
    decreases s.len() - i,
{
    if 0 <= i < s.len() && !is_space(s[i]) {
        word_end(s, i + 1)
    } else {
        i
    }
}

/// The end of `s` up to `j` without the white space before it.
pub open spec fn trim_end_at(s: Seq<char>, j: int) -> int
    decreases j,
{
    if 0 < j <= s.len() && is_space(s[j - 1]) {
        trim_end_at(s, j - 1)
    } else {
        j
    }
}

pub proof fn lemma_skip_spaces(s: Seq<char>, i: int)
    requires
        0 <= i <= s.len(),
    ensures
        i <= skip_spaces(s, i) <= s.len(),
        skip_spaces(s, i) < s.len() ==> !is_space(s[skip_spaces(s, i)]),
    decreases s.len() - i,
{
    if i < s.len() && is_space(s[i]) {
        lemma_skip_spaces(s, i + 1);
    }
}

pub proof fn lemma_word_end(s: Seq<char>, i: int)
    requires
        0 <= i <= s.len(),
    ensures
        i <= word_end(s, i) <= s.len(),
        i < s.len() && !is_space(s[i]) ==> i < word_end(s, i),
    decreases s.len() - i,
{
    if i < s.len() && !is_space(s[i]) {
        lemma_word_end(s, i + 1);
    }
}

/// `s` without the white space at its start.
pub open spec fn trim_start(s: Seq<char>) -> Seq<char> {
    s.subrange(skip_spaces(s, 0), s.len() as int)
}

/// `s` without the white space at its start and end.
pub open spec fn trim(s: Seq<char>) -> Seq<char> {
    let a = skip_spaces(s, 0);
    let b = trim_end_at(s, s.len() as int);
    if a <= b {
        s.subrange(a, b)
    } else {
        seq![]
    }
}

/// The words of `s` from position `i` on: the runs of characters that are no white space.
pub open spec fn words_from(s: Seq<char>, i: int) -> Seq<Seq<char>>
    decreases s.len() - i,
{
    if 0 <= i <= s.len() {
        proof {
            lemma_skip_spaces(s, i);
            lemma_word_end(s, skip_spaces(s, i));
        }
        let a = skip_spaces(s, i);
        let b = word_end(s, a);
        if a < s.len() {
            seq![s.subrange(a, b)] + words_from(s, b)
        } else {
            seq![]
        }
    } else {
        seq![]
    }
}

/// The words of `s`.
pub open spec fn words(s: Seq<char>) -> Seq<Seq<char>> {
    words_from(s, 0)
}

// ---- letter case ----

/// An ASCII capital as its small letter; any other character as it is.
pub open spec fn lower_char(c: char) -> char {
    if 'A' <= c <= 'Z' {
        (c as int + 32) as char
    } else {
        c
    }
}

/// An ASCII small letter as its capital; any other character as it is.
pub open spec fn upper_char(c: char) -> char {
    if 'a' <= c <= 'z' {
        (c as int - 32) as char
    } else {
        c
    }
}

/// `s` with its ASCII capitals as small letters.
pub open spec fn lower(s: Seq<char>) -> Seq<char> {
    Seq::new(s.len(), |i: int| lower_char(s[i]))
}

/// `s` with its ASCII small letters as capitals.
pub open spec fn upper(s: Seq<char>) -> Seq<char> {
    Seq::new(s.len(), |i: int| upper_char(s[i]))
}

/// The two texts are equal but for the case of ASCII letters.
pub open spec fn same_ignoring_case(a: Seq<char>, b: Seq<char>) -> bool {
    lower(a) == lower(b)
}

// ---- replacing and joining ----

/// `s` from position `i` on, with each `from` (read from left to right) as `to`.
pub open spec fn replace_from(
    s: Seq<char>,
    from: Seq<char>,
    to: Seq<char>,
    i: int,
) -> Seq<char>
    decreases s.len() - i,
{
    if from.len() == 0 || i < 0 || i >= s.len() {
        seq![]
    } else if occurs_at(s, from, i) {
        to + replace_from(s, from, to, i + from.len())
    } else {
        seq![s[i]] + replace_from(s, from, to, i + 1)
    }
}

/// `s` from position `i` on, with `to` before each character and at the end.
pub open spec fn interleave_from(s: Seq<char>, to: Seq<char>, i: int) -> Seq<char>
    decreases s.len() - i,
{
    if i < 0 || i >= s.len() {
        to
    } else {
        to + seq![s[i]] + interleave_from(s, to, i + 1)
    }
}

/// `s` with each `from` as `to`; the empty text stands before each character and at the end.
pub open spec fn replace(s: Seq<char>, from: Seq<char>, to: Seq<char>) -> Seq<char> {
    if from.len() == 0 {
        interleave_from(s, to, 0)
    } else {
        replace_from(s, from, to, 0)
    }
}

/// The parts one after another with `sep` between them.
pub open spec fn join(parts: Seq<Seq<char>>, sep: Seq<char>) -> Seq<char>
    decreases parts.len(),
{
    if parts.len() == 0 {
        seq![]
    } else if parts.len() == 1 {
        parts[0]
    } else {
        join(parts.drop_last(), sep) + sep + parts.last()
    }
}

/// The parts one after another.
pub open spec fn concat(parts: Seq<Seq<char>>) -> Seq<char>
    decreases parts.len(),
{
    if parts.len() == 0 {
        seq![]
    } else {
        concat(parts.drop_last()) + parts.last()
    }
}

// ---- decimal numbers ----

/// The digit for a number below ten.
pub open spec fn digit(n: int) -> char {
    (48 + n) as char
}

/// `n` in decimal digits, without leading zeros.
pub open spec fn decimal(n: nat) -> Seq<char>
    decreases n,
{
    if n < 10 {
        seq![digit(n as int)]
    } else {
        decimal(n / 10).push(digit((n % 10) as int))
    }
}

pub open spec fn is_digit(c: char) -> bool {
    '0' <= c <= '9'
}

pub open spec fn all_digits(s: Seq<char>) -> bool {
    forall|i: int| 0 <= i < s.len() ==> is_digit(#[trigger] s[i])
}

/// The number that the digits of `s` write.
pub open spec fn digits_value(s: Seq<char>) -> nat
    decreases s.len(),
{
    if s.len() == 0 {
        0
    } else {
        digits_value(s.drop_last()) * 10 + (s.last() as int - 48) as nat
    }
}

/// `s` without one plus sign at its start.
pub open spec fn strip_plus(s: Seq<char>) -> Seq<char> {
    if s.len() > 0 && s[0] == '+' {
        s.subrange(1, s.len() as int)
    } else {
        s
    }
}

/// The number that `s` writes: an optional plus sign and decimal digits, up to `max`.
pub open spec fn parse_number(s: Seq<char>, max: nat) -> Option<nat> {
    let d = strip_plus(s);
    if d.len() > 0 && all_digits(d) && digits_value(d) <= max {
        Some(digits_value(d))
    } else {
        None
    }
}

/// A longer row of digits writes no smaller number.
pub proof fn lemma_digits_value_grows(s: Seq<char>, i: int)
    requires
        0 <= i <= s.len(),
        all_digits(s.take(i)),
    ensures
        digits_value(s.take(i)) <= digits_value(s),
    decreases s.len() - i,
{
    if i == s.len() {
        assert(s.take(i) =~= s);
    } else {
        assert(s.take(s.len() - 1) =~= s.drop_last());
        assert(s.drop_last().take(i) =~= s.take(i));
        lemma_digits_value_grows(s.drop_last(), i);
    }
}

/// A number is read back from its decimal digits.
pub proof fn lemma_decimal(n: nat)
    ensures
        decimal(n).len() > 0,
        all_digits(decimal(n)),
        digits_value(decimal(n)) == n,
    decreases n,
{
    if n < 10 {
        let s = decimal(n);
        assert(s.drop_last() =~= Seq::<char>::empty());
        assert(digits_value(s.drop_last()) == 0);
    } else {
        lemma_decimal(n / 10);
        let s = decimal(n);
        assert(s.drop_last() =~= decimal(n / 10));
        assert forall|i: int| 0 <= i < s.len() implies is_digit(#[trigger] s[i]) by {
            if i < s.len() - 1 {
                assert(s[i] == decimal(n / 10)[i]);
            }
        }
    }
}

/// What is written in decimal is read back, whatever the number, as long as it is within the
/// bound of the reader.
pub proof fn law_decimal_is_read_back(n: nat, max: nat)
    requires
        n <= max,
    ensures
        parse_number(decimal(n), max) == Some(n),
{
    lemma_decimal(n);
    assert(is_digit(decimal(n)[0]));
}

// ---- lists of texts ----

/// The contents of a list of strings.
pub open spec fn texts(v: Seq<String>) -> Seq<Seq<char>> {
    Seq::new(v.len(), |i: int| v[i]@)
}

/// The contents of a list of string slices.
pub open spec fn slices(v: Seq<&str>) -> Seq<Seq<char>> {
    Seq::new(v.len(), |i: int| v[i]@)
}

/// The contents of a list of pairs of strings.
pub open spec fn text_pairs(v: Seq<(String, String)>) -> Seq<(Seq<char>, Seq<char>)> {
    Seq::new(v.len(), |i: int| (v[i].0@, v[i].1@))
}

/// One step of a filter: the next element is kept or not.
pub proof fn lemma_filter_step<A>(s: Seq<A>, i: int, keep: spec_fn(A) -> bool)
    requires
        0 <= i < s.len(),
    ensures
        s.take(i + 1).filter(keep) == if keep(s[i]) {
            s.take(i).filter(keep).push(s[i])
        } else {
            s.take(i).filter(keep)
        },
{
    reveal(Seq::filter);
    let t = s.take(i + 1);
    assert(t.drop_last() =~= s.take(i));
    assert(t.last() == s[i]);
}

// ---- joining and splitting ----

/// `c` stands nowhere in `s`.
pub open spec fn lacks(s: Seq<char>, c: char) -> bool {
    forall|i: int| 0 <= i < s.len() ==> #[trigger] s[i] != c
}

/// What stands before the first `c` holds none.
pub proof fn lemma_before_lacks(s: Seq<char>, c: char)
    ensures
        match find(s, seq![c]) {
            Some(i) => 0 <= i < s.len() && lacks(s.subrange(0, i), c) && s[i] == c,
            None => lacks(s, c),
        },
{
    lemma_find_from(s, seq![c], 0);
    match find(s, seq![c]) {
        Some(i) => {
            lemma_occurs_char(s, c, i);
            assert forall|j: int| 0 <= j < i implies #[trigger] s.subrange(0, i)[j] != c by {
                lemma_occurs_char(s, c, j);
                assert(!occurs_at(s, seq![c], j));
            }
        },
        None => {
            assert forall|j: int| 0 <= j < s.len() implies #[trigger] s[j] != c by {
                lemma_occurs_char(s, c, j);
                assert(!occurs_at(s, seq![c], j));
            }
        },
    }
}

proof fn lemma_split_lacks(s: Seq<char>, c: char)
    ensures
        forall|i: int| 0 <= i < split(s, seq![c]).len()
            ==> lacks(#[trigger] split(s, seq![c])[i], c),
    decreases s.len(),
{
    lemma_before_lacks(s, c);
    let all = split(s, seq![c]);
    match find(s, seq![c]) {
        Some(i) => {
            let rest = s.subrange(i + 1, s.len() as int);
            lemma_split_lacks(rest, c);
            assert(all == seq![s.subrange(0, i)] + split(rest, seq![c]));
            assert forall|k: int| 0 <= k < all.len() implies lacks(#[trigger] all[k], c) by {
                if k > 0 {
                    assert(all[k] == split(rest, seq![c])[k - 1]);
                }
            }
        },
        None => {},
    }
}

proof fn lemma_kept<A>(s: Seq<A>, keep: spec_fn(A) -> bool, i: int)
    requires
        0 <= i < s.filter(keep).len(),
    ensures
        keep(s.filter(keep)[i]),
        s.contains(s.filter(keep)[i]),
    decreases s.len(),
{
    reveal(Seq::filter);
    let shorter = s.drop_last();
    if i < shorter.filter(keep).len() {
        lemma_kept(shorter, keep, i);
        let k = choose|k: int| 0 <= k < shorter.len() && shorter[k] == shorter.filter(keep)[i];
        assert(s[k] == shorter[k]);
    } else {
        assert(s[s.len() - 1] == s.last());
    }
}

/// No piece between the `c`s is empty or holds a `c`.
pub proof fn lemma_pieces_lacks(s: Seq<char>, c: char)
    ensures
        forall|i: int|
            0 <= i < pieces(s, seq![c]).len() ==> (#[trigger] pieces(s, seq![c])[i]).len() > 0
                && lacks(pieces(s, seq![c])[i], c),
{
    let all = split(s, seq![c]);
    let keep = |t: Seq<char>| t.len() > 0;
    lemma_split_lacks(s, c);
    assert forall|i: int| 0 <= i < pieces(s, seq![c]).len() implies (#[trigger] pieces(
        s,
        seq![c],
    )[i]).len() > 0 && lacks(pieces(s, seq![c])[i], c) by {
        lemma_kept(all, keep, i);
    }
}

proof fn lemma_join_front(parts: Seq<Seq<char>>, sep: Seq<char>)
    requires
        parts.len() >= 2,
    ensures
        join(parts, sep) == parts[0] + sep + join(parts.drop_first(), sep),
    decreases parts.len(),
{
    let rest = parts.drop_first();
    if parts.len() == 2 {
        assert(parts.drop_last()[0] == parts[0]);
        assert(join(parts.drop_last(), sep) == parts[0]);
        assert(join(rest, sep) == parts[1]);
    } else {
        lemma_join_front(parts.drop_last(), sep);
        assert(parts.drop_last().drop_first() =~= rest.drop_last());
        assert(join(parts, sep) =~= parts[0] + sep + join(rest, sep));
    }
}

/// Texts without `c` are what stands between the `c`s of what they are joined to.
pub proof fn lemma_split_joined(parts: Seq<Seq<char>>, c: char)
    requires
        parts.len() > 0,
        forall|i: int| 0 <= i < parts.len() ==> lacks(#[trigger] parts[i], c),
    ensures
        split(join(parts, seq![c]), seq![c]) == parts,
    decreases parts.len(),
{
    let s = join(parts, seq![c]);
    assert(lacks(parts[0], c));
    if parts.len() == 1 {
        lemma_find_char(parts[0], c, seq![]);
        assert(seq![parts[0]] =~= parts);
    } else {
        let rest = parts.drop_first();
        let more = join(rest, seq![c]);
        lemma_join_front(parts, seq![c]);
        lemma_find_char(parts[0], c, more);
        assert(s =~= parts[0].push(c) + more);
        let n = parts[0].len() as int;
        assert(s.subrange(0, n) =~= parts[0]);
        assert(s.subrange(n + 1, s.len() as int) =~= more);
        assert forall|i: int| 0 <= i < rest.len() implies lacks(#[trigger] rest[i], c) by {
            assert(rest[i] == parts[i + 1]);
        }
        lemma_split_joined(rest, c);
        assert(seq![parts[0]] + rest =~= parts);
    }
}

/// A filter that all elements pass keeps them all.
pub proof fn lemma_keep_all<A>(s: Seq<A>, keep: spec_fn(A) -> bool)
    requires
        forall|i: int| 0 <= i < s.len() ==> keep(#[trigger] s[i]),
    ensures
        s.filter(keep) == s,
    decreases s.len(),
{
    reveal(Seq::filter);
    if s.len() > 0 {
        lemma_keep_all(s.drop_last(), keep);
        assert(keep(s[s.len() - 1]));
        assert(s.drop_last().push(s.last()) =~= s);
    }
}

/// Texts that are not empty and hold no `c` are the pieces of what they are joined to.
pub proof fn law_joined_texts_are_read_back(parts: Seq<Seq<char>>, c: char)
    requires
        forall|i: int|
            0 <= i < parts.len() ==> (#[trigger] parts[i]).len() > 0 && lacks(parts[i], c),
    ensures
        pieces(join(parts, seq![c]), seq![c]) == parts,
{
    let keep = |t: Seq<char>| t.len() > 0;
    if parts.len() == 0 {
        let none = Seq::<char>::empty();
        lemma_find_char(none, c, none);
        assert(split(none, seq![c]) == seq![none]);
        let one = seq![none];
        reveal(Seq::filter);
        assert(one.drop_last() =~= Seq::empty());
        assert(!keep(one.last()));
        assert(one.drop_last().filter(keep) =~= Seq::empty());
        assert(one.filter(keep) =~= Seq::empty());
        assert(parts =~= seq![]);
    } else {
        lemma_split_joined(parts, c);
        lemma_keep_all(parts, keep);
    }
}

// ---- laws ----

/// A text begins with another one where something follows that one in it, and what is left without
/// it is just that.
pub proof fn law_a_start_is_followed_by_the_rest(s: Seq<char>, p: Seq<char>, rest: Seq<char>)
    ensures
        starts_with(p + rest, p),
        strip_prefix(p + rest, p) == Some(rest),
        starts_with(s, p) ==> s == p + s.skip(p.len() as int),
        strip_prefix(s, p) is Some <==> starts_with(s, p),
{
    assert((p + rest).subrange(0, p.len() as int) =~= p);
    assert((p + rest).subrange(p.len() as int, (p + rest).len() as int) =~= rest);
    if starts_with(s, p) {
        assert(s =~= s.subrange(0, p.len() as int) + s.skip(p.len() as int));
    }
}

/// A text is cut at the first `c`: what stands before it holds none, and what follows may.
pub proof fn law_text_is_cut_at_the_first(a: Seq<char>, c: char, b: Seq<char>)
    requires
        lacks(a, c),
    ensures
        split_once(a + seq![c] + b, seq![c]) == Some((a, b)),
        before(a + seq![c] + b, seq![c]) == a,
        split_once(a, seq![c]) is None,
        before(a, seq![c]) == a,
        !contains(a, seq![c]),
        contains(a + seq![c] + b, seq![c]),
{
    lemma_find_char(a, c, b);
    let s = a + seq![c] + b;
    assert(s =~= a.push(c) + b);
    assert(s.subrange(0, a.len() as int) =~= a);
    assert(s.subrange(a.len() + 1int, s.len() as int) =~= b);
}

/// A text is cut at the last `c`: what follows it holds none, and what stands before it may.
pub proof fn law_text_is_cut_at_the_last(a: Seq<char>, c: char, b: Seq<char>)
    requires
        lacks(b, c),
    ensures
        rsplit_once(a + seq![c] + b, seq![c]) == Some((a, b)),
        after_last(a + seq![c] + b, seq![c]) == b,
        rsplit_once(b, seq![c]) is None,
        after_last(b, seq![c]) == b,
{
    let s = a + seq![c] + b;
    let n = a.len() as int;
    lemma_rfind_to(s, seq![c], s.len() - 1);
    lemma_occurs_char(s, c, n);
    assert(s[n] == c);
    match rfind(s, seq![c]) {
        Some(k) => {
            lemma_occurs_char(s, c, k);
            if k > n {
                assert(s[k] == b[k - n - 1]);
            }
            assert(k == n);
        },
        None => {},
    }
    assert(s.subrange(0, n) =~= a);
    assert(s.subrange(n + 1, s.len() as int) =~= b);
    lemma_rfind_to(b, seq![c], b.len() - 1);
    if let Some(k) = rfind(b, seq![c]) {
        lemma_occurs_char(b, c, k);
    }
}

/// A text is cut at the first place where a separator stands. The first character of the separator
/// does not stand before it.
pub proof fn law_text_is_cut_at_the_separator(a: Seq<char>, p: Seq<char>, b: Seq<char>)
    requires
        p.len() > 0,
        lacks(a, p[0]),
    ensures
        split_once(a + p + b, p) == Some((a, b)),
        before(a + p + b, p) == a,
        contains(a + p + b, p),
        split_once(a, p) is None,
        before(a, p) == a,
        !contains(a, p),
{
    let s = a + p + b;
    let n = a.len() as int;
    assert(s.subrange(n, n + p.len()) =~= p);
    assert forall|j: int| 0 <= j < n implies !#[trigger] occurs_at(s, p, j) by {
        if occurs_at(s, p, j) {
            assert(s.subrange(j, j + p.len())[0] == s[j]);
            assert(s[j] == a[j]);
        }
    }
    lemma_find_is(s, p, 0, n);
    assert(s.subrange(0, n) =~= a);
    assert(s.subrange(n + p.len(), s.len() as int) =~= b);
    assert forall|j: int| 0 <= j implies !#[trigger] occurs_at(a, p, j) by {
        if occurs_at(a, p, j) {
            assert(a.subrange(j, j + p.len())[0] == a[j]);
        }
    }
    lemma_find_none(a, p, 0);
}

/// A text holds another one where something stands before and behind it.
pub proof fn law_a_part_is_found(a: Seq<char>, p: Seq<char>, b: Seq<char>)
    ensures
        contains(a + p + b, p),
{
    let s = a + p + b;
    assert(s.subrange(a.len() as int, (a.len() + p.len()) as int) =~= p);
    assert(occurs_at(s, p, a.len() as int));
    lemma_find_from(s, p, 0);
}

/// What is found in a text stands in it between two other parts.
pub proof fn law_what_is_found_stands_there(s: Seq<char>, p: Seq<char>)
    requires
        contains(s, p),
    ensures
        split_once(s, p) matches Some((a, b)) && s == a + p + b,
{
    lemma_find_from(s, p, 0);
    let i = find(s, p)->0;
    assert(s =~= s.subrange(0, i) + p + s.subrange(i + p.len(), s.len() as int)) by {
        assert(s =~= s.subrange(0, i) + s.subrange(i, i + p.len()) + s.subrange(
            i + p.len(),
            s.len() as int,
        ));
    }
}

/// A text holds a character, as a text of its own, where the character is one of its own.
pub proof fn law_characters_are_found(s: Seq<char>, c: char)
    ensures
        contains(s, seq![c]) <==> exists|i: int| 0 <= i < s.len() && s[i] == c,
        contains(s, seq![c]) <==> !lacks(s, c),
{
    lemma_before_lacks(s, c);
}

/// The characters up to the first `/`, `?` or `#` are the authority.
pub proof fn law_authority_ends_at_the_path(a: Seq<char>, rest: Seq<char>)
    requires
        lacks(a, '/') && lacks(a, '?') && lacks(a, '#'),
        rest.len() == 0 || rest[0] == '/' || rest[0] == '?' || rest[0] == '#',
    ensures
        authority(a + rest) == a,
{
    lemma_authority_end(a, rest, 0);
    assert((a + rest).subrange(0, a.len() as int) =~= a);
}

proof fn lemma_authority_end(a: Seq<char>, rest: Seq<char>, i: int)
    requires
        0 <= i <= a.len(),
        lacks(a, '/') && lacks(a, '?') && lacks(a, '#'),
        rest.len() == 0 || rest[0] == '/' || rest[0] == '?' || rest[0] == '#',
    ensures
        authority_end(a + rest, i) == a.len(),
    decreases a.len() - i,
{
    let s = a + rest;
    if i < a.len() {
        assert(s[i] == a[i]);
        lemma_authority_end(a, rest, i + 1);
    } else if rest.len() > 0 {
        assert(s[i] == rest[0]);
    }
}

/// Trimming takes white space off both ends, all of it, and nothing else.
pub proof fn law_trim_takes_white_space_off(u: Seq<char>, s: Seq<char>, v: Seq<char>)
    requires
        forall|i: int| 0 <= i < u.len() ==> is_space(#[trigger] u[i]),
        forall|i: int| 0 <= i < v.len() ==> is_space(#[trigger] v[i]),
        s.len() > 0 ==> !is_space(s[0]) && !is_space(s.last()),
    ensures
        trim(u + s + v) == s,
{
    let t = u + s + v;
    if s.len() > 0 {
        assert(t[u.len() as int] == s[0]);
        assert(t[u.len() + s.len() - 1] == s.last());
        lemma_skip_to(t, 0, u.len() as int);
        lemma_trim_to(t, t.len() as int, (u.len() + s.len()) as int);
        assert(t.subrange(u.len() as int, (u.len() + s.len()) as int) =~= s);
    } else {
        assert forall|i: int| 0 <= i < t.len() implies is_space(#[trigger] t[i]) by {
            if i < u.len() {
                assert(t[i] == u[i]);
            } else {
                assert(t[i] == v[i - u.len()]);
            }
        }
        lemma_skip_to(t, 0, t.len() as int);
        lemma_trim_to(t, t.len() as int, 0);
        assert(trim(t) =~= s);
    }
}

proof fn lemma_skip_to(t: Seq<char>, i: int, k: int)
    requires
        0 <= i <= k <= t.len(),
        forall|j: int| i <= j < k ==> is_space(#[trigger] t[j]),
        k < t.len() ==> !is_space(t[k]),
    ensures
        skip_spaces(t, i) == k,
    decreases k - i,
{
    if i < k {
        assert(is_space(t[i]));
        lemma_skip_to(t, i + 1, k);
    }
}

proof fn lemma_trim_to(t: Seq<char>, j: int, k: int)
    requires
        0 <= k <= j <= t.len(),
        forall|i: int| k <= i < j ==> is_space(#[trigger] t[i]),
        k > 0 ==> !is_space(t[k - 1]),
    ensures
        trim_end_at(t, j) == k,
    decreases j - k,
{
    if k < j {
        assert(is_space(t[j - 1]));
        lemma_trim_to(t, j - 1, k);
    }
}

proof fn lemma_word_to(t: Seq<char>, i: int, k: int)
    requires
        0 <= i <= k <= t.len(),
        forall|j: int| i <= j < k ==> !is_space(#[trigger] t[j]),
        k < t.len() ==> is_space(t[k]),
    ensures
        word_end(t, i) == k,
    decreases k - i,
{
    if i < k {
        assert(!is_space(t[i]));
        lemma_word_to(t, i + 1, k);
    }
}

/// The words of a text from a position on are those of the rest of the text.
proof fn lemma_words_of_rest(s: Seq<char>, t: Seq<char>, i: int, j: int)
    requires
        0 <= i <= s.len(),
        0 <= j <= t.len(),
        s.skip(i) == t.skip(j),
    ensures
        words_from(s, i) == words_from(t, j),
    decreases s.len() - i,
{
    assert(s.len() - i == s.skip(i).len());
    assert(t.len() - j == t.skip(j).len());
    lemma_skip_spaces(s, i);
    lemma_skip_spaces(t, j);
    let a = skip_spaces(s, i);
    let b = word_end(s, a);
    lemma_spaces_of_rest(s, t, i, j);
    let a2 = skip_spaces(t, j);
    if a < s.len() {
        lemma_word_end(s, a);
        assert(s.skip(a) =~= t.skip(a2)) by {
            assert forall|k: int| 0 <= k < s.len() - a implies s.skip(a)[k] == t.skip(a2)[k] by {
                assert(s.skip(i)[a - i + k] == s[a + k]);
                assert(t.skip(j)[a - i + k] == t[a2 + k]);
            }
        }
        lemma_word_of_rest(s, t, a, a2);
        let b2 = word_end(t, a2);
        assert(s.skip(b) =~= t.skip(b2)) by {
            assert forall|k: int| 0 <= k < s.len() - b implies s.skip(b)[k] == t.skip(b2)[k] by {
                assert(s.skip(a)[b - a + k] == s[b + k]);
                assert(t.skip(a2)[b - a + k] == t[b2 + k]);
            }
        }
        assert(s.subrange(a, b) =~= t.subrange(a2, b2)) by {
            assert forall|k: int| 0 <= k < b - a implies s.subrange(a, b)[k] == t.subrange(
                a2,
                b2,
            )[k] by {
                assert(s.skip(a)[k] == s[a + k]);
                assert(t.skip(a2)[k] == t[a2 + k]);
            }
        }
        lemma_words_of_rest(s, t, b, b2);
    }
}

proof fn lemma_spaces_of_rest(s: Seq<char>, t: Seq<char>, i: int, j: int)
    requires
        0 <= i <= s.len(),
        0 <= j <= t.len(),
        s.skip(i) == t.skip(j),
    ensures
        skip_spaces(s, i) - i == skip_spaces(t, j) - j,
    decreases s.len() - i,
{
    assert(s.len() - i == s.skip(i).len());
    assert(t.len() - j == t.skip(j).len());
    if i < s.len() {
        assert(s[i] == s.skip(i)[0]);
        assert(t[j] == t.skip(j)[0]);
        assert(s.skip(i + 1) =~= s.skip(i).skip(1));
        assert(t.skip(j + 1) =~= t.skip(j).skip(1));
        lemma_spaces_of_rest(s, t, i + 1, j + 1);
    }
}

proof fn lemma_word_of_rest(s: Seq<char>, t: Seq<char>, i: int, j: int)
    requires
        0 <= i <= s.len(),
        0 <= j <= t.len(),
        s.skip(i) == t.skip(j),
    ensures
        word_end(s, i) - i == word_end(t, j) - j,
    decreases s.len() - i,
{
    assert(s.len() - i == s.skip(i).len());
    assert(t.len() - j == t.skip(j).len());
    if i < s.len() {
        assert(s[i] == s.skip(i)[0]);
        assert(t[j] == t.skip(j)[0]);
        assert(s.skip(i + 1) =~= s.skip(i).skip(1));
        assert(t.skip(j + 1) =~= t.skip(j).skip(1));
        lemma_word_of_rest(s, t, i + 1, j + 1);
    }
}

/// White space in front makes no difference to the words, and the first word ends at the next white
/// space: its words are the word itself and the words of what follows.
pub proof fn law_white_space_parts_words(
    blank: Seq<char>,
    word: Seq<char>,
    space: char,
    rest: Seq<char>,
)
    requires
        forall|i: int| 0 <= i < blank.len() ==> is_space(#[trigger] blank[i]),
        forall|i: int| 0 <= i < word.len() ==> !is_space(#[trigger] word[i]),
        word.len() > 0,
        is_space(space),
    ensures
        words(blank) == Seq::<Seq<char>>::empty(),
        words(blank + word) == seq![word],
        words(blank + word + seq![space] + rest) == seq![word] + words(rest),
{
    lemma_skip_to(blank, 0, blank.len() as int);
    let n = blank.len() as int;
    let m = (blank.len() + word.len()) as int;
    let one = blank + word;
    assert(one[n] == word[0]);
    assert forall|j: int| n <= j < m implies !is_space(#[trigger] one[j]) by {
        assert(one[j] == word[j - n]);
    }
    lemma_skip_to(one, 0, n);
    lemma_word_to(one, n, m);
    assert(one.subrange(n, m) =~= word);
    lemma_skip_to(one, m, m);
    assert(words_from(one, m) =~= seq![]);
    assert(seq![word] + Seq::<Seq<char>>::empty() =~= seq![word]);
    let s = one + seq![space] + rest;
    assert(s[n] == word[0]);
    assert forall|j: int| n <= j < m implies !is_space(#[trigger] s[j]) by {
        assert(s[j] == word[j - n]);
    }
    lemma_skip_to(s, 0, n);
    assert(s[m] == space);
    lemma_word_to(s, n, m);
    assert(s.subrange(n, m) =~= word);
    assert(skip_spaces(s, m) == skip_spaces(s, m + 1));
    assert(s.skip(m + 1) =~= rest.skip(0));
    lemma_words_of_rest(s, rest, m + 1, 0);
    assert(words_from(s, m) == words_from(s, m + 1)) by {
        lemma_skip_spaces(s, m + 1);
    }
}

/// A line ends at the first line feed, and a carriage return before it belongs to the end of the
/// line. What follows is read as lines of its own.
pub proof fn law_lines_end_at_line_feeds(line: Seq<char>, rest: Seq<char>)
    requires
        lacks(line, '\n'),
    ensures
        lines(Seq::<char>::empty()) == Seq::<Seq<char>>::empty(),
        line.len() > 0 ==> lines(line) == seq![line],
        line.len() > 0 && line.last() != '\r' || line.len() == 0 ==> lines(
            line + seq!['\n'] + rest,
        ) == seq![line] + lines(rest),
        lines(line + seq!['\r', '\n'] + rest) == seq![line] + lines(rest),
{
    lemma_find_char(line, '\n', rest);
    let s = line + seq!['\n'] + rest;
    assert(s =~= line.push('\n') + rest);
    assert(s.subrange(0, line.len() as int) =~= line);
    assert(s.subrange(line.len() + 1int, s.len() as int) =~= rest);
    let cr = line.push('\r');
    lemma_find_char(cr, '\n', rest);
    let t = line + seq!['\r', '\n'] + rest;
    assert(t =~= cr.push('\n') + rest);
    assert(t.subrange(0, cr.len() as int) =~= cr);
    assert(t.subrange(cr.len() + 1int, t.len() as int) =~= rest);
    assert(cr.drop_last() =~= line);
}

/// Small letters and capitals: `A` to `Z` and `a` to `z` stand for each other in this order, and no
/// other character has a case.
pub proof fn law_case_of_letters(c: char)
    ensures
        'A' <= c <= 'Z' ==> lower_char(c) as int - 'a' as int == c as int - 'A' as int,
        'a' <= c <= 'z' ==> upper_char(c) as int - 'A' as int == c as int - 'a' as int,
        !('A' <= c <= 'Z') ==> lower_char(c) == c,
        !('a' <= c <= 'z') ==> upper_char(c) == c,
        lower_char(upper_char(c)) == lower_char(c),
        upper_char(lower_char(c)) == upper_char(c),
{
}

/// Letter case is a matter of single characters, and of the two texts that are compared, both.
pub proof fn law_case_is_ignored_on_both_sides(a: Seq<char>, b: Seq<char>)
    ensures
        same_ignoring_case(a, lower(a)),
        same_ignoring_case(upper(a), a),
        same_ignoring_case(a, b) <==> (a.len() == b.len() && forall|i: int|
            0 <= i < a.len() ==> lower_char(#[trigger] a[i]) == lower_char(b[i])),
        lower(a + b) == lower(a) + lower(b),
        upper(a + b) == upper(a) + upper(b),
{
    assert(lower(lower(a)) =~= lower(a));
    assert(lower(upper(a)) =~= lower(a));
    assert(lower(a + b) =~= lower(a) + lower(b));
    assert(upper(a + b) =~= upper(a) + upper(b));
    if a.len() == b.len() && forall|i: int|
        0 <= i < a.len() ==> lower_char(#[trigger] a[i]) == lower_char(b[i]) {
        assert(lower(a) =~= lower(b));
    }
    if same_ignoring_case(a, b) {
        assert(lower(a).len() == lower(b).len());
        assert forall|i: int| 0 <= i < a.len() implies lower_char(#[trigger] a[i]) == lower_char(
            b[i],
        ) by {
            assert(lower(a)[i] == lower(b)[i]);
        }
    }
}

/// What is to be replaced is replaced where it stands, and the rest of the text is read on behind
/// it. The text before it, in which its first character does not stand, is kept.
pub proof fn law_replace_works_from_left_to_right(
    a: Seq<char>,
    from: Seq<char>,
    to: Seq<char>,
    b: Seq<char>,
)
    requires
        from.len() > 0,
        lacks(a, from[0]),
    ensures
        replace(a, from, to) == a,
        replace(a + from + b, from, to) == a + to + replace(b, from, to),
{
    let s = a + from + b;
    lemma_replace_before(a, from, to, Seq::empty(), 0);
    assert(a + Seq::<char>::empty() =~= a);
    assert(replace_from(a, from, to, a.len() as int) =~= seq![]);
    assert(a.skip(0) =~= a);
    lemma_replace_before(a, from, to, from + b, 0);
    assert(s =~= a + (from + b));
    assert(s.subrange(a.len() as int, (a.len() + from.len()) as int) =~= from);
    assert(s.skip((a.len() + from.len()) as int) =~= b.skip(0));
    lemma_replace_of_rest(s, b, from, to, (a.len() + from.len()) as int, 0);
    assert(replace(s, from, to) =~= a + to + replace(b, from, to));
}

proof fn lemma_replace_before(
    a: Seq<char>,
    from: Seq<char>,
    to: Seq<char>,
    rest: Seq<char>,
    i: int,
)
    requires
        from.len() > 0,
        lacks(a, from[0]),
        0 <= i <= a.len(),
    ensures
        replace_from(a + rest, from, to, i) == a.skip(i) + replace_from(
            a + rest,
            from,
            to,
            a.len() as int,
        ),
    decreases a.len() - i,
{
    let s = a + rest;
    if i < a.len() {
        assert(s[i] == a[i]);
        if occurs_at(s, from, i) {
            assert(s.subrange(i, i + from.len())[0] == s[i]);
        }
        lemma_replace_before(a, from, to, rest, i + 1);
        assert(a.skip(i) =~= seq![a[i]] + a.skip(i + 1));
        assert(replace_from(s, from, to, i) =~= a.skip(i) + replace_from(
            s,
            from,
            to,
            a.len() as int,
        ));
    } else {
        assert(a.skip(i) =~= seq![]);
        assert(replace_from(s, from, to, i) =~= a.skip(i) + replace_from(s, from, to, i));
    }
}

proof fn lemma_replace_of_rest(
    s: Seq<char>,
    t: Seq<char>,
    from: Seq<char>,
    to: Seq<char>,
    i: int,
    j: int,
)
    requires
        from.len() > 0,
        0 <= i <= s.len(),
        0 <= j <= t.len(),
        s.skip(i) == t.skip(j),
    ensures
        replace_from(s, from, to, i) == replace_from(t, from, to, j),
    decreases s.len() - i,
{
    assert(s.len() - i == s.skip(i).len());
    assert(t.len() - j == t.skip(j).len());
    if i < s.len() {
        assert(s[i] == s.skip(i)[0]);
        assert(t[j] == t.skip(j)[0]);
        if i + from.len() <= s.len() {
            assert(s.subrange(i, i + from.len()) =~= s.skip(i).take(from.len() as int));
            assert(t.subrange(j, j + from.len()) =~= t.skip(j).take(from.len() as int));
        }
        if occurs_at(s, from, i) {
            assert(s.skip(i + from.len()) =~= s.skip(i).skip(from.len() as int));
            assert(t.skip(j + from.len()) =~= t.skip(j).skip(from.len() as int));
            lemma_replace_of_rest(s, t, from, to, i + from.len(), j + from.len());
        } else {
            assert(s.skip(i + 1) =~= s.skip(i).skip(1));
            assert(t.skip(j + 1) =~= t.skip(j).skip(1));
            lemma_replace_of_rest(s, t, from, to, i + 1, j + 1);
        }
    }
}

/// A pair is read at the first `=`: the value may hold more of them.
pub proof fn law_pair_is_read_at_the_first_sign(name: Seq<char>, value: Seq<char>)
    requires
        lacks(name, '='),
    ensures
        pair(name + seq!['='] + value) == (name, value),
        pair(name) == (name, Seq::<char>::empty()),
{
    law_text_is_cut_at_the_first(name, '=', value);
}

/// The parts of a joined text stand in it one after another, and the separator between them alone.
pub proof fn law_parts_are_joined_in_order(parts: Seq<Seq<char>>, sep: Seq<char>, last: Seq<char>)
    ensures
        join(seq![last], sep) == last,
        parts.len() > 0 ==> join(parts.push(last), sep) == join(parts, sep) + sep + last,
        concat(parts.push(last)) == concat(parts) + last,
        concat(Seq::empty()) == Seq::<char>::empty(),
        join(Seq::empty(), sep) == Seq::<char>::empty(),
{
    assert(parts.push(last).drop_last() =~= parts);
}

/// A number is written by its digits, the last of which stands for the remainder by ten, and what
/// is written otherwise is no number.
pub proof fn law_numbers_are_read_by_digits(s: Seq<char>, d: nat, max: nat)
    requires
        d < 10,
        s.len() > 0,
        s[0] != '+',
    ensures
        parse_number(s, max) matches Some(n) && 10 * n + d <= max ==> parse_number(
            s.push((48 + d) as char),
            max,
        ) == Some((10 * parse_number(s, max)->0 + d) as nat),
        parse_number(s, max) matches Some(n) ==> n <= max,
        parse_number(seq!['+'] + s, max) == parse_number(s, max),
        (exists|i: int| 0 <= i < s.len() && !('0' <= #[trigger] s[i] <= '9')) ==> parse_number(
            s,
            max,
        ) is None,
        parse_number(Seq::empty(), max) is None,
{
    let c = (48 + d) as char;
    let t = s.push(c);
    assert(c as int == 48 + d);
    assert(t.drop_last() =~= s);
    if parse_number(s, max) is Some {
        assert(t[0] == s[0]);
        assert forall|i: int| 0 <= i < t.len() implies is_digit(#[trigger] t[i]) by {
            if i < s.len() {
                assert(t[i] == s[i]);
            }
        }
    }
    let p = seq!['+'] + s;
    assert(p.subrange(1, p.len() as int) =~= s);
}

/// Blanks, tabs and the ends of lines are white space; the visible ASCII characters are not.
pub proof fn law_white_space_is_invisible(c: char)
    ensures
        c == ' ' || c == '\t' || c == '\n' || c == '\r' ==> is_space(c),
        '!' <= c <= '~' ==> !is_space(c),
{
}

/// Words with one blank between them are the words of that text, and no white space stands around
/// it.
pub proof fn law_joined_words_are_read_back(parts: Seq<Seq<char>>)
    requires
        forall|i: int|
            0 <= i < parts.len() ==> (#[trigger] parts[i]).len() > 0 && forall|j: int|
                0 <= j < parts[i].len() ==> !is_space(#[trigger] parts[i][j]),
    ensures
        words(join(parts, seq![' '])) == parts,
        trim(join(parts, seq![' '])) == join(parts, seq![' ']),
        parts.len() > 0 ==> join(parts, seq![' ']).len() > 0,
    decreases parts.len(),
{
    let none = Seq::<char>::empty();
    let s = join(parts, seq![' ']);
    if parts.len() == 0 {
        lemma_skip_to(none, 0, 0);
        assert(words(none) =~= parts);
        law_trim_takes_white_space_off(none, none, none);
        assert(none + none + none =~= none);
    } else {
        let first = parts[0];
        let rest = parts.drop_first();
        assert forall|i: int| 0 <= i < rest.len() implies (#[trigger] rest[i]).len() > 0 && forall|
            j: int,
        |
            0 <= j < rest[i].len() ==> !is_space(#[trigger] rest[i][j]) by {
            assert(rest[i] == parts[i + 1]);
        }
        law_joined_words_are_read_back(rest);
        let more = join(rest, seq![' ']);
        law_white_space_parts_words(none, first, ' ', more);
        if parts.len() == 1 {
            assert(none + first =~= first);
            assert(seq![first] =~= parts);
        } else {
            lemma_join_front(parts, seq![' ']);
            assert(s =~= none + first + seq![' '] + more);
            assert(seq![first] + rest =~= parts);
        }
        let last = parts.last();
        assert(s[0] == first[0]);
        assert(s.last() == last.last());
        assert(parts[parts.len() - 1] == last);
        law_trim_takes_white_space_off(none, s, none);
        assert(none + s + none =~= s);
    }
}

/// A line behind a line feed is one more line, behind those before it.
pub proof fn law_lines_follow_one_another(a: Seq<char>, b: Seq<char>)
    ensures
        lines(a + seq!['\n'] + b) == lines(a + seq!['\n']) + lines(b),
    decreases a.len(),
{
    lemma_before_lacks(a, '\n');
    let none = Seq::<char>::empty();
    match find(a, seq!['\n']) {
        Some(i) => {
            let head = a.subrange(0, i);
            let tail = a.subrange(i + 1, a.len() as int);
            law_lines_follow_one_another(tail, b);
            let all = tail + seq!['\n'] + b;
            let some = tail + seq!['\n'];
            lemma_find_char(head, '\n', all);
            lemma_find_char(head, '\n', some);
            let x = a + seq!['\n'] + b;
            let y = a + seq!['\n'];
            assert(x =~= head.push('\n') + all);
            assert(y =~= head.push('\n') + some);
            assert(x.subrange(0, i) =~= head);
            assert(y.subrange(0, i) =~= head);
            assert(x.subrange(i + 1, x.len() as int) =~= all);
            assert(y.subrange(i + 1, y.len() as int) =~= some);
            assert(lines(x) =~= lines(y) + lines(b));
        },
        None => {
            lemma_find_char(a, '\n', b);
            lemma_find_char(a, '\n', none);
            let x = a + seq!['\n'] + b;
            let y = a + seq!['\n'];
            let n = a.len() as int;
            assert(x =~= a.push('\n') + b);
            assert(y =~= a.push('\n') + none);
            assert(x.subrange(0, n) =~= a);
            assert(y.subrange(0, n) =~= a);
            assert(x.subrange(n + 1, x.len() as int) =~= b);
            assert(y.subrange(n + 1, y.len() as int) =~= none);
            assert(lines(none) =~= seq![]);
            assert(lines(x) =~= lines(y) + lines(b));
        },
    }
}

/// What follows the last `://` of a text is found behind it; without one it is the whole text.
pub proof fn law_scheme_is_cut_off(a: Seq<char>, b: Seq<char>)
    requires
        lacks(b, '/'),
    ensures
        after_last(a + seq![':', '/', '/'] + b, seq![':', '/', '/']) == b,
        after_last(b, seq![':', '/', '/']) == b,
{
    let p = seq![':', '/', '/'];
    let s = a + p + b;
    let n = a.len() as int;
    lemma_rfind_to(s, p, s.len() - 3);
    assert(s.subrange(n, n + 3) =~= p);
    assert(occurs_at(s, p, n));
    if let Some(k) = rfind(s, p) {
        if k > n {
            assert(s.subrange(k, k + 3)[0] == s[k]);
            assert(s.subrange(k, k + 3)[2] == s[k + 2]);
            assert(s[k + 2] == b[k + 2 - n - 3]);
        }
        assert(k == n);
    }
    assert(s.subrange(n + 3, s.len() as int) =~= b);
    lemma_rfind_to(b, p, b.len() - 3);
    if let Some(k) = rfind(b, p) {
        assert(b.subrange(k, k + 3)[2] == b[k + 2]);
    }
}

/// Where the empty text is replaced, the other one stands before each character and at the end.
pub proof fn law_empty_text_stands_between_characters(c: char, s: Seq<char>, to: Seq<char>)
    ensures
        replace(Seq::empty(), Seq::empty(), to) == to,
        replace(seq![c] + s, Seq::empty(), to) == to + seq![c] + replace(s, Seq::empty(), to),
{
    let t = seq![c] + s;
    assert(t[0] == c);
    assert(t.skip(1) =~= s.skip(0));
    lemma_interleave_of_rest(t, s, to, 1, 0);
}

proof fn lemma_interleave_of_rest(s: Seq<char>, t: Seq<char>, to: Seq<char>, i: int, j: int)
    requires
        0 <= i <= s.len(),
        0 <= j <= t.len(),
        s.skip(i) == t.skip(j),
    ensures
        interleave_from(s, to, i) == interleave_from(t, to, j),
    decreases s.len() - i,
{
    assert(s.len() - i == s.skip(i).len());
    assert(t.len() - j == t.skip(j).len());
    if i < s.len() {
        assert(s[i] == s.skip(i)[0]);
        assert(t[j] == t.skip(j)[0]);
        assert(s.skip(i + 1) =~= s.skip(i).skip(1));
        assert(t.skip(j + 1) =~= t.skip(j).skip(1));
        lemma_interleave_of_rest(s, t, to, i + 1, j + 1);
    }
}

/// White space at the start is taken off, and what follows the first other character is kept.
pub proof fn law_trim_start_keeps_the_end(u: Seq<char>, s: Seq<char>)
    requires
        forall|i: int| 0 <= i < u.len() ==> is_space(#[trigger] u[i]),
        s.len() > 0 ==> !is_space(s[0]),
    ensures
        trim_start(u + s) == s,
{
    let t = u + s;
    assert forall|j: int| 0 <= j < u.len() implies is_space(#[trigger] t[j]) by {
        assert(t[j] == u[j]);
    }
    if s.len() > 0 {
        assert(t[u.len() as int] == s[0]);
    }
    lemma_skip_to(t, 0, u.len() as int);
    assert(trim_start(t) =~= s);
}

/// The first line of a text is what stands before its first line feed, without a carriage return
/// there, or the whole text.
pub proof fn law_first_line_ends_at_the_line_feed(line: Seq<char>, rest: Seq<char>)
    requires
        lacks(line, '\n'),
    ensures
        first_line(line) == line,
        first_line(line + seq!['\r', '\n'] + rest) == line,
        line.len() == 0 || line.last() != '\r' ==> first_line(line + seq!['\n'] + rest) == line,
{
    lemma_find_char(line, '\n', rest);
    let s = line + seq!['\n'] + rest;
    assert(s =~= line.push('\n') + rest);
    assert(s.subrange(0, line.len() as int) =~= line);
    let cr = line.push('\r');
    lemma_find_char(cr, '\n', rest);
    let t = line + seq!['\r', '\n'] + rest;
    assert(t =~= cr.push('\n') + rest);
    assert(t.subrange(0, cr.len() as int) =~= cr);
    assert(cr.drop_last() =~= line);
}

} // verus!
