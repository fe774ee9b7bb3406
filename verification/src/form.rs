//! The parameters of a form.
use crate::seqs;
use crate::text;
use vstd::prelude::*;

verus! {

/// The keys and values that `form_urlencoded::parse` reads from some bytes, in order.
pub uninterp spec fn form_pairs(body: Seq<u8>) -> Seq<(Seq<char>, Seq<char>)>;

/// `form_urlencoded::parse`: the keys and values of a form, in order. They depend on the bytes
/// alone.
#[verifier::external_body]
fn parse_form(body: &str) -> (r: Vec<(String, String)>)
    ensures
        seqs::text_pairs(r@) == form_pairs(vstd::utf8::encode_utf8(body@)),
{
    form_urlencoded::parse(body.as_bytes()).into_owned().collect()
}

/// The parameters of a form, in order. A key can be there more than once.
#[derive(Debug)]
pub struct Params {
    pairs: Vec<(String, String)>,
}

impl View for Params {
    type V = Seq<(Seq<char>, Seq<char>)>;

    closed spec fn view(&self) -> Seq<(Seq<char>, Seq<char>)> {
        seqs::text_pairs(self.pairs@)
    }
}

/// The first value of a key, from position `i` on.
pub open spec fn value_from(
    pairs: Seq<(Seq<char>, Seq<char>)>,
    key: Seq<char>,
    i: int,
) -> Option<Seq<char>>
    decreases pairs.len() - i,
{
    if i < 0 || i >= pairs.len() {
        None
    } else if pairs[i].0 == key {
        Some(pairs[i].1)
    } else {
        value_from(pairs, key, i + 1)
    }
}

/// The first value of a key.
pub open spec fn value_of(pairs: Seq<(Seq<char>, Seq<char>)>, key: Seq<char>) -> Option<Seq<char>> {
    value_from(pairs, key, 0)
}

/// The first value of a key, or nothing.
pub open spec fn text_of(pairs: Seq<(Seq<char>, Seq<char>)>, key: Seq<char>) -> Seq<char> {
    match value_of(pairs, key) {
        Some(v) => v,
        None => seq![],
    }
}

/// All values of a key, and of the key followed by `[]`.
pub open spec fn values_of(pairs: Seq<(Seq<char>, Seq<char>)>, key: Seq<char>) -> Seq<Seq<char>> {
    pairs.filter(
        |p: (Seq<char>, Seq<char>)| p.0 == key || p.0 == key + "[]"@,
    ).map_values(|p: (Seq<char>, Seq<char>)| p.1)
}

/// The first value of a key stands for yes: it is there and neither empty nor `0` nor `false`.
pub open spec fn is_truthy(pairs: Seq<(Seq<char>, Seq<char>)>, key: Seq<char>) -> bool {
    match value_of(pairs, key) {
        Some(v) => v.len() > 0 && v != "0"@ && v != "false"@,
        None => false,
    }
}

impl Params {
    /// Reads the parameters of a form.
    pub fn parse(body: &str) -> (r: Params)
        ensures
            r@ == form_pairs(vstd::utf8::encode_utf8(body@)),
    {
        Params::of(parse_form(body))
    }

    /// The parameters with these keys and values.
    pub fn of(pairs: Vec<(String, String)>) -> (r: Params)
        ensures
            r@ == seqs::text_pairs(pairs@),
    {
        Params { pairs }
    }

    /// The first value of a key.
    pub fn get(&self, key: &str) -> (r: Option<&str>)
        ensures
            match r {
                Some(v) => value_of(self@, key@) == Some(v@),
                None => value_of(self@, key@) is None,
            },
    {
        let ghost all = self@;
        let mut i: usize = 0;
        while i < self.pairs.len()
            invariant
                i <= self.pairs.len(),
                all == self@,
                value_of(all, key@) == value_from(all, key@, i as int),
            decreases self.pairs.len() - i,
        {
            if text::same(self.pairs[i].0.as_str(), key) {
                return Some(self.pairs[i].1.as_str());
            }
            i += 1;
        }
        None
    }

    /// The first value of a key, or nothing.
    pub fn text(&self, key: &str) -> (r: String)
        ensures
            r@ == text_of(self@, key@),
    {
        match self.get(key) {
            Some(v) => v.to_string(),
            None => {
                let r = String::new();
                proof {
                    assert(r@ =~= seq![]);
                }
                r
            },
        }
    }

    /// All values of a key, and of the key followed by `[]`.
    pub fn list(&self, key: &str) -> (r: Vec<String>)
        ensures
            seqs::texts(r@) == values_of(self@, key@),
    {
        let bracket = text::cat(key, "[]");
        let ghost all = self@;
        let ghost keep = |p: (Seq<char>, Seq<char>)| p.0 == key@ || p.0 == key@ + "[]"@;
        let ghost value = |p: (Seq<char>, Seq<char>)| p.1;
        let mut out: Vec<String> = Vec::new();
        let mut i: usize = 0;
        proof {
            reveal(Seq::filter);
            assert(seqs::texts(out@) =~= all.take(0).filter(keep).map_values(value));
        }
        while i < self.pairs.len()
            invariant
                i <= self.pairs.len(),
                all == self@,
                bracket@ == key@ + "[]"@,
                keep == (|p: (Seq<char>, Seq<char>)| p.0 == key@ || p.0 == key@ + "[]"@),
                value == (|p: (Seq<char>, Seq<char>)| p.1),
                seqs::texts(out@) == all.take(i as int).filter(keep).map_values(value),
            decreases self.pairs.len() - i,
        {
            let ghost now = seqs::texts(out@);
            proof {
                seqs::lemma_filter_step(all, i as int, keep);
            }
            let k = self.pairs[i].0.as_str();
            if text::same(k, key) || text::same(k, bracket.as_str()) {
                out.push(self.pairs[i].1.clone());
                proof {
                    assert(seqs::texts(out@) =~= now.push(all[i as int].1));
                    assert(seqs::texts(out@) =~= all.take(i + 1).filter(keep).map_values(value));
                }
            }
            i += 1;
        }
        proof {
            assert(all.take(all.len() as int) =~= all);
        }
        out
    }

    /// Whether the first value of a key stands for yes.
    pub fn truthy(&self, key: &str) -> (r: bool)
        ensures
            r == is_truthy(self@, key@),
    {
        match self.get(key) {
            Some(v) => !v.is_empty() && !text::same(v, "0") && !text::same(v, "false"),
            None => false,
        }
    }
}

// ---- laws ----

/// The value of a key is that of the first parameter with it: what comes later makes no difference,
/// and parameters with other keys make none either.
pub proof fn law_first_value_counts(
    pairs: Seq<(Seq<char>, Seq<char>)>,
    key: Seq<char>,
    value: Seq<char>,
    other: Seq<char>,
)
    ensures
        value_of(Seq::empty(), other) is None,
        value_of(pairs.push((key, value)), other) == match value_of(pairs, other) {
            Some(v) => Some(v),
            None => if key == other {
                Some(value)
            } else {
                None
            },
        },
        value_of(pairs, other) is None ==> text_of(pairs, other) == Seq::<char>::empty(),
        value_of(pairs, other) matches Some(v) ==> text_of(pairs, other) == v,
{
    lemma_value_of_more(pairs, (key, value), other, 0);
}

proof fn lemma_value_of_more(
    pairs: Seq<(Seq<char>, Seq<char>)>,
    p: (Seq<char>, Seq<char>),
    other: Seq<char>,
    i: int,
)
    requires
        0 <= i <= pairs.len(),
    ensures
        value_from(pairs.push(p), other, i) == match value_from(pairs, other, i) {
            Some(v) => Some(v),
            None => if p.0 == other {
                Some(p.1)
            } else {
                None
            },
        },
    decreases pairs.len() - i,
{
    reveal_with_fuel(value_from, 2);
    if i < pairs.len() {
        assert(pairs.push(p)[i] == pairs[i]);
        lemma_value_of_more(pairs, p, other, i + 1);
    }
}

/// All values of a key are those of its parameters, in order, with or without brackets behind the
/// key.
pub proof fn law_list_has_all_values(
    pairs: Seq<(Seq<char>, Seq<char>)>,
    key: Seq<char>,
    value: Seq<char>,
    other: Seq<char>,
)
    ensures
        values_of(Seq::empty(), other) == Seq::<Seq<char>>::empty(),
        values_of(pairs.push((key, value)), other) == if key == other || key == other + seq![
            '[',
            ']',
        ] {
            values_of(pairs, other).push(value)
        } else {
            values_of(pairs, other)
        },
{
    reveal_strlit("[]");
    assert("[]"@ =~= seq!['[', ']']);
    reveal(Seq::filter);
    let p = (key, value);
    let keep = |p: (Seq<char>, Seq<char>)| p.0 == other || p.0 == other + "[]"@;
    let more = pairs.push(p);
    assert(more.drop_last() =~= pairs);
    assert(more.last() == p);
    assert(values_of(Seq::empty(), other) =~= Seq::<Seq<char>>::empty());
    if keep(p) {
        assert(more.filter(keep) == pairs.filter(keep).push(p));
        assert(values_of(more, other) =~= values_of(pairs, other).push(value));
    } else {
        assert(more.filter(keep) == pairs.filter(keep));
    }
}

/// A key stands for yes where its value is there and is neither empty nor `0` nor `false`.
pub proof fn law_what_stands_for_yes(pairs: Seq<(Seq<char>, Seq<char>)>, key: Seq<char>)
    ensures
        value_of(pairs, key) is None ==> !is_truthy(pairs, key),
        value_of(pairs, key) matches Some(v) ==> (is_truthy(pairs, key) <==> v.len() > 0
            && v != seq!['0'] && v != seq!['f', 'a', 'l', 's', 'e']),
{
    reveal_strlit("0");
    reveal_strlit("false");
    assert("0"@ =~= seq!['0']);
    assert("false"@ =~= seq!['f', 'a', 'l', 's', 'e']);
}

} // verus!
