//! The operations of a rule: `protocol://value`.
use crate::seqs;
use crate::text;
use vstd::prelude::*;

verus! {

/// One operation of a rule.
#[derive(Debug)]
pub struct Operation {
    /// The protocol's name as it is written, such as `host` or `reqHeaders`.
    pub protocol: String,
    /// What follows `://`.
    pub value: String,
    /// The whole token.
    pub raw: String,
}

/// The texts of an operation.
pub struct OpText {
    pub protocol: Seq<char>,
    pub value: Seq<char>,
    pub raw: Seq<char>,
}

impl View for Operation {
    type V = OpText;

    open spec fn view(&self) -> OpText {
        OpText { protocol: self.protocol@, value: self.value@, raw: self.raw@ }
    }
}

/// The texts of a list of operations.
pub open spec fn op_texts(ops: Seq<Operation>) -> Seq<OpText> {
    Seq::new(ops.len(), |i: int| ops[i]@)
}

/// The operation that a token writes: `protocol://value`, or the value of a `host`.
pub open spec fn op_of(token: Seq<char>) -> OpText {
    match seqs::split_once(token, "://"@) {
        Some((protocol, value)) => OpText { protocol, value, raw: token },
        None => OpText { protocol: "host"@, value: token, raw: token },
    }
}

impl Clone for Operation {
    fn clone(&self) -> (r: Self)
        ensures
            r == *self,
    {
        Operation {
            protocol: self.protocol.clone(),
            value: self.value.clone(),
            raw: self.raw.clone(),
        }
    }
}

impl Operation {
    /// Reads the operation that a token writes. A token without `://` is the value of a `host`.
    pub fn parse(token: &str) -> (r: Operation)
        ensures
            r@ == op_of(token@),
    {
        match text::split_once(token, "://") {
            Some((protocol, value)) => Operation {
                protocol: protocol.to_string(),
                value: value.to_string(),
                raw: token.to_string(),
            },
            None => Operation {
                protocol: "host".to_string(),
                value: token.to_string(),
                raw: token.to_string(),
            },
        }
    }
}

/// The value of the last operation of a protocol.
pub open spec fn last_of(ops: Seq<OpText>, protocol: Seq<char>) -> Option<Seq<char>>
    decreases ops.len(),
{
    if ops.len() == 0 {
        None
    } else if ops.last().protocol == protocol {
        Some(ops.last().value)
    } else {
        last_of(ops.drop_last(), protocol)
    }
}

/// The value of the last operation of a protocol, or of the last one of another protocol where
/// there is none.
pub open spec fn last_of_either(
    ops: Seq<OpText>,
    protocol: Seq<char>,
    fallback: Seq<char>,
) -> Option<Seq<char>> {
    match last_of(ops, protocol) {
        Some(v) => Some(v),
        None => last_of(ops, fallback),
    }
}

/// The values of all operations of a protocol, in order.
pub open spec fn all_of(ops: Seq<OpText>, protocol: Seq<char>) -> Seq<Seq<char>> {
    ops.filter(|o: OpText| o.protocol == protocol).map_values(|o: OpText| o.value)
}

/// The value of the last operation of a protocol: later operations take precedence.
pub fn last_value<'a>(ops: &'a [Operation], protocol: &str) -> (r: Option<&'a str>)
    ensures
        match r {
            Some(v) => last_of(op_texts(ops@), protocol@) == Some(v@),
            None => last_of(op_texts(ops@), protocol@) is None,
        },
{
    let ghost all = op_texts(ops@);
    let mut i: usize = ops.len();
    proof {
        assert(all.take(all.len() as int) =~= all);
    }
    while i > 0
        invariant
            i <= ops.len(),
            all == op_texts(ops@),
            last_of(all, protocol@) == last_of(all.take(i as int), protocol@),
        decreases i,
    {
        proof {
            assert(all.take(i as int).last() == ops@[i - 1]@);
            assert(all.take(i as int).drop_last() =~= all.take(i - 1));
        }
        i -= 1;
        if text::same(ops[i].protocol.as_str(), protocol) {
            return Some(ops[i].value.as_str());
        }
    }
    None
}

/// The value of the last operation of a protocol, or of another one where there is none.
pub fn last_value_of_either<'a>(ops: &'a [Operation], protocol: &str, fallback: &str) -> (r: Option<
    &'a str,
>)
    ensures
        match r {
            Some(v) => last_of_either(op_texts(ops@), protocol@, fallback@) == Some(v@),
            None => last_of_either(op_texts(ops@), protocol@, fallback@) is None,
        },
{
    match last_value(ops, protocol) {
        Some(v) => Some(v),
        None => last_value(ops, fallback),
    }
}

/// The values of all operations of a protocol, in order.
pub fn all_values<'a>(ops: &'a [Operation], protocol: &str) -> (r: Vec<&'a str>)
    ensures
        seqs::slices(r@) == all_of(op_texts(ops@), protocol@),
{
    let ghost all = op_texts(ops@);
    let ghost keep = |o: OpText| o.protocol == protocol@;
    let ghost value = |o: OpText| o.value;
    let mut out: Vec<&'a str> = Vec::new();
    let mut i: usize = 0;
    proof {
        reveal(Seq::filter);
        assert(all.take(0) =~= Seq::empty());
        assert(seqs::slices(out@) =~= all.take(0).filter(keep).map_values(value));
    }
    while i < ops.len()
        invariant
            i <= ops.len(),
            all == op_texts(ops@),
            keep == (|o: OpText| o.protocol == protocol@),
            value == (|o: OpText| o.value),
            seqs::slices(out@) == all.take(i as int).filter(keep).map_values(value),
        decreases ops.len() - i,
    {
        let ghost outs = seqs::slices(out@);
        proof {
            seqs::lemma_filter_step(all, i as int, keep);
        }
        if text::same(ops[i].protocol.as_str(), protocol) {
            out.push(ops[i].value.as_str());
            proof {
                assert(seqs::slices(out@) =~= outs.push(ops@[i as int].value@));
                assert(all.take(i + 1).filter(keep).map_values(value) =~= outs.push(
                    all[i as int].value,
                ));
            }
        }
        i += 1;
    }
    proof {
        assert(all.take(all.len() as int) =~= all);
    }
    out
}

/// A protocol with one of these names is among the operations.
pub open spec fn mentions(ops: Seq<OpText>, names: Seq<Seq<char>>) -> bool {
    exists|i: int| 0 <= i < ops.len() && names.contains(#[trigger] ops[i].protocol)
}

/// Later operations take precedence: of two lists one after the other, the last value comes from
/// the second list where it has one, and from the first one else.
pub proof fn law_later_operations_take_precedence(
    earlier: Seq<OpText>,
    later: Seq<OpText>,
    protocol: Seq<char>,
)
    ensures
        last_of(earlier + later, protocol) == match last_of(later, protocol) {
            Some(v) => Some(v),
            None => last_of(earlier, protocol),
        },
    decreases later.len(),
{
    if later.len() == 0 {
        assert(earlier + later =~= earlier);
    } else {
        assert((earlier + later).last() == later.last());
        assert((earlier + later).drop_last() =~= earlier + later.drop_last());
        law_later_operations_take_precedence(earlier, later.drop_last(), protocol);
    }
}

/// The last value is the last of all values, and there is none where there are no values.
pub proof fn law_last_value_ends_all_values(ops: Seq<OpText>, protocol: Seq<char>)
    ensures
        match last_of(ops, protocol) {
            Some(v) => all_of(ops, protocol).len() > 0 && all_of(ops, protocol).last() == v,
            None => all_of(ops, protocol).len() == 0,
        },
    decreases ops.len(),
{
    reveal(Seq::filter);
    if ops.len() > 0 {
        law_last_value_ends_all_values(ops.drop_last(), protocol);
        let keep = |o: OpText| o.protocol == protocol;
        let value = |o: OpText| o.value;
        if ops.last().protocol == protocol {
            assert(ops.filter(keep) == ops.drop_last().filter(keep).push(ops.last()));
            assert(all_of(ops, protocol).last() == ops.last().value);
        } else {
            assert(ops.filter(keep) == ops.drop_last().filter(keep));
        }
    }
}

/// The values of two lists one after the other are those of the first, then those of the second.
pub proof fn law_all_values_keep_order(
    earlier: Seq<OpText>,
    later: Seq<OpText>,
    protocol: Seq<char>,
)
    ensures
        all_of(earlier + later, protocol) == all_of(earlier, protocol) + all_of(later, protocol),
    decreases later.len(),
{
    reveal(Seq::filter);
    let keep = |o: OpText| o.protocol == protocol;
    if later.len() == 0 {
        assert(earlier + later =~= earlier);
        assert(all_of(earlier, protocol) + all_of(later, protocol) =~= all_of(earlier, protocol));
    } else {
        assert((earlier + later).last() == later.last());
        assert((earlier + later).drop_last() =~= earlier + later.drop_last());
        law_all_values_keep_order(earlier, later.drop_last(), protocol);
        let shorter = all_of(later.drop_last(), protocol);
        if later.last().protocol == protocol {
            assert(all_of(later, protocol) =~= shorter.push(later.last().value));
            assert(all_of(earlier + later, protocol) =~= all_of(
                earlier + later.drop_last(),
                protocol,
            ).push(later.last().value));
        } else {
            assert(all_of(later, protocol) =~= shorter);
        }
        assert(all_of(earlier + later, protocol) =~= all_of(earlier, protocol) + all_of(
            later,
            protocol,
        ));
    }
}

/// An operation is written as its protocol, `://` and its value; the value may hold more of those
/// signs. A word without them is the value of a `host`. Either is kept as it was written.
pub proof fn law_operation_is_read_at_the_separator(protocol: Seq<char>, value: Seq<char>)
    requires
        seqs::lacks(protocol, ':'),
    ensures
        ({
            let token = protocol + seq![':', '/', '/'] + value;
            op_of(token) == (OpText { protocol, value, raw: token })
        }),
        op_of(protocol) == (OpText {
            protocol: seq!['h', 'o', 's', 't'],
            value: protocol,
            raw: protocol,
        }),
{
    reveal_strlit("://");
    reveal_strlit("host");
    assert("://"@ =~= seq![':', '/', '/']);
    assert("host"@ =~= seq!['h', 'o', 's', 't']);
    seqs::law_text_is_cut_at_the_separator(protocol, seq![':', '/', '/'], value);
}

/// The values of a protocol are those of the operations that have that protocol.
pub proof fn law_values_are_those_of_the_protocol(
    ops: Seq<OpText>,
    protocol: Seq<char>,
    value: Seq<char>,
)
    ensures
        all_of(ops, protocol).contains(value) <==> exists|k: int|
            0 <= k < ops.len() && (#[trigger] ops[k]).protocol == protocol && ops[k].value == value,
    decreases ops.len(),
{
    reveal(Seq::filter);
    if ops.len() > 0 {
        let less = ops.drop_last();
        law_values_are_those_of_the_protocol(less, protocol, value);
        lemma_values_of_more(less, ops.last(), protocol);
        assert(less.push(ops.last()) =~= ops);
        let a = all_of(less, protocol);
        let b = all_of(ops, protocol);
        if a.contains(value) {
            let k = choose|k: int|
                0 <= k < less.len() && (#[trigger] less[k]).protocol == protocol && less[k].value
                    == value;
            assert(ops[k] == less[k]);
            let j = choose|j: int| 0 <= j < a.len() && a[j] == value;
            assert(b[j] == a[j]);
        }
        if ops.last().protocol == protocol && ops.last().value == value {
            assert(ops[ops.len() - 1] == ops.last());
            assert(b[a.len() as int] == value);
        }
        if b.contains(value) {
            let j = choose|j: int| 0 <= j < b.len() && b[j] == value;
            if j < a.len() {
                assert(a[j] == value);
            } else {
                assert(ops[ops.len() - 1] == ops.last());
            }
        }
        if exists|k: int|
            0 <= k < ops.len() && (#[trigger] ops[k]).protocol == protocol && ops[k].value
                == value {
            let k = choose|k: int|
                0 <= k < ops.len() && (#[trigger] ops[k]).protocol == protocol && ops[k].value
                    == value;
            if k < less.len() {
                assert(less[k] == ops[k]);
            }
        }
    }
}

/// One more operation is one more value of its own protocol, behind the others, and of no other.
pub proof fn lemma_values_of_more(ops: Seq<OpText>, op: OpText, protocol: Seq<char>)
    ensures
        all_of(ops.push(op), protocol) == if op.protocol == protocol {
            all_of(ops, protocol).push(op.value)
        } else {
            all_of(ops, protocol)
        },
        all_of(Seq::empty(), protocol) == Seq::<Seq<char>>::empty(),
        last_of(ops.push(op), protocol) == if op.protocol == protocol {
            Some(op.value)
        } else {
            last_of(ops, protocol)
        },
        last_of(Seq::empty(), protocol) is None,
{
    reveal(Seq::filter);
    let keep = |o: OpText| o.protocol == protocol;
    let more = ops.push(op);
    assert(more.drop_last() =~= ops);
    assert(more.last() == op);
    if op.protocol == protocol {
        assert(more.filter(keep) == ops.filter(keep).push(op));
        assert(all_of(more, protocol) =~= all_of(ops, protocol).push(op.value));
    } else {
        assert(more.filter(keep) == ops.filter(keep));
    }
    assert(all_of(Seq::empty(), protocol) =~= Seq::<Seq<char>>::empty());
}

/// Of one operation alone, the value is that of its own protocol, and other protocols have none.
pub proof fn law_one_operation_has_one_value(op: OpText, protocol: Seq<char>)
    ensures
        all_of(seq![op], protocol) == if op.protocol == protocol {
            seq![op.value]
        } else {
            seq![]
        },
        last_of(seq![op], protocol) == if op.protocol == protocol {
            Some(op.value)
        } else {
            None
        },
{
    lemma_values_of_more(Seq::empty(), op, protocol);
    assert(Seq::empty().push(op) =~= seq![op]);
    if op.protocol == protocol {
        assert(Seq::<Seq<char>>::empty().push(op.value) =~= seq![op.value]);
    }
}

/// An operation of a protocol is preferred to those of the protocol that stands in for it, wherever
/// they stand.
pub proof fn law_own_protocol_is_preferred(
    ops: Seq<OpText>,
    protocol: Seq<char>,
    fallback: Seq<char>,
)
    ensures
        last_of(ops, protocol) is Some ==> last_of_either(ops, protocol, fallback) == last_of(
            ops,
            protocol,
        ),
        last_of(ops, protocol) is None ==> last_of_either(ops, protocol, fallback) == last_of(
            ops,
            fallback,
        ),
{
}

} // verus!
