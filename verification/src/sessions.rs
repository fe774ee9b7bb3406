//! Captured traffic as the dashboard shows it.
use crate::capture;
use crate::capture::Header;
use crate::capture::HeaderText;
use crate::capture::Traffic;
use crate::capture::TrafficModel;
use crate::capture::WsText;
use crate::rewrite;
use crate::seqs;
use crate::text;
use vstd::prelude::*;

verus! {

/// The most new sessions in one answer.
pub const COUNT: usize = 600;

// ---- ids ----

/// The id of a session: its start and its number.
pub open spec fn session_name(start: u64, id: u64) -> Seq<char> {
    seqs::decimal(start as nat) + "-"@ + seqs::decimal(id as nat)
}

/// The id of a session.
pub fn session_id(t: &Traffic) -> (r: String)
    ensures
        r@ == session_name(t@.start_time, t@.id),
{
    let a = text::decimal(t.start_time);
    let b = text::decimal(t.id);
    text::cat3(a.as_str(), "-", b.as_str())
}

/// The number in the id of a session. Some texts stand for no session.
pub open spec fn cursor_of(s: Seq<char>) -> Option<u64> {
    if s.len() == 0 || s == "0"@ || s == "-1"@ || s == "-2"@ || s == "-3"@ {
        None
    } else {
        match seqs::parse_number(seqs::after_last(s, "-"@), u64::MAX as nat) {
            Some(n) => Some(n as u64),
            None => None,
        }
    }
}

/// The number in the id of a session.
pub fn parse_cursor(s: &str) -> (r: Option<u64>)
    ensures
        r == cursor_of(s@),
{
    if s.is_empty() || text::same(s, "0") || text::same(s, "-1") || text::same(s, "-2")
        || text::same(s, "-3") {
        None
    } else {
        text::parse_number(text::after_last(s, "-"), u64::MAX)
    }
}

/// The number of a session is read back from its id.
pub proof fn law_session_ids_are_read_back(start: u64, id: u64)
    ensures
        cursor_of(session_name(start, id)) == Some(id),
{
    reveal_strlit("-");
    let a = seqs::decimal(start as nat);
    let b = seqs::decimal(id as nat);
    let s = session_name(start, id);
    seqs::lemma_decimal(start as nat);
    seqs::lemma_decimal(id as nat);
    assert(s.len() >= 3);
    reveal_strlit("0");
    reveal_strlit("-1");
    reveal_strlit("-2");
    reveal_strlit("-3");
    let n = a.len() as int;
    assert(s[n] == '-');
    assert(s.subrange(n, n + 1) =~= "-"@);
    assert(seqs::occurs_at(s, "-"@, n));
    assert forall|j: int| n < j <= s.len() - 1 implies !#[trigger] seqs::occurs_at(s, "-"@, j) by {
        assert(s[j] == b[j - n - 1]);
        assert(seqs::is_digit(b[j - n - 1]));
        assert(s.subrange(j, j + 1)[0] == s[j]);
    }
    seqs::lemma_rfind_to(s, "-"@, s.len() - 1);
    assert(seqs::after_last(s, "-"@) =~= b);
    seqs::law_decimal_is_read_back(id as nat, u64::MAX as nat);
}

// ---- which sessions ----

/// The records with a number above `cursor`.
pub open spec fn newer(all: Seq<TrafficModel>, cursor: u64) -> Seq<TrafficModel> {
    all.filter(|t: TrafficModel| t.id > cursor)
}

/// The new records: the first of those above the cursor, or the last of all without one.
pub open spec fn news(all: Seq<TrafficModel>, cursor: Option<u64>) -> Seq<TrafficModel> {
    match cursor {
        Some(c) => {
            let some = newer(all, c);
            if some.len() > COUNT {
                some.take(COUNT as int)
            } else {
                some
            }
        },
        None => if all.len() > COUNT {
            all.skip(all.len() - COUNT)
        } else {
            all
        },
    }
}

/// The records, oldest first, from a list with the newest first.
pub open spec fn oldest_first(list: Seq<TrafficModel>) -> Seq<TrafficModel> {
    list.reverse()
}

/// The records in the other order.
pub fn reversed(list: Vec<Traffic>) -> (r: Vec<Traffic>)
    ensures
        capture::traffic_models(r@) == oldest_first(capture::traffic_models(list@)),
{
    let mut list = list;
    let mut out: Vec<Traffic> = Vec::new();
    let ghost all = list@;
    while list.len() > 0
        invariant
            list@.len() <= all.len(),
            list@ == all.take(list@.len() as int),
            out@ =~= all.skip(list@.len() as int).reverse(),
        decreases list.len(),
    {
        let ghost n = list@.len() as int;
        if let Some(t) = list.pop() {
            out.push(t);
            proof {
                assert(list@ =~= all.take(n - 1));
                assert(out@ =~= all.skip(n - 1).reverse());
            }
        }
    }
    proof {
        assert(out@ =~= all.reverse());
        assert(capture::traffic_models(out@) =~= capture::traffic_models(all).reverse());
    }
    out
}

/// The positions of the new records.
fn news_at(all: &Vec<Traffic>, cursor: Option<u64>) -> (r: Vec<usize>)
    ensures
        forall|k: int| 0 <= k < r@.len() ==> #[trigger] r@[k] < all@.len(),
        picked(capture::traffic_models(all@), r@) == news(
            capture::traffic_models(all@),
            cursor,
        ),
{
    let ghost models = capture::traffic_models(all@);
    let mut out: Vec<usize> = Vec::new();
    match cursor {
        Some(c) => {
            let ghost keep = |t: TrafficModel| t.id > c;
            let mut i: usize = 0;
            proof {
                reveal(Seq::filter);
                assert(picked(models, out@) =~= models.take(0).filter(keep));
            }
            while i < all.len() && out.len() < COUNT
                invariant
                    i <= all.len(),
                    models == capture::traffic_models(all@),
                    keep == (|t: TrafficModel| t.id > c),
                    out@.len() <= COUNT,
                    forall|k: int| 0 <= k < out@.len() ==> #[trigger] out@[k] < all@.len(),
                    picked(models, out@) == models.take(i as int).filter(keep),
                decreases all.len() - i,
            {
                let ghost now = picked(models, out@);
                proof {
                    seqs::lemma_filter_step(models, i as int, keep);
                }
                if all[i].id > c {
                    out.push(i);
                    proof {
                        assert(picked(models, out@) =~= now.push(models[i as int]));
                    }
                }
                i += 1;
            }
            proof {
                lemma_filter_prefix(models, i as int, keep);
                if i == all.len() {
                    assert(models.take(i as int) =~= models);
                }
                let some = newer(models, c);
                assert(some == models.filter(keep));
                assert(picked(models, out@) =~= some.take(out@.len() as int));
                if some.len() > COUNT {
                    assert(out@.len() == COUNT);
                } else {
                    if i < all.len() {
                        assert(out@.len() == COUNT);
                    }
                    assert(some.take(some.len() as int) =~= some);
                }
            }
        },
        None => {
            let n: usize = all.len();
            let start: usize = if n > COUNT {
                n - COUNT
            } else {
                0
            };
            let mut i: usize = start;
            while i < n
                invariant
                    start <= i <= n,
                    n == all.len(),
                    models == capture::traffic_models(all@),
                    out@.len() == i - start,
                    forall|k: int| 0 <= k < out@.len() ==> #[trigger] out@[k] == start + k,
                decreases n - i,
            {
                out.push(i);
                i += 1;
            }
            proof {
                assert(picked(models, out@) =~= news(models, cursor));
            }
        },
    }
    out
}

/// The records at these positions.
pub open spec fn picked(all: Seq<TrafficModel>, at: Seq<usize>) -> Seq<TrafficModel> {
    Seq::new(at.len(), |k: int| all[at[k] as int])
}

proof fn lemma_filter_prefix<A>(s: Seq<A>, i: int, keep: spec_fn(A) -> bool)
    requires
        0 <= i <= s.len(),
    ensures
        s.take(i).filter(keep).len() <= s.filter(keep).len(),
        s.take(i).filter(keep) == s.filter(keep).take(s.take(i).filter(keep).len() as int),
    decreases s.len() - i,
{
    if i == s.len() {
        assert(s.take(i) =~= s);
        assert(s.filter(keep).take(s.filter(keep).len() as int) =~= s.filter(keep));
    } else {
        lemma_filter_prefix(s, i + 1, keep);
        seqs::lemma_filter_step(s, i, keep);
        let more = s.take(i + 1).filter(keep);
        let less = s.take(i).filter(keep);
        assert(less =~= more.take(less.len() as int));
        assert(more.take(less.len() as int) =~= s.filter(keep).take(less.len() as int));
    }
}

// ---- header fields ----

/// The first `n` header fields by their names in lower case: the last of a name counts.
pub open spec fn field_map(fields: Seq<HeaderText>, n: int) -> Seq<(Seq<char>, Seq<char>)>
    decreases n,
{
    if n <= 0 {
        seq![]
    } else {
        rewrite::with_param(
            field_map(fields, n - 1),
            seqs::lower(fields[n - 1].name),
            fields[n - 1].value,
        )
    }
}

/// The first `n` names of header fields by their names in lower case.
pub open spec fn name_map(fields: Seq<HeaderText>, n: int) -> Seq<(Seq<char>, Seq<char>)>
    decreases n,
{
    if n <= 0 {
        seq![]
    } else {
        rewrite::with_param(
            name_map(fields, n - 1),
            seqs::lower(fields[n - 1].name),
            fields[n - 1].name,
        )
    }
}

/// The header fields by their names in lower case.
pub fn headers_obj(list: &Vec<Header>) -> (r: Vec<(String, String)>)
    ensures
        seqs::text_pairs(r@) == field_map(
            capture::header_texts(list@),
            list@.len() as int,
        ),
{
    let ghost fields = capture::header_texts(list@);
    let mut out: Vec<(String, String)> = Vec::new();
    let mut i: usize = 0;
    proof {
        assert(seqs::text_pairs(out@) =~= seq![]);
    }
    while i < list.len()
        invariant
            i <= list.len(),
            fields == capture::header_texts(list@),
            seqs::text_pairs(out@) == field_map(fields, i as int),
        decreases list.len() - i,
    {
        let low = text::lower(list[i].name.as_str());
        rewrite::set_param(&mut out, low.as_str(), list[i].value.as_str());
        i += 1;
    }
    out
}

/// The names of header fields as they were written, by their names in lower case.
pub fn raw_names(list: &Vec<Header>) -> (r: Vec<(String, String)>)
    ensures
        seqs::text_pairs(r@) == name_map(capture::header_texts(list@), list@.len() as int),
{
    let ghost fields = capture::header_texts(list@);
    let mut out: Vec<(String, String)> = Vec::new();
    let mut i: usize = 0;
    proof {
        assert(seqs::text_pairs(out@) =~= seq![]);
    }
    while i < list.len()
        invariant
            i <= list.len(),
            fields == capture::header_texts(list@),
            seqs::text_pairs(out@) == name_map(fields, i as int),
        decreases list.len() - i,
    {
        let low = text::lower(list[i].name.as_str());
        rewrite::set_param(&mut out, low.as_str(), list[i].name.as_str());
        i += 1;
    }
    out
}

// ---- rules of a session ----

/// The operations of one protocol.
struct RuleGroup {
    protocol: String,
    /// The tokens of the operations, in order.
    matchers: Vec<String>,
}

/// The operations of one protocol.
pub struct GroupModel {
    pub protocol: Seq<char>,
    pub matchers: Seq<Seq<char>>,
}

impl View for RuleGroup {
    type V = GroupModel;

    closed spec fn view(&self) -> GroupModel {
        GroupModel { protocol: self.protocol@, matchers: seqs::texts(self.matchers@) }
    }
}

/// What a list of groups holds.
spec fn group_models(v: Seq<RuleGroup>) -> Seq<GroupModel> {
    Seq::new(v.len(), |i: int| v[i]@)
}

/// The protocol of a token. A token without `://` is a `host`.
pub open spec fn protocol_of(token: Seq<char>) -> Seq<char> {
    match seqs::split_once(token, "://"@) {
        Some((p, _)) => p,
        None => "host"@,
    }
}

/// The position of the group of a protocol, from `i` on.
pub open spec fn group_from(groups: Seq<GroupModel>, protocol: Seq<char>, i: int) -> Option<int>
    decreases groups.len() - i,
{
    if i < 0 || i >= groups.len() {
        None
    } else if groups[i].protocol == protocol {
        Some(i)
    } else {
        group_from(groups, protocol, i + 1)
    }
}

/// The groups with one more token: in the group of its protocol, or in a new one.
pub open spec fn with_token(groups: Seq<GroupModel>, token: Seq<char>) -> Seq<GroupModel> {
    match group_from(groups, protocol_of(token), 0) {
        Some(i) => groups.update(
            i,
            GroupModel {
                protocol: groups[i].protocol,
                matchers: groups[i].matchers.push(token),
            },
        ),
        None => groups.push(
            GroupModel { protocol: protocol_of(token), matchers: seq![token] },
        ),
    }
}

/// The first `n` tokens by protocol, in the order in which the protocols come.
pub open spec fn grouped(tokens: Seq<Seq<char>>, n: int) -> Seq<GroupModel>
    decreases n,
{
    if n <= 0 {
        seq![]
    } else {
        with_token(grouped(tokens, n - 1), tokens[n - 1])
    }
}

fn add_token(groups: &mut Vec<RuleGroup>, token: &str)
    ensures
        group_models(final(groups)@) == with_token(group_models(old(groups)@), token@),
{
    let ghost before = group_models(groups@);
    let protocol: &str = match text::split_once(token, "://") {
        Some((p, _)) => p,
        None => "host",
    };
    let mut i: usize = 0;
    while i < groups.len() && !text::same(groups[i].protocol.as_str(), protocol)
        invariant
            i <= groups.len(),
            before == group_models(groups@),
            group_from(before, protocol@, 0) == group_from(before, protocol@, i as int),
        decreases groups.len() - i,
    {
        i += 1;
    }
    if i < groups.len() {
        let group = groups.remove(i);
        let ghost old_group = group@;
        let mut matchers = group.matchers;
        let ghost old_matchers = seqs::texts(matchers@);
        matchers.push(token.to_string());
        proof {
            assert(seqs::texts(matchers@) =~= old_matchers.push(token@));
        }
        groups.insert(i, RuleGroup { protocol: group.protocol, matchers });
        proof {
            assert(group_models(groups@) =~= with_token(before, token@));
        }
    } else {
        let matchers = vec![token.to_string()];
        proof {
            assert(seqs::texts(matchers@) =~= seq![token@]);
        }
        groups.push(RuleGroup { protocol: protocol.to_string(), matchers });
        proof {
            assert(group_models(groups@) =~= with_token(before, token@));
        }
    }
}

/// The operations of one protocol as they are shown.
#[derive(Debug)]
pub struct RuleView {
    pub name: String,
    /// What the operations are about.
    pub pattern: String,
    /// The tokens of the operations, in order.
    pub matchers: Vec<String>,
    /// The pattern and the token of each operation.
    pub raws: Vec<String>,
}

/// A pattern and a token as a rule writes them.
pub open spec fn rule_text(pattern: Seq<char>, token: Seq<char>) -> Seq<char> {
    pattern + " "@ + token
}

/// A view shows the operations of one protocol.
pub open spec fn shows_group(v: RuleView, pattern: Seq<char>, group: GroupModel) -> bool {
    &&& v.name@ == group.protocol
    &&& v.pattern@ == pattern
    &&& seqs::texts(v.matchers@) == group.matchers
    &&& seqs::texts(v.raws@) == group.matchers.map_values(|m: Seq<char>| rule_text(pattern, m))
}

/// Views show tokens by protocol.
pub open spec fn shows_groups(
    views: Seq<RuleView>,
    pattern: Seq<char>,
    groups: Seq<GroupModel>,
) -> bool {
    &&& views.len() == groups.len()
    &&& forall|i: int|
        0 <= i < views.len() ==> shows_group(#[trigger] views[i], pattern, groups[i])
}

fn view_of(group: RuleGroup, pattern: &str) -> (r: RuleView)
    ensures
        shows_group(r, pattern@, group@),
{
    let mut raws: Vec<String> = Vec::new();
    let mut i: usize = 0;
    while i < group.matchers.len()
        invariant
            i <= group.matchers.len(),
            raws@.len() == i,
            forall|k: int|
                0 <= k < i ==> #[trigger] raws@[k]@ == rule_text(
                    pattern@,
                    group.matchers@[k]@,
                ),
        decreases group.matchers.len() - i,
    {
        raws.push(text::cat3(pattern, " ", group.matchers[i].as_str()));
        i += 1;
    }
    proof {
        assert(seqs::texts(raws@) =~= group@.matchers.map_values(
            |m: Seq<char>| rule_text(pattern@, m),
        ));
    }
    RuleView {
        name: group.protocol,
        pattern: pattern.to_string(),
        matchers: group.matchers,
        raws,
    }
}

fn groups_of(t: &Traffic) -> (r: Vec<RuleGroup>)
    ensures
        group_models(r@) == grouped(t@.rules, t@.rules.len() as int),
{
    let ghost tokens = seqs::texts(t.rules@);
    let mut out: Vec<RuleGroup> = Vec::new();
    let mut i: usize = 0;
    proof {
        assert(group_models(out@) =~= seq![]);
    }
    while i < t.rules.len()
        invariant
            i <= t.rules.len(),
            tokens == seqs::texts(t.rules@),
            group_models(out@) == grouped(tokens, i as int),
        decreases t.rules.len() - i,
    {
        add_token(&mut out, t.rules[i].as_str());
        i += 1;
    }
    out
}

/// The operations that the rules said of an exchange, by protocol. They are shown as rules about
/// its host.
pub fn session_rules(t: &Traffic) -> (r: Vec<RuleView>)
    ensures
        shows_groups(r@, t@.host, grouped(t@.rules, t@.rules.len() as int)),
{
    let mut groups = groups_of(t);
    let ghost models = grouped(t@.rules, t@.rules.len() as int);
    let mut out: Vec<RuleView> = Vec::new();
    proof {
        assert(models.len() == groups@.len());
        assert forall|k: int| 0 <= k < groups@.len() implies (#[trigger] groups@[k])@
            == models[k] by {
            assert(group_models(groups@)[k] == groups@[k]@);
        }
    }
    while groups.len() > 0
        invariant
            groups@.len() + out@.len() == models.len(),
            forall|k: int|
                0 <= k < groups@.len() ==> (#[trigger] groups@[k])@ == models[out@.len() + k],
            forall|k: int|
                0 <= k < out@.len() ==> shows_group(#[trigger] out@[k], t@.host, models[k]),
        decreases groups.len(),
    {
        let ghost before = groups@;
        let ghost n = out@.len() as int;
        let group = groups.remove(0);
        proof {
            assert(group@ == before[0]@);
            assert(before[0]@ == models[n + 0]);
        }
        out.push(view_of(group, t.host.as_str()));
        proof {
            assert forall|k: int| 0 <= k < groups@.len() implies (#[trigger] groups@[k])@
                == models[out@.len() + k] by {
                assert(groups@[k] == before[k + 1]);
            }
        }
    }
    out
}

/// Grouping keeps all tokens: each stands in the group of its protocol, and no protocol has two
/// groups.
pub proof fn law_grouping_keeps_tokens(tokens: Seq<Seq<char>>, n: int, k: int)
    requires
        0 <= k < n <= tokens.len(),
    ensures
        group_from(grouped(tokens, n), protocol_of(tokens[k]), 0) matches Some(i) && grouped(
            tokens,
            n,
        )[i].matchers.contains(tokens[k]),
        forall|a: int, b: int|
            0 <= a < b < grouped(tokens, n).len() ==> (#[trigger] grouped(tokens, n)[a]).protocol
                != (#[trigger] grouped(tokens, n)[b]).protocol,
    decreases n,
{
    let before = grouped(tokens, n - 1);
    let after = grouped(tokens, n);
    let token = tokens[n - 1];
    let p = protocol_of(token);
    lemma_groups_differ(tokens, n);
    lemma_group_from(before, p, 0);
    lemma_group_from(after, protocol_of(tokens[k]), 0);
    if k < n - 1 {
        law_grouping_keeps_tokens(tokens, n - 1, k);
        let q = protocol_of(tokens[k]);
        lemma_group_from(before, q, 0);
        let i = group_from(before, q, 0)->0;
        assert(after[i].protocol == q);
        let j = group_from(after, q, 0)->0;
        if j < i {
            assert(after[j].protocol != after[i].protocol);
        }
        if i < j {
            assert(after[i].protocol != after[j].protocol);
        }
        if group_from(before, p, 0) == Some(i) {
            let x = before[i].matchers.index_of(tokens[k]);
            assert(after[i].matchers[x] == tokens[k]);
        }
    } else {
        let at = match group_from(before, p, 0) {
            Some(i) => i,
            None => before.len() as int,
        };
        assert(after[at].protocol == p);
        assert(after[at].matchers.last() == token);
        let j = group_from(after, p, 0)->0;
        if j < at {
            assert(after[j].protocol != after[at].protocol);
        }
        if at < j {
            assert(after[at].protocol != after[j].protocol);
        }
    }
}

proof fn lemma_group_from(groups: Seq<GroupModel>, protocol: Seq<char>, i: int)
    requires
        0 <= i,
    ensures
        match group_from(groups, protocol, i) {
            Some(k) => i <= k < groups.len() && groups[k].protocol == protocol && forall|j: int|
                i <= j < k ==> (#[trigger] groups[j]).protocol != protocol,
            None => forall|j: int|
                i <= j < groups.len() ==> (#[trigger] groups[j]).protocol != protocol,
        },
    decreases groups.len() - i,
{
    if i < groups.len() && groups[i].protocol != protocol {
        lemma_group_from(groups, protocol, i + 1);
    }
}

proof fn lemma_groups_differ(tokens: Seq<Seq<char>>, n: int)
    requires
        n <= tokens.len(),
    ensures
        forall|a: int, b: int|
            0 <= a < b < grouped(tokens, n).len() ==> (#[trigger] grouped(tokens, n)[a]).protocol
                != (#[trigger] grouped(tokens, n)[b]).protocol,
    decreases n,
{
    if n > 0 {
        lemma_groups_differ(tokens, n - 1);
        let before = grouped(tokens, n - 1);
        let after = grouped(tokens, n);
        lemma_group_from(before, protocol_of(tokens[n - 1]), 0);
        assert forall|a: int, b: int| 0 <= a < b < after.len() implies (
        #[trigger] after[a]).protocol != (#[trigger] after[b]).protocol by {
            if b < before.len() {
                assert(before[a].protocol != before[b].protocol);
            } else {
                assert(after[a] == before[a]);
            }
        }
    }
}

// ---- one session ----

/// A session as it is shown.
#[derive(Debug)]
pub struct Session {
    pub id: String,
    pub url: String,
    pub method: String,
    pub is_https: bool,
    pub start_time: u64,
    pub end_time: u64,
    pub req_headers: Vec<(String, String)>,
    pub req_names: Vec<(String, String)>,
    pub req_size: u64,
    pub req_body: String,
    pub status: u16,
    pub res_headers: Vec<(String, String)>,
    pub res_names: Vec<(String, String)>,
    pub res_size: u64,
    pub res_body: String,
    pub rules: Vec<RuleView>,
}

/// An optional text, or nothing.
pub open spec fn or_nothing(s: Option<Seq<char>>) -> Seq<char> {
    match s {
        Some(t) => t,
        None => seq![],
    }
}

/// A duration, or zero.
pub open spec fn or_zero(d: Option<u64>) -> u64 {
    match d {
        Some(n) => n,
        None => 0,
    }
}

/// When an exchange ended, in 64 bits.
pub open spec fn end_of(start: u64, duration: u64) -> u64 {
    ((start + duration) % 0x1_0000_0000_0000_0000) as u64
}

/// A session shows a record.
pub open spec fn shows(s: Session, t: TrafficModel) -> bool {
    &&& s.id@ == session_name(t.start_time, t.id)
    &&& s.url@ == t.url
    &&& s.method@ == t.method
    &&& s.is_https == (t.protocol == "https"@ || t.protocol == "wss"@ || t.protocol == "tunnel"@)
    &&& s.start_time == t.start_time
    &&& s.end_time == end_of(t.start_time, or_zero(t.duration_ms))
    &&& seqs::text_pairs(s.req_headers@) == field_map(t.req_headers, t.req_headers.len() as int)
    &&& seqs::text_pairs(s.req_names@) == name_map(t.req_headers, t.req_headers.len() as int)
    &&& s.req_size == t.req_body_size
    &&& s.req_body@ == or_nothing(t.req_body)
    &&& s.status == match t.status {
        Some(c) => c,
        None => 0,
    }
    &&& seqs::text_pairs(s.res_headers@) == field_map(t.res_headers, t.res_headers.len() as int)
    &&& seqs::text_pairs(s.res_names@) == name_map(t.res_headers, t.res_headers.len() as int)
    &&& s.res_size == t.res_body_size
    &&& s.res_body@ == or_nothing(t.res_body)
    &&& shows_groups(s.rules@, t.host, grouped(t.rules, t.rules.len() as int))
}

fn text_or_nothing(s: &Option<String>) -> (r: String)
    ensures
        r@ == or_nothing(capture::opt_text(*s)),
{
    match s {
        Some(t) => t.clone(),
        None => {
            let r = String::new();
            proof {
                assert(r@ =~= seq![]);
            }
            r
        },
    }
}

/// A record as it is shown.
pub fn session(t: &Traffic) -> (r: Session)
    ensures
        shows(r, t@),
{
    let duration: u64 = match t.duration_ms {
        Some(n) => n,
        None => 0,
    };
    let end_time: u64 = ((t.start_time as u128 + duration as u128) % 0x1_0000_0000_0000_0000)
        as u64;
    let protocol = t.protocol.as_str();
    Session {
        id: session_id(t),
        url: t.url.clone(),
        method: t.method.clone(),
        is_https: text::same(protocol, "https") || text::same(protocol, "wss") || text::same(
            protocol,
            "tunnel",
        ),
        start_time: t.start_time,
        end_time,
        req_headers: headers_obj(&t.req_headers),
        req_names: raw_names(&t.req_headers),
        req_size: t.req_body_size,
        req_body: text_or_nothing(&t.req_body),
        status: match t.status {
            Some(c) => c,
            None => 0,
        },
        res_headers: headers_obj(&t.res_headers),
        res_names: raw_names(&t.res_headers),
        res_size: t.res_body_size,
        res_body: text_or_nothing(&t.res_body),
        rules: session_rules(t),
    }
}

// ---- WebSocket messages ----

/// A WebSocket message as it is shown.
#[derive(Debug)]
pub struct FrameView {
    pub req_id: String,
    pub frame_id: String,
    pub is_client: bool,
    pub length: u64,
    pub opcode: u8,
    pub text: String,
    pub closed: bool,
}

/// A view shows a message: the one at `i` of a session that began at `start`.
pub open spec fn shows_frame(
    f: FrameView,
    req_id: Seq<char>,
    start: u64,
    i: int,
    m: WsText,
) -> bool {
    &&& f.req_id@ == req_id
    &&& f.frame_id@ == seqs::decimal(start as nat) + "-"@ + seqs::decimal(i as nat)
    &&& f.is_client == (m.dir == "send"@)
    &&& f.length == m.size
    &&& f.opcode == m.opcode
    &&& f.text@ == or_nothing(m.text)
    &&& f.closed == (m.opcode == 8)
}

/// The position of the record with this number, from `i` on.
pub open spec fn record_from(all: Seq<TrafficModel>, id: u64, i: int) -> Option<int> {
    capture::position_from(all, id, i)
}

/// The record that the id of a session names.
pub open spec fn record_named(all: Seq<TrafficModel>, name: Seq<char>) -> Option<int> {
    match cursor_of(name) {
        Some(id) => record_from(all, id, 0),
        None => None,
    }
}

fn find_record(all: &Vec<Traffic>, name: &str) -> (r: Option<usize>)
    ensures
        match r {
            Some(i) => record_named(capture::traffic_models(all@), name@) == Some(i as int) && i
                < all.len(),
            None => record_named(capture::traffic_models(all@), name@) is None,
        },
{
    let ghost models = capture::traffic_models(all@);
    match parse_cursor(name) {
        Some(id) => {
            let mut i: usize = 0;
            while i < all.len()
                invariant
                    i <= all.len(),
                    models == capture::traffic_models(all@),
                    cursor_of(name@) == Some(id),
                    record_from(models, id, 0) == record_from(models, id, i as int),
                decreases all.len() - i,
            {
                if all[i].id == id {
                    return Some(i);
                }
                i += 1;
            }
            None
        },
        None => None,
    }
}

/// Views show the messages of a session.
pub open spec fn shows_frames(list: Seq<FrameView>, name: Seq<char>, t: TrafficModel) -> bool {
    &&& list.len() == t.ws_messages.len()
    &&& forall|i: int|
        0 <= i < list.len() ==> shows_frame(
            #[trigger] list[i],
            name,
            t.start_time,
            i,
            t.ws_messages[i],
        )
}

/// The messages of the session with this id, where there is one.
pub fn frames_for(all: &Vec<Traffic>, name: &str) -> (r: Option<Vec<FrameView>>)
    ensures
        match r {
            Some(list) => record_named(capture::traffic_models(all@), name@) matches Some(k)
                && shows_frames(list@, name@, capture::traffic_models(all@)[k]),
            None => record_named(capture::traffic_models(all@), name@) is None,
        },
{
    match find_record(all, name) {
        Some(k) => {
            let t = &all[k];
            let mut out: Vec<FrameView> = Vec::new();
            let mut i: usize = 0;
            while i < t.ws_messages.len()
                invariant
                    i <= t.ws_messages.len(),
                    out@.len() == i,
                    forall|j: int|
                        0 <= j < i ==> shows_frame(
                            #[trigger] out@[j],
                            name@,
                            t@.start_time,
                            j,
                            t@.ws_messages[j],
                        ),
                decreases t.ws_messages.len() - i,
            {
                let m = &t.ws_messages[i];
                let a = text::decimal(t.start_time);
                let b = text::decimal(i as u64);
                let f = FrameView {
                    req_id: name.to_string(),
                    frame_id: text::cat3(a.as_str(), "-", b.as_str()),
                    is_client: text::same(m.dir.as_str(), "send"),
                    length: m.size,
                    opcode: m.opcode,
                    text: text_or_nothing(&m.text),
                    closed: m.opcode == 8,
                };
                proof {
                    assert(t@.ws_messages[i as int] == m@);
                }
                out.push(f);
                i += 1;
            }
            Some(out)
        },
        None => None,
    }
}

// ---- the answer to a poll ----

/// The answer to a poll for new sessions.
#[derive(Debug)]
pub struct NetworkData {
    /// The ids that were asked for.
    pub ids: Vec<String>,
    pub new_ids: Vec<String>,
    /// The new sessions, then those that were asked for.
    pub sessions: Vec<Session>,
    pub last_id: Option<String>,
    pub end_id: Option<String>,
    pub frames: Vec<FrameView>,
}

/// The ids of records.
pub open spec fn ids_of(list: Seq<TrafficModel>) -> Seq<Seq<char>> {
    list.map_values(|t: TrafficModel| session_name(t.start_time, t.id))
}

/// The records that the first `n` of some ids name.
pub open spec fn asked_for(all: Seq<TrafficModel>, ids: Seq<Seq<char>>, n: int) -> Seq<TrafficModel>
    decreases n,
{
    if n <= 0 {
        seq![]
    } else {
        match record_named(all, ids[n - 1]) {
            Some(k) => asked_for(all, ids, n - 1).push(all[k]),
            None => asked_for(all, ids, n - 1),
        }
    }
}

/// Sessions show records.
pub open spec fn shows_all(sessions: Seq<Session>, list: Seq<TrafficModel>) -> bool {
    &&& sessions.len() == list.len()
    &&& forall|i: int| 0 <= i < list.len() ==> shows(#[trigger] sessions[i], list[i])
}

/// The id of the last record.
pub open spec fn last_id_of(list: Seq<TrafficModel>) -> Option<Seq<char>> {
    if list.len() == 0 {
        None
    } else {
        Some(session_name(list.last().start_time, list.last().id))
    }
}

/// The ids in a text, with commas between them.
pub open spec fn asked_ids(ids: Option<Seq<char>>) -> Seq<Seq<char>> {
    match ids {
        Some(s) => seqs::pieces(s, ","@),
        None => seq![],
    }
}

/// What a poll is answered.
pub open spec fn answers(
    r: NetworkData,
    all: Seq<TrafficModel>,
    start: Option<Seq<char>>,
    ids: Option<Seq<char>>,
    current: Option<Seq<char>>,
) -> bool {
    let cursor = match start {
        Some(s) => cursor_of(s),
        None => None,
    };
    let fresh = news(all, cursor);
    let asked = asked_ids(ids);
    &&& seqs::texts(r.ids@) == asked
    &&& seqs::texts(r.new_ids@) == ids_of(fresh)
    &&& shows_all(r.sessions@, fresh + asked_for(all, asked, asked.len() as int))
    &&& capture::opt_text(r.end_id) == last_id_of(all)
    &&& capture::opt_text(r.last_id) == if fresh.len() > 0 {
        last_id_of(fresh)
    } else {
        last_id_of(all)
    }
    &&& match current {
        Some(name) => match record_named(all, name) {
            Some(k) => shows_frames(r.frames@, name, all[k]),
            None => r.frames@.len() == 0,
        },
        None => r.frames@.len() == 0,
    }
}

/// Answers a poll for new sessions. The records come oldest first.
pub fn network_data(
    all: &Vec<Traffic>,
    start: Option<&str>,
    ids: Option<&str>,
    current: Option<&str>,
) -> (r: NetworkData)
    ensures
        answers(
            r,
            capture::traffic_models(all@),
            crate::config::opt_slice(start),
            crate::config::opt_slice(ids),
            crate::config::opt_slice(current),
        ),
{
    let ghost models = capture::traffic_models(all@);
    let cursor: Option<u64> = match start {
        Some(s) => parse_cursor(s),
        None => None,
    };
    let at = news_at(all, cursor);
    let ghost fresh = news(models, cursor);
    let mut sessions: Vec<Session> = Vec::new();
    let mut new_ids: Vec<String> = Vec::new();
    let mut i: usize = 0;
    proof {
        assert(picked(models, at@).len() == at@.len());
    }
    while i < at.len()
        invariant
            i <= at.len(),
            models == capture::traffic_models(all@),
            fresh == picked(models, at@),
            forall|k: int| 0 <= k < at@.len() ==> #[trigger] at@[k] < all@.len(),
            sessions@.len() == i,
            new_ids@.len() == i,
            forall|k: int| 0 <= k < i ==> shows(#[trigger] sessions@[k], fresh[k]),
            forall|k: int|
                0 <= k < i ==> #[trigger] new_ids@[k]@ == session_name(
                    fresh[k].start_time,
                    fresh[k].id,
                ),
        decreases at.len() - i,
    {
        let k: usize = at[i];
        proof {
            assert(at@[i as int] < all@.len());
            assert(fresh[i as int] == all@[k as int]@);
        }
        sessions.push(session(&all[k]));
        new_ids.push(session_id(&all[k]));
        i += 1;
    }
    proof {
        assert(seqs::texts(new_ids@) =~= ids_of(fresh));
    }
    let ghost wanted = asked_ids(crate::config::opt_slice(ids));
    let parts: Vec<&str> = match ids {
        Some(s) => text::pieces(s, ","),
        None => Vec::new(),
    };
    proof {
        assert(seqs::slices(parts@) =~= wanted);
    }
    let mut asked: Vec<String> = Vec::new();
    let mut j: usize = 0;
    proof {
        assert(fresh + asked_for(models, wanted, 0) =~= fresh);
    }
    while j < parts.len()
        invariant
            j <= parts.len(),
            models == capture::traffic_models(all@),
            seqs::slices(parts@) == wanted,
            asked@.len() == j,
            forall|k: int| 0 <= k < j ==> #[trigger] asked@[k]@ == wanted[k],
            shows_all(sessions@, fresh + asked_for(models, wanted, j as int)),
        decreases parts.len() - j,
    {
        proof {
            assert(wanted[j as int] == parts@[j as int]@);
        }
        asked.push(parts[j].to_string());
        if let Some(k) = find_record(all, parts[j]) {
            let s = session(&all[k]);
            let ghost before = fresh + asked_for(models, wanted, j as int);
            let ghost old_sessions = sessions@;
            sessions.push(s);
            proof {
                let after = fresh + asked_for(models, wanted, j + 1);
                assert(after =~= before.push(models[k as int]));
                assert forall|q: int| 0 <= q < after.len() implies shows(
                    #[trigger] sessions@[q],
                    after[q],
                ) by {
                    if q < before.len() {
                        assert(sessions@[q] == old_sessions[q]);
                        assert(after[q] == before[q]);
                    }
                }
            }
        }
        j += 1;
    }
    proof {
        assert(seqs::texts(asked@) =~= wanted);
    }
    let end_id: Option<String> = if all.len() > 0 {
        Some(session_id(&all[all.len() - 1]))
    } else {
        None
    };
    let last_id: Option<String> = if new_ids.len() > 0 {
        Some(new_ids[new_ids.len() - 1].clone())
    } else {
        capture::copy_opt(&end_id)
    };
    proof {
        if models.len() > 0 {
            assert(models.last() == all@[all@.len() - 1]@);
        }
        if fresh.len() > 0 {
            assert(new_ids@[new_ids@.len() - 1]@ == session_name(
                fresh.last().start_time,
                fresh.last().id,
            ));
        }
    }
    let frames: Vec<FrameView> = match current {
        Some(name) => match frames_for(all, name) {
            Some(list) => list,
            None => Vec::new(),
        },
        None => Vec::new(),
    };
    NetworkData { ids: asked, new_ids, sessions, last_id, end_id, frames }
}

/// No more new sessions are shown than the limit allows, and with a cursor only newer ones are.
pub proof fn law_polls_are_bounded(all: Seq<TrafficModel>, cursor: Option<u64>)
    ensures
        news(all, cursor).len() <= COUNT,
        cursor matches Some(c) ==> forall|i: int|
            0 <= i < news(all, cursor).len() ==> (#[trigger] news(all, cursor)[i]).id > c,
{
    if let Some(c) = cursor {
        let keep = |t: TrafficModel| t.id > c;
        let some = newer(all, c);
        assert forall|i: int| 0 <= i < some.len() implies (#[trigger] some[i]).id > c by {
            all.lemma_filter_pred(keep, i);
        }
    }
}

/// The records stand in the order of their ids.
pub open spec fn ascending(all: Seq<TrafficModel>) -> bool {
    forall|i: int, j: int| 0 <= i < j < all.len()
        ==> (#[trigger] all[i]).id < (#[trigger] all[j]).id
}

proof fn lemma_newer(all: Seq<TrafficModel>, c: u64) -> (k: int)
    requires
        ascending(all),
    ensures
        0 <= k <= all.len(),
        newer(all, c) == all.skip(k),
        forall|i: int| 0 <= i < k ==> (#[trigger] all[i]).id <= c,
        forall|i: int| k <= i < all.len() ==> (#[trigger] all[i]).id > c,
    decreases all.len(),
{
    reveal(Seq::filter);
    if all.len() == 0 {
        assert(newer(all, c) =~= all.skip(0));
        0
    } else {
        let rest = all.drop_last();
        let n = rest.len() as int;
        assert forall|i: int, j: int| 0 <= i < j < rest.len() implies (#[trigger] rest[i]).id < (
        #[trigger] rest[j]).id by {
            assert(all[i].id < all[j].id);
        }
        let k = lemma_newer(rest, c);
        assert(forall|i: int| 0 <= i < n ==> rest[i] == all[i]);
        if all.last().id > c {
            assert(newer(all, c) =~= all.skip(k));
            assert forall|i: int| 0 <= i < k implies (#[trigger] all[i]).id <= c by {
                assert(rest[i].id <= c);
            }
            assert forall|i: int| k <= i < all.len() implies (#[trigger] all[i]).id > c by {
                if i < n {
                    assert(rest[i].id > c);
                }
            }
            k
        } else {
            assert forall|i: int| 0 <= i < all.len() implies (#[trigger] all[i]).id <= c by {
                if i < n {
                    assert(all[i].id < all[n].id);
                }
            }
            if k < n {
                assert(rest[k].id > c);
                assert(all[k].id <= c);
            }
            assert(newer(all, c) =~= all.skip(n + 1));
            n + 1
        }
    }
}

/// A poll from the last session of the one before goes on where that one ended: nothing is shown
/// twice, and nothing is left out.
pub proof fn law_polls_go_on(all: Seq<TrafficModel>, c: u64)
    requires
        ascending(all),
        news(all, Some(c)).len() > 0,
    ensures
        ({
            let first = news(all, Some(c));
            newer(all, c) == first + newer(all, first.last().id)
        }),
{
    let first = news(all, Some(c));
    let k = lemma_newer(all, c);
    let m = first.len() as int;
    assert(first =~= all.skip(k).take(m));
    assert(first.last() == all[k + m - 1]);
    let n = lemma_newer(all, first.last().id);
    if n < k + m {
        assert(all[n].id > first.last().id);
        if n < k + m - 1 {
            assert(all[n].id < all[k + m - 1].id);
        }
    }
    if k + m < n {
        assert(all[k + m - 1].id < all[k + m].id);
    }
    assert(newer(all, c) =~= first + newer(all, first.last().id));
}

// ---- files of the dashboard ----

/// The content type of a file of the dashboard by its extension.
pub open spec fn asset_type(path: Seq<char>) -> Seq<char> {
    let ext = seqs::after_last(path, "."@);
    if ext == "html"@ || ext == "htm"@ {
        "text/html; charset=utf-8"@
    } else if ext == "js"@ || ext == "mjs"@ {
        "application/javascript; charset=utf-8"@
    } else if ext == "css"@ {
        "text/css; charset=utf-8"@
    } else if ext == "json"@ {
        "application/json; charset=utf-8"@
    } else if ext == "png"@ {
        "image/png"@
    } else if ext == "ico"@ {
        "image/x-icon"@
    } else if ext == "svg"@ {
        "image/svg+xml"@
    } else if ext == "gif"@ {
        "image/gif"@
    } else if ext == "jpg"@ || ext == "jpeg"@ {
        "image/jpeg"@
    } else if ext == "woff"@ {
        "font/woff"@
    } else if ext == "woff2"@ {
        "font/woff2"@
    } else if ext == "ttf"@ {
        "font/ttf"@
    } else if ext == "map"@ {
        "application/json"@
    } else {
        "application/octet-stream"@
    }
}

/// The content type of a file of the dashboard by its extension.
pub fn content_type(path: &str) -> (r: &'static str)
    ensures
        r@ == asset_type(path@),
{
    let ext = text::after_last(path, ".");
    if text::same(ext, "html") || text::same(ext, "htm") {
        "text/html; charset=utf-8"
    } else if text::same(ext, "js") || text::same(ext, "mjs") {
        "application/javascript; charset=utf-8"
    } else if text::same(ext, "css") {
        "text/css; charset=utf-8"
    } else if text::same(ext, "json") {
        "application/json; charset=utf-8"
    } else if text::same(ext, "png") {
        "image/png"
    } else if text::same(ext, "ico") {
        "image/x-icon"
    } else if text::same(ext, "svg") {
        "image/svg+xml"
    } else if text::same(ext, "gif") {
        "image/gif"
    } else if text::same(ext, "jpg") || text::same(ext, "jpeg") {
        "image/jpeg"
    } else if text::same(ext, "woff") {
        "font/woff"
    } else if text::same(ext, "woff2") {
        "font/woff2"
    } else if text::same(ext, "ttf") {
        "font/ttf"
    } else if text::same(ext, "map") {
        "application/json"
    } else {
        "application/octet-stream"
    }
}

/// A path is asked of the dashboard's server and not of its files.
pub open spec fn is_asked_of_server(path: Seq<char>) -> bool {
    seqs::starts_with(path, "cgi-bin/"@)
}

/// Whether a path is asked of the dashboard's server and not of its files.
pub fn is_cgi(path: &str) -> (r: bool)
    ensures
        r == is_asked_of_server(path@),
{
    text::starts_with(path, "cgi-bin/")
}

// ---- laws ----

/// A cursor is the number behind the last hyphen of a text, or the whole text where there is none.
/// Nothing, zero and the small negative numbers are no cursor.
pub proof fn law_cursor_is_the_last_number(before: Seq<char>, id: u64)
    requires
        before.len() > 0,
    ensures
        cursor_of(before + seq!['-'] + seqs::decimal(id as nat)) == Some(id),
        id > 0 ==> cursor_of(seqs::decimal(id as nat)) == Some(id),
        cursor_of(Seq::empty()) is None,
        cursor_of("0"@) is None && cursor_of("-1"@) is None && cursor_of("-2"@) is None
            && cursor_of("-3"@) is None,
{
    reveal_strlit("-");
    reveal_strlit("0");
    reveal_strlit("-1");
    reveal_strlit("-2");
    reveal_strlit("-3");
    assert("-"@ =~= seq!['-']);
    let d = seqs::decimal(id as nat);
    seqs::lemma_decimal(id as nat);
    seqs::law_decimal_is_read_back(id as nat, u64::MAX as nat);
    assert(seqs::lacks(d, '-')) by {
        assert forall|i: int| 0 <= i < d.len() implies #[trigger] d[i] != '-' by {
            assert(seqs::is_digit(d[i]));
        }
    }
    seqs::law_text_is_cut_at_the_last(before, '-', d);
    let s = before + seq!['-'] + d;
    assert(s.len() >= 3);
    assert(d[0] != '-') by {
        assert(seqs::is_digit(d[0]));
    }
    if id > 0 {
        if d == "0"@ {
            assert(seqs::decimal(0) =~= "0"@);
            seqs::lemma_decimal(0);
        }
        assert("-1"@[0] == '-' && "-2"@[0] == '-' && "-3"@[0] == '-');
    }
}

/// Newer than a cursor are the records with a larger number, in order. Of these, the first are
/// shown; without a cursor, the last 600 of all.
pub proof fn law_polls_show_the_newer(all: Seq<TrafficModel>, t: TrafficModel, c: u64)
    ensures
        newer(Seq::empty(), c) == Seq::<TrafficModel>::empty(),
        newer(all.push(t), c) == if t.id > c {
            newer(all, c).push(t)
        } else {
            newer(all, c)
        },
        newer(all, c).len() <= 600 ==> news(all, Some(c)) == newer(all, c),
        newer(all, c).len() > 600 ==> news(all, Some(c)) == newer(all, c).take(600),
        all.len() <= 600 ==> news(all, None) == all,
        all.len() > 600 ==> news(all, None) == all.skip(all.len() - 600),
{
    reveal(Seq::filter);
    assert(all.push(t).drop_last() =~= all);
    assert(newer(Seq::empty(), c) =~= Seq::<TrafficModel>::empty());
}

/// A session shows what its record says: who asked for what, when it began and ended, over TLS or
/// not, and what came back.
pub proof fn law_session_shows_its_record(s: Session, t: TrafficModel)
    requires
        shows(s, t),
        t.start_time + or_zero(t.duration_ms) <= u64::MAX,
    ensures
        s.url@ == t.url && s.method@ == t.method,
        s.id@ == seqs::decimal(t.start_time as nat) + seq!['-'] + seqs::decimal(t.id as nat),
        s.is_https <==> t.protocol == "https"@ || t.protocol == "wss"@ || t.protocol == "tunnel"@,
        s.start_time == t.start_time,
        t.duration_ms matches Some(n) ==> s.end_time == t.start_time + n,
        t.duration_ms is None ==> s.end_time == t.start_time,
        t.status matches Some(c) ==> s.status == c,
        t.status is None ==> s.status == 0,
        s.req_size == t.req_body_size && s.res_size == t.res_body_size,
        t.req_body matches Some(b) ==> s.req_body@ == b,
        t.res_body matches Some(b) ==> s.res_body@ == b,
        t.req_body is None ==> s.req_body@.len() == 0,
        t.res_body is None ==> s.res_body@.len() == 0,
        seqs::text_pairs(s.req_headers@) == field_map(t.req_headers, t.req_headers.len() as int),
        seqs::text_pairs(s.res_headers@) == field_map(t.res_headers, t.res_headers.len() as int),
{
    reveal_strlit("-");
    assert("-"@ =~= seq!['-']);
}

/// A frame shows its message: who sent it, what kind it is and how long. A close is shown as one.
pub proof fn law_frame_shows_its_message(
    f: FrameView,
    req_id: Seq<char>,
    start: u64,
    i: int,
    m: WsText,
)
    requires
        shows_frame(f, req_id, start, i, m),
        i >= 0,
    ensures
        f.req_id@ == req_id,
        f.frame_id@ == seqs::decimal(start as nat) + seq!['-'] + seqs::decimal(i as nat),
        f.is_client <==> m.dir == "send"@,
        f.length == m.size && f.opcode == m.opcode,
        f.closed <==> m.opcode == 8,
        m.text matches Some(t) ==> f.text@ == t,
        m.text is None ==> f.text@.len() == 0,
{
    reveal_strlit("-");
    assert("-"@ =~= seq!['-']);
}

/// Header fields are shown by their names in small letters, the last value of each, and the names as
/// they were written beside them.
pub proof fn law_fields_are_shown_by_name(fields: Seq<HeaderText>, h: HeaderText)
    ensures
        field_map(Seq::empty(), 0) == Seq::<(Seq<char>, Seq<char>)>::empty(),
        field_map(fields.push(h), fields.len() + 1int) == rewrite::with_param(
            field_map(fields, fields.len() as int),
            seqs::lower(h.name),
            h.value,
        ),
        name_map(fields.push(h), fields.len() + 1int) == rewrite::with_param(
            name_map(fields, fields.len() as int),
            seqs::lower(h.name),
            h.name,
        ),
{
    let all = fields.push(h);
    let n = fields.len() as int;
    lemma_fields_same(fields, all, n);
    assert(all[n] == h);
}

proof fn lemma_fields_same(a: Seq<HeaderText>, b: Seq<HeaderText>, n: int)
    requires
        n <= a.len(),
        n <= b.len(),
        forall|i: int| 0 <= i < n ==> a[i] == b[i],
    ensures
        field_map(a, n) == field_map(b, n),
        name_map(a, n) == name_map(b, n),
    decreases n,
{
    if n > 0 {
        lemma_fields_same(a, b, n - 1);
    }
}

/// The operations of a session are shown in groups by their protocol, `host` where none is written:
/// each group where its first operation was, its operations in order, and each with the pattern
/// before it.
pub proof fn law_operations_are_shown_in_groups(
    tokens: Seq<Seq<char>>,
    protocol: Seq<char>,
    value: Seq<char>,
    pattern: Seq<char>,
)
    requires
        seqs::lacks(protocol, ':'),
    ensures
        ({
            let token = protocol + seq![':', '/', '/'] + value;
            let before = grouped(tokens, tokens.len() as int);
            let after = grouped(tokens.push(token), tokens.len() + 1int);
            &&& protocol_of(token) == protocol
            &&& group_from(before, protocol, 0) is None ==> after == before + seq![
                GroupModel { protocol, matchers: seq![token] },
            ]
            &&& group_from(before, protocol, 0) is Some ==> ({
                let i = group_from(before, protocol, 0)->0;
                &&& after.len() == before.len()
                &&& after[i].matchers == before[i].matchers + seq![token]
                &&& forall|k: int| 0 <= k < before.len() && k != i ==> after[k] == before[k]
            })
        }),
        protocol_of(protocol) == "host"@,
        rule_text(pattern, value) == pattern + seq![' '] + value,
{
    reveal_strlit("://");
    reveal_strlit(" ");
    assert("://"@ =~= seq![':', '/', '/']);
    assert(" "@ =~= seq![' ']);
    seqs::law_text_is_cut_at_the_separator(protocol, seq![':', '/', '/'], value);
    let token = protocol + seq![':', '/', '/'] + value;
    let all = tokens.push(token);
    let n = tokens.len() as int;
    lemma_grouped_same(tokens, all, n);
    assert(all[n] == token);
    let before = grouped(tokens, n);
    match group_from(before, protocol, 0) {
        None => {
            let g = GroupModel { protocol, matchers: seq![token] };
            assert(before.push(g) =~= before + seq![g]);
        },
        Some(i) => {
            lemma_group_is_there(before, protocol, 0);
            assert(before[i].matchers.push(token) =~= before[i].matchers + seq![token]);
        },
    }
}

proof fn lemma_group_is_there(groups: Seq<GroupModel>, protocol: Seq<char>, i: int)
    requires
        0 <= i,
    ensures
        group_from(groups, protocol, i) matches Some(k) ==> i <= k < groups.len(),
    decreases groups.len() - i,
{
    if i < groups.len() {
        lemma_group_is_there(groups, protocol, i + 1);
    }
}

proof fn lemma_grouped_same(a: Seq<Seq<char>>, b: Seq<Seq<char>>, n: int)
    requires
        n <= a.len(),
        n <= b.len(),
        forall|i: int| 0 <= i < n ==> a[i] == b[i],
    ensures
        grouped(a, n) == grouped(b, n),
    decreases n,
{
    if n > 0 {
        lemma_grouped_same(a, b, n - 1);
    }
}

/// A record is found by the name of its session.
pub proof fn law_record_is_found_by_name(all: Seq<TrafficModel>, k: int)
    requires
        0 <= k < all.len(),
        capture::distinct(all),
    ensures
        record_named(all, session_name(all[k].start_time, all[k].id)) == Some(k),
{
    law_session_ids_are_read_back(all[k].start_time, all[k].id);
    lemma_record_from(all, k, 0);
}

proof fn lemma_record_from(all: Seq<TrafficModel>, k: int, i: int)
    requires
        0 <= i <= k < all.len(),
        capture::distinct(all),
    ensures
        capture::position_from(all, all[k].id, i) == Some(k),
    decreases k - i,
{
    if i < k {
        assert(all[i].id != all[k].id);
        lemma_record_from(all, k, i + 1);
    }
}

/// A file of the dashboard has the type of its extension. One with any other extension is bytes.
pub proof fn law_dashboard_files_have_the_type_of_their_extension(
    stem: Seq<char>,
    ext: Seq<char>,
)
    requires
        seqs::lacks(ext, '.'),
    ensures
        ext == "html"@ ==> asset_type(stem + seq!['.'] + ext) == "text/html; charset=utf-8"@,
        ext == "htm"@ ==> asset_type(stem + seq!['.'] + ext) == "text/html; charset=utf-8"@,
        ext == "js"@
            ==> asset_type(stem + seq!['.'] + ext) == "application/javascript; charset=utf-8"@,
        ext == "mjs"@
            ==> asset_type(stem + seq!['.'] + ext) == "application/javascript; charset=utf-8"@,
        ext == "css"@ ==> asset_type(stem + seq!['.'] + ext) == "text/css; charset=utf-8"@,
        ext == "json"@ ==> asset_type(stem + seq!['.'] + ext) == "application/json; charset=utf-8"@,
        ext == "png"@ ==> asset_type(stem + seq!['.'] + ext) == "image/png"@,
        ext == "ico"@ ==> asset_type(stem + seq!['.'] + ext) == "image/x-icon"@,
        ext == "svg"@ ==> asset_type(stem + seq!['.'] + ext) == "image/svg+xml"@,
        ext == "gif"@ ==> asset_type(stem + seq!['.'] + ext) == "image/gif"@,
        ext == "jpg"@ ==> asset_type(stem + seq!['.'] + ext) == "image/jpeg"@,
        ext == "jpeg"@ ==> asset_type(stem + seq!['.'] + ext) == "image/jpeg"@,
        ext == "woff"@ ==> asset_type(stem + seq!['.'] + ext) == "font/woff"@,
        ext == "woff2"@ ==> asset_type(stem + seq!['.'] + ext) == "font/woff2"@,
        ext == "ttf"@ ==> asset_type(stem + seq!['.'] + ext) == "font/ttf"@,
        ext == "map"@ ==> asset_type(stem + seq!['.'] + ext) == "application/json"@,
        ext == "html"@ || ext == "htm"@ || ext == "js"@ || ext == "mjs"@ || ext == "css"@
            || ext == "json"@ || ext == "png"@ || ext == "ico"@ || ext == "svg"@
            || ext == "gif"@ || ext == "jpg"@ || ext == "jpeg"@ || ext == "woff"@
            || ext == "woff2"@ || ext == "ttf"@ || ext == "map"@
            || asset_type(stem + seq!['.'] + ext) == "application/octet-stream"@,
{
    reveal_strlit(".");
    assert("."@ =~= seq!['.']);
    seqs::law_text_is_cut_at_the_last(stem, '.', ext);
    reveal_strlit("html");
    reveal_strlit("htm");
    reveal_strlit("js");
    reveal_strlit("mjs");
    reveal_strlit("css");
    reveal_strlit("json");
    reveal_strlit("png");
    reveal_strlit("ico");
    reveal_strlit("svg");
    reveal_strlit("gif");
    reveal_strlit("jpg");
    reveal_strlit("jpeg");
    reveal_strlit("woff");
    reveal_strlit("woff2");
    reveal_strlit("ttf");
    reveal_strlit("map");
    assert("html"@.len() == 4 && "html"@[0] == 'h' && "html"@[1] == 't' && "html"@[2] == 'm'
        && "html"@[3] == 'l');
    assert("htm"@.len() == 3 && "htm"@[0] == 'h' && "htm"@[1] == 't' && "htm"@[2] == 'm');
    assert("js"@.len() == 2 && "js"@[0] == 'j' && "js"@[1] == 's');
    assert("mjs"@.len() == 3 && "mjs"@[0] == 'm' && "mjs"@[1] == 'j' && "mjs"@[2] == 's');
    assert("css"@.len() == 3 && "css"@[0] == 'c' && "css"@[1] == 's' && "css"@[2] == 's');
    assert("json"@.len() == 4 && "json"@[0] == 'j' && "json"@[1] == 's' && "json"@[2] == 'o'
        && "json"@[3] == 'n');
    assert("png"@.len() == 3 && "png"@[0] == 'p' && "png"@[1] == 'n' && "png"@[2] == 'g');
    assert("ico"@.len() == 3 && "ico"@[0] == 'i' && "ico"@[1] == 'c' && "ico"@[2] == 'o');
    assert("svg"@.len() == 3 && "svg"@[0] == 's' && "svg"@[1] == 'v' && "svg"@[2] == 'g');
    assert("gif"@.len() == 3 && "gif"@[0] == 'g' && "gif"@[1] == 'i' && "gif"@[2] == 'f');
    assert("jpg"@.len() == 3 && "jpg"@[0] == 'j' && "jpg"@[1] == 'p' && "jpg"@[2] == 'g');
    assert("jpeg"@.len() == 4 && "jpeg"@[0] == 'j' && "jpeg"@[1] == 'p' && "jpeg"@[2] == 'e'
        && "jpeg"@[3] == 'g');
    assert("woff"@.len() == 4 && "woff"@[0] == 'w' && "woff"@[1] == 'o' && "woff"@[2] == 'f'
        && "woff"@[3] == 'f');
    assert("woff2"@.len() == 5 && "woff2"@[0] == 'w' && "woff2"@[1] == 'o' && "woff2"@[2] == 'f'
        && "woff2"@[3] == 'f');
    assert("ttf"@.len() == 3 && "ttf"@[0] == 't' && "ttf"@[1] == 't' && "ttf"@[2] == 'f');
    assert("map"@.len() == 3 && "map"@[0] == 'm' && "map"@[1] == 'a' && "map"@[2] == 'p');
}

/// What stands in the directory of the server's own is asked of it, and nothing else.
pub proof fn law_server_has_its_own_directory(path: Seq<char>, rest: Seq<char>)
    ensures
        is_asked_of_server("cgi-bin"@ + seq!['/'] + rest),
        is_asked_of_server(path) ==> path == "cgi-bin"@ + seq!['/'] + path.skip(8),
{
    reveal_strlit("cgi-bin");
    reveal_strlit("cgi-bin/");
    assert("cgi-bin"@ + seq!['/'] =~= "cgi-bin/"@);
    seqs::law_a_start_is_followed_by_the_rest(path, "cgi-bin/"@, rest);
}

/// The sessions that are asked for by name stand with commas between them.
pub proof fn law_names_are_asked_for_with_commas(names: Seq<Seq<char>>)
    requires
        forall|i: int|
            0 <= i < names.len() ==> (#[trigger] names[i]).len() > 0 && seqs::lacks(names[i], ','),
    ensures
        asked_ids(Some(seqs::join(names, seq![',']))) == names,
        asked_ids(None) == Seq::<Seq<char>>::empty(),
{
    reveal_strlit(",");
    assert(","@ =~= seq![',']);
    seqs::law_joined_texts_are_read_back(names, ',');
}

/// A poll tells the names of the new sessions, the last one of them, and the last one of all.
pub proof fn law_poll_tells_the_last(
    r: NetworkData,
    all: Seq<TrafficModel>,
    start: Option<Seq<char>>,
    ids: Option<Seq<char>>,
    current: Option<Seq<char>>,
)
    requires
        answers(r, all, start, ids, current),
        all.len() > 0,
    ensures
        ({
            let fresh = news(
                all,
                match start {
                    Some(s) => cursor_of(s),
                    None => None,
                },
            );
            &&& seqs::texts(r.new_ids@).len() == fresh.len()
            &&& forall|i: int|
                0 <= i < fresh.len() ==> #[trigger] seqs::texts(r.new_ids@)[i] == session_name(
                    fresh[i].start_time,
                    fresh[i].id,
                )
            &&& capture::opt_text(r.end_id) == Some(
                session_name(all.last().start_time, all.last().id),
            )
            &&& fresh.len() > 0 ==> capture::opt_text(r.last_id) == Some(
                session_name(fresh.last().start_time, fresh.last().id),
            )
            &&& fresh.len() == 0 ==> capture::opt_text(r.last_id) == capture::opt_text(r.end_id)
            &&& current is None ==> r.frames@.len() == 0
        }),
{
}

/// The sessions that are asked for by the names of their records are those records, in order. A name
/// of which there is no record is passed over.
pub proof fn law_sessions_are_those_asked_for(
    all: Seq<TrafficModel>,
    ids: Seq<Seq<char>>,
    name: Seq<char>,
)
    ensures
        asked_for(all, Seq::empty(), 0) == Seq::<TrafficModel>::empty(),
        asked_for(all, ids.push(name), ids.len() + 1int) == match record_named(all, name) {
            Some(k) => asked_for(all, ids, ids.len() as int).push(all[k]),
            None => asked_for(all, ids, ids.len() as int),
        },
{
    let more = ids.push(name);
    lemma_asked_same(all, ids, more, ids.len() as int);
    assert(more[ids.len() as int] == name);
}

proof fn lemma_asked_same(
    all: Seq<TrafficModel>,
    a: Seq<Seq<char>>,
    b: Seq<Seq<char>>,
    n: int,
)
    requires
        n <= a.len(),
        n <= b.len(),
        forall|i: int| 0 <= i < n ==> a[i] == b[i],
    ensures
        asked_for(all, a, n) == asked_for(all, b, n),
    decreases n,
{
    if n > 0 {
        lemma_asked_same(all, a, b, n - 1);
    }
}

/// A group of operations is shown under its protocol, with its operations in order, each also with
/// the pattern before it.
pub proof fn law_group_is_shown_with_its_pattern(
    v: RuleView,
    pattern: Seq<char>,
    group: GroupModel,
    i: int,
)
    requires
        shows_group(v, pattern, group),
        0 <= i < group.matchers.len(),
    ensures
        v.name@ == group.protocol,
        v.pattern@ == pattern,
        seqs::texts(v.matchers@) == group.matchers,
        seqs::texts(v.raws@).len() == group.matchers.len(),
        seqs::texts(v.raws@)[i] == pattern + seq![' '] + group.matchers[i],
{
    reveal_strlit(" ");
    assert(" "@ =~= seq![' ']);
}

} // verus!
