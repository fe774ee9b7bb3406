//! Rule sets: reading a rule text, and what it says of a request.
//!
//! A rule stands on one line: a pattern and one or more operations, with white space between
//! them. The first token that can be a pattern is the pattern, the others are operations. `#`
//! begins a comment.
use crate::operation;
use crate::operation::Operation;
use crate::operation::OpText;
use crate::pattern;
use crate::pattern::InputText;
use crate::pattern::MatchInput;
use crate::pattern::ParseError;
use crate::pattern::Pattern;
use crate::pattern::PatternModel;
use crate::seqs;
use crate::text;
use vstd::prelude::*;

verus! {

/// One rule.
#[derive(Debug)]
pub struct Rule {
    pub pattern: Pattern,
    pub operations: Vec<Operation>,
    /// The line without its comment.
    pub raw: String,
    /// The line's number, counted from one.
    pub line: usize,
}

/// What a rule stands for.
pub struct RuleModel {
    pub pattern: PatternModel,
    pub operations: Seq<OpText>,
    pub raw: Seq<char>,
    pub line: int,
}

impl View for Rule {
    type V = RuleModel;

    open spec fn view(&self) -> RuleModel {
        RuleModel {
            pattern: self.pattern@,
            operations: operation::op_texts(self.operations@),
            raw: self.raw@,
            line: self.line as int,
        }
    }
}

impl Clone for Rule {
    fn clone(&self) -> (r: Self)
        ensures
            r@ == self@,
    {
        let operations = self.operations.clone();
        proof {
            assert(operation::op_texts(operations@) =~= operation::op_texts(self.operations@));
        }
        Rule {
            pattern: self.pattern.clone(),
            operations,
            raw: self.raw.clone(),
            line: self.line,
        }
    }
}

/// A rule set, in the order of the rule text.
#[derive(Debug)]
pub struct RuleSet {
    rules: Vec<Rule>,
}

impl View for RuleSet {
    type V = Seq<RuleModel>;

    closed spec fn view(&self) -> Seq<RuleModel> {
        Seq::new(self.rules@.len(), |i: int| self.rules@[i]@)
    }
}

impl Clone for RuleSet {
    fn clone(&self) -> (r: Self)
        ensures
            r@ == self@,
    {
        let r = RuleSet { rules: self.rules.clone() };
        proof {
            assert(r@ =~= self@);
        }
        r
    }
}

// ---- reading ----

/// A line without its comment and the white space around it.
pub open spec fn line_text(raw: Seq<char>) -> Seq<char> {
    seqs::trim(seqs::before(raw, "#"@))
}

/// The first token from `i` on that can be a pattern.
pub open spec fn candidate_from(tokens: Seq<Seq<char>>, i: int) -> Option<int>
    decreases tokens.len() - i,
{
    if i < 0 || i >= tokens.len() {
        None
    } else if pattern::pattern_candidate(tokens[i]) {
        Some(i)
    } else {
        candidate_from(tokens, i + 1)
    }
}

/// The operations that the tokens write, but for the pattern.
pub open spec fn operations_of(tokens: Seq<Seq<char>>, pattern_at: int) -> Seq<OpText> {
    tokens.remove(pattern_at).map_values(|t: Seq<char>| operation::op_of(t))
}

/// What a line of a rule text says.
pub enum LineModel {
    /// Nothing: a blank line, a comment, or a pattern or operation alone.
    Nothing,
    /// Its pattern is refused.
    Refused,
    /// A pattern and its operations.
    Rule { pattern: PatternModel, operations: Seq<OpText> },
}

/// What the tokens of a line say.
pub open spec fn tokens_model(tokens: Seq<Seq<char>>) -> LineModel {
    match candidate_from(tokens, 0) {
        None => LineModel::Nothing,
        Some(k) => match pattern::pattern_of(tokens[k]) {
            None => LineModel::Refused,
            Some(p) => if tokens.len() == 1 {
                LineModel::Nothing
            } else {
                LineModel::Rule { pattern: p, operations: operations_of(tokens, k) }
            },
        },
    }
}

/// What a line says.
pub open spec fn line_model(raw: Seq<char>) -> LineModel {
    tokens_model(seqs::words(line_text(raw)))
}

/// The rules of the first `n` lines, or the number of the first line that is refused.
pub open spec fn rules_of(lines: Seq<Seq<char>>, n: int) -> Result<Seq<RuleModel>, int>
    decreases n,
{
    if n <= 0 {
        Ok(seq![])
    } else {
        match rules_of(lines, n - 1) {
            Err(line) => Err(line),
            Ok(rules) => match line_model(lines[n - 1]) {
                LineModel::Nothing => Ok(rules),
                LineModel::Refused => Err(n),
                LineModel::Rule { pattern, operations } => Ok(
                    rules.push(
                        RuleModel { pattern, operations, raw: line_text(lines[n - 1]), line: n },
                    ),
                ),
            },
        }
    }
}

/// The rules of a text, or the number of the first line that is refused.
pub open spec fn parse_model(text: Seq<char>) -> Result<Seq<RuleModel>, int> {
    let lines = seqs::lines(text);
    rules_of(lines, lines.len() as int)
}

/// A line without its comment.
pub fn strip_comment<'a>(line: &'a str) -> (r: &'a str)
    ensures
        r@ == seqs::before(line@, "#"@),
{
    text::before(line, "#")
}

/// The position of the first token that can be a pattern.
fn find_candidate(tokens: &Vec<&str>) -> (r: Option<usize>)
    ensures
        match r {
            Some(k) => candidate_from(seqs::slices(tokens@), 0) == Some(k as int) && k
                < tokens@.len(),
            None => candidate_from(seqs::slices(tokens@), 0) is None,
        },
{
    let ghost all = seqs::slices(tokens@);
    let mut i: usize = 0;
    while i < tokens.len()
        invariant
            i <= tokens.len(),
            all == seqs::slices(tokens@),
            candidate_from(all, 0) == candidate_from(all, i as int),
        decreases tokens.len() - i,
    {
        if pattern::is_pattern_candidate(tokens[i]) {
            return Some(i);
        }
        i += 1;
    }
    None
}

/// The operations that the tokens write, but for the pattern.
fn read_operations(tokens: &Vec<&str>, pattern_at: usize) -> (r: Vec<Operation>)
    requires
        pattern_at < tokens@.len(),
    ensures
        operation::op_texts(r@) == operations_of(seqs::slices(tokens@), pattern_at as int),
{
    let ghost rest = seqs::slices(tokens@).remove(pattern_at as int);
    let mut out: Vec<Operation> = Vec::new();
    let mut i: usize = 0;
    while i < tokens.len()
        invariant
            i <= tokens.len(),
            pattern_at < tokens@.len(),
            rest == seqs::slices(tokens@).remove(pattern_at as int),
            out@.len() == if i <= pattern_at {
                i as int
            } else {
                i - 1
            },
            forall|k: int| 0 <= k < out@.len() ==> out@[k]@ == operation::op_of(#[trigger] rest[k]),
        decreases tokens.len() - i,
    {
        if i != pattern_at {
            let op = Operation::parse(tokens[i]);
            proof {
                assert(rest[out@.len() as int] == tokens@[i as int]@);
            }
            out.push(op);
        }
        i += 1;
    }
    proof {
        assert(operation::op_texts(out@) =~= operations_of(
            seqs::slices(tokens@),
            pattern_at as int,
        ));
    }
    out
}

/// Reads one line: `None` where it says nothing.
fn read_line(raw: &str, line: usize) -> (r: Result<Option<Rule>, ParseError>)
    ensures
        match r {
            Ok(Some(rule)) => line_model(raw@) == (LineModel::Rule {
                pattern: rule@.pattern,
                operations: rule@.operations,
            }) && rule@.raw == line_text(raw@) && rule@.line == line,
            Ok(None) => line_model(raw@) is Nothing,
            Err(ParseError::BadRegex { line: l, .. }) => line_model(raw@) is Refused && l == line,
        },
{
    let body = text::trim(strip_comment(raw));
    let tokens = text::words(body);
    match find_candidate(&tokens) {
        None => Ok(None),
        Some(k) => match Pattern::parse(tokens[k], line) {
            Err(e) => Err(e),
            Ok(p) => {
                proof {
                    assert(seqs::slices(tokens@)[k as int] == tokens@[k as int]@);
                }
                if tokens.len() == 1 {
                    Ok(None)
                } else {
                    Ok(
                        Some(
                            Rule {
                                pattern: p,
                                operations: read_operations(&tokens, k),
                                raw: body.to_string(),
                                line,
                            },
                        ),
                    )
                }
            },
        },
    }
}

// ---- evaluating ----

/// The protocols that steer the evaluation and are no operation on a request.
pub open spec fn is_control(protocol: Seq<char>) -> bool {
    ||| protocol == "ignore"@
    ||| protocol == "includeFilter"@
    ||| protocol == "excludeFilter"@
    ||| protocol == "enable"@
    ||| protocol == "disable"@
}

/// The value of a filter holds of a request: `m:METHOD` of its method, any other value as a pattern.
/// A pattern that is refused holds of none.
pub open spec fn filter_holds(value: Seq<char>, input: InputText) -> bool {
    match seqs::strip_prefix(value, "m:"@) {
        Some(method) => seqs::same_ignoring_case(input.method, method),
        None => match pattern::pattern_of(value) {
            Some(p) => pattern::pattern_matches(p, input),
            None => false,
        },
    }
}

/// One operation, as a filter, lets the request through.
pub open spec fn lets_through(op: OpText, input: InputText) -> bool {
    &&& op.protocol == "includeFilter"@ ==> filter_holds(op.value, input)
    &&& op.protocol == "excludeFilter"@ ==> !filter_holds(op.value, input)
}

/// All include filters hold of the request, and no exclude filter does.
pub open spec fn filters_pass(ops: Seq<OpText>, input: InputText) -> bool {
    forall|i: int| 0 <= i < ops.len() ==> lets_through(#[trigger] ops[i], input)
}

/// The rule is about the request.
pub open spec fn rule_applies(rule: RuleModel, input: InputText) -> bool {
    pattern::pattern_matches(rule.pattern, input) && filters_pass(rule.operations, input)
}

/// The operations of those of the first `n` rules that are about the request, in order.
pub open spec fn collected(rules: Seq<RuleModel>, input: InputText, n: int) -> Seq<OpText>
    decreases n,
{
    if n <= 0 {
        seq![]
    } else if rule_applies(rules[n - 1], input) {
        collected(rules, input, n - 1) + rules[n - 1].operations
    } else {
        collected(rules, input, n - 1)
    }
}

/// What is left of the operations where `ignore` operations name protocols: those of no such
/// protocol, or, where one of them says `*`, those that steer the evaluation.
pub open spec fn without_ignored(ops: Seq<OpText>) -> Seq<OpText> {
    let ignored = operation::all_of(ops, "ignore"@);
    if ignored.len() == 0 {
        ops
    } else if ignored.contains("*"@) {
        ops.filter(|o: OpText| is_control(o.protocol))
    } else {
        ops.filter(|o: OpText| !ignored.contains(o.protocol))
    }
}

/// What a rule set says of a request.
pub open spec fn match_model(rules: Seq<RuleModel>, input: InputText) -> Seq<OpText> {
    without_ignored(collected(rules, input, rules.len() as int)).filter(
        |o: OpText| !is_control(o.protocol),
    )
}

/// Whether a protocol steers the evaluation.
pub fn is_control_protocol(protocol: &str) -> (r: bool)
    ensures
        r == is_control(protocol@),
{
    text::same(protocol, "ignore") || text::same(protocol, "includeFilter") || text::same(
        protocol,
        "excludeFilter",
    ) || text::same(protocol, "enable") || text::same(protocol, "disable")
}

/// Whether the value of a filter holds of a request.
pub fn filter_matches(value: &str, input: &MatchInput) -> (r: bool)
    ensures
        r == filter_holds(value@, input@),
{
    if let Some(method) = text::strip_prefix(value, "m:") {
        return text::same_ignoring_case(input.method.as_str(), method);
    }
    match Pattern::parse(value, 0) {
        Ok(p) => p.matches(input),
        Err(_) => false,
    }
}

/// Whether all include filters of a rule hold of a request, and no exclude filter does.
pub fn rule_filters_pass(rule: &Rule, input: &MatchInput) -> (r: bool)
    ensures
        r == filters_pass(rule@.operations, input@),
{
    let ghost ops = rule@.operations;
    let mut i: usize = 0;
    while i < rule.operations.len()
        invariant
            i <= rule.operations.len(),
            ops == rule@.operations,
            forall|k: int| 0 <= k < i ==> lets_through(#[trigger] ops[k], input@),
        decreases rule.operations.len() - i,
    {
        let op = &rule.operations[i];
        proof {
            assert(ops[i as int] == op@);
            reveal_strlit("includeFilter");
            reveal_strlit("excludeFilter");
            assert("includeFilter"@[0] != "excludeFilter"@[0]);
        }
        if text::same(op.protocol.as_str(), "includeFilter") {
            if !filter_matches(op.value.as_str(), input) {
                return false;
            }
        } else if text::same(op.protocol.as_str(), "excludeFilter") {
            if filter_matches(op.value.as_str(), input) {
                return false;
            }
        }
        i += 1;
    }
    true
}

/// Whether the text is among the texts.
fn among(list: &Vec<&str>, s: &str) -> (r: bool)
    ensures
        r == seqs::slices(list@).contains(s@),
{
    let ghost all = seqs::slices(list@);
    let mut i: usize = 0;
    while i < list.len()
        invariant
            i <= list.len(),
            all == seqs::slices(list@),
            forall|k: int| 0 <= k < i ==> all[k] != s@,
        decreases list.len() - i,
    {
        if text::same(list[i], s) {
            proof {
                assert(all[i as int] == s@);
            }
            return true;
        }
        i += 1;
    }
    false
}

/// Drops the operations of ignored protocols. Where one `ignore` says `*`, all that is left steers
/// the evaluation.
pub fn apply_ignores(ops: Vec<Operation>) -> (r: Vec<Operation>)
    ensures
        operation::op_texts(r@) == without_ignored(operation::op_texts(ops@)),
{
    let ghost all = operation::op_texts(ops@);
    let ignored = operation::all_values(ops.as_slice(), "ignore");
    if ignored.len() == 0 {
        proof {
            assert(operation::all_of(all, "ignore"@).len() == 0);
        }
        return ops;
    }
    let everything = among(&ignored, "*");
    let ghost names = operation::all_of(all, "ignore"@);
    let ghost keep = if everything {
        |o: OpText| is_control(o.protocol)
    } else {
        |o: OpText| !names.contains(o.protocol)
    };
    let mut out: Vec<Operation> = Vec::new();
    let mut i: usize = 0;
    proof {
        reveal(Seq::filter);
        assert(all.take(0) =~= Seq::empty());
        assert(operation::op_texts(out@) =~= all.take(0).filter(keep));
    }
    while i < ops.len()
        invariant
            i <= ops.len(),
            all == operation::op_texts(ops@),
            names == seqs::slices(ignored@),
            keep == if everything {
                |o: OpText| is_control(o.protocol)
            } else {
                |o: OpText| !names.contains(o.protocol)
            },
            operation::op_texts(out@) == all.take(i as int).filter(keep),
        decreases ops.len() - i,
    {
        let ghost outs = operation::op_texts(out@);
        proof {
            seqs::lemma_filter_step(all, i as int, keep);
        }
        let protocol = ops[i].protocol.as_str();
        let kept = if everything {
            is_control_protocol(protocol)
        } else {
            !among(&ignored, protocol)
        };
        if kept {
            out.push(ops[i].clone());
            proof {
                assert(operation::op_texts(out@) =~= outs.push(all[i as int]));
            }
        }
        i += 1;
    }
    proof {
        assert(all.take(all.len() as int) =~= all);
    }
    out
}

/// Drops the operations that steer the evaluation.
fn drop_control(ops: Vec<Operation>) -> (r: Vec<Operation>)
    ensures
        operation::op_texts(r@) == operation::op_texts(ops@).filter(
            |o: OpText| !is_control(o.protocol),
        ),
{
    let ghost all = operation::op_texts(ops@);
    let ghost keep = |o: OpText| !is_control(o.protocol);
    let mut out: Vec<Operation> = Vec::new();
    let mut i: usize = 0;
    proof {
        reveal(Seq::filter);
        assert(all.take(0) =~= Seq::empty());
        assert(operation::op_texts(out@) =~= all.take(0).filter(keep));
    }
    while i < ops.len()
        invariant
            i <= ops.len(),
            all == operation::op_texts(ops@),
            keep == (|o: OpText| !is_control(o.protocol)),
            operation::op_texts(out@) == all.take(i as int).filter(keep),
        decreases ops.len() - i,
    {
        let ghost outs = operation::op_texts(out@);
        proof {
            seqs::lemma_filter_step(all, i as int, keep);
        }
        if !is_control_protocol(ops[i].protocol.as_str()) {
            out.push(ops[i].clone());
            proof {
                assert(operation::op_texts(out@) =~= outs.push(all[i as int]));
            }
        }
        i += 1;
    }
    proof {
        assert(all.take(all.len() as int) =~= all);
    }
    out
}

/// Appends copies of some operations.
fn append_operations(out: &mut Vec<Operation>, more: &Vec<Operation>)
    ensures
        operation::op_texts(final(out)@) == operation::op_texts(old(out)@) + operation::op_texts(
            more@,
        ),
{
    let mut i: usize = 0;
    proof {
        assert(operation::op_texts(out@) =~= operation::op_texts(old(out)@) + operation::op_texts(
            more@,
        ).take(0));
    }
    while i < more.len()
        invariant
            i <= more.len(),
            operation::op_texts(out@) == operation::op_texts(old(out)@) + operation::op_texts(
                more@,
            ).take(i as int),
        decreases more.len() - i,
    {
        let ghost outs = operation::op_texts(out@);
        out.push(more[i].clone());
        i += 1;
        proof {
            assert(operation::op_texts(out@) =~= outs.push(more@[i - 1]@));
            assert(operation::op_texts(out@) =~= operation::op_texts(old(out)@)
                + operation::op_texts(more@).take(i as int));
        }
    }
    proof {
        assert(operation::op_texts(more@).take(more@.len() as int) =~= operation::op_texts(more@));
    }
}

impl Default for RuleSet {
    /// The rule set without rules.
    fn default() -> (r: RuleSet)
        ensures
            r@ == Seq::<RuleModel>::empty(),
    {
        let r = RuleSet { rules: Vec::new() };
        proof {
            assert(r@ =~= Seq::empty());
        }
        r
    }
}

impl RuleSet {
    /// Reads a rule text. Blank lines, comments and lines without operations say nothing; the
    /// first pattern that is refused is the error.
    pub fn parse(text: &str) -> (r: Result<RuleSet, ParseError>)
        ensures
            match r {
                Ok(set) => parse_model(text@) == Ok::<Seq<RuleModel>, int>(set@),
                Err(ParseError::BadRegex { line, .. }) => parse_model(text@) == Err::<
                    Seq<RuleModel>,
                    int,
                >(line as int),
            },
    {
        let lines = text::lines(text);
        let ghost all = seqs::texts(lines@);
        let mut set = RuleSet { rules: Vec::new() };
        let mut i: usize = 0;
        proof {
            assert(set@ =~= Seq::empty());
        }
        while i < lines.len()
            invariant
                i <= lines.len(),
                all == seqs::texts(lines@),
                all == seqs::lines(text@),
                rules_of(all, i as int) == Ok::<Seq<RuleModel>, int>(set@),
            decreases lines.len() - i,
        {
            let ghost done = set@;
            proof {
                assert(all[i as int] == lines@[i as int]@);
            }
            match read_line(lines[i].as_str(), i + 1) {
                Err(e) => {
                    proof {
                        lemma_refusal_stays(all, i + 1, all.len() as int);
                    }
                    return Err(e);
                },
                Ok(None) => {},
                Ok(Some(rule)) => {
                    let ghost m = rule@;
                    set.rules.push(rule);
                    proof {
                        assert(set@ =~= done.push(m));
                    }
                },
            }
            i += 1;
        }
        Ok(set)
    }

    /// The number of rules.
    pub fn len(&self) -> (r: usize)
        ensures
            r == self@.len(),
    {
        self.rules.len()
    }

    /// Whether there are no rules.
    pub fn is_empty(&self) -> (r: bool)
        ensures
            r == (self@.len() == 0),
    {
        self.rules.len() == 0
    }

    /// Whether some rule may be about a host.
    pub fn intercepts_host(&self, host: &str) -> (r: bool)
        ensures
            r == rules_intercept(self@, host@),
    {
        let ghost all = self@;
        let mut i: usize = 0;
        while i < self.rules.len()
            invariant
                i <= self.rules.len(),
                all == self@,
                forall|k: int|
                    0 <= k < i ==> !pattern::pattern_matches_host(
                        (#[trigger] all[k]).pattern,
                        host@,
                    ),
            decreases self.rules.len() - i,
        {
            proof {
                assert(all[i as int] == self.rules@[i as int]@);
            }
            if self.rules[i].pattern.matches_host(host) {
                return true;
            }
            i += 1;
        }
        false
    }

    /// What the rules say of a request: the operations of the rules that are about it, in the
    /// order of the rule text, without those of ignored protocols and those that steer the
    /// evaluation.
    pub fn match_request(&self, input: &MatchInput) -> (r: Vec<Operation>)
        ensures
            operation::op_texts(r@) == match_model(self@, input@),
    {
        let ghost all = self@;
        let mut ops: Vec<Operation> = Vec::new();
        let mut i: usize = 0;
        proof {
            assert(operation::op_texts(ops@) =~= Seq::empty());
        }
        while i < self.rules.len()
            invariant
                i <= self.rules.len(),
                all == self@,
                operation::op_texts(ops@) == collected(all, input@, i as int),
            decreases self.rules.len() - i,
        {
            let rule = &self.rules[i];
            proof {
                assert(all[i as int] == rule@);
            }
            if rule.pattern.matches(input) && rule_filters_pass(rule, input) {
                append_operations(&mut ops, &rule.operations);
            }
            i += 1;
        }
        drop_control(apply_ignores(ops))
    }
}

/// Some rule may be about the host.
pub open spec fn rules_intercept(rules: Seq<RuleModel>, host: Seq<char>) -> bool {
    exists|i: int|
        0 <= i < rules.len() && pattern::pattern_matches_host((#[trigger] rules[i]).pattern, host)
}

/// A refused line stays the outcome, whatever follows it.
proof fn lemma_refusal_stays(lines: Seq<Seq<char>>, k: int, n: int)
    requires
        0 <= k <= n,
        rules_of(lines, k) is Err,
    ensures
        rules_of(lines, n) == rules_of(lines, k),
    decreases n,
{
    if k < n {
        lemma_refusal_stays(lines, k, n - 1);
    }
}

// ---- laws ----

/// Neither a control protocol nor an ignored protocol is among what the rules say of a request.
pub proof fn law_no_control_and_no_ignored(rules: Seq<RuleModel>, input: InputText, i: int)
    requires
        0 <= i < match_model(rules, input).len(),
    ensures
        !is_control(match_model(rules, input)[i].protocol),
        !operation::all_of(
            collected(rules, input, rules.len() as int),
            "ignore"@,
        ).contains(match_model(rules, input)[i].protocol),
{
    let ops = collected(rules, input, rules.len() as int);
    let left = without_ignored(ops);
    let out = match_model(rules, input);
    lemma_filter_member(left, |o: OpText| !is_control(o.protocol), i);
    let o = out[i];
    let ignored = operation::all_of(ops, "ignore"@);
    let k = choose|k: int| 0 <= k < left.len() && left[k] == o;
    if ignored.len() == 0 {
    } else if ignored.contains("*"@) {
        lemma_filter_member(ops, |o: OpText| is_control(o.protocol), k);
    } else {
        lemma_filter_member(ops, |o: OpText| !ignored.contains(o.protocol), k);
    }
}

/// What a filter keeps holds of the filter and was there before.
proof fn lemma_filter_member(s: Seq<OpText>, keep: spec_fn(OpText) -> bool, i: int)
    requires
        0 <= i < s.filter(keep).len(),
    ensures
        keep(s.filter(keep)[i]),
        exists|k: int| 0 <= k < s.len() && s[k] == s.filter(keep)[i],
    decreases s.len(),
{
    reveal(Seq::filter);
    if s.len() > 0 {
        let shorter = s.drop_last().filter(keep);
        if i < shorter.len() {
            lemma_filter_member(s.drop_last(), keep, i);
            let k = choose|k: int|
                0 <= k < s.drop_last().len() && s.drop_last()[k] == shorter[i];
            assert(s[k] == s.filter(keep)[i]);
        } else {
            assert(s[s.len() - 1] == s.filter(keep)[i]);
        }
    }
}

/// Where a rule about the request says `ignore://*`, the rules say nothing of it.
pub proof fn law_ignoring_everything_leaves_nothing(rules: Seq<RuleModel>, input: InputText)
    requires
        operation::all_of(collected(rules, input, rules.len() as int), "ignore"@).contains("*"@),
    ensures
        match_model(rules, input).len() == 0,
{
    let ops = collected(rules, input, rules.len() as int);
    let out = match_model(rules, input);
    if out.len() > 0 {
        let left = without_ignored(ops);
        lemma_filter_member(left, |o: OpText| !is_control(o.protocol), 0);
        let k = choose|k: int| 0 <= k < left.len() && left[k] == out[0];
        lemma_filter_member(ops, |o: OpText| is_control(o.protocol), k);
    }
}

/// A blank line says nothing, and neither does a line with a comment alone.
pub proof fn law_blank_lines_say_nothing(raw: Seq<char>)
    requires
        line_text(raw).len() == 0,
    ensures
        line_model(raw) is Nothing,
{
}

/// What follows `#` on a line says nothing.
pub proof fn law_comments_say_nothing(code: Seq<char>, comment: Seq<char>)
    requires
        forall|i: int| 0 <= i < code.len() ==> code[i] != '#',
    ensures
        line_model(code + "#"@ + comment) == line_model(code),
{
    reveal_strlit("#");
    assert("#"@ =~= seq!['#']);
    seqs::lemma_find_char(code, '#', comment);
    assert(code + "#"@ + comment =~= code.push('#') + comment);
    assert((code + "#"@ + comment).subrange(0, code.len() as int) =~= code);
}

/// The pattern may stand before the operation or behind it.
pub proof fn law_pattern_may_come_second(pattern_token: Seq<char>, op_token: Seq<char>)
    requires
        pattern::pattern_candidate(pattern_token),
        !pattern::pattern_candidate(op_token),
    ensures
        tokens_model(seq![pattern_token, op_token]) == tokens_model(seq![op_token, pattern_token]),
{
    let a = seq![pattern_token, op_token];
    let b = seq![op_token, pattern_token];
    reveal_with_fuel(candidate_from, 2);
    assert(candidate_from(a, 0) == Some(0int));
    assert(candidate_from(b, 0) == Some(1int));
    assert(a.remove(0) =~= seq![op_token]);
    assert(b.remove(1) =~= seq![op_token]);
}

/// Rules that stand later in the text take precedence: the last value of a protocol comes from the
/// last rule about the request that has one.
pub proof fn law_later_rules_take_precedence(
    rules: Seq<RuleModel>,
    input: InputText,
    protocol: Seq<char>,
    k: int,
    n: int,
)
    requires
        0 <= k < n <= rules.len(),
        rule_applies(rules[k], input),
        operation::last_of(rules[k].operations, protocol) is Some,
        forall|j: int|
            k < j < n && rule_applies(#[trigger] rules[j], input) ==> operation::last_of(
                rules[j].operations,
                protocol,
            ) is None,
    ensures
        operation::last_of(collected(rules, input, n), protocol) == operation::last_of(
            rules[k].operations,
            protocol,
        ),
    decreases n,
{
    if rule_applies(rules[n - 1], input) {
        operation::law_later_operations_take_precedence(
            collected(rules, input, n - 1),
            rules[n - 1].operations,
            protocol,
        );
    }
    if k < n - 1 {
        law_later_rules_take_precedence(rules, input, protocol, k, n - 1);
    }
}

/// A filter by protocol that keeps a protocol keeps its last value.
proof fn lemma_filter_keeps_last(
    ops: Seq<OpText>,
    keep: spec_fn(OpText) -> bool,
    protocol: Seq<char>,
)
    requires
        forall|o: OpText| #[trigger] keep(o) || o.protocol != protocol,
    ensures
        operation::last_of(ops.filter(keep), protocol) == operation::last_of(ops, protocol),
    decreases ops.len(),
{
    reveal(Seq::filter);
    if ops.len() > 0 {
        lemma_filter_keeps_last(ops.drop_last(), keep, protocol);
        if keep(ops.last()) {
            let f = ops.filter(keep);
            assert(f.last() == ops.last());
            assert(f.drop_last() =~= ops.drop_last().filter(keep));
        }
    }
}

/// A protocol that is neither ignored nor steers the evaluation keeps its last value: what is
/// collected from the rules is what the rules say.
pub proof fn law_other_protocols_are_kept(
    rules: Seq<RuleModel>,
    input: InputText,
    protocol: Seq<char>,
)
    requires
        !is_control(protocol),
        ({
            let ignored = operation::all_of(
                collected(rules, input, rules.len() as int),
                "ignore"@,
            );
            !ignored.contains(protocol) && !ignored.contains("*"@)
        }),
    ensures
        operation::last_of(match_model(rules, input), protocol) == operation::last_of(
            collected(rules, input, rules.len() as int),
            protocol,
        ),
{
    let ops = collected(rules, input, rules.len() as int);
    let ignored = operation::all_of(ops, "ignore"@);
    if ignored.len() > 0 {
        lemma_filter_keeps_last(ops, |o: OpText| !ignored.contains(o.protocol), protocol);
    }
    lemma_filter_keeps_last(
        without_ignored(ops),
        |o: OpText| !is_control(o.protocol),
        protocol,
    );
}

/// The empty rule set is about no host and says nothing of any request.
pub proof fn law_no_rules_no_effect(host: Seq<char>, input: InputText)
    ensures
        !rules_intercept(seq![], host),
        match_model(seq![], input) == Seq::<OpText>::empty(),
{
    reveal(Seq::filter);
    let none = Seq::<OpText>::empty();
    assert(collected(seq![], input, 0) =~= none);
    assert(operation::all_of(none, "ignore"@) =~= Seq::<Seq<char>>::empty());
    assert(match_model(seq![], input) =~= none);
}

/// A line is read word by word. What stands between the words is white space, however it is
/// written, and the words are kept as they are.
pub proof fn law_line_is_read_by_words(tokens: Seq<Seq<char>>)
    requires
        forall|i: int|
            0 <= i < tokens.len() ==> (#[trigger] tokens[i]).len() > 0 && forall|j: int|
                0 <= j < tokens[i].len() ==> !seqs::is_space(#[trigger] tokens[i][j]),
        seqs::lacks(seqs::join(tokens, seq![' ']), '#'),
    ensures
        line_model(seqs::join(tokens, seq![' '])) == tokens_model(tokens),
        line_text(seqs::join(tokens, seq![' '])) == seqs::join(tokens, seq![' ']),
{
    reveal_strlit("#");
    assert("#"@ =~= seq!['#']);
    let line = seqs::join(tokens, seq![' ']);
    seqs::law_text_is_cut_at_the_first(line, '#', line);
    seqs::law_joined_words_are_read_back(tokens);
}

/// The first word of a line that can be a pattern is its pattern, and all other words are its
/// operations, in order. A pattern without operations says nothing, and neither do words of which
/// none can be a pattern.
pub proof fn law_first_candidate_is_the_pattern(
    earlier: Seq<Seq<char>>,
    token: Seq<char>,
    later: Seq<Seq<char>>,
)
    requires
        forall|i: int|
            0 <= i < earlier.len() ==> !pattern::pattern_candidate(#[trigger] earlier[i]),
        pattern::pattern_candidate(token),
    ensures
        tokens_model(earlier) is Nothing,
        match pattern::pattern_of(token) {
            None => tokens_model(earlier + seq![token] + later) is Refused,
            Some(p) => if earlier.len() + later.len() == 0 {
                tokens_model(earlier + seq![token] + later) is Nothing
            } else {
                tokens_model(earlier + seq![token] + later) == (LineModel::Rule {
                    pattern: p,
                    operations: Seq::new(
                        earlier.len() + later.len(),
                        |i: int|
                            operation::op_of(
                                if i < earlier.len() {
                                    earlier[i]
                                } else {
                                    later[i - earlier.len()]
                                },
                            ),
                    ),
                })
            },
        },
{
    let all = earlier + seq![token] + later;
    let n = earlier.len() as int;
    lemma_no_candidate(earlier, earlier, 0, n);
    assert(candidate_from(earlier, n) is None);
    lemma_no_candidate(all, earlier, 0, n);
    assert(all[n] == token);
    assert(candidate_from(all, n) == Some(n));
    let ops = operations_of(all, n);
    assert(all.remove(n) =~= earlier + later);
    assert(ops =~= Seq::new(
        earlier.len() + later.len(),
        |i: int|
            operation::op_of(
                if i < earlier.len() {
                    earlier[i]
                } else {
                    later[i - earlier.len()]
                },
            ),
    ));
}

proof fn lemma_no_candidate(tokens: Seq<Seq<char>>, earlier: Seq<Seq<char>>, i: int, n: int)
    requires
        0 <= i <= n == earlier.len() <= tokens.len(),
        forall|k: int| 0 <= k < n ==> #[trigger] tokens[k] == earlier[k],
        forall|k: int| 0 <= k < n ==> !pattern::pattern_candidate(#[trigger] earlier[k]),
    ensures
        candidate_from(tokens, i) == candidate_from(tokens, n),
    decreases n - i,
{
    if i < n {
        assert(tokens[i] == earlier[i]);
        assert(!pattern::pattern_candidate(earlier[i]));
        lemma_no_candidate(tokens, earlier, i + 1, n);
    }
}

/// The rules of a text are those of its lines, in order, each with the number of its line. A line
/// that says nothing adds none, and the first line that is refused is the outcome.
pub proof fn law_rules_are_those_of_the_lines(text: Seq<char>, line: Seq<char>)
    requires
        seqs::lacks(line, '\n'),
        line.len() > 0,
    ensures
        parse_model(Seq::empty()) == Ok::<Seq<RuleModel>, int>(Seq::empty()),
        parse_model(text + seq!['\n'] + line) == match parse_model(text + seq!['\n']) {
            Err(n) => Err(n),
            Ok(rules) => match line_model(line) {
                LineModel::Nothing => Ok(rules),
                LineModel::Refused => Err(seqs::lines(text + seq!['\n']).len() + 1int),
                LineModel::Rule { pattern, operations } => Ok(
                    rules + seq![
                        RuleModel {
                            pattern,
                            operations,
                            raw: line_text(line),
                            line: seqs::lines(text + seq!['\n']).len() + 1int,
                        },
                    ],
                ),
            },
        },
        parse_model(line) == match line_model(line) {
            LineModel::Nothing => Ok(Seq::empty()),
            LineModel::Refused => Err(1int),
            LineModel::Rule { pattern, operations } => Ok(
                seq![RuleModel { pattern, operations, raw: line_text(line), line: 1 }],
            ),
        },
{
    reveal_with_fuel(rules_of, 2);
    seqs::law_lines_follow_one_another(text, line);
    seqs::law_lines_end_at_line_feeds(line, line);
    let before = seqs::lines(text + seq!['\n']);
    let all = seqs::lines(text + seq!['\n'] + line);
    let n = before.len() as int;
    assert(all =~= before.push(line));
    lemma_rules_of_same(before, all, n);
    assert(seqs::lines(line)[0] == line);
    assert(rules_of(seqs::lines(line), 0) == Ok::<Seq<RuleModel>, int>(seq![]));
    assert(rules_of(seqs::lines(line), 1)
        == rules_of(seqs::lines(line), seqs::lines(line).len() as int));
    if let LineModel::Rule { pattern, operations } = line_model(line) {
        let r = RuleModel { pattern, operations, raw: line_text(line), line: 1 };
        assert(Seq::<RuleModel>::empty().push(r) =~= seq![r]);
        let q = RuleModel { pattern, operations, raw: line_text(line), line: n + 1 };
        if let Ok(rules) = parse_model(text + seq!['\n']) {
            assert(rules.push(q) =~= rules + seq![q]);
        }
    }
    assert(seqs::lines(Seq::empty()).len() == 0);
}

proof fn lemma_rules_of_same(a: Seq<Seq<char>>, b: Seq<Seq<char>>, n: int)
    requires
        n <= a.len(),
        n <= b.len(),
        forall|i: int| 0 <= i < n ==> a[i] == b[i],
    ensures
        rules_of(a, n) == rules_of(b, n),
    decreases n,
{
    if n > 0 {
        lemma_rules_of_same(a, b, n - 1);
    }
}

/// A filter `m:METHOD` holds of the requests with that method, in whatever case it is written.
pub proof fn law_method_filter_holds_of_the_method(method: Seq<char>, input: InputText)
    ensures
        filter_holds(seq!['m', ':'] + method, input) == seqs::same_ignoring_case(
            method,
            input.method,
        ),
{
    reveal_strlit("m:");
    assert("m:"@ =~= seq!['m', ':']);
    seqs::law_a_start_is_followed_by_the_rest(method, seq!['m', ':'], method);
}

/// A filter that does not begin with `m:` holds of the requests that it matches as a pattern. What
/// is no pattern holds of none.
pub proof fn law_pattern_filter_holds_of_what_it_matches(value: Seq<char>, input: InputText)
    requires
        value.len() >= 2 ==> value[0] != 'm' || value[1] != ':',
    ensures
        filter_holds(value, input) <==> (pattern::pattern_of(value) is Some
            && pattern::pattern_matches(pattern::pattern_of(value)->0, input)),
{
    reveal_strlit("m:");
    assert("m:"@ =~= seq!['m', ':']);
    if seqs::starts_with(value, "m:"@) {
        assert(value.subrange(0, 2)[0] == value[0]);
        assert(value.subrange(0, 2)[1] == value[1]);
    }
}

/// A rule is about the requests that its pattern matches, as long as each `includeFilter` holds and
/// no `excludeFilter` does. Its other operations make no difference to that.
pub proof fn law_rule_is_about_what_its_filters_let_through(rule: RuleModel, input: InputText)
    ensures
        rule_applies(rule, input) <==> {
            &&& pattern::pattern_matches(rule.pattern, input)
            &&& forall|v: Seq<char>| #[trigger]
                operation::all_of(rule.operations, "includeFilter"@).contains(v) ==> filter_holds(
                    v,
                    input,
                )
            &&& forall|v: Seq<char>| #[trigger]
                operation::all_of(rule.operations, "excludeFilter"@).contains(v) ==> !filter_holds(
                    v,
                    input,
                )
        },
{
    let ops = rule.operations;
    if filters_pass(ops, input) {
        assert forall|v: Seq<char>| #[trigger]
            operation::all_of(ops, "includeFilter"@).contains(v) implies filter_holds(v, input) by {
            operation::law_values_are_those_of_the_protocol(ops, "includeFilter"@, v);
            let k = choose|k: int|
                0 <= k < ops.len() && (#[trigger] ops[k]).protocol == "includeFilter"@
                    && ops[k].value == v;
            assert(lets_through(ops[k], input));
        }
        assert forall|v: Seq<char>| #[trigger]
            operation::all_of(ops, "excludeFilter"@).contains(v) implies !filter_holds(v,
                input) by {
            operation::law_values_are_those_of_the_protocol(ops, "excludeFilter"@, v);
            let k = choose|k: int|
                0 <= k < ops.len() && (#[trigger] ops[k]).protocol == "excludeFilter"@
                    && ops[k].value == v;
            assert(lets_through(ops[k], input));
        }
    } else {
        let k = choose|k: int| 0 <= k < ops.len() && !lets_through(#[trigger] ops[k], input);
        operation::law_values_are_those_of_the_protocol(ops, "includeFilter"@, ops[k].value);
        operation::law_values_are_those_of_the_protocol(ops, "excludeFilter"@, ops[k].value);
    }
}

/// The operations of two rule sets one after the other are those of the first, followed by those of
/// the second. A rule that is not about the request adds none, and one that is adds all of its own.
pub proof fn law_rules_are_collected_in_order(
    earlier: Seq<RuleModel>,
    rule: RuleModel,
    input: InputText,
)
    ensures
        collected(earlier + seq![rule], input, earlier.len() + 1int)
            == if rule_applies(rule, input) {
            collected(earlier, input, earlier.len() as int) + rule.operations
        } else {
            collected(earlier, input, earlier.len() as int)
        },
        collected(seq![rule], input, 1) == if rule_applies(rule, input) {
            rule.operations
        } else {
            seq![]
        },
{
    reveal_with_fuel(collected, 2);
    let all = earlier + seq![rule];
    assert(all[earlier.len() as int] == rule);
    lemma_collected_same(earlier, all, input, earlier.len() as int);
    assert(Seq::<OpText>::empty() + rule.operations =~= rule.operations);
}

proof fn lemma_collected_same(a: Seq<RuleModel>, b: Seq<RuleModel>, input: InputText, n: int)
    requires
        n <= a.len(),
        n <= b.len(),
        forall|i: int| 0 <= i < n ==> a[i] == b[i],
    ensures
        collected(a, input, n) == collected(b, input, n),
    decreases n,
{
    if n > 0 {
        lemma_collected_same(a, b, input, n - 1);
    }
}

/// What the rules say of a request is all that was collected, in order, without the protocols that
/// steer the evaluation, without each protocol that an `ignore` names, and without anything where
/// one says `*`.
pub proof fn law_all_but_the_ignored_is_said(rules: Seq<RuleModel>, input: InputText)
    ensures
        ({
            let ops = collected(rules, input, rules.len() as int);
            match_model(rules, input) == ops.filter(
                |o: OpText|
                    {
                        &&& o.protocol != "ignore"@
                        &&& o.protocol != "includeFilter"@
                        &&& o.protocol != "excludeFilter"@
                        &&& o.protocol != "enable"@
                        &&& o.protocol != "disable"@
                        &&& !(exists|k: int|
                            0 <= k < ops.len() && (#[trigger] ops[k]).protocol == "ignore"@ && (
                            ops[k].value == o.protocol || ops[k].value == "*"@))
                    },
            )
        }),
{
    let ops = collected(rules, input, rules.len() as int);
    let ignored = operation::all_of(ops, "ignore"@);
    let said = |o: OpText|
        {
            &&& o.protocol != "ignore"@
            &&& o.protocol != "includeFilter"@
            &&& o.protocol != "excludeFilter"@
            &&& o.protocol != "enable"@
            &&& o.protocol != "disable"@
            &&& !(exists|k: int|
                0 <= k < ops.len() && (#[trigger] ops[k]).protocol == "ignore"@ && (ops[k].value
                    == o.protocol || ops[k].value == "*"@))
        };
    let steers = |o: OpText| is_control(o.protocol);
    let kept = |o: OpText| !is_control(o.protocol);
    let named = |o: OpText| !ignored.contains(o.protocol);
    let any = |o: OpText| true;
    operation::law_values_are_those_of_the_protocol(ops, "ignore"@, "*"@);
    assert forall|o: OpText| #[trigger] ignored.contains(o.protocol) == exists|k: int|
        0 <= k < ops.len() && (#[trigger] ops[k]).protocol == "ignore"@ && ops[k].value
            == o.protocol by {
        operation::law_values_are_those_of_the_protocol(ops, "ignore"@, o.protocol);
    }
    assert forall|o: OpText|
        (#[trigger] said(o)) == (kept(o) && !ignored.contains(o.protocol) && !ignored.contains(
            "*"@,
        )) by {
        operation::law_values_are_those_of_the_protocol(ops, "ignore"@, o.protocol);
        if !ignored.contains(o.protocol) && !ignored.contains("*"@) && kept(o) {
            assert forall|k: int|
                0 <= k < ops.len() && (#[trigger] ops[k]).protocol == "ignore"@ implies ops[k].value
                != o.protocol && ops[k].value != "*"@ by {}
        }
    }
    if ignored.len() == 0 {
        assert forall|o: OpText| #[trigger] said(o) == kept(o) by {}
        assert(said =~= kept);
    } else if ignored.contains("*"@) {
        assert forall|o: OpText| #[trigger] said(o) == (steers(o) && kept(o)) by {}
        lemma_filter_twice(ops, steers, kept, said);
    } else {
        lemma_filter_twice(ops, named, kept, said);
    }
}

proof fn lemma_filter_twice(
    s: Seq<OpText>,
    a: spec_fn(OpText) -> bool,
    b: spec_fn(OpText) -> bool,
    both: spec_fn(OpText) -> bool,
)
    requires
        forall|o: OpText| #[trigger] both(o) == (a(o) && b(o)),
    ensures
        s.filter(a).filter(b) == s.filter(both),
    decreases s.len(),
{
    reveal(Seq::filter);
    if s.len() > 0 {
        let less = s.drop_last();
        lemma_filter_twice(less, a, b, both);
        assert(both(s.last()) == (a(s.last()) && b(s.last())));
        if a(s.last()) {
            let f = less.filter(a).push(s.last());
            assert(s.filter(a) == f);
            assert(f.drop_last() =~= less.filter(a));
            assert(f.last() == s.last());
        }
    }
}

/// A host is intercepted where one of the rules is about it: by two rule sets together where either
/// does, and by one rule where its pattern says so.
pub proof fn law_any_rule_intercepts(
    earlier: Seq<RuleModel>,
    later: Seq<RuleModel>,
    rule: RuleModel,
    host: Seq<char>,
)
    ensures
        rules_intercept(earlier + later, host) <==> rules_intercept(earlier, host)
            || rules_intercept(later, host),
        rules_intercept(seq![rule], host) <==> pattern::pattern_matches_host(rule.pattern, host),
{
    let all = earlier + later;
    if rules_intercept(earlier, host) {
        let i = choose|i: int|
            0 <= i < earlier.len() && pattern::pattern_matches_host(
                (#[trigger] earlier[i]).pattern,
                host,
            );
        assert(all[i] == earlier[i]);
    }
    if rules_intercept(later, host) {
        let i = choose|i: int|
            0 <= i < later.len() && pattern::pattern_matches_host(
                (#[trigger] later[i]).pattern,
                host,
            );
        assert(all[earlier.len() + i] == later[i]);
    }
    if rules_intercept(all, host) {
        let i = choose|i: int|
            0 <= i < all.len() && pattern::pattern_matches_host((#[trigger] all[i]).pattern, host);
        if i < earlier.len() {
            assert(all[i] == earlier[i]);
        } else {
            assert(all[i] == later[i - earlier.len()]);
        }
    }
    assert(seq![rule][0] == rule);
}

/// The rules intercept every host for whose root, over TLS or not, some rule has something to say,
/// whatever the form of its pattern. Only the start of a host in a URL is no rule about it.
pub proof fn law_matched_hosts_are_intercepted(
    rules: Seq<RuleModel>,
    k: int,
    token: Seq<char>,
    scheme: Seq<char>,
    host: Seq<char>,
)
    requires
        0 <= k < rules.len(),
        pattern::pattern_of(token) == Some(rules[k].pattern),
        scheme == "https"@ || scheme == "http"@,
        pattern::pattern_matches(rules[k].pattern, pattern::input_of(scheme, host, "/"@)),
        rules[k].pattern is UrlPrefix ==> token.len() >= scheme.len() + 3 + host.len(),
        host.len() > 0,
        seqs::lacks(host, ':') && seqs::lacks(host, '/') && seqs::lacks(host, '?') && seqs::lacks(
            host,
            '#',
        ),
        seqs::lower(host) == host,
    ensures
        rules_intercept(rules, host),
{
    pattern::law_matched_host_is_about_host(token, scheme, host);
}

/// A text with one rule says its operation of the requests that its pattern matches, and nothing of
/// any other.
pub proof fn law_rule_speaks_of_what_it_matches(
    token: Seq<char>,
    protocol: Seq<char>,
    value: Seq<char>,
    input: InputText,
)
    requires
        pattern::pattern_candidate(token),
        token.len() > 0,
        forall|i: int|
            0 <= i < token.len() ==> !seqs::is_space(#[trigger] token[i]) && token[i] != '#',
        seqs::lacks(protocol, ':'),
        forall|i: int|
            0 <= i < protocol.len() ==> !seqs::is_space(#[trigger] protocol[i]) && protocol[i]
                != '#',
        forall|i: int|
            0 <= i < value.len() ==> !seqs::is_space(#[trigger] value[i]) && value[i] != '#',
        !is_control(protocol),
    ensures
        ({
            let word = protocol + seq![':', '/', '/'] + value;
            let text = token + seq![' '] + word;
            match pattern::pattern_of(token) {
                Some(p) => {
                    &&& parse_model(text) is Ok
                    &&& match_model(parse_model(text)->Ok_0, input) == if pattern::pattern_matches(
                        p,
                        input,
                    ) {
                        seq![OpText { protocol, value, raw: word }]
                    } else {
                        seq![]
                    }
                },
                None => parse_model(text) == Err::<Seq<RuleModel>, int>(1),
            }
        }),
{
    let word = protocol + seq![':', '/', '/'] + value;
    let text = token + seq![' '] + word;
    let tokens = seq![token, word];
    lemma_word_of_parts(protocol, value);
    assert forall|i: int| 0 <= i < tokens.len() implies (#[trigger] tokens[i]).len() > 0 && forall|
        j: int,
    |
        0 <= j < tokens[i].len() ==> !seqs::is_space(#[trigger] tokens[i][j]) by {
        assert(tokens[i] == token || tokens[i] == word);
    }
    assert(tokens.drop_last() =~= seq![token]);
    seqs::law_parts_are_joined_in_order(seq![token], seq![' '], word);
    assert(seq![token].push(word) =~= tokens);
    assert(seqs::join(seq![token], seq![' ']) == token);
    assert(seqs::join(tokens, seq![' ']) == text);
    assert forall|i: int| 0 <= i < text.len() implies #[trigger] text[i] != '#' && text[i]
        != '\n' by {
        if i < token.len() {
            assert(text[i] == token[i]);
            assert(!seqs::is_space(token[i]));
        } else if i > token.len() {
            assert(text[i] == word[i - token.len() - 1]);
            assert(!seqs::is_space(word[i - token.len() - 1]));
        }
    }
    law_line_is_read_by_words(tokens);
    law_first_candidate_is_the_pattern(Seq::empty(), token, seq![word]);
    assert(Seq::<Seq<char>>::empty() + seq![token] + seq![word] =~= tokens);
    law_rules_are_those_of_the_lines(text, text);
    operation::law_operation_is_read_at_the_separator(protocol, value);
    let op = OpText { protocol, value, raw: word };
    if let Some(p) = pattern::pattern_of(token) {
        let r = parse_model(text)->Ok_0[0];
        let rules = parse_model(text)->Ok_0;
        assert(rules =~= seq![r]);
        assert(r.operations =~= seq![op]);
        law_rules_are_collected_in_order(Seq::empty(), r, input);
        assert(lets_through(op, input));
        assert(filters_pass(r.operations, input)) by {
            assert forall|i: int| 0 <= i < r.operations.len() implies lets_through(
                #[trigger] r.operations[i],
                input,
            ) by {
                assert(r.operations[i] == op);
            }
        }
        lemma_one_is_said(rules, input, op);
    }
}

proof fn lemma_word_of_parts(protocol: Seq<char>, value: Seq<char>)
    requires
        forall|i: int|
            0 <= i < protocol.len() ==> !seqs::is_space(#[trigger] protocol[i]) && protocol[i]
                != '#',
        forall|i: int|
            0 <= i < value.len() ==> !seqs::is_space(#[trigger] value[i]) && value[i] != '#',
    ensures
        ({
            let word = protocol + seq![':', '/', '/'] + value;
            &&& word.len() > 0
            &&& forall|i: int|
                0 <= i < word.len() ==> !seqs::is_space(#[trigger] word[i]) && word[i] != '#'
        }),
{
    let word = protocol + seq![':', '/', '/'] + value;
    assert forall|i: int| 0 <= i < word.len() implies !seqs::is_space(#[trigger] word[i]) && word[i]
        != '#' by {
        if i < protocol.len() {
            assert(word[i] == protocol[i]);
        } else if i >= protocol.len() + 3 {
            assert(word[i] == value[i - protocol.len() - 3]);
        }
    }
}

// Nothing is ignored where one operation, of a protocol that steers nothing, was collected, or none.
proof fn lemma_one_is_said(rules: Seq<RuleModel>, input: InputText, op: OpText)
    requires
        !is_control(op.protocol),
        collected(rules, input, rules.len() as int) == seq![op] || collected(
            rules,
            input,
            rules.len() as int,
        ) == Seq::<OpText>::empty(),
    ensures
        match_model(rules, input) == collected(rules, input, rules.len() as int),
{
    let ops = collected(rules, input, rules.len() as int);
    operation::law_one_operation_has_one_value(op, "ignore"@);
    operation::lemma_values_of_more(ops, op, "ignore"@);
    assert(operation::all_of(ops, "ignore"@).len() == 0);
    let keep = |o: OpText| !is_control(o.protocol);
    assert forall|i: int| 0 <= i < ops.len() implies keep(#[trigger] ops[i]) by {}
    seqs::lemma_keep_all(ops, keep);
}

} // verus!
