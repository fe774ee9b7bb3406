//! Which endpoint of the dashboard a request is for.
use crate::seqs;
use crate::text;
use vstd::prelude::*;

verus! {

/// The methods that an endpoint takes.
#[derive(Debug, PartialEq, Eq, Structural, Clone, Copy)]
pub enum Methods {
    Any,
    Get,
    Post,
    GetOrPost,
    GetOrDelete,
    GetOrPut,
}

/// A method is one of those that an endpoint takes. Who asks for a thing may ask for its head
/// only.
pub open spec fn takes(methods: Methods, method: Seq<char>) -> bool {
    let reads = method == "GET"@ || method == "HEAD"@;
    match methods {
        Methods::Any => true,
        Methods::Get => reads,
        Methods::Post => method == "POST"@,
        Methods::GetOrPost => reads || method == "POST"@,
        Methods::GetOrDelete => reads || method == "DELETE"@,
        Methods::GetOrPut => reads || method == "PUT"@,
    }
}

/// Whether an endpoint takes a method.
pub fn takes_method(methods: Methods, method: &str) -> (r: bool)
    ensures
        r == takes(methods, method@),
{
    let reads = text::same(method, "GET") || text::same(method, "HEAD");
    match methods {
        Methods::Any => true,
        Methods::Get => reads,
        Methods::Post => text::same(method, "POST"),
        Methods::GetOrPost => reads || text::same(method, "POST"),
        Methods::GetOrDelete => reads || text::same(method, "DELETE"),
        Methods::GetOrPut => reads || text::same(method, "PUT"),
    }
}

/// An endpoint of the dashboard.
#[derive(Debug, PartialEq, Eq, Structural, Clone, Copy)]
pub enum Endpoint {
    /// The first page.
    Index,
    /// A file, or something that the server does not have.
    Asset,
    Init,
    GetData,
    GetFrames,
    ServerInfo,
    Status,
    LogGet,
    RulesList,
    RulesEnabled,
    RulesAdd,
    RulesRemove,
    RulesRename,
    RulesSelect,
    RulesUnselect,
    RulesEnableDefault,
    RulesDisableDefault,
    RulesAllowMultiple,
    RulesBackFirst,
    RulesDisableAll,
    RulesMoveTo,
    RulesRecycleList,
    RulesRecycleView,
    RulesRecycleRemove,
    InterceptHttpsConnects,
    ValuesList,
    ValuesAdd,
    ValuesRemove,
    ValuesRename,
    ValuesMoveTo,
    ValuesGet,
    ValuesValue,
    ValuesRecycleList,
    ValuesRecycleView,
    ValuesRecycleRemove,
}

/// The endpoint behind a path of the embedded dashboard, and its methods. What is not listed is a
/// file.
pub open spec fn embedded(path: Seq<char>) -> (Endpoint, Methods) {
    if path == "/"@ {
        (Endpoint::Index, Methods::Get)
    } else if path == "/cgi-bin/init"@ {
        (Endpoint::Init, Methods::Any)
    } else if path == "/cgi-bin/get-data"@ {
        (Endpoint::GetData, Methods::Any)
    } else if path == "/cgi-bin/get-frames"@ {
        (Endpoint::GetFrames, Methods::Any)
    } else if path == "/cgi-bin/server-info"@ {
        (Endpoint::ServerInfo, Methods::Any)
    } else if path == "/cgi-bin/status"@ {
        (Endpoint::Status, Methods::Any)
    } else if path == "/cgi-bin/log/get"@ {
        (Endpoint::LogGet, Methods::Any)
    } else if path == "/cgi-bin/rules/list"@ {
        (Endpoint::RulesList, Methods::Get)
    } else if path == "/cgi-bin/rules/enabled"@ {
        (Endpoint::RulesEnabled, Methods::Get)
    } else if path == "/cgi-bin/rules/add"@ {
        (Endpoint::RulesAdd, Methods::Post)
    } else if path == "/cgi-bin/rules/remove"@ {
        (Endpoint::RulesRemove, Methods::Post)
    } else if path == "/cgi-bin/rules/rename"@ {
        (Endpoint::RulesRename, Methods::Post)
    } else if path == "/cgi-bin/rules/select"@ {
        (Endpoint::RulesSelect, Methods::Post)
    } else if path == "/cgi-bin/rules/unselect"@ {
        (Endpoint::RulesUnselect, Methods::Post)
    } else if path == "/cgi-bin/rules/enable-default"@ {
        (Endpoint::RulesEnableDefault, Methods::Post)
    } else if path == "/cgi-bin/rules/disable-default"@ {
        (Endpoint::RulesDisableDefault, Methods::Post)
    } else if path == "/cgi-bin/rules/allow-multiple-choice"@ {
        (Endpoint::RulesAllowMultiple, Methods::Post)
    } else if path == "/cgi-bin/rules/enable-back-rules-first"@ {
        (Endpoint::RulesBackFirst, Methods::Post)
    } else if path == "/cgi-bin/rules/disable-all-rules"@ {
        (Endpoint::RulesDisableAll, Methods::Post)
    } else if path == "/cgi-bin/rules/move-to"@ {
        (Endpoint::RulesMoveTo, Methods::Post)
    } else if path == "/cgi-bin/rules/recycle/list"@ {
        (Endpoint::RulesRecycleList, Methods::Get)
    } else if path == "/cgi-bin/rules/recycle/view"@ {
        (Endpoint::RulesRecycleView, Methods::Get)
    } else if path == "/cgi-bin/rules/recycle/remove"@ {
        (Endpoint::RulesRecycleRemove, Methods::Post)
    } else if path == "/cgi-bin/intercept-https-connects"@ {
        (Endpoint::InterceptHttpsConnects, Methods::Post)
    } else if path == "/cgi-bin/values/list"@ {
        (Endpoint::ValuesList, Methods::Get)
    } else if path == "/cgi-bin/values/add"@ {
        (Endpoint::ValuesAdd, Methods::Post)
    } else if path == "/cgi-bin/values/remove"@ {
        (Endpoint::ValuesRemove, Methods::Post)
    } else if path == "/cgi-bin/values/rename"@ {
        (Endpoint::ValuesRename, Methods::Post)
    } else if path == "/cgi-bin/values/move-to"@ {
        (Endpoint::ValuesMoveTo, Methods::Post)
    } else if path == "/cgi-bin/values/get"@ {
        (Endpoint::ValuesGet, Methods::Get)
    } else if path == "/cgi-bin/values/value"@ {
        (Endpoint::ValuesValue, Methods::Get)
    } else if path == "/cgi-bin/values/recycle/list"@ {
        (Endpoint::ValuesRecycleList, Methods::Get)
    } else if path == "/cgi-bin/values/recycle/view"@ {
        (Endpoint::ValuesRecycleView, Methods::Get)
    } else if path == "/cgi-bin/values/recycle/remove"@ {
        (Endpoint::ValuesRecycleRemove, Methods::Post)
    } else {
        (Endpoint::Asset, Methods::GetOrPost)
    }
}

/// The endpoint behind a path of the embedded dashboard, and its methods.
pub fn embedded_of(path: &str) -> (r: (Endpoint, Methods))
    ensures
        r == embedded(path@),
{
    if text::same(path, "/") {
        (Endpoint::Index, Methods::Get)
    } else if text::same(path, "/cgi-bin/init") {
        (Endpoint::Init, Methods::Any)
    } else if text::same(path, "/cgi-bin/get-data") {
        (Endpoint::GetData, Methods::Any)
    } else if text::same(path, "/cgi-bin/get-frames") {
        (Endpoint::GetFrames, Methods::Any)
    } else if text::same(path, "/cgi-bin/server-info") {
        (Endpoint::ServerInfo, Methods::Any)
    } else if text::same(path, "/cgi-bin/status") {
        (Endpoint::Status, Methods::Any)
    } else if text::same(path, "/cgi-bin/log/get") {
        (Endpoint::LogGet, Methods::Any)
    } else if text::same(path, "/cgi-bin/rules/list") {
        (Endpoint::RulesList, Methods::Get)
    } else if text::same(path, "/cgi-bin/rules/enabled") {
        (Endpoint::RulesEnabled, Methods::Get)
    } else if text::same(path, "/cgi-bin/rules/add") {
        (Endpoint::RulesAdd, Methods::Post)
    } else if text::same(path, "/cgi-bin/rules/remove") {
        (Endpoint::RulesRemove, Methods::Post)
    } else if text::same(path, "/cgi-bin/rules/rename") {
        (Endpoint::RulesRename, Methods::Post)
    } else if text::same(path, "/cgi-bin/rules/select") {
        (Endpoint::RulesSelect, Methods::Post)
    } else if text::same(path, "/cgi-bin/rules/unselect") {
        (Endpoint::RulesUnselect, Methods::Post)
    } else if text::same(path, "/cgi-bin/rules/enable-default") {
        (Endpoint::RulesEnableDefault, Methods::Post)
    } else if text::same(path, "/cgi-bin/rules/disable-default") {
        (Endpoint::RulesDisableDefault, Methods::Post)
    } else if text::same(path, "/cgi-bin/rules/allow-multiple-choice") {
        (Endpoint::RulesAllowMultiple, Methods::Post)
    } else if text::same(path, "/cgi-bin/rules/enable-back-rules-first") {
        (Endpoint::RulesBackFirst, Methods::Post)
    } else if text::same(path, "/cgi-bin/rules/disable-all-rules") {
        (Endpoint::RulesDisableAll, Methods::Post)
    } else if text::same(path, "/cgi-bin/rules/move-to") {
        (Endpoint::RulesMoveTo, Methods::Post)
    } else if text::same(path, "/cgi-bin/rules/recycle/list") {
        (Endpoint::RulesRecycleList, Methods::Get)
    } else if text::same(path, "/cgi-bin/rules/recycle/view") {
        (Endpoint::RulesRecycleView, Methods::Get)
    } else if text::same(path, "/cgi-bin/rules/recycle/remove") {
        (Endpoint::RulesRecycleRemove, Methods::Post)
    } else if text::same(path, "/cgi-bin/intercept-https-connects") {
        (Endpoint::InterceptHttpsConnects, Methods::Post)
    } else if text::same(path, "/cgi-bin/values/list") {
        (Endpoint::ValuesList, Methods::Get)
    } else if text::same(path, "/cgi-bin/values/add") {
        (Endpoint::ValuesAdd, Methods::Post)
    } else if text::same(path, "/cgi-bin/values/remove") {
        (Endpoint::ValuesRemove, Methods::Post)
    } else if text::same(path, "/cgi-bin/values/rename") {
        (Endpoint::ValuesRename, Methods::Post)
    } else if text::same(path, "/cgi-bin/values/move-to") {
        (Endpoint::ValuesMoveTo, Methods::Post)
    } else if text::same(path, "/cgi-bin/values/get") {
        (Endpoint::ValuesGet, Methods::Get)
    } else if text::same(path, "/cgi-bin/values/value") {
        (Endpoint::ValuesValue, Methods::Get)
    } else if text::same(path, "/cgi-bin/values/recycle/list") {
        (Endpoint::ValuesRecycleList, Methods::Get)
    } else if text::same(path, "/cgi-bin/values/recycle/view") {
        (Endpoint::ValuesRecycleView, Methods::Get)
    } else if text::same(path, "/cgi-bin/values/recycle/remove") {
        (Endpoint::ValuesRecycleRemove, Methods::Post)
    } else {
        (Endpoint::Asset, Methods::GetOrPost)
    }
}

/// An endpoint of the plain dashboard.
#[derive(Debug, PartialEq, Eq, Structural, Clone, Copy)]
pub enum Page {
    /// The page itself.
    Index,
    Info,
    /// The list of records.
    Records,
    /// The record with this number.
    Record(u64),
    /// A number was expected.
    BadNumber,
    Rules,
    Compose,
    /// The stream of records.
    Stream,
    /// There is nothing.
    Missing,
}

/// The endpoint behind a path of the plain dashboard, and its methods.
pub open spec fn plain(path: Seq<char>) -> (Page, Methods) {
    if path == "/"@ {
        (Page::Index, Methods::Get)
    } else if path == "/api/info"@ {
        (Page::Info, Methods::Get)
    } else if path == "/api/traffic"@ {
        (Page::Records, Methods::GetOrDelete)
    } else if path == "/api/rules"@ {
        (Page::Rules, Methods::GetOrPut)
    } else if path == "/api/compose"@ {
        (Page::Compose, Methods::Post)
    } else if path == "/ws"@ {
        (Page::Stream, Methods::Get)
    } else {
        match seqs::strip_prefix(path, "/api/traffic/"@) {
            Some(rest) => if rest.len() == 0 || seqs::contains(rest, "/"@) {
                (Page::Missing, Methods::Any)
            } else {
                match seqs::parse_number(rest, u64::MAX as nat) {
                    Some(n) => (Page::Record(n as u64), Methods::Get),
                    None => (Page::BadNumber, Methods::Get),
                }
            },
            None => (Page::Missing, Methods::Any),
        }
    }
}

/// The endpoint behind a path of the plain dashboard, and its methods.
pub fn plain_of(path: &str) -> (r: (Page, Methods))
    ensures
        r == plain(path@),
{
    if text::same(path, "/") {
        (Page::Index, Methods::Get)
    } else if text::same(path, "/api/info") {
        (Page::Info, Methods::Get)
    } else if text::same(path, "/api/traffic") {
        (Page::Records, Methods::GetOrDelete)
    } else if text::same(path, "/api/rules") {
        (Page::Rules, Methods::GetOrPut)
    } else if text::same(path, "/api/compose") {
        (Page::Compose, Methods::Post)
    } else if text::same(path, "/ws") {
        (Page::Stream, Methods::Get)
    } else {
        match text::strip_prefix(path, "/api/traffic/") {
            Some(rest) => if rest.is_empty() || text::contains(rest, "/") {
                (Page::Missing, Methods::Any)
            } else {
                match text::parse_number(rest, u64::MAX) {
                    Some(n) => (Page::Record(n), Methods::Get),
                    None => (Page::BadNumber, Methods::Get),
                }
            },
            None => (Page::Missing, Methods::Any),
        }
    }
}

/// An endpoint changes what was edited, or a switch.
pub open spec fn changes(e: Endpoint) -> bool {
    match e {
        Endpoint::RulesAdd
        | Endpoint::RulesRemove
        | Endpoint::RulesRename
        | Endpoint::RulesSelect
        | Endpoint::RulesUnselect
        | Endpoint::RulesEnableDefault
        | Endpoint::RulesDisableDefault
        | Endpoint::RulesAllowMultiple
        | Endpoint::RulesBackFirst
        | Endpoint::RulesDisableAll
        | Endpoint::RulesMoveTo
        | Endpoint::RulesRecycleRemove
        | Endpoint::InterceptHttpsConnects
        | Endpoint::ValuesAdd
        | Endpoint::ValuesRemove
        | Endpoint::ValuesRename
        | Endpoint::ValuesMoveTo
        | Endpoint::ValuesRecycleRemove => true,
        _ => false,
    }
}

/// What an endpoint changes outlasts the program. The switch that opens up all tunnels does not: it
/// begins as it is configured.
pub open spec fn is_kept(e: Endpoint) -> bool {
    changes(e) && e != Endpoint::InterceptHttpsConnects
}

/// Whether what was edited is to be saved once an endpoint has answered.
pub fn must_save(e: Endpoint) -> (r: bool)
    ensures
        r == is_kept(e),
{
    match e {
        Endpoint::RulesAdd
        | Endpoint::RulesRemove
        | Endpoint::RulesRename
        | Endpoint::RulesSelect
        | Endpoint::RulesUnselect
        | Endpoint::RulesEnableDefault
        | Endpoint::RulesDisableDefault
        | Endpoint::RulesAllowMultiple
        | Endpoint::RulesBackFirst
        | Endpoint::RulesDisableAll
        | Endpoint::RulesMoveTo
        | Endpoint::RulesRecycleRemove
        | Endpoint::ValuesAdd
        | Endpoint::ValuesRemove
        | Endpoint::ValuesRename
        | Endpoint::ValuesMoveTo
        | Endpoint::ValuesRecycleRemove => true,
        _ => false,
    }
}

/// What an endpoint changes may change the rules that hold.
pub open spec fn is_applied(e: Endpoint) -> bool {
    match e {
        Endpoint::RulesAdd
        | Endpoint::RulesRemove
        | Endpoint::RulesRename
        | Endpoint::RulesSelect
        | Endpoint::RulesUnselect
        | Endpoint::RulesEnableDefault
        | Endpoint::RulesDisableDefault
        | Endpoint::RulesAllowMultiple
        | Endpoint::RulesBackFirst
        | Endpoint::RulesDisableAll
        | Endpoint::RulesMoveTo => true,
        _ => false,
    }
}

/// Whether the rules that hold are to be found anew once an endpoint has answered.
pub fn must_apply(e: Endpoint) -> (r: bool)
    ensures
        r == is_applied(e),
{
    match e {
        Endpoint::RulesAdd
        | Endpoint::RulesRemove
        | Endpoint::RulesRename
        | Endpoint::RulesSelect
        | Endpoint::RulesUnselect
        | Endpoint::RulesEnableDefault
        | Endpoint::RulesDisableDefault
        | Endpoint::RulesAllowMultiple
        | Endpoint::RulesBackFirst
        | Endpoint::RulesDisableAll
        | Endpoint::RulesMoveTo => true,
        _ => false,
    }
}

/// Nothing is changed but by a POST.
pub proof fn law_changes_need_a_post(path: Seq<char>, method: Seq<char>)
    requires
        changes(embedded(path).0),
        takes(embedded(path).1, method),
    ensures
        method == "POST"@,
{
}

/// Each request of the embedded dashboard has one address, and no other address leads to it. Those
/// that read take what browsers send for a page.
pub proof fn law_addresses_of_the_embedded_dashboard(path: Seq<char>)
    ensures
        embedded(path).0 == Endpoint::Index ==> path == "/"@,
        embedded(path).0 == Endpoint::Init ==> path == "/cgi-bin/init"@,
        embedded(path).0 == Endpoint::GetData ==> path == "/cgi-bin/get-data"@,
        embedded(path).0 == Endpoint::GetFrames ==> path == "/cgi-bin/get-frames"@,
        embedded(path).0 == Endpoint::ServerInfo ==> path == "/cgi-bin/server-info"@,
        embedded(path).0 == Endpoint::Status ==> path == "/cgi-bin/status"@,
        embedded(path).0 == Endpoint::LogGet ==> path == "/cgi-bin/log/get"@,
        embedded(path).0 == Endpoint::RulesList ==> path == "/cgi-bin/rules/list"@,
        embedded(path).0 == Endpoint::RulesEnabled ==> path == "/cgi-bin/rules/enabled"@,
        embedded(path).0 == Endpoint::RulesAdd ==> path == "/cgi-bin/rules/add"@,
        embedded(path).0 == Endpoint::RulesRemove ==> path == "/cgi-bin/rules/remove"@,
        embedded(path).0 == Endpoint::RulesRename ==> path == "/cgi-bin/rules/rename"@,
        embedded(path).0 == Endpoint::RulesSelect ==> path == "/cgi-bin/rules/select"@,
        embedded(path).0 == Endpoint::RulesUnselect ==> path == "/cgi-bin/rules/unselect"@,
        embedded(path).0 == Endpoint::RulesEnableDefault
            ==> path == "/cgi-bin/rules/enable-default"@,
        embedded(path).0 == Endpoint::RulesDisableDefault
            ==> path == "/cgi-bin/rules/disable-default"@,
        embedded(path).0 == Endpoint::RulesAllowMultiple
            ==> path == "/cgi-bin/rules/allow-multiple-choice"@,
        embedded(path).0 == Endpoint::RulesBackFirst
            ==> path == "/cgi-bin/rules/enable-back-rules-first"@,
        embedded(path).0 == Endpoint::RulesDisableAll
            ==> path == "/cgi-bin/rules/disable-all-rules"@,
        embedded(path).0 == Endpoint::RulesMoveTo ==> path == "/cgi-bin/rules/move-to"@,
        embedded(path).0 == Endpoint::RulesRecycleList ==> path == "/cgi-bin/rules/recycle/list"@,
        embedded(path).0 == Endpoint::RulesRecycleView ==> path == "/cgi-bin/rules/recycle/view"@,
        embedded(path).0 == Endpoint::RulesRecycleRemove
            ==> path == "/cgi-bin/rules/recycle/remove"@,
        embedded(path).0 == Endpoint::InterceptHttpsConnects
            ==> path == "/cgi-bin/intercept-https-connects"@,
        embedded(path).0 == Endpoint::ValuesList ==> path == "/cgi-bin/values/list"@,
        embedded(path).0 == Endpoint::ValuesAdd ==> path == "/cgi-bin/values/add"@,
        embedded(path).0 == Endpoint::ValuesRemove ==> path == "/cgi-bin/values/remove"@,
        embedded(path).0 == Endpoint::ValuesRename ==> path == "/cgi-bin/values/rename"@,
        embedded(path).0 == Endpoint::ValuesMoveTo ==> path == "/cgi-bin/values/move-to"@,
        embedded(path).0 == Endpoint::ValuesGet ==> path == "/cgi-bin/values/get"@,
        embedded(path).0 == Endpoint::ValuesValue ==> path == "/cgi-bin/values/value"@,
        embedded(path).0 == Endpoint::ValuesRecycleList ==> path == "/cgi-bin/values/recycle/list"@,
        embedded(path).0 == Endpoint::ValuesRecycleView ==> path == "/cgi-bin/values/recycle/view"@,
        embedded(path).0 == Endpoint::ValuesRecycleRemove
            ==> path == "/cgi-bin/values/recycle/remove"@,
        (path == "/"@ || path == "/cgi-bin/init"@ || path == "/cgi-bin/get-data"@
            || path == "/cgi-bin/get-frames"@ || path == "/cgi-bin/server-info"@
            || path == "/cgi-bin/status"@ || path == "/cgi-bin/log/get"@
            || path == "/cgi-bin/rules/list"@ || path == "/cgi-bin/rules/enabled"@
            || path == "/cgi-bin/rules/add"@ || path == "/cgi-bin/rules/remove"@
            || path == "/cgi-bin/rules/rename"@ || path == "/cgi-bin/rules/select"@
            || path == "/cgi-bin/rules/unselect"@ || path == "/cgi-bin/rules/enable-default"@
            || path == "/cgi-bin/rules/disable-default"@
            || path == "/cgi-bin/rules/allow-multiple-choice"@
            || path == "/cgi-bin/rules/enable-back-rules-first"@
            || path == "/cgi-bin/rules/disable-all-rules"@ || path == "/cgi-bin/rules/move-to"@
            || path == "/cgi-bin/rules/recycle/list"@ || path == "/cgi-bin/rules/recycle/view"@
            || path == "/cgi-bin/rules/recycle/remove"@
            || path == "/cgi-bin/intercept-https-connects"@ || path == "/cgi-bin/values/list"@
            || path == "/cgi-bin/values/add"@ || path == "/cgi-bin/values/remove"@
            || path == "/cgi-bin/values/rename"@ || path == "/cgi-bin/values/move-to"@
            || path == "/cgi-bin/values/get"@ || path == "/cgi-bin/values/value"@
            || path == "/cgi-bin/values/recycle/list"@
            || path == "/cgi-bin/values/recycle/view"@
            || path == "/cgi-bin/values/recycle/remove"@) ==> embedded(path).0 != Endpoint::Asset,
        !changes(embedded(path).0) ==> takes(embedded(path).1, "GET"@)
            && takes(embedded(path).1, "HEAD"@),
        embedded(path).0 == Endpoint::Asset ==> takes(embedded(path).1, "POST"@),
{
}

/// Each page of the plain dashboard has its own address: the records, one record by its number, the
/// rules, a request of one's own, and the stream of events.
pub proof fn law_addresses_of_the_plain_dashboard(path: Seq<char>, id: u64)
    ensures
        plain(path).0 == Page::Index ==> path == "/"@,
        plain(path).0 == Page::Info ==> path == "/api/info"@,
        plain(path).0 == Page::Records ==> path == "/api/traffic"@,
        plain(path).0 == Page::Rules ==> path == "/api/rules"@,
        plain(path).0 == Page::Compose ==> path == "/api/compose"@,
        plain(path).0 == Page::Stream ==> path == "/ws"@,
        path == "/"@ || path == "/api/info"@ || path == "/api/traffic"@ || path == "/api/rules"@
            || path == "/api/compose"@ || path == "/ws"@ ==> plain(path).0 != Page::Missing
            && plain(path).0 != Page::BadNumber && plain(path).0 != Page::Record(id),
        plain("/api/traffic/"@ + seqs::decimal(id as nat)) == (Page::Record(id), Methods::Get),
        plain(path).0 == Page::Records ==> takes(plain(path).1, "GET"@) && takes(
            plain(path).1,
            "DELETE"@,
        ) && !takes(plain(path).1, "POST"@),
        plain(path).0 == Page::Rules ==> takes(plain(path).1, "GET"@) && takes(
            plain(path).1,
            "PUT"@,
        ) && !takes(plain(path).1, "POST"@),
        plain(path).0 == Page::Compose ==> takes(plain(path).1, "POST"@) && !takes(
            plain(path).1,
            "GET"@,
        ),
{
    reveal_strlit("/");
    reveal_strlit("/api/info");
    reveal_strlit("/api/traffic");
    reveal_strlit("/api/rules");
    reveal_strlit("/api/compose");
    reveal_strlit("/ws");
    reveal_strlit("/api/traffic/");
    reveal_strlit("GET");
    reveal_strlit("HEAD");
    reveal_strlit("POST");
    reveal_strlit("PUT");
    reveal_strlit("DELETE");
    assert("GET"@[0] == 'G' && "HEAD"@[0] == 'H' && "POST"@[1] == 'O' && "PUT"@[1] == 'U'
        && "DELETE"@[0] == 'D' && "POST"@[0] == 'P' && "PUT"@[0] == 'P');
    assert("/"@ =~= seq!['/']);
    let d = seqs::decimal(id as nat);
    let p = "/api/traffic/"@ + d;
    seqs::law_decimal_is_read_back(id as nat, u64::MAX as nat);
    seqs::lemma_decimal(id as nat);
    seqs::law_a_start_is_followed_by_the_rest(p, "/api/traffic/"@, d);
    assert(seqs::lacks(d, '/')) by {
        assert forall|i: int| 0 <= i < d.len() implies #[trigger] d[i] != '/' by {
            assert(seqs::is_digit(d[i]));
        }
    }
    seqs::law_characters_are_found(d, '/');
    assert(p.len() > 13);
}

/// What changes the dashboard's settings is kept, but for the switch that holds for this run alone.
/// What changes the rules that apply is applied at once.
pub proof fn law_changes_are_kept_and_applied(e: Endpoint)
    ensures
        is_applied(e) ==> is_kept(e),
        is_kept(e) ==> changes(e),
        e == Endpoint::InterceptHttpsConnects ==> changes(e) && !is_kept(e),
        changes(e) && e != Endpoint::InterceptHttpsConnects ==> is_kept(e),
        e == Endpoint::RulesAdd || e == Endpoint::RulesRemove || e == Endpoint::RulesRename || e
            == Endpoint::RulesSelect || e == Endpoint::RulesUnselect || e
            == Endpoint::RulesEnableDefault || e == Endpoint::RulesDisableDefault || e
            == Endpoint::RulesAllowMultiple || e == Endpoint::RulesBackFirst || e
            == Endpoint::RulesDisableAll || e == Endpoint::RulesMoveTo ==> is_applied(e),
        e == Endpoint::RulesList || e == Endpoint::ValuesList || e == Endpoint::ValuesGet || e
            == Endpoint::Index || e == Endpoint::Asset || e == Endpoint::GetData ==> !changes(e),
{
}

/// A form of request takes the methods in its name, and reading takes `HEAD` where it takes `GET`.
pub proof fn law_methods_are_those_named(methods: Methods, method: Seq<char>)
    ensures
        methods == Methods::Any ==> takes(methods, method),
        takes(methods, "GET"@) == takes(methods, "HEAD"@),
        takes(Methods::Post, method) ==> method == "POST"@,
        takes(Methods::Get, method) ==> method == "GET"@ || method == "HEAD"@,
        takes(Methods::Get, method) || method == "POST"@ <==> takes(Methods::GetOrPost, method),
        takes(Methods::Get, method) || method == "DELETE"@ <==> takes(Methods::GetOrDelete, method),
        takes(Methods::Get, method) || method == "PUT"@ <==> takes(Methods::GetOrPut, method),
        takes(Methods::Post, "POST"@) && takes(Methods::Get, "GET"@),
{
    reveal_strlit("GET");
    reveal_strlit("HEAD");
    reveal_strlit("POST");
    reveal_strlit("PUT");
    reveal_strlit("DELETE");
    assert("GET"@[0] == 'G' && "HEAD"@[0] == 'H' && "POST"@[1] == 'O' && "PUT"@[1] == 'U'
        && "DELETE"@[0] == 'D' && "POST"@[0] == 'P' && "PUT"@[0] == 'P');
}

} // verus!
