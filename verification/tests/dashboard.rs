use whistle::capture::{Header, Traffic, WsMessage};
use whistle::config::{data_dir, default_data_dir, join_path, log_level, Config};
use whistle::form::Params;
use whistle::panel::{self, Reply};
use whistle::pid::{
    json_number_field, parse_pid_bytes, parse_pid_file, pid_file_path, write_pid, PidInfo,
};
use whistle::routes::{must_apply, must_save, Endpoint};
use whistle::rules::RuleSet;
use whistle::sessions::{
    content_type, frames_for, is_cgi, network_data, parse_cursor, reversed, session, session_id,
    session_rules,
};
use whistle::store::WhistleData;

fn form(body: &str) -> Params {
    Params::parse(body)
}

fn record(id: u64) -> Traffic {
    Traffic::started_at(id, "http", "GET", "http://x/", "x", "c", 1000 + id)
}

#[test]
fn default_bind_addr() {
    let cfg = Config::default();
    assert_eq!(cfg.bind_addr(), "127.0.0.1:8899");
}

#[test]
fn effective_text_combines_default_and_selected() {
    let mut d = WhistleData {
        default_rules: "a.com host://1.1.1.1".into(),
        ..Default::default()
    };
    d.add_rule("g1", "b.com host://2.2.2.2");
    d.add_rule("g2", "c.com host://3.3.3.3");
    assert_eq!(d.effective_text(), "a.com host://1.1.1.1");
    d.select_rule("g2");
    let t = d.effective_text();
    assert!(t.contains("a.com"));
    assert!(t.contains("c.com"));
    assert!(!t.contains("b.com"));
}

#[test]
fn single_choice_replaces_selection() {
    let mut d = WhistleData::default();
    d.add_rule("g1", "x");
    d.add_rule("g2", "y");
    d.select_rule("g1");
    d.select_rule("g2");
    assert_eq!(d.enabled_count(), 1);
    assert!(!d.rules[0].selected);
    assert!(d.rules[1].selected);
}

#[test]
fn multi_choice_keeps_multiple() {
    let mut d = WhistleData {
        allow_multiple_choice: true,
        ..Default::default()
    };
    d.add_rule("g1", "x");
    d.add_rule("g2", "y");
    d.select_rule("g1");
    d.select_rule("g2");
    assert_eq!(d.enabled_count(), 2);
}

#[test]
fn disabled_all_rules_yields_empty() {
    let mut d = WhistleData {
        default_rules: "a.com host://1.1.1.1".into(),
        disabled_all_rules: true,
        ..Default::default()
    };
    assert_eq!(d.effective_text(), "");
    d.disabled_all_rules = false;
    d.default_disabled = true;
    assert_eq!(d.effective_text(), "");
}

#[test]
fn rename_and_remove_and_recycle() {
    let mut d = WhistleData::default();
    d.add_rule("g1", "x");
    assert!(d.rename_rule("g1", "g2"));
    assert!(whistle::store::find_item(&d.rules, "g2").is_some());
    assert!(d.remove_rule("g2"));
    assert_eq!(d.rules.len(), 0);
    assert_eq!(d.rules_recycle.len(), 1);
}

#[test]
fn move_to_reorders() {
    let mut d = WhistleData::default();
    d.add_rule("a", "1");
    d.add_rule("b", "2");
    d.add_rule("c", "3");
    assert!(d.move_rule_to("a", "c"));
    let names: Vec<&str> = d.rules.iter().map(|r| r.name.as_str()).collect();
    assert_eq!(names, vec!["b", "c", "a"]);
}

#[test]
fn put_rules_updates_shared_state() {
    let mut rules = RuleSet::default();
    let mut shown = String::new();
    let body = "example.com host://1.2.3.4".to_string();
    let set = RuleSet::parse(&body).unwrap();
    assert_eq!(set.len(), 1);
    assert_eq!(panel::replace_rules(&mut rules, &mut shown, &body, &[]).unwrap(), 1);
    assert_eq!(rules.len(), 1);
    assert_eq!(shown, body);
    assert!(panel::replace_rules(&mut rules, &mut shown, "/(/ host://1.1.1.1", &[]).is_err());
    assert_eq!(rules.len(), 1);
    assert_eq!(shown, body);
}

/// The edited data, the rules in use and what was last saved.
#[derive(Default)]
struct Editor {
    data: WhistleData,
    rules: RuleSet,
    shown: String,
    saved: Option<WhistleData>,
}

impl Editor {
    /// Answers a form as the dashboard does: edits, applies and saves.
    fn post(&mut self, e: Endpoint, body: &str) -> Reply {
        let reply = panel::edit(&mut self.data, e, &form(body));
        if must_apply(e) {
            panel::apply_rules(&self.data, &mut self.rules, &mut self.shown, &[]).unwrap();
        }
        if must_save(e) {
            self.saved = Some(self.data.clone());
        }
        reply
    }

    fn chosen(&mut self, e: Endpoint, body: &str) -> panel::Choice {
        match self.post(e, body) {
            Reply::Chosen(c) => c,
            _ => panic!("a choice is answered"),
        }
    }
}

#[test]
fn editing_rules_updates_effective_ruleset_and_persists() {
    let mut s = Editor::default();
    assert!(s.saved.is_none());

    let r = s.post(Endpoint::RulesAdd, "name=g1&value=a.com%20host%3A%2F%2F1.1.1.1&selected=1");
    assert!(matches!(r, Reply::Done));
    assert_eq!(s.rules.len(), 1);

    let items = panel::rules_list_items(&s.data);
    let g1 = items.iter().find(|x| x.name == "g1").unwrap();
    assert_eq!(g1.selected, true);
    assert!(g1.data.contains("a.com"));

    let c = s.chosen(Endpoint::RulesSelect, "name=g1&value=a.com%20host%3A%2F%2F9.9.9.9");
    assert_eq!(c.list[0], "g1");
    assert!(s.shown.contains("9.9.9.9"));

    let c = s.chosen(Endpoint::RulesEnableDefault, "value=b.com%20host%3A%2F%2F2.2.2.2");
    assert_eq!(c.default_disabled, false);
    assert_eq!(s.rules.len(), 2);

    s.post(Endpoint::RulesDisableAll, "disabledAllRules=1");
    assert_eq!(s.rules.len(), 0);
    s.post(Endpoint::RulesDisableAll, "disabledAllRules=0");
    assert_eq!(s.rules.len(), 2);

    let saved = s.saved.expect("what was edited is saved");
    assert!(saved.rules.iter().any(|x| x.name == "g1"));
    assert!(saved.default_rules.contains("b.com"));
}

#[test]
fn every_edit_is_saved_and_rules_are_applied() {
    let mut s = Editor::default();
    for body in ["name=a&value=x", "name=b&value=y"] {
        s.post(Endpoint::ValuesAdd, body);
        s.post(Endpoint::RulesAdd, body);
    }
    s.post(Endpoint::RulesRemove, "name=a");
    s.post(Endpoint::ValuesRemove, "name=a");
    assert_eq!(s.saved.as_ref().unwrap().rules_recycle.len(), 1);
    let r = s.post(Endpoint::RulesRecycleRemove, "name=a");
    assert!(matches!(r, Reply::Names(list) if list.is_empty()));
    assert!(s.saved.as_ref().unwrap().rules_recycle.is_empty());
    assert_eq!(s.saved.as_ref().unwrap().values_recycle.len(), 1);
    s.post(Endpoint::ValuesRecycleRemove, "name=a");
    assert!(s.saved.as_ref().unwrap().values_recycle.is_empty());

    assert!(must_save(Endpoint::ValuesAdd) && !must_apply(Endpoint::ValuesAdd));
    assert!(must_save(Endpoint::RulesRecycleRemove) && !must_apply(Endpoint::RulesRecycleRemove));
    assert!(must_save(Endpoint::RulesMoveTo) && must_apply(Endpoint::RulesMoveTo));
    assert!(!must_save(Endpoint::RulesList) && !must_apply(Endpoint::RulesList));
    assert!(!must_save(Endpoint::InterceptHttpsConnects));
}

#[test]
fn renaming_says_whether_it_was_done() {
    let mut s = Editor::default();
    for body in ["name=a&value=x", "name=b&value=y"] {
        s.post(Endpoint::ValuesAdd, body);
        s.post(Endpoint::RulesAdd, body);
    }
    for e in [Endpoint::RulesRename, Endpoint::ValuesRename] {
        assert!(matches!(s.post(e, "name=a&newName=b"), Reply::Outcome(false)));
        assert!(matches!(s.post(e, "name=q&newName=c"), Reply::Outcome(false)));
        assert!(matches!(s.post(e, "name=a&newName=c"), Reply::Outcome(true)));
    }
    assert_eq!(whistle::store::item_names(&s.data.rules), vec!["c", "b"]);
    assert_eq!(whistle::store::item_names(&s.data.values), vec!["c", "b"]);
    assert!(matches!(s.post(Endpoint::RulesMoveTo, "from=q&to=b"), Reply::Outcome(false)));
    assert!(matches!(s.post(Endpoint::RulesList, "name=c&newName=d"), Reply::Done));
    assert_eq!(s.data.rules[0].name, "c");
}

#[test]
fn editing_values_roundtrips() {
    let mut d = WhistleData::default();
    assert!(panel::values_add(&mut d, &form("name=tok&value=secret123")).is_none());
    let item = d.values.iter().find(|x| x.name == "tok").unwrap();
    assert_eq!(item.data, "secret123");
    assert_eq!(panel::values_value(&d, "tok"), "secret123");
    panel::values_remove(&mut d, &form("name=tok"));
    assert!(d.values.is_empty());
    assert_eq!(whistle::store::item_names(&d.values_recycle)[0], "tok");
}

#[test]
fn single_vs_multiple_choice() {
    let mut d = WhistleData::default();
    panel::rules_add(&mut d, &form("name=a&value=x"));
    panel::rules_add(&mut d, &form("name=b&value=y"));
    panel::rules_select(&mut d, &form("name=a&value=x"));
    let r = panel::rules_select(&mut d, &form("name=b&value=y"));
    assert_eq!(r.list.len(), 1);
    assert_eq!(r.list[0], "b");
    panel::rules_allow_multiple(&mut d, &form("allowMultipleChoice=1"));
    panel::rules_select(&mut d, &form("name=a&value=x"));
    let r = panel::rules_select(&mut d, &form("name=b&value=y"));
    assert_eq!(r.list.len(), 2);
    panel::rules_allow_multiple(&mut d, &form("allowMultipleChoice=0"));
    assert_eq!(d.selected_names(), vec!["b".to_string()]);
}

#[test]
fn session_rules_builds_whistle_structure() {
    let mut t = Traffic::new(1, "http", "GET", "http://h.test/x", "h.test", "c");
    t.rules = vec![
        "reqHeaders://swimlane=abc".to_string(),
        "host://1.2.3.4".to_string(),
    ];
    let v = session_rules(&t);
    assert!(v.iter().any(|g| g.name == "reqHeaders"));
    assert!(v.iter().any(|g| g.name == "host"));
    let rh = &v[0];
    assert_eq!(rh.pattern, "h.test");
    assert_eq!(rh.matchers[0], "reqHeaders://swimlane=abc");
    assert_eq!(rh.raws[0], "h.test reqHeaders://swimlane=abc");
    assert_eq!(rh.raws.len(), 1);
    assert_eq!(rh.matchers.len(), 1);
    let empty = Traffic::new(2, "http", "GET", "http://h/", "h", "c");
    assert!(session_rules(&empty).is_empty());
}

#[test]
fn rules_of_one_protocol_stand_together() {
    let mut t = record(1);
    t.rules = vec!["ua://a".to_string(), "1.1.1.1".to_string(), "ua://b".to_string()];
    let v = session_rules(&t);
    assert_eq!(v.len(), 2);
    assert_eq!(v[0].matchers, vec!["ua://a".to_string(), "ua://b".to_string()]);
    assert_eq!(v[1].name, "host");
}

#[test]
fn forms_are_read() {
    let p = form("a=1&a=2&list%5B%5D=x&list=y&b=+%26&on=1&off=0&no=false&empty=");
    assert_eq!(p.get("a"), Some("1"));
    assert_eq!(p.get("c"), None);
    assert_eq!(p.list("list"), vec!["x".to_string(), "y".to_string()]);
    assert_eq!(p.text("b"), " &");
    assert_eq!(p.text("c"), "");
    assert!(p.truthy("on"));
    assert!(!p.truthy("off") && !p.truthy("no") && !p.truthy("empty") && !p.truthy("c"));
    let q = Params::of(vec![("k".to_string(), "v".to_string())]);
    assert_eq!(q.get("k"), Some("v"));
}

#[test]
fn groups_are_saved_moved_and_recycled() {
    let mut d = WhistleData::default();
    for n in ["a", "b", "c"] {
        assert!(d.add_rule(n, "1"));
    }
    assert!(!d.add_rule("b", "2"));
    assert_eq!(d.rules[1].data, "2");
    assert!(panel::rules_move_to(&mut d, &form("from=c&to=a")));
    let names = whistle::store::item_names(&d.rules);
    assert_eq!(names, vec!["c".to_string(), "a".to_string(), "b".to_string()]);
    assert!(panel::rules_move_to(&mut d, &form("from=c&to=a")));
    assert_eq!(d.rules[0].name, "a");
    assert_eq!(d.rules[1].name, "c");
    assert!(panel::rules_move_to(&mut d, &form("from=b&to=x&toTop=true")));
    assert_eq!(d.rules[0].name, "b");
    assert!(!panel::rules_move_to(&mut d, &form("from=b&to=x")));
    assert!(!panel::rules_move_to(&mut d, &form("from=b")));
    panel::rules_remove(&mut d, &form("list[]=a&list[]=c&list[]=x"));
    assert_eq!(d.rules.len(), 1);
    assert_eq!(whistle::store::item_names(&d.rules_recycle), vec!["a".to_string(), "c".to_string()]);
    let left = panel::rules_add(&mut d, &form("name=a&value=9&recycleFilename=a&addToTop=1")).unwrap();
    assert_eq!(left, vec!["c".to_string()]);
    assert_eq!(d.rules[0].name, "a");
    assert_eq!(panel::rules_recycle_remove(&mut d, &form("name=c")).len(), 0);
    assert!(panel::rules_add(&mut d, &form("value=9")).is_none());
    assert_eq!(d.rules.len(), 2);
    assert!(!panel::rules_rename(&mut d, &form("name=a&newName=b")));
    assert_eq!(d.rules[0].name, "a");
    assert!(panel::rules_rename(&mut d, &form("name=a&newName=z")));
    assert_eq!(d.rules[0].name, "z");
}

#[test]
fn default_group_stands_for_the_default_rules() {
    let mut d = WhistleData::default();
    panel::rules_disable_default(&mut d);
    assert!(d.default_disabled);
    panel::rules_add(&mut d, &form("name=Default&value=x"));
    assert_eq!(d.default_rules, "x");
    assert!(d.default_disabled);
    panel::rules_add(&mut d, &form("name=Default&value=y&selected=1"));
    assert!(!d.default_disabled);
    assert!(d.rules.is_empty());
    panel::rules_add(&mut d, &form("name=g&value=z&selected=1"));
    assert_eq!(d.effective_text(), "y\nz");
    panel::rules_back_first(&mut d, &form("backRulesFirst=1"));
    assert_eq!(d.effective_text(), "z\ny");
    let c = panel::rules_unselect(&mut d, &form("name=g&value=  "));
    assert!(c.list.is_empty());
    assert_eq!(d.effective_text(), "y");
}

#[test]
fn removed_groups_are_kept_up_to_a_limit() {
    let mut d = WhistleData::default();
    for i in 0..70 {
        let n = format!("g{i}");
        d.add_rule(&n, "x");
        assert!(d.remove_rule(&n));
    }
    assert_eq!(d.rules_recycle.len(), 64);
    assert_eq!(d.rules_recycle[0].name, "g6");
    assert!(!d.remove_rule("g1"));
}

#[test]
fn values_are_renamed_and_moved() {
    let mut d = WhistleData::default();
    panel::values_add(&mut d, &form("name=a&value=1"));
    panel::values_add(&mut d, &form("name=b&value=2"));
    assert!(!panel::values_rename(&mut d, &form("name=a&newName=b")));
    assert_eq!(d.values[0].name, "a");
    assert!(panel::values_rename(&mut d, &form("name=a&newName=c")));
    assert!(panel::values_move_to(&mut d, &form("from=c&to=b")));
    assert_eq!(d.values[1].name, "c");
    assert!(!panel::values_move_to(&mut d, &form("from=c&to=q")));
    panel::values_remove(&mut d, &form("name=c"));
    assert_eq!(whistle::store::item_data(&d.values_recycle, "c"), Some("1".to_string()));
    assert_eq!(whistle::store::item_data(&d.values_recycle, "d"), None);
    let left = panel::values_add(&mut d, &form("name=c&value=1&recycleFilename=c")).unwrap();
    assert!(left.is_empty());
    assert!(panel::values_recycle_remove(&mut d, &form("name=c")).is_empty());
    assert_eq!(panel::values_value(&d, "q"), "");
}

#[test]
fn headings_are_not_rules() {
    let mut d = WhistleData::default();
    d.add_rule("\rgroup", "x");
    d.select_rule("\rgroup");
    let items = panel::rules_list_items(&d);
    assert_eq!(items[0].data, "");
    assert!(!items[0].selected);
    assert_eq!(items[0].index, 0);
    assert_eq!(panel::data_path("/d"), "/d/whistle-ui.json");
}

#[test]
fn session_ids_are_read_back() {
    let t = record(7);
    assert_eq!(session_id(&t), "1007-7");
    assert_eq!(parse_cursor(&session_id(&t)), Some(7));
    assert_eq!(parse_cursor("0"), None);
    assert_eq!(parse_cursor("-1"), None);
    assert_eq!(parse_cursor(""), None);
    assert_eq!(parse_cursor("12"), Some(12));
    assert_eq!(parse_cursor("1-x"), None);
}

#[test]
fn sessions_show_records() {
    let mut t = record(3);
    t.protocol = "wss".to_string();
    t.status = Some(201);
    t.duration_ms = Some(5);
    t.req_body = Some("q".to_string());
    t.req_headers = vec![
        Header { name: "X-A".to_string(), value: "1".to_string() },
        Header { name: "x-a".to_string(), value: "2".to_string() },
    ];
    let s = session(&t);
    assert_eq!(s.id, "1003-3");
    assert!(s.is_https);
    assert_eq!(s.end_time, 1008);
    assert_eq!(s.status, 201);
    assert_eq!(s.req_headers, vec![("x-a".to_string(), "2".to_string())]);
    assert_eq!(s.req_names, vec![("x-a".to_string(), "x-a".to_string())]);
    assert_eq!(s.req_body, "q");
    assert_eq!(s.res_body, "");
    assert_eq!(session(&record(4)).status, 0);
    assert!(!session(&record(4)).is_https);
}

#[test]
fn polls_give_what_is_new() {
    let all: Vec<Traffic> = (1..6).map(record).collect();
    let r = network_data(&all, Some("1003-3"), Some("1001-1,9-9,"), None);
    assert_eq!(r.new_ids, vec!["1004-4".to_string(), "1005-5".to_string()]);
    let shown: Vec<&str> = r.sessions.iter().map(|s| s.id.as_str()).collect();
    assert_eq!(shown, vec!["1004-4", "1005-5", "1001-1"]);
    assert_eq!(r.ids, vec!["1001-1".to_string(), "9-9".to_string()]);
    assert_eq!(r.last_id.as_deref(), Some("1005-5"));
    assert_eq!(r.end_id.as_deref(), Some("1005-5"));
    let none = network_data(&all, Some("1005-5"), None, None);
    assert!(none.new_ids.is_empty());
    assert_eq!(none.last_id.as_deref(), Some("1005-5"));
    let empty = network_data(&Vec::new(), None, None, None);
    assert!(empty.last_id.is_none() && empty.end_id.is_none());
}

#[test]
fn polls_are_bounded() {
    let all: Vec<Traffic> = (1..701).map(record).collect();
    let first = network_data(&all, None, None, None);
    assert_eq!(first.new_ids.len(), 600);
    assert_eq!(first.new_ids[0], "1101-101");
    let after = network_data(&all, Some("10"), None, None);
    assert_eq!(after.new_ids.len(), 600);
    assert_eq!(after.new_ids[0], "1011-11");
    assert_eq!(after.last_id.as_deref(), Some("1610-610"));
    assert_eq!(after.end_id.as_deref(), Some("1700-700"));
}

#[test]
fn frames_are_shown() {
    let mut t = record(2);
    t.push_ws(WsMessage { dir: "send".to_string(), opcode: 1, text: Some("x".to_string()), size: 1 }, 9);
    t.push_ws(WsMessage { dir: "recv".to_string(), opcode: 8, text: None, size: 0 }, 9);
    let all = reversed(vec![t, record(1)]);
    assert_eq!(all[0].id, 1);
    let f = frames_for(&all, "1002-2").unwrap();
    assert_eq!(f.len(), 2);
    assert!(f[0].is_client && !f[1].is_client);
    assert_eq!(f[1].frame_id, "1002-1");
    assert_eq!(f[0].text, "x");
    assert!(f[1].closed);
    assert!(frames_for(&all, "7").is_none());
    assert_eq!(frames_for(&all, "1").unwrap().len(), 0);
    assert_eq!(network_data(&all, None, None, Some("2")).frames.len(), 2);
    assert_eq!(network_data(&all, None, None, Some("7")).frames.len(), 0);
}

#[test]
fn files_of_the_dashboard_have_types() {
    assert_eq!(content_type("js/index.js"), "application/javascript; charset=utf-8");
    assert_eq!(content_type("a.woff2"), "font/woff2");
    assert_eq!(content_type("x.HTML"), "application/octet-stream");
    assert!(is_cgi("cgi-bin/x"));
    assert!(!is_cgi("img/cgi-bin/x"));
}

#[test]
fn directories_are_joined() {
    assert_eq!(join_path("/a", "b"), "/a/b");
    assert_eq!(join_path("/a/", "b"), "/a/b");
    assert_eq!(join_path("", "b"), "b");
    assert_eq!(join_path("/a", "/b"), "/b");
    assert_eq!(default_data_dir(Some("/home/x")), "/home/x/.whistle-rs");
    assert_eq!(default_data_dir(None), "./.whistle-rs");
    let mut c = Config::default();
    assert_eq!(data_dir(&c, Some("/h")), "/h/.whistle-rs");
    c.data_dir = Some("/d".to_string());
    assert_eq!(data_dir(&c, Some("/h")), "/d");
    assert_eq!(c.clone().ui_addr(), "127.0.0.1:8900");
    assert_eq!((log_level(0), log_level(1), log_level(9)), ("info", "debug", "trace"));
}

#[test]
fn pid_file_is_read_back() {
    let info = PidInfo { pid: 4294967295, port: 8899, ui_port: 1 };
    assert_eq!(write_pid(info), "{\"pid\":4294967295,\"port\":8899,\"ui_port\":1}");
    assert_eq!(parse_pid_file(&write_pid(info)), Some(info));
    assert_eq!(parse_pid_file("{\"pid\" : 7, \"port\": 1, \"ui_port\": 2}").unwrap().pid, 7);
    assert_eq!(parse_pid_file("{\"pid\":7,\"port\":70000,\"ui_port\":2}"), None);
    assert_eq!(parse_pid_file("{\"pid\":7}"), None);
    assert_eq!(json_number_field("{\"a\":x}", "a"), None);
    assert_eq!(json_number_field("{\"a\" 1}", "a"), None);
    assert_eq!(pid_file_path("/d"), "/d/whistle-rs.pid");
}

#[test]
fn damaged_pid_file_reads_as_none() {
    let info = PidInfo { pid: 7, port: 8899, ui_port: 8900 };
    let good = write_pid(info).into_bytes();
    assert_eq!(parse_pid_bytes(&good), Some(info));
    assert_eq!(parse_pid_bytes(&[0xff, 0xfe]), None);
    assert_eq!(parse_pid_bytes(&[]), None);
    let mut bad = good.clone();
    bad.push(0xc3);
    assert_eq!(parse_pid_bytes(&bad), None);
}

#[test]
fn polls_go_on_where_they_ended() {
    let all: Vec<Traffic> =
        (1..=700).map(|i| Traffic::started_at(i, "http", "GET", "http://a/", "a", "c", 9)).collect();
    let first = network_data(&all, Some("9-0001"), None, None);
    assert_eq!(first.new_ids.len(), 600);
    assert_eq!(first.new_ids[0], "9-2");
    let last = first.last_id.unwrap();
    assert_eq!(last, "9-601");
    let second = network_data(&all, Some(&last), None, None);
    assert_eq!(second.new_ids.len(), 99);
    assert_eq!(second.new_ids[0], "9-602");
    assert_eq!(second.last_id, second.end_id);
}

#[test]
fn names_stay_unique() {
    let mut d = WhistleData::default();
    for name in ["a", "b", "c"] {
        d.add_rule(name, "x");
    }
    assert!(d.move_rule_to("c", "a") && d.move_rule_top("b") && d.select_rule("a"));
    assert_eq!(whistle::store::item_names(&d.rules), vec!["b", "c", "a"]);
}

#[test]
fn removed_items_are_kept_once_and_forgotten_whole() {
    let mut d = WhistleData::default();
    for data in ["1", "2"] {
        d.add_rule("g", data);
        d.add_rule("h", data);
        assert!(d.remove_rule("g") && d.remove_rule("h"));
        d.add_value("v", data);
        assert!(d.remove_value("v"));
    }
    assert_eq!(whistle::store::item_names(&d.rules_recycle), vec!["g", "h"]);
    assert_eq!(d.rules_recycle[0].data, "2");
    assert_eq!(d.values_recycle.len(), 1);
    let again = d.rules_recycle[0].clone();
    d.rules_recycle.push(again);
    assert!(d.drop_recycled_rule("g"));
    assert_eq!(whistle::store::item_names(&d.rules_recycle), vec!["h"]);
    assert!(!d.drop_recycled_rule("g"));
    assert!(d.drop_recycled_value("v"));
    assert!(d.values_recycle.is_empty());
}

#[test]
fn plugins_have_one_address_each() {
    let mut c = Config::default();
    c.set_plugin("p", "h:1");
    c.set_plugin("q", "h:2");
    c.set_plugin("p", "h:3");
    let pairs: Vec<(&str, &str)> =
        c.plugins.iter().map(|p| (p.0.as_str(), p.1.as_str())).collect();
    assert_eq!(pairs, vec![("p", "h:3"), ("q", "h:2")]);
    assert_eq!(c.port, Config::default().port);
}
