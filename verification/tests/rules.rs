use whistle::operation::{all_values, last_value, Operation};
use whistle::pattern::{MatchInput, ParseError};
use whistle::rules::RuleSet;
use whistle::sources::{included_paths, parse_with, with_included};

fn input(url_scheme: &str, host: &str, path: &str) -> MatchInput {
    MatchInput::new(url_scheme, host, path)
}

fn matched(rules: &str, host: &str, path: &str) -> Vec<Operation> {
    RuleSet::parse(rules).unwrap().match_request(&input("http", host, path))
}

#[test]
fn parses_pattern_first() {
    let rs = RuleSet::parse("www.example.com host://1.2.3.4:8080").unwrap();
    assert_eq!(rs.len(), 1);
    let ops = rs.match_request(&input("http", "www.example.com", "/a"));
    assert_eq!(ops.len(), 1);
    assert_eq!(ops[0].protocol, "host");
    assert_eq!(ops[0].value, "1.2.3.4:8080");
}

#[test]
fn operator_first_is_supported() {
    // file:// 不是模式候选，域名才是 pattern。
    let rs = RuleSet::parse("file:///tmp/x.json www.example.com").unwrap();
    let ops = rs.match_request(&input("http", "www.example.com", "/"));
    assert_eq!(ops.len(), 1);
    assert_eq!(ops[0].protocol, "file");
    assert_eq!(ops[0].value, "/tmp/x.json");
}

#[test]
fn bare_value_is_host_shorthand() {
    let rs = RuleSet::parse("example.com 127.0.0.1:9000").unwrap();
    let ops = rs.match_request(&input("http", "example.com", "/"));
    assert_eq!(ops[0].protocol, "host");
    assert_eq!(ops[0].value, "127.0.0.1:9000");
}

#[test]
fn domain_path_prefix_match() {
    let rs = RuleSet::parse("api.example.com/v1 statusCode://503").unwrap();
    // 路径前缀命中
    assert!(!rs
        .match_request(&input("http", "api.example.com", "/v1"))
        .is_empty());
    assert!(!rs
        .match_request(&input("http", "api.example.com", "/v1/users"))
        .is_empty());
    // 路径前缀不符则不命中
    assert!(rs
        .match_request(&input("http", "api.example.com", "/v2"))
        .is_empty());
    assert!(rs
        .match_request(&input("http", "api.example.com", "/other"))
        .is_empty());
}

#[test]
fn wildcard_subdomain() {
    let rs = RuleSet::parse("*.example.com host://10.0.0.1").unwrap();
    assert!(!rs
        .match_request(&input("http", "a.example.com", "/"))
        .is_empty());
    assert!(!rs
        .match_request(&input("http", "b.a.example.com", "/x"))
        .is_empty());
    assert!(rs
        .match_request(&input("http", "example.org", "/"))
        .is_empty());
}

#[test]
fn regex_pattern() {
    let rs = RuleSet::parse(r#"/\.(png|jpg)$/ statusCode://404"#).unwrap();
    assert!(!rs
        .match_request(&input("http", "cdn.x.com", "/a.png"))
        .is_empty());
    assert!(rs
        .match_request(&input("http", "cdn.x.com", "/a.gif"))
        .is_empty());
}

#[test]
fn regex_case_insensitive_flag() {
    let rs = RuleSet::parse("/EXAMPLE/i host://1.1.1.1").unwrap();
    assert!(!rs
        .match_request(&input("http", "example.com", "/"))
        .is_empty());
}

#[test]
fn comments_and_blank_lines_ignored() {
    let text = "# 注释\n\nexample.com host://1.2.3.4 # 行内注释\n";
    let rs = RuleSet::parse(text).unwrap();
    assert_eq!(rs.len(), 1);
    let ops = rs.match_request(&input("http", "example.com", "/"));
    assert_eq!(ops[0].value, "1.2.3.4");
}

#[test]
fn multiple_ops_and_helpers() {
    let rs =
        RuleSet::parse("example.com host://1.2.3.4 reqHeaders://a=1 reqHeaders://b=2").unwrap();
    let ops = rs.match_request(&input("http", "example.com", "/"));
    assert_eq!(last_value(&ops, "host"), Some("1.2.3.4"));
    assert_eq!(all_values(&ops, "reqHeaders"), vec!["a=1", "b=2"]);
}

#[test]
fn url_prefix_pattern() {
    let rs = RuleSet::parse("http://example.com/api redirect://http://localhost/api").unwrap();
    assert!(!rs
        .match_request(&input("http", "example.com", "/api/x"))
        .is_empty());
    assert!(rs
        .match_request(&input("http", "example.com", "/other"))
        .is_empty());
}

#[test]
fn ignore_drops_protocol() {
    let rs = RuleSet::parse("example.com host://1.2.3.4 ignore://host").unwrap();
    let ops = rs.match_request(&input("http", "example.com", "/"));
    // host 被 ignore 剔除，且控制协议本身不返回。
    assert!(ops.is_empty());
}

#[test]
fn ignore_star_drops_all() {
    let rs = RuleSet::parse("example.com host://1.2.3.4 reqHeaders://a=1 ignore://*").unwrap();
    assert!(rs
        .match_request(&input("http", "example.com", "/"))
        .is_empty());
}

#[test]
fn exclude_filter_by_method() {
    let rs = RuleSet::parse("example.com statusCode://418 excludeFilter://m:POST").unwrap();
    let get = input("http", "example.com", "/").with_method("GET");
    let post = input("http", "example.com", "/").with_method("POST");
    assert!(!rs.match_request(&get).is_empty()); // GET 不被排除
    assert!(rs.match_request(&post).is_empty()); // POST 被排除
}

#[test]
fn include_filter_by_pattern() {
    let rs =
        RuleSet::parse("example.com statusCode://503 includeFilter://example.com/api").unwrap();
    assert!(rs
        .match_request(&input("http", "example.com", "/other"))
        .is_empty());
    assert!(!rs
        .match_request(&input("http", "example.com", "/api/x"))
        .is_empty());
}

#[test]
fn later_rules_override_via_last_value() {
    let text = "example.com host://1.1.1.1\nexample.com host://2.2.2.2";
    let rs = RuleSet::parse(text).unwrap();
    let ops = rs.match_request(&input("http", "example.com", "/"));
    assert_eq!(last_value(&ops, "host"), Some("2.2.2.2"));
}

#[test]
fn intercepts_host_only_referenced_hosts() {
    // 域名+路径规则：只命中该 host（即便规则限定了路径）。
    let rs = RuleSet::parse("api.example.com/v1 statusCode://200").unwrap();
    assert!(rs.intercepts_host("api.example.com"));
    assert!(rs.intercepts_host("api.example.com:443"));
    assert!(!rs.intercepts_host("www.baidu.com"));
    assert!(!rs.intercepts_host("other.com"));
}

#[test]
fn intercepts_host_wildcard_and_regex_and_prefix() {
    // 通配符（无 scheme）。
    let w = RuleSet::parse("*.example.com host://1.1.1.1").unwrap();
    assert!(w.intercepts_host("a.example.com"));
    assert!(!w.intercepts_host("example.org"));
    // 正则。
    let re = RuleSet::parse("/baidu\\.com/ host://1.1.1.1").unwrap();
    assert!(re.intercepts_host("www.baidu.com"));
    assert!(!re.intercepts_host("google.com"));
    // URL 前缀。
    let p = RuleSet::parse("https://secure.test/app file:///tmp/x").unwrap();
    assert!(p.intercepts_host("secure.test"));
    assert!(!p.intercepts_host("insecure.test"));
}

#[test]
fn empty_ruleset_intercepts_nothing() {
    let rs = RuleSet::default();
    assert!(!rs.intercepts_host("www.baidu.com"));
}

#[test]
fn token_without_scheme_is_a_host() {
    let op = Operation::parse("1.2.3.4");
    assert_eq!((op.protocol.as_str(), op.value.as_str(), op.raw.as_str()), ("host", "1.2.3.4", "1.2.3.4"));
    let op = Operation::parse("file:///a/b://c");
    assert_eq!((op.protocol.as_str(), op.value.as_str()), ("file", "/a/b://c"));
    let copy = op.clone();
    assert_eq!(copy.raw, "file:///a/b://c");
}

#[test]
fn bad_expression_names_its_line() {
    match RuleSet::parse("a.com host://1.1.1.1\n\n/(/ host://2.2.2.2") {
        Err(ParseError::BadRegex { line, .. }) => assert_eq!(line, 3),
        Ok(_) => panic!("the expression cannot be read"),
    }
}

#[test]
fn values_of_two_lists_keep_their_order() {
    let ops = matched("a.com reqHeaders://a=1\na.com reqHeaders://b=2 reqHeaders://c=3", "a.com", "/");
    assert_eq!(all_values(&ops, "reqHeaders"), vec!["a=1", "b=2", "c=3"]);
    assert_eq!(last_value(&ops, "reqHeaders"), Some("c=3"));
    assert_eq!(last_value(&ops, "ua"), None);
    assert_eq!(all_values(&ops, "ua").len(), 0);
}

#[test]
fn port_and_case_make_no_difference() {
    let rules = "Example.com host://1.1.1.1";
    assert_eq!(matched(rules, "example.com:8080", "/").len(), 1);
    assert_eq!(matched(rules, "EXAMPLE.COM", "/").len(), 1);
    assert_eq!(matched(rules, "example.org", "/").len(), 0);
}

#[test]
fn ignored_protocol_leaves_the_others() {
    let ops = matched("a.com host://1.1.1.1 ua://x ignore://host", "a.com", "/");
    assert_eq!(ops.len(), 1);
    assert_eq!(ops[0].protocol, "ua");
    let later = matched("a.com host://1.1.1.1\na.com ignore://host", "a.com", "/");
    assert!(later.is_empty());
}

#[test]
fn method_is_read_without_case() {
    let rs = RuleSet::parse("a.com statusCode://418 includeFilter://m:post").unwrap();
    assert!(rs.match_request(&input("http", "a.com", "/").with_method("POST")).len() == 1);
    assert!(rs.match_request(&input("http", "a.com", "/").with_method("GET")).is_empty());
}

#[test]
fn rules_about_nothing_say_nothing() {
    let rs = RuleSet::parse("\n   \n# a.com host://1.1.1.1\nhost://1.1.1.1\n").unwrap();
    assert_eq!(rs.len(), 0);
    assert!(rs.is_empty());
    assert!(rs.match_request(&input("http", "a.com", "/")).is_empty());
}

#[test]
fn input_without_path_asks_for_the_root() {
    let i = input("http", "a.com:80", "");
    assert_eq!(i.path, "/");
    assert_eq!(i.host, "a.com");
    assert_eq!(i.url, "http://a.com/");
    assert_eq!(i.host_path(), "a.com/");
}

#[test]
fn wildcard_with_scheme_is_about_the_whole_address() {
    let rs = RuleSet::parse("http://*.a.com/x host://1.1.1.1").unwrap();
    assert_eq!(rs.match_request(&input("http", "b.a.com", "/x/y")).len(), 1);
    assert_eq!(rs.match_request(&input("https", "b.a.com", "/x/y")).len(), 0);
}

#[test]
fn files_are_taken_in_by_their_lines() {
    let text = "a.com ua://1\n@/etc/x.txt # more\n  @include  my rules.txt \r\n@\n# @no\n@include\nb.com ua://2";
    assert_eq!(included_paths(text), vec!["/etc/x.txt", "my rules.txt", "include"]);
    assert!(included_paths("a.com host://b@c\n").is_empty());
    let texts = vec!["x.com ua://x\r\ny.com ua://y\n".to_string(), String::new()];
    assert_eq!(
        with_included(text, &texts),
        "a.com ua://1\nx.com ua://x\ny.com ua://y\n@\n# @no\n@include\nb.com ua://2\n"
    );
}

#[test]
fn rules_of_taken_in_files_stand_in_place() {
    let text = "a.com ua://1\n@f\na.com ua://3";
    let rules = parse_with(text, &["a.com ua://2\na.com ua://0".to_string()]).unwrap();
    let agents: Vec<String> = rules
        .match_request(&MatchInput::new("http", "a.com", "/"))
        .into_iter()
        .map(|o| o.value)
        .collect();
    assert_eq!(agents, vec!["1", "2", "0", "3"]);
    assert_eq!(parse_with(text, &[]).unwrap().len(), 2);
    let bad = parse_with(text, &["\n/(/ ua://2".to_string()]);
    assert!(matches!(bad, Err(ParseError::BadRegex { line: 3, .. })));
}

#[test]
fn copies_of_rules_match_alike() {
    let rules = RuleSet::parse("/ab+c/i ua://1\n*.x.com ua://2\nhttp://y.com/p ua://3\nz.com ua://4").unwrap();
    let copy = rules.clone();
    for (host, path) in [("a.com", "/ABBC"), ("k.x.com", "/"), ("y.com", "/p/q"), ("z.com", "/"), ("n", "/")] {
        let asked = MatchInput::new("http", host, path);
        let values = |set: &RuleSet| -> Vec<String> {
            set.match_request(&asked.clone()).into_iter().map(|o| o.value).collect()
        };
        assert_eq!(values(&rules), values(&copy));
        assert_eq!(values(&copy).is_empty(), host == "n");
    }
}
