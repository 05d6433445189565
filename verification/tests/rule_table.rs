use struson::reader::{JsonReader, JsonStreamReader};
use zerosni::addr::{parse_ipv4, SocketAddr};
use zerosni::route::{ProxyContext, RouteTarget};
use zerosni::rule_table::{
    MirrorAddr, RuleErrorKind, RuleOverride, RuleTable, RuleTableError, TlsInterceptConfig,
};

fn nothing() -> RuleOverride {
    RuleOverride {
        resolver: None,
        direct: None,
        fwmark: 0,
        fwmark_set: false,
        tls_intercept: None,
    }
}

fn marked(fwmark: u32) -> RuleOverride {
    RuleOverride {
        fwmark,
        fwmark_set: true,
        ..nothing()
    }
}

fn socket(s: &str) -> SocketAddr {
    let (host, port) = s.split_once(':').expect("host and port");
    let chars: Vec<char> = host.chars().collect();
    SocketAddr::V4 {
        ip: parse_ipv4(&chars).expect("IPv4 address"),
        port: port.parse().expect("port"),
    }
}

fn parse_table(src: &str) -> Result<RuleTable, RuleTableError> {
    let mut reader = JsonStreamReader::new(src.as_bytes());
    let mut table = RuleTable::new();
    reader.begin_object().unwrap();
    while reader.has_next().unwrap() {
        let pattern = reader.next_name_owned().unwrap();
        let mut overrides = nothing();
        reader.begin_object().unwrap();
        while reader.has_next().unwrap() {
            let field = reader.next_name_owned().unwrap();
            match field.as_str() {
                "resolver" => overrides.resolver = Some(reader.next_string().unwrap()),
                "direct" => overrides.direct = Some(socket(&reader.next_string().unwrap())),
                "fwmark" => {
                    overrides.fwmark = reader.next_number::<u32>().unwrap().unwrap();
                    overrides.fwmark_set = true;
                }
                _ => reader.skip_value().unwrap(),
            }
        }
        reader.end_object().unwrap();
        table.add_rule(&pattern, overrides)?;
    }
    reader.end_object().unwrap();
    table.finish()
}

fn refusal(src: &str) -> RuleTableError {
    match parse_table(src) {
        Ok(_) => panic!("the table should be refused"),
        Err(e) => e,
    }
}

fn table(src: &str) -> RuleTable {
    match parse_table(src) {
        Ok(table) => table,
        Err(e) => panic!("valid table expected: {}", e.message()),
    }
}

#[test]
fn matches_first_rule() {
    let table = table(
        r#"{
        "www.example.com": { "fwmark": 1 },
        "*.example.com": { "fwmark": 2 },
        "*": { "fwmark": 3 }
      }"#,
    );
    assert_eq!(table.lookup("www.example.com").unwrap().fwmark, 1);
    assert_eq!(table.lookup("api.example.com").unwrap().fwmark, 2);
    assert_eq!(table.lookup("notexample.com").unwrap().fwmark, 3);
    assert_eq!(table.lookup("other.test").unwrap().fwmark, 3);
}

#[test]
fn resolver_override_respects_case_insensitive_match() {
    let table = table(r#"{ "EXAMPLE.COM": { "resolver": "udp://9.9.9.9" } }"#);
    let rule = table.lookup("Example.com").expect("match");
    assert_eq!(rule.resolver.as_deref(), Some("udp://9.9.9.9"));
    assert_eq!(rule.direct, None);
    assert_eq!(rule.fwmark, 0);
}

#[test]
fn direct_override_parses_address() {
    let table = table(r#"{ "*.example.com": { "direct": "10.0.0.1:8443" } }"#);
    let rule = table.lookup("www.example.com").expect("match");
    assert_eq!(
        rule.direct,
        Some(SocketAddr::V4 {
            ip: 0x0a00_0001,
            port: 8443
        })
    );
    assert_eq!(rule.direct, Some(socket("10.0.0.1:8443")));
    assert_eq!(rule.resolver, None);
    assert_eq!(rule.fwmark, 0);
}

#[test]
fn rejects_empty_table() {
    let err = refusal("{}");
    assert!(err.message().contains("must define at least one rule"));
    assert_eq!(err.kind, RuleErrorKind::NoRules);
}

#[test]
fn rejects_direct_and_resolver() {
    let err = refusal(
        r#"{ "www.example.com": { "direct": "10.0.0.1:8443", "resolver": "udp://1.1.1.1" } }"#,
    );
    assert!(err
        .message()
        .contains("cannot set both 'direct' and 'resolver'"));
}

#[test]
fn wildcard_suffix_and_catch_all() {
    let table = table(
        r#"{
        "*.example.com": { "fwmark": 9 },
        "*": { "fwmark": 4 }
      }"#,
    );
    assert_eq!(table.lookup("a.example.com").unwrap().fwmark, 9);
    assert_eq!(table.lookup("b.c.example.com").unwrap().fwmark, 9);
    assert_eq!(table.lookup("elsewhere.com").unwrap().fwmark, 4);
}

#[test]
fn rejects_complex_wildcards() {
    let err = refusal(r#"{ "api.*.example.*": { "fwmark": 5 } }"#);
    assert!(err.message().contains("unsupported wildcard pattern"));
}

#[test]
fn documented_table_is_read() {
    let table = table(
        r#"{
        "www.example.com": { "direct": "10.0.1.2:8443", "fwmark": 1 },
        "*.apple.com": { "resolver": "udp://1.1.1.1" },
        "*": { "fwmark": 3 }
      }"#,
    );
    let www = table.lookup("WWW.example.com").unwrap();
    assert_eq!(www.direct, Some(socket("10.0.1.2:8443")));
    assert_eq!(www.fwmark, 1);
    let apple = table.lookup("store.apple.com").unwrap();
    assert_eq!(apple.resolver.as_deref(), Some("udp://1.1.1.1"));
    assert!(!apple.fwmark_set);
    assert_eq!(table.lookup("apple.com").unwrap().fwmark, 3);
}

#[test]
fn every_refusal_has_its_words() {
    assert_eq!(
        refusal(r#"{ "  ": { "fwmark": 5 } }"#).message(),
        "rule table contains an empty pattern"
    );
    assert_eq!(
        refusal(r#"{ " a.test ": { "direct": "1.2.3.4:5", "resolver": "x" } }"#).message(),
        "rule 'a.test' cannot set both 'direct' and 'resolver'"
    );
    assert_eq!(
        refusal(r#"{ "*.": { "fwmark": 5 } }"#).message(),
        "wildcard rule '*.' must be '*.<suffix>'"
    );
    assert_eq!(
        refusal(r#"{ "*.a*": { "fwmark": 5 } }"#).message(),
        "wildcard rule '*.a*' must be '*.<suffix>'"
    );
    assert_eq!(
        refusal(r#"{ "a*": { "fwmark": 5 } }"#).message(),
        "unsupported wildcard pattern 'a*'"
    );
    assert_eq!(
        refusal(r#"{ "a.test": { "fwmark": 5 }, " A.TEST": { "fwmark": 6 } }"#).message(),
        "duplicate rule for pattern 'A.TEST'"
    );
    assert_eq!(
        refusal("{}").message(),
        "rule table must define at least one rule"
    );
    let unset = refusal(r#"{ "a.test": {} }"#);
    assert_eq!(unset.kind, RuleErrorKind::NothingSet);
    assert_eq!(unset.pattern, "a.test");
}

#[test]
fn interception_alone_is_a_rule() {
    let mut table = RuleTable::new();
    let config = TlsInterceptConfig {
        mirror: MirrorAddr::Client(9000),
        ca_cert: "ca.crt".to_string(),
        ca_key: "ca.key".to_string(),
        match_fwmark: Some(100),
    };
    let rule = RuleOverride {
        tls_intercept: Some(config.clone()),
        ..nothing()
    };
    assert!(table.add_rule("api.example.com", rule).is_ok());
    assert_eq!(
        table.lookup("API.example.com").unwrap().tls_intercept,
        Some(config)
    );
}

#[test]
fn longest_suffix_wins_in_any_order() {
    let rules = |names: [&str; 3]| {
        let mut list = Vec::new();
        for name in names {
            list.push((name.to_string(), marked(name.len() as u32)));
        }
        match RuleTable::from_rules(list) {
            Ok(table) => table,
            Err(e) => panic!("{}", e.message()),
        }
    };
    for names in [
        ["*", "*.test", "*.a.test"],
        ["*.a.test", "*", "*.test"],
        ["*.test", "*.a.test", "*"],
    ] {
        let table = rules(names);
        assert_eq!(table.lookup("x.a.test").unwrap().fwmark, 8);
        assert_eq!(table.lookup("a.test").unwrap().fwmark, 6);
        assert_eq!(table.lookup("test").unwrap().fwmark, 1);
        assert_eq!(table.lookup("").unwrap().fwmark, 1);
    }
}

#[test]
fn suffix_rule_leaves_the_suffix_itself_alone() {
    let table = table(r#"{ "*.example.com": { "fwmark": 2 } }"#);
    assert!(table.lookup("example.com").is_none());
    assert!(table.lookup("notexample.com").is_none());
    assert_eq!(table.lookup(".example.com").unwrap().fwmark, 2);
}

#[test]
fn a_refused_rule_changes_nothing() {
    let mut table = RuleTable::new();
    assert!(table.add_rule("a.test", marked(1)).is_ok());
    assert!(table.add_rule("A.test", marked(2)).is_err());
    assert!(table.add_rule("b*", marked(2)).is_err());
    assert_eq!(table.lookup("a.test").unwrap().fwmark, 1);
    assert!(table.lookup("b").is_none());
}

#[test]
fn from_rules_reports_the_first_refusal() {
    let list = vec![
        ("a.test".to_string(), marked(1)),
        ("b*".to_string(), marked(2)),
        ("a.test".to_string(), marked(3)),
    ];
    match RuleTable::from_rules(list) {
        Ok(_) => panic!("refusal expected"),
        Err(e) => {
            assert_eq!(e.kind, RuleErrorKind::UnsupportedWildcard);
            assert_eq!(e.pattern, "b*");
        }
    }
    match RuleTable::from_rules(Vec::new()) {
        Ok(_) => panic!("refusal expected"),
        Err(e) => assert_eq!(e.kind, RuleErrorKind::NoRules),
    }
}

#[test]
fn missing_fields_fall_back_to_the_settings() {
    let ctx = ProxyContext {
        default_resolver: "1.1.1.1:53".to_string(),
        default_fwmark: 7,
        enable_proxy_protocol: false,
    };
    let table = table(
        r#"{
        "a.test": { "resolver": "udp://9.9.9.9" },
        "b.test": { "fwmark": 0 },
        "c.test": { "direct": "10.0.1.2:8443", "fwmark": 1 }
      }"#,
    );
    let a = ctx.select_route(Some(&table), "a.test");
    assert_eq!(a.fwmark, 7);
    assert!(matches!(a.target, RouteTarget::Resolve(r) if r == "udp://9.9.9.9"));
    let b = ctx.select_route(Some(&table), "b.test");
    assert_eq!(b.fwmark, 0);
    assert!(matches!(b.target, RouteTarget::Resolve(r) if r == "1.1.1.1:53"));
    let c = ctx.select_route(Some(&table), "C.TEST");
    assert_eq!(c.fwmark, 1);
    assert!(matches!(
        c.target,
        RouteTarget::Direct(SocketAddr::V4 {
            ip: 0x0a00_0102,
            port: 8443
        })
    ));
    let other = ctx.select_route(Some(&table), "other.test");
    assert_eq!(other.fwmark, 7);
    assert!(matches!(other.target, RouteTarget::Resolve(r) if r == "1.1.1.1:53"));
    let without = ctx.select_route(None, "a.test");
    assert_eq!(without.fwmark, 7);
    assert!(without.tls_intercept.is_none());
}

#[test]
fn mirror_addresses_are_read_and_resolved() {
    let fixed = SocketAddr::V4 {
        ip: 0x7f00_0001,
        port: 9000,
    };
    let client = SocketAddr::V4 {
        ip: 0x0a00_0005,
        port: 40000,
    };
    assert_eq!(
        MirrorAddr::parse("127.0.0.1:9000", Some(fixed)),
        Some(MirrorAddr::Fixed(fixed))
    );
    assert_eq!(MirrorAddr::parse("nonsense", None), None);
    assert_eq!(
        MirrorAddr::parse("_:9000", None),
        Some(MirrorAddr::Client(9000))
    );
    assert_eq!(MirrorAddr::parse("_:", None), None);
    assert_eq!(MirrorAddr::parse("_:65536", None), None);
    assert_eq!(MirrorAddr::Fixed(fixed).resolve(client), fixed);
    assert_eq!(
        MirrorAddr::Client(9000).resolve(client),
        SocketAddr::V4 {
            ip: 0x0a00_0005,
            port: 9000
        }
    );
}
