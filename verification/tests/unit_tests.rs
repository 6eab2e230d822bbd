use gdiff::decode::{decode_config, decode_profile, decode_request, decode_response};
use gdiff::method::Method;
use gdiff::model::ConfigError;
use gdiff::yaml::Yaml;

fn entry(k: &str, v: Yaml) -> (String, Yaml) {
    (k.to_string(), v)
}

fn str_val(s: &str) -> Yaml {
    Yaml::Str(s.to_string())
}

#[test]
fn every_verb_has_a_name_that_reads_back() {
    let verbs = [
        Method::Get,
        Method::Post,
        Method::Put,
        Method::Delete,
        Method::Head,
        Method::Options,
        Method::Connect,
        Method::Patch,
        Method::Trace,
    ];
    for m in verbs {
        assert_eq!(Method::from_name(m.name()), Some(m));
    }
}

#[test]
fn verb_names_are_exact() {
    assert_eq!(Method::from_name("GET"), Some(Method::Get));
    assert_eq!(Method::from_name("POST"), Some(Method::Post));
    assert_eq!(Method::from_name("get"), None);
    assert_eq!(Method::from_name(""), None);
    assert_eq!(Method::from_name("GETS"), None);
}

#[test]
fn duplicate_tree_compares_equal() {
    let v = Yaml::Mapping(vec![
        entry("a", Yaml::List(vec![Yaml::Int(1), Yaml::Null])),
        entry("b", str_val("x")),
    ]);
    assert_eq!(v.duplicate(), v);
}

#[test]
fn decode_request_defaults_method() {
    let y = Yaml::Mapping(vec![entry("url", str_val("https://a.test/"))]);
    let r = decode_request(&y).unwrap();
    assert_eq!(r.method, Method::Get);
    assert_eq!(r.url, "https://a.test/");
}

#[test]
fn decode_request_rejects_non_mapping() {
    let e = decode_request(&Yaml::Int(3)).unwrap_err();
    assert!(matches!(e, ConfigError::Parse(_)));
}

#[test]
fn decode_request_rejects_duplicate_header_names() {
    let y = Yaml::Mapping(vec![
        entry("url", str_val("https://a.test/")),
        entry(
            "headers",
            Yaml::Mapping(vec![entry("k", str_val("a")), entry("k", str_val("b"))]),
        ),
    ]);
    let e = decode_request(&y).unwrap_err();
    assert!(matches!(e, ConfigError::Parse(_)));
}

#[test]
fn decode_response_defaults_both_lists() {
    let y = Yaml::Mapping(Vec::new());
    let p = decode_response(&y).unwrap();
    assert!(p.skip_headers.is_empty());
    assert!(p.skip_body.is_empty());
}

#[test]
fn decode_profile_requires_all_three_fields() {
    let req = Yaml::Mapping(vec![entry("url", str_val("https://a.test/"))]);
    let full = Yaml::Mapping(vec![
        entry("req1", req.duplicate()),
        entry("req2", req.duplicate()),
        entry("res", Yaml::Mapping(Vec::new())),
    ]);
    assert!(decode_profile(&full).is_ok());
    let partial = Yaml::Mapping(vec![
        entry("req1", req.duplicate()),
        entry("req2", req),
    ]);
    let e = decode_profile(&partial).unwrap_err();
    assert!(matches!(e, ConfigError::Parse(_)));
}

#[test]
fn decode_config_rejects_duplicate_profile_names() {
    let req = Yaml::Mapping(vec![entry("url", str_val("https://a.test/"))]);
    let profile = Yaml::Mapping(vec![
        entry("req1", req.duplicate()),
        entry("req2", req),
        entry("res", Yaml::Mapping(Vec::new())),
    ]);
    let doc = Yaml::Mapping(vec![
        entry("p", profile.duplicate()),
        entry("p", profile),
    ]);
    let e = decode_config(&doc).unwrap_err();
    assert!(matches!(e, ConfigError::Parse(_)));
}

#[test]
fn decode_config_keeps_document_order() {
    let req = Yaml::Mapping(vec![entry("url", str_val("https://a.test/"))]);
    let profile = |r: &Yaml| {
        Yaml::Mapping(vec![
            entry("req1", r.duplicate()),
            entry("req2", r.duplicate()),
            entry("res", Yaml::Mapping(Vec::new())),
        ])
    };
    let doc = Yaml::Mapping(vec![
        entry("zeta", profile(&req)),
        entry("alpha", profile(&req)),
    ]);
    let c = decode_config(&doc).unwrap();
    assert_eq!(c.profiles[0].0, "zeta");
    assert_eq!(c.profiles[1].0, "alpha");
}
