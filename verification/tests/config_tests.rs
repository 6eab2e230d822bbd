use gdiff::method::Method;
use gdiff::model::{ConfigError, DiffConfig, DiffProfile, RequestProfile, ResponseProfile};
use gdiff::yaml::Yaml;

fn simple_request(url: &str) -> RequestProfile {
    RequestProfile {
        method: Method::Get,
        url: url.to_string(),
        params: None,
        headers: Vec::new(),
        body: None,
    }
}

#[test]
fn scenario_defaults_and_overrides() {
    let text = "p1:\n  req1: { url: \"https://a.test/x\" }\n  req2: { url: \"https://a.test/y\", method: POST }\n  res: { skip_headers: [\"date\"] }\n";
    let c = DiffConfig::from_yaml(text).unwrap();
    assert_eq!(c.profiles.len(), 1);
    assert_eq!(c.profiles[0].0, "p1");
    let p = &c.profiles[0].1;
    assert_eq!(p.req1.method, Method::Get);
    assert_eq!(p.req1.url, "https://a.test/x");
    assert_eq!(p.req2.method, Method::Post);
    assert_eq!(p.res.skip_headers, vec!["date".to_string()]);
    assert!(p.res.skip_body.is_empty());
}

#[test]
fn missing_req1_fails() {
    let text = "p1:\n  req2: { url: \"https://a.test/y\" }\n  res: {}\n";
    let e = DiffConfig::from_yaml(text).unwrap_err();
    assert!(matches!(e, ConfigError::Parse(_)));
}

#[test]
fn missing_req2_fails() {
    let text = "p1:\n  req1: { url: \"https://a.test/x\" }\n  res: {}\n";
    let e = DiffConfig::from_yaml(text).unwrap_err();
    assert!(matches!(e, ConfigError::Parse(_)));
}

#[test]
fn missing_res_fails() {
    let text = "p1:\n  req1: { url: \"https://a.test/x\" }\n  req2: { url: \"https://a.test/y\" }\n";
    let e = DiffConfig::from_yaml(text).unwrap_err();
    assert!(matches!(e, ConfigError::Parse(_)));
}

#[test]
fn missing_url_fails() {
    let text = "p1:\n  req1: { method: GET }\n  req2: { url: \"https://a.test/y\" }\n  res: {}\n";
    let e = DiffConfig::from_yaml(text).unwrap_err();
    assert!(matches!(e, ConfigError::Parse(_)));
}

#[test]
fn relative_url_fails() {
    let text = "p1:\n  req1: { url: \"not a url\" }\n  req2: { url: \"https://a.test/y\" }\n  res: {}\n";
    let e = DiffConfig::from_yaml(text).unwrap_err();
    assert!(matches!(e, ConfigError::Parse(_)));
}

#[test]
fn absolute_url_is_accepted() {
    let text = "p1:\n  req1: { url: \"https://example.com/api/v1?x=1\" }\n  req2: { url: \"http://127.0.0.1:8080/\" }\n  res: {}\n";
    let c = DiffConfig::from_yaml(text).unwrap();
    assert_eq!(c.profiles[0].1.req1.url, "https://example.com/api/v1?x=1");
}

#[test]
fn unrecognized_method_fails() {
    let text = "p1:\n  req1: { url: \"https://a.test/x\", method: FETCH }\n  req2: { url: \"https://a.test/y\" }\n  res: {}\n";
    let e = DiffConfig::from_yaml(text).unwrap_err();
    assert!(matches!(e, ConfigError::Parse(_)));
}

#[test]
fn omitted_optionals_take_defaults() {
    let text = "p1:\n  req1: { url: \"https://a.test/x\" }\n  req2: { url: \"https://a.test/y\" }\n  res: {}\n";
    let c = DiffConfig::from_yaml(text).unwrap();
    let r = &c.profiles[0].1.req1;
    assert_eq!(r.method, Method::Get);
    assert!(r.params.is_none());
    assert!(r.headers.is_empty());
    assert!(r.body.is_none());
    let res = &c.profiles[0].1.res;
    assert!(res.skip_headers.is_empty());
    assert!(res.skip_body.is_empty());
}

#[test]
fn explicit_null_params_and_body_mean_absent() {
    let text = "p1:\n  req1: { url: \"https://a.test/x\", params: null, body: null }\n  req2: { url: \"https://a.test/y\" }\n  res: {}\n";
    let c = DiffConfig::from_yaml(text).unwrap();
    let r = &c.profiles[0].1.req1;
    assert!(r.params.is_none());
    assert!(r.body.is_none());
}

#[test]
fn headers_are_read_in_order() {
    let text = "p1:\n  req1:\n    url: \"https://a.test/x\"\n    headers:\n      x-api-key: \"abc\"\n      accept: \"application/json\"\n  req2: { url: \"https://a.test/y\" }\n  res: {}\n";
    let c = DiffConfig::from_yaml(text).unwrap();
    let r = &c.profiles[0].1.req1;
    assert_eq!(r.headers.len(), 2);
    assert_eq!(r.headers[0], ("x-api-key".to_string(), "abc".to_string()));
    assert_eq!(r.headers[1], ("accept".to_string(), "application/json".to_string()));
}

#[test]
fn non_string_header_value_fails() {
    let text = "p1:\n  req1:\n    url: \"https://a.test/x\"\n    headers:\n      retries: 3\n  req2: { url: \"https://a.test/y\" }\n  res: {}\n";
    let e = DiffConfig::from_yaml(text).unwrap_err();
    assert!(matches!(e, ConfigError::Parse(_)));
}

#[test]
fn non_string_skip_item_fails() {
    let text = "p1:\n  req1: { url: \"https://a.test/x\" }\n  req2: { url: \"https://a.test/y\" }\n  res: { skip_body: [1] }\n";
    let e = DiffConfig::from_yaml(text).unwrap_err();
    assert!(matches!(e, ConfigError::Parse(_)));
}

#[test]
fn params_and_body_carry_structure() {
    let text = "p1:\n  req1:\n    url: \"https://a.test/x\"\n    params: { q: \"rust\", page: 2 }\n  req2:\n    url: \"https://a.test/y\"\n    body: [1, true, \"z\", null]\n  res: {}\n";
    let c = DiffConfig::from_yaml(text).unwrap();
    let p = &c.profiles[0].1;
    let params = p.req1.params.as_ref().unwrap();
    assert_eq!(
        *params,
        Yaml::Mapping(vec![
            ("q".to_string(), Yaml::Str("rust".to_string())),
            ("page".to_string(), Yaml::Int(2)),
        ])
    );
    let body = p.req2.body.as_ref().unwrap();
    assert_eq!(
        *body,
        Yaml::List(vec![
            Yaml::Int(1),
            Yaml::Bool(true),
            Yaml::Str("z".to_string()),
            Yaml::Null,
        ])
    );
}

#[test]
fn invalid_yaml_fails() {
    let e = DiffConfig::from_yaml("p1: [unclosed").unwrap_err();
    assert!(matches!(e, ConfigError::Parse(_)));
}

#[test]
fn non_mapping_document_fails() {
    let e = DiffConfig::from_yaml("- a\n- b\n").unwrap_err();
    assert!(matches!(e, ConfigError::Parse(_)));
}

#[test]
fn empty_document_fails() {
    let e = DiffConfig::from_yaml("").unwrap_err();
    assert!(matches!(e, ConfigError::Parse(_)));
}

#[test]
fn empty_profile_name_fails() {
    let text = "\"\":\n  req1: { url: \"https://a.test/x\" }\n  req2: { url: \"https://a.test/y\" }\n  res: {}\n";
    let e = DiffConfig::from_yaml(text).unwrap_err();
    assert!(matches!(e, ConfigError::Parse(_)));
}

#[test]
fn float_values_are_rejected() {
    let text = "p1:\n  req1: { url: \"https://a.test/x\", params: { ratio: 1.5 } }\n  req2: { url: \"https://a.test/y\" }\n  res: {}\n";
    let e = DiffConfig::from_yaml(text).unwrap_err();
    assert!(matches!(e, ConfigError::Parse(_)));
}

#[test]
fn unknown_profile_fields_are_ignored() {
    let text = "p1:\n  req1: { url: \"https://a.test/x\" }\n  req2: { url: \"https://a.test/y\" }\n  res: {}\n  note: \"kept out\"\n";
    let c = DiffConfig::from_yaml(text).unwrap();
    assert_eq!(c.profiles.len(), 1);
}

#[test]
fn serialize_omits_empty_skip_lists() {
    let config = DiffConfig {
        profiles: vec![(
            "p1".to_string(),
            DiffProfile {
                req1: simple_request("https://a.test/x"),
                req2: simple_request("https://a.test/y"),
                res: ResponseProfile { skip_headers: Vec::new(), skip_body: Vec::new() },
            },
        )],
    };
    let s = config.to_yaml();
    assert!(!s.contains("skip_headers"));
    assert!(!s.contains("skip_body"));
}

#[test]
fn serialize_omits_absent_optionals_and_keeps_method() {
    let config = DiffConfig {
        profiles: vec![(
            "p1".to_string(),
            DiffProfile {
                req1: simple_request("https://a.test/x"),
                req2: simple_request("https://a.test/y"),
                res: ResponseProfile { skip_headers: Vec::new(), skip_body: Vec::new() },
            },
        )],
    };
    let s = config.to_yaml();
    assert!(!s.contains("params"));
    assert!(!s.contains("headers"));
    assert!(!s.contains("body"));
    assert!(s.contains("method: GET"));
    assert!(s.contains("url: https://a.test/x"));
}

#[test]
fn parse_serialize_parse_round_trip() {
    let text = "first:\n  req1:\n    url: \"https://example.com/api/v1\"\n    headers:\n      x-api-key: \"abc\"\n      accept: \"*/*\"\n    params: { q: \"diff\", page: 3 }\n  req2:\n    method: POST\n    url: \"https://example.com/api/v2\"\n    body: { id: 1, tags: [\"a\", \"b\"], meta: { deep: true } }\n  res:\n    skip_headers: [\"date\", \"server\"]\n    skip_body: [\"$.timestamp\"]\nsecond:\n  req1: { url: \"https://b.test/\" }\n  req2: { url: \"https://b.test/\", method: DELETE }\n  res: {}\n";
    let c1 = DiffConfig::from_yaml(text).unwrap();
    let s = c1.to_yaml();
    let c2 = DiffConfig::from_yaml(&s).unwrap();
    assert_eq!(c1, c2);
}

#[test]
fn serialized_form_parses_equal_after_second_round() {
    let text = "p1:\n  req1: { url: \"https://a.test/x\" }\n  req2: { url: \"https://a.test/y\", method: PUT }\n  res: { skip_body: [\"$.id\"] }\n";
    let c1 = DiffConfig::from_yaml(text).unwrap();
    let s1 = c1.to_yaml();
    let c2 = DiffConfig::from_yaml(&s1).unwrap();
    let s2 = c2.to_yaml();
    assert_eq!(s1, s2);
    assert_eq!(c1, c2);
}
