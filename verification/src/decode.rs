//! Decoding a YAML tree into a configuration document, field by field.
//!
//! The document's top level must be a mapping from profile names to
//! profiles; each profile must carry `req1`, `req2` and `res`.  A request
//! must carry an absolute `url`; `method` defaults to `GET`, `headers` to
//! empty, and `params` and `body` to absent.  A response policy defaults
//! both of its skip lists to empty.  Anything else is rejected.

use vstd::prelude::*;
use crate::method::{Method, method_of_text};
use crate::model::{
    ConfigError, DiffConfig, DiffConfigV, DiffProfile, DiffProfileV, RequestProfile,
    RequestProfileV, ResponseProfile, ResponseProfileV, distinct_keys_config, pairs_view,
    profiles_view, strings_view, url_is_absolute, url_ok, wf_config,
};
use crate::laws::lemma_decode_config_wf;
use crate::text::str_eq;
use crate::yaml::{
    Yaml, YamlV, doc_model, entries_view, items_view, lemma_entries_view_index,
    lemma_entries_view_len, lemma_items_view_index, lemma_items_view_len, lookup, lookup_entry,
    value_from_str, yaml_of_value, yaml_view,
};

verus! {

/// What a request's `url` field decodes to: the field must be present, a
/// string, and an absolute URL.
pub open spec fn spec_decode_url(o: Option<YamlV>) -> Option<Seq<char>> {
    match o {
        Some(YamlV::Str(u)) => if url_ok(u) {
            Some(u)
        } else {
            None
        },
        _ => None,
    }
}

/// What a request's `method` field decodes to: an absent field means `GET`;
/// a present one must spell a recognized verb.
pub open spec fn spec_decode_method(o: Option<YamlV>) -> Option<Method> {
    match o {
        None => Some(Method::Get),
        Some(YamlV::Str(s)) => method_of_text(s),
        Some(_) => None,
    }
}

/// What a free-form optional field (`params`, `body`) decodes to: an absent
/// field and an explicit null both mean absent.
pub open spec fn spec_decode_opt_field(o: Option<YamlV>) -> Option<YamlV> {
    match o {
        None => None,
        Some(YamlV::Null) => None,
        Some(v) => Some(v),
    }
}

/// Whether some header entry carries the name `k`.
pub open spec fn has_name(hs: Seq<(Seq<char>, Seq<char>)>, k: Seq<char>) -> bool {
    exists|i: int| 0 <= i < hs.len() && hs[i].0 == k
}

/// What a `headers` mapping decodes to: every value must be a string, and
/// no name may repeat.
pub open spec fn spec_header_pairs(es: Seq<(Seq<char>, YamlV)>) -> Option<
    Seq<(Seq<char>, Seq<char>)>,
>
    decreases es.len(),
{
    if es.len() == 0 {
        Some(Seq::empty())
    } else {
        match spec_header_pairs(es.drop_last()) {
            None => None,
            Some(acc) => match es.last().1 {
                YamlV::Str(v) => if has_name(acc, es.last().0) {
                    None
                } else {
                    Some(acc.push((es.last().0, v)))
                },
                _ => None,
            },
        }
    }
}

/// What a request's `headers` field decodes to: an absent field means no
/// headers.
pub open spec fn spec_decode_headers(o: Option<YamlV>) -> Option<Seq<(Seq<char>, Seq<char>)>> {
    match o {
        None => Some(Seq::empty()),
        Some(YamlV::Mapping(es)) => spec_header_pairs(es),
        Some(_) => None,
    }
}

/// What a list of strings decodes to: every item must be a string.
pub open spec fn spec_string_items(xs: Seq<YamlV>) -> Option<Seq<Seq<char>>>
    decreases xs.len(),
{
    if xs.len() == 0 {
        Some(Seq::empty())
    } else {
        match spec_string_items(xs.drop_last()) {
            None => None,
            Some(acc) => match xs.last() {
                YamlV::Str(s) => Some(acc.push(s)),
                _ => None,
            },
        }
    }
}

/// What a skip list (`skip_headers`, `skip_body`) decodes to: an absent
/// field means an empty list.
pub open spec fn spec_decode_skips(o: Option<YamlV>) -> Option<Seq<Seq<char>>> {
    match o {
        None => Some(Seq::empty()),
        Some(YamlV::List(xs)) => spec_string_items(xs),
        Some(_) => None,
    }
}

/// What a request definition decodes to.
pub open spec fn spec_decode_request(y: YamlV) -> Option<RequestProfileV> {
    match y {
        YamlV::Mapping(es) => match (
            spec_decode_method(lookup(es, "method"@)),
            spec_decode_url(lookup(es, "url"@)),
            spec_decode_headers(lookup(es, "headers"@)),
        ) {
            (Some(m), Some(u), Some(hs)) => Some(
                RequestProfileV {
                    method: m,
                    url: u,
                    params: spec_decode_opt_field(lookup(es, "params"@)),
                    headers: hs,
                    body: spec_decode_opt_field(lookup(es, "body"@)),
                },
            ),
            _ => None,
        },
        _ => None,
    }
}

/// What a response policy decodes to.
pub open spec fn spec_decode_response(y: YamlV) -> Option<ResponseProfileV> {
    match y {
        YamlV::Mapping(es) => match (
            spec_decode_skips(lookup(es, "skip_headers"@)),
            spec_decode_skips(lookup(es, "skip_body"@)),
        ) {
            (Some(sh), Some(sb)) => Some(ResponseProfileV { skip_headers: sh, skip_body: sb }),
            _ => None,
        },
        _ => None,
    }
}

/// What a profile decodes to: `req1`, `req2` and `res` are all required.
pub open spec fn spec_decode_profile(y: YamlV) -> Option<DiffProfileV> {
    match y {
        YamlV::Mapping(es) => match (
            lookup(es, "req1"@),
            lookup(es, "req2"@),
            lookup(es, "res"@),
        ) {
            (Some(y1), Some(y2), Some(yr)) => match (
                spec_decode_request(y1),
                spec_decode_request(y2),
                spec_decode_response(yr),
            ) {
                (Some(r1), Some(r2), Some(rr)) => Some(
                    DiffProfileV { req1: r1, req2: r2, res: rr },
                ),
                _ => None,
            },
            _ => None,
        },
        _ => None,
    }
}

/// Whether some named profile carries the name `k`.
pub open spec fn has_profile_name(ps: Seq<(Seq<char>, DiffProfileV)>, k: Seq<char>) -> bool {
    exists|i: int| 0 <= i < ps.len() && ps[i].0 == k
}

/// What the top-level entries decode to: every name must be non-empty and
/// fresh, and every profile must decode.
pub open spec fn spec_decode_profiles(es: Seq<(Seq<char>, YamlV)>) -> Option<
    Seq<(Seq<char>, DiffProfileV)>,
>
    decreases es.len(),
{
    if es.len() == 0 {
        Some(Seq::empty())
    } else {
        match spec_decode_profiles(es.drop_last()) {
            None => None,
            Some(acc) => if es.last().0.len() == 0 || has_profile_name(acc, es.last().0) {
                None
            } else {
                match spec_decode_profile(es.last().1) {
                    Some(p) => Some(acc.push((es.last().0, p))),
                    None => None,
                }
            },
        }
    }
}

/// What a whole document tree decodes to.
pub open spec fn spec_decode_config(y: YamlV) -> Option<DiffConfigV> {
    match y {
        YamlV::Mapping(es) => match spec_decode_profiles(es) {
            Some(ps) => Some(DiffConfigV { profiles: ps }),
            None => None,
        },
        _ => None,
    }
}

/// What a piece of YAML text decodes to: the shape serde_yaml reads from it,
/// decoded as a document.
pub open spec fn spec_from_yaml(s: Seq<char>) -> Option<DiffConfigV> {
    match doc_model(s) {
        Some(m) => spec_decode_config(m),
        None => None,
    }
}

/// A failed prefix makes the whole header mapping fail.
proof fn lemma_header_pairs_prefix_none(es: Seq<(Seq<char>, YamlV)>, i: int)
    requires
        0 <= i <= es.len(),
        spec_header_pairs(es.take(i)) is None,
    ensures
        spec_header_pairs(es) is None,
    decreases es.len(),
{
    if i == es.len() {
        assert(es.take(i) =~= es);
    } else {
        assert(es.drop_last().take(i) =~= es.take(i));
        lemma_header_pairs_prefix_none(es.drop_last(), i);
    }
}

/// A failed prefix makes the whole string list fail.
proof fn lemma_string_items_prefix_none(xs: Seq<YamlV>, i: int)
    requires
        0 <= i <= xs.len(),
        spec_string_items(xs.take(i)) is None,
    ensures
        spec_string_items(xs) is None,
    decreases xs.len(),
{
    if i == xs.len() {
        assert(xs.take(i) =~= xs);
    } else {
        assert(xs.drop_last().take(i) =~= xs.take(i));
        lemma_string_items_prefix_none(xs.drop_last(), i);
    }
}

/// A failed prefix makes the whole document fail.
proof fn lemma_profiles_prefix_none(es: Seq<(Seq<char>, YamlV)>, i: int)
    requires
        0 <= i <= es.len(),
        spec_decode_profiles(es.take(i)) is None,
    ensures
        spec_decode_profiles(es) is None,
    decreases es.len(),
{
    if i == es.len() {
        assert(es.take(i) =~= es);
    } else {
        assert(es.drop_last().take(i) =~= es.take(i));
        lemma_profiles_prefix_none(es.drop_last(), i);
    }
}

/// Wraps a fixed message as a parse error.
fn parse_err(msg: &str) -> (e: ConfigError)
    ensures
        e is Parse,
{
    ConfigError::Parse(msg.to_owned())
}

/// Whether some header entry already carries the name `k`.
pub fn contains_name(hs: &Vec<(String, String)>, k: &String) -> (r: bool)
    ensures
        r == has_name(pairs_view(hs@), k@),
{
    let mut i: usize = 0;
    while i < hs.len()
        invariant
            0 <= i <= hs.len(),
            forall|j: int| 0 <= j < i ==> pairs_view(hs@)[j].0 != k@,
        decreases hs.len() - i,
    {
        if str_eq(hs[i].0.as_str(), k.as_str()) {
            assert(pairs_view(hs@)[i as int].0 == k@);
            return true;
        }
        i += 1;
    }
    false
}

/// Decodes the entries of a `headers` mapping.
#[verifier::loop_isolation(false)]
pub fn decode_header_pairs(hes: &Vec<(String, Yaml)>) -> (r: Result<
    Vec<(String, String)>,
    ConfigError,
>)
    ensures
        r matches Ok(hs) ==> spec_header_pairs(entries_view(hes@)) == Some(pairs_view(hs@)),
        r matches Err(e) ==> spec_header_pairs(entries_view(hes@)) is None && e is Parse,
{
    proof {
        lemma_entries_view_len(hes@);
    }
    let ghost evs = entries_view(hes@);
    let mut out: Vec<(String, String)> = Vec::new();
    let mut i: usize = 0;
    proof {
        assert(evs.take(0) =~= Seq::<(Seq<char>, YamlV)>::empty());
        assert(pairs_view(out@) =~= Seq::<(Seq<char>, Seq<char>)>::empty());
    }
    while i < hes.len()
        invariant
            0 <= i <= hes.len(),
            spec_header_pairs(evs.take(i as int)) == Some(pairs_view(out@)),
        decreases hes.len() - i,
    {
        proof {
            lemma_entries_view_index(hes@, i as int);
            assert(evs.take(i as int + 1).drop_last() =~= evs.take(i as int));
            assert(evs.take(i as int + 1).last() == evs[i as int]);
        }
        match &hes[i].1 {
            Yaml::Str(v) => {
                if contains_name(&out, &hes[i].0) {
                    proof {
                        lemma_header_pairs_prefix_none(evs, i as int + 1);
                    }
                    return Err(parse_err("headers name used more than once"));
                }
                let name = hes[i].0.clone();
                let value = v.clone();
                let ghost prev = out@;
                out.push((name, value));
                proof {
                    assert(pairs_view(out@) =~= pairs_view(prev).push(
                        (hes@[i as int].0@, hes@[i as int].1->Str_0@),
                    ));
                }
            },
            _ => {
                proof {
                    lemma_header_pairs_prefix_none(evs, i as int + 1);
                }
                return Err(parse_err("headers values must be strings"));
            },
        }
        i += 1;
    }
    proof {
        assert(evs.take(hes@.len() as int) =~= evs);
    }
    Ok(out)
}

/// Decodes a list whose items must all be strings.
#[verifier::loop_isolation(false)]
pub fn decode_string_items(xs: &Vec<Yaml>) -> (r: Result<Vec<String>, ConfigError>)
    ensures
        r matches Ok(ss) ==> spec_string_items(items_view(xs@)) == Some(strings_view(ss@)),
        r matches Err(e) ==> spec_string_items(items_view(xs@)) is None && e is Parse,
{
    proof {
        lemma_items_view_len(xs@);
    }
    let ghost ivs = items_view(xs@);
    let mut out: Vec<String> = Vec::new();
    let mut i: usize = 0;
    proof {
        assert(ivs.take(0) =~= Seq::<YamlV>::empty());
        assert(strings_view(out@) =~= Seq::<Seq<char>>::empty());
    }
    while i < xs.len()
        invariant
            0 <= i <= xs.len(),
            spec_string_items(ivs.take(i as int)) == Some(strings_view(out@)),
        decreases xs.len() - i,
    {
        proof {
            lemma_items_view_index(xs@, i as int);
            assert(ivs.take(i as int + 1).drop_last() =~= ivs.take(i as int));
            assert(ivs.take(i as int + 1).last() == ivs[i as int]);
        }
        match &xs[i] {
            Yaml::Str(s) => {
                let item = s.clone();
                let ghost prev = out@;
                out.push(item);
                proof {
                    assert(strings_view(out@) =~= strings_view(prev).push(
                        yaml_view(xs@[i as int])->Str_0,
                    ));
                }
            },
            _ => {
                proof {
                    lemma_string_items_prefix_none(ivs, i as int + 1);
                }
                return Err(parse_err("skip lists must hold strings"));
            },
        }
        i += 1;
    }
    proof {
        assert(ivs.take(xs@.len() as int) =~= ivs);
    }
    Ok(out)
}

/// Decodes one request definition.
pub fn decode_request(y: &Yaml) -> (r: Result<RequestProfile, ConfigError>)
    ensures
        r matches Ok(p) ==> spec_decode_request(y@) == Some(p@),
        r matches Err(e) ==> spec_decode_request(y@) is None && e is Parse,
{
    let es = match y {
        Yaml::Mapping(es) => es,
        _ => {
            return Err(parse_err("a request must be a mapping"));
        },
    };
    let method = match lookup_entry(es, "method") {
        None => Method::Get,
        Some(v) => match v {
            Yaml::Str(s) => match Method::from_name(s.as_str()) {
                Some(m) => m,
                None => {
                    return Err(parse_err("method is not a recognized HTTP verb"));
                },
            },
            _ => {
                return Err(parse_err("method must be a string"));
            },
        },
    };
    let url = match lookup_entry(es, "url") {
        None => {
            return Err(parse_err("a request is missing the required field url"));
        },
        Some(v) => match v {
            Yaml::Str(u) => {
                if url_is_absolute(u.as_str()) {
                    u.clone()
                } else {
                    return Err(parse_err("url is not an absolute URL"));
                }
            },
            _ => {
                return Err(parse_err("url must be a string"));
            },
        },
    };
    let headers = match lookup_entry(es, "headers") {
        None => Vec::new(),
        Some(v) => match v {
            Yaml::Mapping(hes) => decode_header_pairs(hes)?,
            _ => {
                return Err(parse_err("headers must be a mapping"));
            },
        },
    };
    let params = match lookup_entry(es, "params") {
        None => None,
        Some(v) => match v {
            Yaml::Null => None,
            _ => Some(v.duplicate()),
        },
    };
    let body = match lookup_entry(es, "body") {
        None => None,
        Some(v) => match v {
            Yaml::Null => None,
            _ => Some(v.duplicate()),
        },
    };
    let p = RequestProfile { method, url, params, headers, body };
    proof {
        assert(spec_decode_request(y@) == Some(p@));
    }
    Ok(p)
}

/// Decodes one response policy.
pub fn decode_response(y: &Yaml) -> (r: Result<ResponseProfile, ConfigError>)
    ensures
        r matches Ok(p) ==> spec_decode_response(y@) == Some(p@),
        r matches Err(e) ==> spec_decode_response(y@) is None && e is Parse,
{
    let es = match y {
        Yaml::Mapping(es) => es,
        _ => {
            return Err(parse_err("a response policy must be a mapping"));
        },
    };
    let skip_headers = match lookup_entry(es, "skip_headers") {
        None => Vec::new(),
        Some(v) => match v {
            Yaml::List(xs) => decode_string_items(xs)?,
            _ => {
                return Err(parse_err("skip_headers must be a list"));
            },
        },
    };
    let skip_body = match lookup_entry(es, "skip_body") {
        None => Vec::new(),
        Some(v) => match v {
            Yaml::List(xs) => decode_string_items(xs)?,
            _ => {
                return Err(parse_err("skip_body must be a list"));
            },
        },
    };
    let p = ResponseProfile { skip_headers, skip_body };
    proof {
        assert(p@.skip_headers =~= strings_view(p.skip_headers@));
        assert(spec_decode_response(y@) == Some(p@));
    }
    Ok(p)
}

/// Decodes one profile: its two requests and its response policy.
pub fn decode_profile(y: &Yaml) -> (r: Result<DiffProfile, ConfigError>)
    ensures
        r matches Ok(p) ==> spec_decode_profile(y@) == Some(p@),
        r matches Err(e) ==> spec_decode_profile(y@) is None && e is Parse,
{
    let es = match y {
        Yaml::Mapping(es) => es,
        _ => {
            return Err(parse_err("a profile must be a mapping"));
        },
    };
    let y1 = match lookup_entry(es, "req1") {
        Some(v) => v,
        None => {
            return Err(parse_err("a profile is missing the required field req1"));
        },
    };
    let y2 = match lookup_entry(es, "req2") {
        Some(v) => v,
        None => {
            return Err(parse_err("a profile is missing the required field req2"));
        },
    };
    let yr = match lookup_entry(es, "res") {
        Some(v) => v,
        None => {
            return Err(parse_err("a profile is missing the required field res"));
        },
    };
    let req1 = decode_request(y1)?;
    let req2 = decode_request(y2)?;
    let res = decode_response(yr)?;
    Ok(DiffProfile { req1, req2, res })
}

/// Whether some decoded profile already carries the name `k`.
pub fn contains_profile(ps: &Vec<(String, DiffProfile)>, k: &String) -> (r: bool)
    ensures
        r == has_profile_name(profiles_view(ps@), k@),
{
    let mut i: usize = 0;
    while i < ps.len()
        invariant
            0 <= i <= ps.len(),
            forall|j: int| 0 <= j < i ==> profiles_view(ps@)[j].0 != k@,
        decreases ps.len() - i,
    {
        if str_eq(ps[i].0.as_str(), k.as_str()) {
            assert(profiles_view(ps@)[i as int].0 == k@);
            return true;
        }
        i += 1;
    }
    false
}

/// Decodes a whole document tree.
#[verifier::loop_isolation(false)]
pub fn decode_config(y: &Yaml) -> (r: Result<DiffConfig, ConfigError>)
    ensures
        r matches Ok(c) ==> spec_decode_config(y@) == Some(c@),
        r matches Err(e) ==> spec_decode_config(y@) is None && e is Parse,
{
    let es = match y {
        Yaml::Mapping(es) => es,
        _ => {
            return Err(parse_err("the document must be a mapping of profiles"));
        },
    };
    proof {
        lemma_entries_view_len(es@);
    }
    let ghost evs = entries_view(es@);
    let mut out: Vec<(String, DiffProfile)> = Vec::new();
    let mut i: usize = 0;
    proof {
        assert(evs.take(0) =~= Seq::<(Seq<char>, YamlV)>::empty());
        assert(profiles_view(out@) =~= Seq::<(Seq<char>, DiffProfileV)>::empty());
    }
    while i < es.len()
        invariant
            0 <= i <= es.len(),
            spec_decode_profiles(evs.take(i as int)) == Some(profiles_view(out@)),
        decreases es.len() - i,
    {
        proof {
            lemma_entries_view_index(es@, i as int);
            assert(evs.take(i as int + 1).drop_last() =~= evs.take(i as int));
            assert(evs.take(i as int + 1).last() == evs[i as int]);
        }
        if es[i].0.as_str().is_empty() {
            proof {
                lemma_profiles_prefix_none(evs, i as int + 1);
            }
            return Err(parse_err("profile names must be non-empty"));
        }
        if contains_profile(&out, &es[i].0) {
            proof {
                lemma_profiles_prefix_none(evs, i as int + 1);
            }
            return Err(parse_err("profile name used more than once"));
        }
        let p = match decode_profile(&es[i].1) {
            Ok(p) => p,
            Err(e) => {
                proof {
                    lemma_profiles_prefix_none(evs, i as int + 1);
                }
                return Err(e);
            },
        };
        let name = es[i].0.clone();
        let ghost prev = out@;
        out.push((name, p));
        proof {
            assert(profiles_view(out@) =~= profiles_view(prev).push((es@[i as int].0@, p@)));
        }
        i += 1;
    }
    proof {
        assert(evs.take(es@.len() as int) =~= evs);
    }
    Ok(DiffConfig { profiles: out })
}

impl DiffConfig {
    /// Decodes a configuration document from YAML text.
    pub fn from_yaml(content: &str) -> (r: Result<DiffConfig, ConfigError>)
        ensures
            r matches Ok(c) ==> spec_from_yaml(content@) == Some(c@) && wf_config(c@)
                && distinct_keys_config(c@),
            r matches Err(e) ==> spec_from_yaml(content@) is None && e is Parse,
    {
        let v = match value_from_str(content) {
            Ok(v) => v,
            Err(m) => {
                return Err(ConfigError::Parse(m));
            },
        };
        let y = match yaml_of_value(v) {
            Some(y) => y,
            None => {
                return Err(parse_err("the document holds a value outside the schema"));
            },
        };
        let r = decode_config(&y);
        proof {
            if r is Ok {
                lemma_decode_config_wf(y@, r->Ok_0@);
            }
        }
        r
    }
}

} // verus!
