//! Encoding a configuration document back into a YAML tree and text.
//!
//! Encoding undoes the defaults that decoding applied: absent `params` and
//! `body` are omitted rather than written as null, and empty `headers`,
//! `skip_headers` and `skip_body` are omitted rather than written as empty
//! collections.  `method` and `url` are always written.

use vstd::prelude::*;
use crate::method::method_text;
use crate::model::{
    DiffConfig, DiffConfigV, DiffProfile, DiffProfileV, RequestProfile, RequestProfileV,
    ResponseProfile, ResponseProfileV, distinct_keys_config, pairs_view, strings_view,
};
use crate::yaml::{
    Yaml, YamlV, emitted, entries_view, items_view, string_of_value, value_of_yaml,
};

verus! {

/// The mapping entries that a sequence of header pairs encodes to.
pub open spec fn spec_encode_headers(hs: Seq<(Seq<char>, Seq<char>)>) -> Seq<(Seq<char>, YamlV)> {
    Seq::new(hs.len(), |i: int| (hs[i].0, YamlV::Str(hs[i].1)))
}

/// The list items that a sequence of strings encodes to.
pub open spec fn spec_encode_strings(ss: Seq<Seq<char>>) -> Seq<YamlV> {
    Seq::new(ss.len(), |i: int| YamlV::Str(ss[i]))
}

/// The tree a request definition encodes to: `method` and `url` always,
/// `params`, `headers` and `body` only where present.
pub open spec fn spec_encode_request(r: RequestProfileV) -> YamlV {
    YamlV::Mapping(
        seq![("method"@, YamlV::Str(method_text(r.method))), ("url"@, YamlV::Str(r.url))]
            + (match r.params {
            Some(v) => seq![("params"@, v)],
            None => Seq::<(Seq<char>, YamlV)>::empty(),
        }) + (if r.headers.len() > 0 {
            seq![("headers"@, YamlV::Mapping(spec_encode_headers(r.headers)))]
        } else {
            Seq::<(Seq<char>, YamlV)>::empty()
        }) + (match r.body {
            Some(v) => seq![("body"@, v)],
            None => Seq::<(Seq<char>, YamlV)>::empty(),
        }),
    )
}

/// The tree a response policy encodes to: each skip list only where
/// non-empty.
pub open spec fn spec_encode_response(p: ResponseProfileV) -> YamlV {
    YamlV::Mapping(
        (if p.skip_headers.len() > 0 {
            seq![("skip_headers"@, YamlV::List(spec_encode_strings(p.skip_headers)))]
        } else {
            Seq::<(Seq<char>, YamlV)>::empty()
        }) + (if p.skip_body.len() > 0 {
            seq![("skip_body"@, YamlV::List(spec_encode_strings(p.skip_body)))]
        } else {
            Seq::<(Seq<char>, YamlV)>::empty()
        }),
    )
}

/// The tree a profile encodes to.
pub open spec fn spec_encode_profile(p: DiffProfileV) -> YamlV {
    YamlV::Mapping(
        seq![
            ("req1"@, spec_encode_request(p.req1)),
            ("req2"@, spec_encode_request(p.req2)),
            ("res"@, spec_encode_response(p.res)),
        ],
    )
}

/// The tree a whole document encodes to.
pub open spec fn spec_encode_config(c: DiffConfigV) -> YamlV {
    YamlV::Mapping(
        Seq::new(c.profiles.len(), |i: int| (c.profiles[i].0, spec_encode_profile(c.profiles[i].1))),
    )
}

/// Encodes a sequence of header pairs as a mapping.
#[verifier::loop_isolation(false)]
pub fn encode_headers(hs: &Vec<(String, String)>) -> (y: Yaml)
    ensures
        y@ == YamlV::Mapping(spec_encode_headers(pairs_view(hs@))),
{
    let ghost target = spec_encode_headers(pairs_view(hs@));
    let mut out: Vec<(String, Yaml)> = Vec::new();
    let mut i: usize = 0;
    proof {
        assert(entries_view(out@) =~~= target.take(0));
    }
    while i < hs.len()
        invariant
            0 <= i <= hs.len(),
            out@.len() == i,
            entries_view(out@) =~~= target.take(i as int),
        decreases hs.len() - i,
    {
        let name = hs[i].0.clone();
        let value = hs[i].1.clone();
        let ghost prev = out@;
        out.push((name, Yaml::Str(value)));
        proof {
            reveal_with_fuel(entries_view, 2);
            assert(out@.drop_last() =~~= prev);
            assert(entries_view(out@) =~~= entries_view(prev).push(
                (hs@[i as int].0@, YamlV::Str(hs@[i as int].1@)),
            ));
            assert(target.take(i as int + 1) =~~= target.take(i as int).push(target[i as int]));
            assert(entries_view(out@) =~~= target.take(i as int + 1));
        }
        i += 1;
    }
    proof {
        assert(target.take(hs@.len() as int) =~~= target);
    }
    Yaml::Mapping(out)
}

/// Encodes a sequence of strings as a list.
#[verifier::loop_isolation(false)]
pub fn encode_strings(ss: &Vec<String>) -> (y: Yaml)
    ensures
        y@ == YamlV::List(spec_encode_strings(strings_view(ss@))),
{
    let ghost target = spec_encode_strings(strings_view(ss@));
    let mut out: Vec<Yaml> = Vec::new();
    let mut i: usize = 0;
    proof {
        assert(items_view(out@) =~~= target.take(0));
    }
    while i < ss.len()
        invariant
            0 <= i <= ss.len(),
            out@.len() == i,
            items_view(out@) =~~= target.take(i as int),
        decreases ss.len() - i,
    {
        let item = ss[i].clone();
        let ghost prev = out@;
        out.push(Yaml::Str(item));
        proof {
            reveal_with_fuel(items_view, 2);
            assert(out@.drop_last() =~~= prev);
            assert(items_view(out@) =~~= items_view(prev).push(YamlV::Str(ss@[i as int]@)));
            assert(target.take(i as int + 1) =~~= target.take(i as int).push(target[i as int]));
            assert(items_view(out@) =~~= target.take(i as int + 1));
        }
        i += 1;
    }
    proof {
        assert(target.take(ss@.len() as int) =~~= target);
    }
    Yaml::List(out)
}

/// Encodes one request definition.
pub fn encode_request(r: &RequestProfile) -> (y: Yaml)
    ensures
        y@ == spec_encode_request(r@),
{
    let mut es: Vec<(String, Yaml)> = Vec::new();
    let ghost zero = es@;
    es.push(("method".to_owned(), Yaml::Str(r.method.name().to_owned())));
    let ghost one = es@;
    es.push(("url".to_owned(), Yaml::Str(r.url.clone())));
    let ghost base = seq![
        ("method"@, YamlV::Str(method_text(r@.method))),
        ("url"@, YamlV::Str(r@.url)),
    ];
    proof {
        reveal_with_fuel(entries_view, 2);
        assert(one.drop_last() =~~= zero);
        assert(es@.drop_last() =~~= one);
        assert(entries_view(one) =~~= seq![("method"@, YamlV::Str(method_text(r@.method)))]);
        assert(entries_view(es@) =~~= base);
    }
    let ghost withp = base + (match r@.params {
        Some(v) => seq![("params"@, v)],
        None => Seq::<(Seq<char>, YamlV)>::empty(),
    });
    match &r.params {
        Some(v) => {
            let c = v.duplicate();
            let ghost prev = es@;
            es.push(("params".to_owned(), c));
            proof {
                reveal_with_fuel(entries_view, 2);
                assert(es@.drop_last() =~~= prev);
                assert(entries_view(es@) =~~= withp);
            }
        },
        None => {
            proof {
                assert(entries_view(es@) =~~= withp);
            }
        },
    }
    let ghost withh = withp + (if r@.headers.len() > 0 {
        seq![("headers"@, YamlV::Mapping(spec_encode_headers(r@.headers)))]
    } else {
        Seq::<(Seq<char>, YamlV)>::empty()
    });
    if r.headers.len() > 0 {
        let h = encode_headers(&r.headers);
        let ghost prev = es@;
        es.push(("headers".to_owned(), h));
        proof {
            reveal_with_fuel(entries_view, 2);
            assert(es@.drop_last() =~~= prev);
            assert(entries_view(es@) =~~= withh);
        }
    } else {
        proof {
            assert(entries_view(es@) =~~= withh);
        }
    }
    let ghost withb = withh + (match r@.body {
        Some(v) => seq![("body"@, v)],
        None => Seq::<(Seq<char>, YamlV)>::empty(),
    });
    match &r.body {
        Some(v) => {
            let c = v.duplicate();
            let ghost prev = es@;
            es.push(("body".to_owned(), c));
            proof {
                reveal_with_fuel(entries_view, 2);
                assert(es@.drop_last() =~~= prev);
                assert(entries_view(es@) =~~= withb);
            }
        },
        None => {
            proof {
                assert(entries_view(es@) =~~= withb);
            }
        },
    }
    let y = Yaml::Mapping(es);
    proof {
        assert(y@ == spec_encode_request(r@));
    }
    y
}

/// Encodes one response policy.
pub fn encode_response(p: &ResponseProfile) -> (y: Yaml)
    ensures
        y@ == spec_encode_response(p@),
{
    let mut es: Vec<(String, Yaml)> = Vec::new();
    let ghost withh = if p@.skip_headers.len() > 0 {
        seq![("skip_headers"@, YamlV::List(spec_encode_strings(p@.skip_headers)))]
    } else {
        Seq::<(Seq<char>, YamlV)>::empty()
    };
    proof {
        assert(entries_view(es@) =~~= Seq::<(Seq<char>, YamlV)>::empty());
    }
    if p.skip_headers.len() > 0 {
        let l = encode_strings(&p.skip_headers);
        let ghost prev = es@;
        es.push(("skip_headers".to_owned(), l));
        proof {
            reveal_with_fuel(entries_view, 2);
            assert(es@.drop_last() =~~= prev);
            assert(entries_view(es@) =~~= withh);
        }
    } else {
        proof {
            assert(entries_view(es@) =~~= withh);
        }
    }
    let ghost withb = withh + (if p@.skip_body.len() > 0 {
        seq![("skip_body"@, YamlV::List(spec_encode_strings(p@.skip_body)))]
    } else {
        Seq::<(Seq<char>, YamlV)>::empty()
    });
    if p.skip_body.len() > 0 {
        let l = encode_strings(&p.skip_body);
        let ghost prev = es@;
        es.push(("skip_body".to_owned(), l));
        proof {
            reveal_with_fuel(entries_view, 2);
            assert(es@.drop_last() =~~= prev);
            assert(entries_view(es@) =~~= withb);
        }
    } else {
        proof {
            assert(entries_view(es@) =~~= withb);
        }
    }
    let y = Yaml::Mapping(es);
    proof {
        assert(y@ == spec_encode_response(p@));
    }
    y
}

/// Encodes one profile.
pub fn encode_profile(p: &DiffProfile) -> (y: Yaml)
    ensures
        y@ == spec_encode_profile(p@),
{
    let mut es: Vec<(String, Yaml)> = Vec::new();
    let ghost zero = es@;
    let r1 = encode_request(&p.req1);
    es.push(("req1".to_owned(), r1));
    let r2 = encode_request(&p.req2);
    let ghost one = es@;
    es.push(("req2".to_owned(), r2));
    let rr = encode_response(&p.res);
    let ghost two = es@;
    es.push(("res".to_owned(), rr));
    proof {
        reveal_with_fuel(entries_view, 2);
        assert(one.drop_last() =~~= zero);
        assert(two.drop_last() =~~= one);
        assert(es@.drop_last() =~~= two);
        assert(entries_view(one) =~~= seq![("req1"@, spec_encode_request(p@.req1))]);
        assert(entries_view(two) =~~= seq![
            ("req1"@, spec_encode_request(p@.req1)),
            ("req2"@, spec_encode_request(p@.req2)),
        ]);
        assert(entries_view(es@) =~~= seq![
            ("req1"@, spec_encode_request(p@.req1)),
            ("req2"@, spec_encode_request(p@.req2)),
            ("res"@, spec_encode_response(p@.res)),
        ]);
    }
    let y = Yaml::Mapping(es);
    proof {
        assert(y@ == spec_encode_profile(p@));
    }
    y
}

/// Encodes a whole document.
#[verifier::loop_isolation(false)]
pub fn encode_config(c: &DiffConfig) -> (y: Yaml)
    ensures
        y@ == spec_encode_config(c@),
{
    let ghost target = spec_encode_config(c@)->Mapping_0;
    let mut es: Vec<(String, Yaml)> = Vec::new();
    let mut i: usize = 0;
    proof {
        assert(entries_view(es@) =~~= target.take(0));
    }
    while i < c.profiles.len()
        invariant
            0 <= i <= c.profiles.len(),
            es@.len() == i,
            entries_view(es@) =~~= target.take(i as int),
        decreases c.profiles.len() - i,
    {
        let name = c.profiles[i].0.clone();
        let p = encode_profile(&c.profiles[i].1);
        let ghost prev = es@;
        es.push((name, p));
        proof {
            reveal_with_fuel(entries_view, 2);
            assert(es@.drop_last() =~~= prev);
            assert(entries_view(es@) =~~= entries_view(prev).push(
                (c.profiles@[i as int].0@, spec_encode_profile(c.profiles@[i as int].1@)),
            ));
            assert(target.take(i as int + 1) =~~= target.take(i as int).push(target[i as int]));
            assert(entries_view(es@) =~~= target.take(i as int + 1));
        }
        i += 1;
    }
    proof {
        assert(target.take(c.profiles@.len() as int) =~~= target);
    }
    let y = Yaml::Mapping(es);
    proof {
        assert(y@ == spec_encode_config(c@));
    }
    y
}

impl DiffConfig {
    /// Encodes this document as YAML text, omitting absent optional fields
    /// and empty collections.  Never fails: every document whose mappings
    /// have distinct keys — every document decoding produces — renders.
    pub fn to_yaml(&self) -> (s: String)
        requires
            distinct_keys_config(self@),
        ensures
            s@ == emitted(spec_encode_config(self@)),
    {
        let y = encode_config(self);
        proof {
            crate::laws::lemma_encode_config_nodup(self@);
        }
        let v = value_of_yaml(&y);
        match string_of_value(&v) {
            Ok(s) => s,
            Err(_) => {
                proof {
                    assert(false);
                }
                String::new()
            },
        }
    }
}

} // verus!
