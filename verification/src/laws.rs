//! The laws that tie decoding and encoding together.
//!
//! The central statement: encoding a well-formed document and decoding the
//! result yields the document back, unchanged.  Decoding, in turn, only ever
//! yields well-formed documents.

use vstd::prelude::*;
use crate::decode::{
    has_name, has_profile_name, spec_decode_config, spec_decode_headers, spec_decode_method,
    spec_decode_opt_field, spec_decode_profile, spec_decode_profiles, spec_decode_request,
    spec_decode_response, spec_decode_skips, spec_decode_url, spec_from_yaml, spec_header_pairs,
    spec_string_items,
};
use crate::encode::{
    spec_encode_config, spec_encode_headers, spec_encode_profile, spec_encode_request,
    spec_encode_response, spec_encode_strings,
};
use crate::method::{method_text, lemma_method_text_roundtrip};
use crate::model::{
    DiffConfigV, DiffProfileV, RequestProfileV, ResponseProfileV, distinct_keys_config,
    distinct_keys_request, header_names_unique, profile_names_unique, wf_config, wf_request,
};
use crate::yaml::{YamlV, doc_model, emitted, keys_unique, lookup, nodup_yaml};

verus! {

/// Whether some entry of a mapping carries the key `k`.
pub open spec fn has_key(es: Seq<(Seq<char>, YamlV)>, k: Seq<char>) -> bool {
    exists|i: int| 0 <= i < es.len() && es[i].0 == k
}

/// Looking a key up in joined mappings searches the left part first.
pub proof fn lemma_lookup_append(
    a: Seq<(Seq<char>, YamlV)>,
    b: Seq<(Seq<char>, YamlV)>,
    k: Seq<char>,
)
    ensures
        has_key(a + b, k) == (has_key(a, k) || has_key(b, k)),
        lookup(a + b, k) == if has_key(a, k) {
            lookup(a, k)
        } else {
            lookup(b, k)
        },
    decreases a.len(),
{
    if a.len() == 0 {
        assert(a + b =~= b);
        assert(!has_key(a, k));
    } else {
        assert((a + b)[0] == a[0]);
        assert((a + b).len() == a.len() + b.len());
        if a[0].0 == k {
            assert(has_key(a, k));
            assert(has_key(a + b, k));
        } else {
            assert((a + b).drop_first() =~= a.drop_first() + b);
            lemma_lookup_append(a.drop_first(), b, k);
            assert(has_key(a, k) == has_key(a.drop_first(), k)) by {
                if has_key(a, k) {
                    let i = choose|i: int| 0 <= i < a.len() && a[i].0 == k;
                    assert(a.drop_first()[i - 1].0 == k);
                }
                if has_key(a.drop_first(), k) {
                    let i = choose|i: int| 0 <= i < a.drop_first().len() && a.drop_first()[i].0
                        == k;
                    assert(a[i + 1].0 == k);
                }
            }
            assert(has_key(a + b, k) == (has_key((a + b).drop_first(), k))) by {
                if has_key(a + b, k) {
                    let i = choose|i: int| 0 <= i < (a + b).len() && (a + b)[i].0 == k;
                    assert((a + b).drop_first()[i - 1].0 == k);
                }
                if has_key((a + b).drop_first(), k) {
                    let i = choose|i: int|
                        0 <= i < (a + b).drop_first().len() && (a + b).drop_first()[i].0 == k;
                    assert((a + b)[i + 1].0 == k);
                }
            }
        }
    }
}

/// Encoded header pairs decode back to the same pairs.
pub proof fn lemma_headers_roundtrip(hs: Seq<(Seq<char>, Seq<char>)>)
    requires
        header_names_unique(hs),
    ensures
        spec_header_pairs(spec_encode_headers(hs)) == Some(hs),
    decreases hs.len(),
{
    let e = spec_encode_headers(hs);
    if hs.len() == 0 {
        assert(e =~= Seq::<(Seq<char>, YamlV)>::empty());
        assert(spec_header_pairs(e) == Some(Seq::<(Seq<char>, Seq<char>)>::empty()));
        assert(Some(Seq::<(Seq<char>, Seq<char>)>::empty()) =~~= Some(hs));
    } else {
        let prefix = hs.drop_last();
        assert(e.drop_last() =~= spec_encode_headers(prefix));
        lemma_headers_roundtrip(prefix);
        assert(!has_name(prefix, hs.last().0)) by {
            assert(forall|i: int| 0 <= i < prefix.len() ==> (#[trigger] prefix[i]).0 == hs[i].0);
        }
        assert(e.last() == (hs.last().0, YamlV::Str(hs.last().1)));
        assert(prefix.push((hs.last().0, hs.last().1)) =~= hs);
    }
}

/// Encoded strings decode back to the same strings.
pub proof fn lemma_strings_roundtrip(ss: Seq<Seq<char>>)
    ensures
        spec_string_items(spec_encode_strings(ss)) == Some(ss),
    decreases ss.len(),
{
    let e = spec_encode_strings(ss);
    if ss.len() == 0 {
        assert(e =~= Seq::<YamlV>::empty());
        assert(Some(Seq::<Seq<char>>::empty()) =~~= Some(ss));
    } else {
        let prefix = ss.drop_last();
        assert(e.drop_last() =~= spec_encode_strings(prefix));
        lemma_strings_roundtrip(prefix);
        assert(e.last() == YamlV::Str(ss.last()));
        assert(prefix.push(ss.last()) =~= ss);
    }
}

/// A one-entry mapping holds exactly its one key.
pub proof fn lemma_lookup_single(key: Seq<char>, v: YamlV, k: Seq<char>)
    ensures
        has_key(seq![(key, v)], k) == (key == k),
        lookup(seq![(key, v)], k) == if key == k {
            Some(v)
        } else {
            None
        },
{
    reveal_with_fuel(lookup, 2);
    let s = seq![(key, v)];
    assert(s.len() == 1 && s[0] == (key, v));
    if key == k {
        assert(has_key(s, k));
    } else {
        assert(s.drop_first().len() == 0);
    }
}

/// An empty mapping holds no key.
pub proof fn lemma_lookup_empty(k: Seq<char>)
    ensures
        !has_key(Seq::<(Seq<char>, YamlV)>::empty(), k),
        lookup(Seq::<(Seq<char>, YamlV)>::empty(), k) is None,
{
}

/// The five field names of a request are pairwise distinct.
proof fn lemma_request_keys_distinct()
    ensures
        "method"@ != "url"@ && "method"@ != "params"@ && "method"@ != "headers"@ && "method"@
            != "body"@,
        "url"@ != "params"@ && "url"@ != "headers"@ && "url"@ != "body"@,
        "params"@ != "headers"@ && "params"@ != "body"@,
        "headers"@ != "body"@,
{
    reveal_strlit("method");
    reveal_strlit("url");
    reveal_strlit("params");
    reveal_strlit("headers");
    reveal_strlit("body");
    assert("method"@.len() == 6);
    assert("url"@.len() == 3);
    assert("params"@.len() == 6);
    assert("headers"@.len() == 7);
    assert("body"@.len() == 4);
    assert("method"@ != "params"@) by {
        assert("method"@[0] == 'm' && "params"@[0] == 'p');
    }
}

/// The encoded form of a well-formed request decodes back to it.
pub proof fn lemma_request_roundtrip(r: RequestProfileV)
    requires
        wf_request(r),
    ensures
        spec_decode_request(spec_encode_request(r)) == Some(r),
{
    reveal_with_fuel(lookup, 3);
    lemma_request_keys_distinct();
    let base = seq![("method"@, YamlV::Str(method_text(r.method))), ("url"@, YamlV::Str(r.url))];
    let ps = match r.params {
        Some(v) => seq![("params"@, v)],
        None => Seq::<(Seq<char>, YamlV)>::empty(),
    };
    let hsx = if r.headers.len() > 0 {
        seq![("headers"@, YamlV::Mapping(spec_encode_headers(r.headers)))]
    } else {
        Seq::<(Seq<char>, YamlV)>::empty()
    };
    let bs = match r.body {
        Some(v) => seq![("body"@, v)],
        None => Seq::<(Seq<char>, YamlV)>::empty(),
    };
    let es = base + ps + hsx + bs;
    assert(spec_encode_request(r) == YamlV::Mapping(es));
    assert(base.len() == 2 && base[0] == ("method"@, YamlV::Str(method_text(r.method))) && base[1]
        == ("url"@, YamlV::Str(r.url)));

    assert(lookup(base, "method"@) == Some(YamlV::Str(method_text(r.method))));
    assert(has_key(base, "method"@));
    assert(lookup(base, "url"@) == Some(YamlV::Str(r.url))) by {
        assert(base.drop_first() =~= seq![("url"@, YamlV::Str(r.url))]);
    }
    assert(has_key(base, "url"@));
    assert(!has_key(base, "params"@)) by {
        assert(forall|i: int| 0 <= i < base.len() ==> (#[trigger] base[i]).0 != "params"@);
    }
    assert(!has_key(base, "headers"@)) by {
        assert(forall|i: int| 0 <= i < base.len() ==> (#[trigger] base[i]).0 != "headers"@);
    }
    assert(!has_key(base, "body"@)) by {
        assert(forall|i: int| 0 <= i < base.len() ==> (#[trigger] base[i]).0 != "body"@);
    }
    match r.params {
        Some(v) => {
            lemma_lookup_single("params"@, v, "params"@);
            lemma_lookup_single("params"@, v, "method"@);
            lemma_lookup_single("params"@, v, "url"@);
            lemma_lookup_single("params"@, v, "headers"@);
            lemma_lookup_single("params"@, v, "body"@);
        },
        None => {
            lemma_lookup_empty("params"@);
            lemma_lookup_empty("method"@);
            lemma_lookup_empty("url"@);
            lemma_lookup_empty("headers"@);
            lemma_lookup_empty("body"@);
        },
    }
    if r.headers.len() > 0 {
        let hv = YamlV::Mapping(spec_encode_headers(r.headers));
        lemma_lookup_single("headers"@, hv, "params"@);
        lemma_lookup_single("headers"@, hv, "method"@);
        lemma_lookup_single("headers"@, hv, "url"@);
        lemma_lookup_single("headers"@, hv, "headers"@);
        lemma_lookup_single("headers"@, hv, "body"@);
    } else {
        lemma_lookup_empty("headers"@);
    }
    match r.body {
        Some(v) => {
            lemma_lookup_single("body"@, v, "params"@);
            lemma_lookup_single("body"@, v, "method"@);
            lemma_lookup_single("body"@, v, "url"@);
            lemma_lookup_single("body"@, v, "headers"@);
            lemma_lookup_single("body"@, v, "body"@);
        },
        None => {
            lemma_lookup_empty("body"@);
        },
    }
    lemma_lookup_append(base, ps, "method"@);
    lemma_lookup_append(base + ps, hsx, "method"@);
    lemma_lookup_append(base + ps + hsx, bs, "method"@);
    lemma_lookup_append(base, ps, "url"@);
    lemma_lookup_append(base + ps, hsx, "url"@);
    lemma_lookup_append(base + ps + hsx, bs, "url"@);
    lemma_lookup_append(base, ps, "params"@);
    lemma_lookup_append(base + ps, hsx, "params"@);
    lemma_lookup_append(base + ps + hsx, bs, "params"@);
    lemma_lookup_append(base, ps, "headers"@);
    lemma_lookup_append(base + ps, hsx, "headers"@);
    lemma_lookup_append(base + ps + hsx, bs, "headers"@);
    lemma_lookup_append(base, ps, "body"@);
    lemma_lookup_append(base + ps, hsx, "body"@);
    lemma_lookup_append(base + ps + hsx, bs, "body"@);

    assert(lookup(es, "method"@) == Some(YamlV::Str(method_text(r.method))));
    lemma_method_text_roundtrip(r.method);
    assert(spec_decode_method(lookup(es, "method"@)) == Some(r.method));

    assert(lookup(es, "url"@) == Some(YamlV::Str(r.url)));
    assert(spec_decode_url(lookup(es, "url"@)) == Some(r.url));

    assert(spec_decode_opt_field(lookup(es, "params"@)) == r.params);

    if r.headers.len() > 0 {
        lemma_headers_roundtrip(r.headers);
        assert(spec_decode_headers(lookup(es, "headers"@)) == Some(r.headers));
    } else {
        assert(lookup(es, "headers"@) is None);
        assert(r.headers =~= Seq::<(Seq<char>, Seq<char>)>::empty());
        assert(spec_decode_headers(lookup(es, "headers"@)) == Some(r.headers));
    }

    assert(spec_decode_opt_field(lookup(es, "body"@)) == r.body);

    assert(spec_decode_request(spec_encode_request(r)) == Some(
        RequestProfileV {
            method: r.method,
            url: r.url,
            params: r.params,
            headers: r.headers,
            body: r.body,
        },
    ));
    assert(RequestProfileV {
        method: r.method,
        url: r.url,
        params: r.params,
        headers: r.headers,
        body: r.body,
    } =~~= r);
}

/// The two skip-list names of a response policy are distinct.
proof fn lemma_response_keys_distinct()
    ensures
        "skip_headers"@ != "skip_body"@,
{
    reveal_strlit("skip_headers");
    reveal_strlit("skip_body");
    assert("skip_headers"@.len() == 12);
    assert("skip_body"@.len() == 9);
}

/// The encoded form of a response policy decodes back to it.
pub proof fn lemma_response_roundtrip(p: ResponseProfileV)
    ensures
        spec_decode_response(spec_encode_response(p)) == Some(p),
{
    reveal_with_fuel(lookup, 3);
    lemma_response_keys_distinct();
    let sh = if p.skip_headers.len() > 0 {
        seq![("skip_headers"@, YamlV::List(spec_encode_strings(p.skip_headers)))]
    } else {
        Seq::<(Seq<char>, YamlV)>::empty()
    };
    let sb = if p.skip_body.len() > 0 {
        seq![("skip_body"@, YamlV::List(spec_encode_strings(p.skip_body)))]
    } else {
        Seq::<(Seq<char>, YamlV)>::empty()
    };
    let es = sh + sb;
    assert(spec_encode_response(p) == YamlV::Mapping(es));
    if p.skip_headers.len() > 0 {
        let hv = YamlV::List(spec_encode_strings(p.skip_headers));
        lemma_lookup_single("skip_headers"@, hv, "skip_headers"@);
        lemma_lookup_single("skip_headers"@, hv, "skip_body"@);
    } else {
        lemma_lookup_empty("skip_headers"@);
        lemma_lookup_empty("skip_body"@);
    }
    if p.skip_body.len() > 0 {
        let bv = YamlV::List(spec_encode_strings(p.skip_body));
        lemma_lookup_single("skip_body"@, bv, "skip_headers"@);
        lemma_lookup_single("skip_body"@, bv, "skip_body"@);
    } else {
        lemma_lookup_empty("skip_body"@);
    }
    lemma_lookup_append(sh, sb, "skip_headers"@);
    lemma_lookup_append(sh, sb, "skip_body"@);
    lemma_strings_roundtrip(p.skip_headers);
    lemma_strings_roundtrip(p.skip_body);
    if p.skip_headers.len() == 0 {
        assert(p.skip_headers =~= Seq::<Seq<char>>::empty());
    }
    if p.skip_body.len() == 0 {
        assert(p.skip_body =~= Seq::<Seq<char>>::empty());
    }
    assert(spec_decode_skips(lookup(es, "skip_headers"@)) == Some(p.skip_headers));
    assert(spec_decode_skips(lookup(es, "skip_body"@)) == Some(p.skip_body));
    assert(ResponseProfileV { skip_headers: p.skip_headers, skip_body: p.skip_body } =~~= p);
}

/// The three field names of a profile are pairwise distinct.
proof fn lemma_profile_keys_distinct()
    ensures
        "req1"@ != "req2"@ && "req1"@ != "res"@ && "req2"@ != "res"@,
{
    reveal_strlit("req1");
    reveal_strlit("req2");
    reveal_strlit("res");
    assert("req1"@.len() == 4);
    assert("req2"@.len() == 4);
    assert("res"@.len() == 3);
    assert("req1"@ != "req2"@) by {
        assert("req1"@[3] == '1' && "req2"@[3] == '2');
    }
}

/// The encoded form of a profile with well-formed requests decodes back to
/// it.
pub proof fn lemma_profile_roundtrip(p: DiffProfileV)
    requires
        wf_request(p.req1),
        wf_request(p.req2),
    ensures
        spec_decode_profile(spec_encode_profile(p)) == Some(p),
{
    reveal_with_fuel(lookup, 4);
    lemma_profile_keys_distinct();
    let e1 = spec_encode_request(p.req1);
    let e2 = spec_encode_request(p.req2);
    let er = spec_encode_response(p.res);
    let es = seq![("req1"@, e1), ("req2"@, e2), ("res"@, er)];
    assert(spec_encode_profile(p) == YamlV::Mapping(es));
    assert(es.len() == 3 && es[0] == ("req1"@, e1) && es[1] == ("req2"@, e2) && es[2] == (
    "res"@,
    er,
    ));
    assert(es.drop_first() =~= seq![("req2"@, e2), ("res"@, er)]);
    assert(es.drop_first().drop_first() =~= seq![("res"@, er)]);
    assert(lookup(es, "req1"@) == Some(e1));
    assert(lookup(es, "req2"@) == Some(e2));
    assert(lookup(es, "res"@) == Some(er));
    lemma_request_roundtrip(p.req1);
    lemma_request_roundtrip(p.req2);
    lemma_response_roundtrip(p.res);
    assert(DiffProfileV { req1: p.req1, req2: p.req2, res: p.res } =~~= p);
}

/// The encoded top-level entries of a well-formed document decode back to
/// its profiles.
proof fn lemma_profiles_roundtrip(ps: Seq<(Seq<char>, DiffProfileV)>)
    requires
        profile_names_unique(ps),
        forall|i: int| 0 <= i < ps.len() ==> (#[trigger] ps[i]).0.len() > 0,
        forall|i: int| 0 <= i < ps.len() ==> wf_request((#[trigger] ps[i].1).req1) && wf_request(
            ps[i].1.req2,
        ),
    ensures
        spec_decode_profiles(
            Seq::new(ps.len(), |i: int| (ps[i].0, spec_encode_profile(ps[i].1))),
        ) == Some(ps),
    decreases ps.len(),
{
    let e = Seq::new(ps.len(), |i: int| (ps[i].0, spec_encode_profile(ps[i].1)));
    if ps.len() == 0 {
        assert(Some(Seq::<(Seq<char>, DiffProfileV)>::empty()) =~~= Some(ps));
    } else {
        let prefix = ps.drop_last();
        assert(e.drop_last() =~= Seq::new(
            prefix.len(),
            |i: int| (prefix[i].0, spec_encode_profile(prefix[i].1)),
        ));
        lemma_profiles_roundtrip(prefix);
        assert(!has_profile_name(prefix, ps.last().0)) by {
            assert(forall|i: int| 0 <= i < prefix.len() ==> (#[trigger] prefix[i]).0 == ps[i].0);
        }
        assert(e.last() == (ps.last().0, spec_encode_profile(ps.last().1)));
        lemma_profile_roundtrip(ps.last().1);
        assert(prefix.push(ps.last()) =~= ps);
    }
}

/// Encoding a well-formed document and decoding the result yields the
/// document back, unchanged.
pub proof fn lemma_decode_encode_roundtrip(c: DiffConfigV)
    requires
        wf_config(c),
    ensures
        spec_decode_config(spec_encode_config(c)) == Some(c),
{
    lemma_profiles_roundtrip(c.profiles);
    assert(DiffConfigV { profiles: c.profiles } =~~= c);
}

/// A response policy with empty skip lists encodes to an empty mapping:
/// neither skip key is written, and decoding the empty mapping restores
/// both empty lists.
pub proof fn lemma_empty_skip_lists_omitted(p: ResponseProfileV)
    requires
        p.skip_headers.len() == 0,
        p.skip_body.len() == 0,
    ensures
        spec_encode_response(p) == YamlV::Mapping(Seq::<(Seq<char>, YamlV)>::empty()),
        spec_decode_response(spec_encode_response(p)) == Some(p),
{
    assert(spec_encode_response(p)->Mapping_0 =~= Seq::<(Seq<char>, YamlV)>::empty());
    lemma_response_roundtrip(p);
}

/// Parsing the serialized form of a well-formed document yields the
/// document back, provided the YAML text layer reproduces the encoded tree:
/// the tree-level round trip is proved above, and the text layer is
/// serde_yaml's, whose rendering and re-reading of a tree this library
/// does not model.
pub proof fn lemma_parse_of_serialized(c: DiffConfigV)
    requires
        wf_config(c),
        doc_model(emitted(spec_encode_config(c))) == Some(spec_encode_config(c)),
    ensures
        spec_from_yaml(emitted(spec_encode_config(c))) == Some(c),
{
    lemma_decode_encode_roundtrip(c);
}

/// A value found by lookup stands in some entry of the mapping.
proof fn lemma_lookup_in(es: Seq<(Seq<char>, YamlV)>, k: Seq<char>)
    requires
        lookup(es, k) is Some,
    ensures
        exists|i: int|
            0 <= i < es.len() && #[trigger] es[i].1 == lookup(es, k)->Some_0,
    decreases es.len(),
{
    if es.len() > 0 && es[0].0 != k {
        lemma_lookup_in(es.drop_first(), k);
        let i = choose|i: int|
            0 <= i < es.drop_first().len() && #[trigger] es.drop_first()[i].1 == lookup(
                es.drop_first(),
                k,
            )->Some_0;
        assert(es[i + 1].1 == lookup(es, k)->Some_0);
    }
}

/// Decoded header pairs carry pairwise distinct names.
proof fn lemma_header_pairs_unique(es: Seq<(Seq<char>, YamlV)>, hs: Seq<(Seq<char>, Seq<char>)>)
    requires
        spec_header_pairs(es) == Some(hs),
    ensures
        header_names_unique(hs),
    decreases es.len(),
{
    if es.len() > 0 {
        let acc = spec_header_pairs(es.drop_last())->Some_0;
        lemma_header_pairs_unique(es.drop_last(), acc);
        assert(hs == acc.push((es.last().0, es.last().1->Str_0)));
        assert(forall|i: int| 0 <= i < acc.len() ==> (#[trigger] acc[i]).0 != es.last().0);
        assert(forall|i: int, j: int|
            0 <= i < j < hs.len() ==> (#[trigger] hs[i]).0 != (#[trigger] hs[j]).0) by {
            assert(forall|i: int| 0 <= i < hs.len() - 1 ==> #[trigger] hs[i] == acc[i]);
        }
    }
}

/// A request decoded from a tree whose mappings have distinct keys is well
/// formed.
proof fn lemma_decode_request_wf(y: YamlV, r: RequestProfileV)
    requires
        spec_decode_request(y) == Some(r),
        nodup_yaml(y),
    ensures
        wf_request(r),
{
    let es = y->Mapping_0;
    match spec_decode_headers(lookup(es, "headers"@)) {
        Some(hs) => {
            match lookup(es, "headers"@) {
                Some(hv) => {
                    lemma_header_pairs_unique(hv->Mapping_0, hs);
                },
                None => {},
            }
        },
        None => {},
    }
    match r.params {
        Some(v) => {
            lemma_lookup_in(es, "params"@);
        },
        None => {},
    }
    match r.body {
        Some(v) => {
            lemma_lookup_in(es, "body"@);
        },
        None => {},
    }
}

/// A profile decoded from a tree whose mappings have distinct keys has two
/// well-formed requests.
proof fn lemma_decode_profile_wf(y: YamlV, p: DiffProfileV)
    requires
        spec_decode_profile(y) == Some(p),
        nodup_yaml(y),
    ensures
        wf_request(p.req1),
        wf_request(p.req2),
{
    let es = y->Mapping_0;
    lemma_lookup_in(es, "req1"@);
    lemma_lookup_in(es, "req2"@);
    lemma_decode_request_wf(lookup(es, "req1"@)->Some_0, p.req1);
    lemma_decode_request_wf(lookup(es, "req2"@)->Some_0, p.req2);
}

/// Decoded top-level entries make a well-formed sequence of named profiles.
proof fn lemma_decode_profiles_wf(es: Seq<(Seq<char>, YamlV)>, ps: Seq<(Seq<char>, DiffProfileV)>)
    requires
        spec_decode_profiles(es) == Some(ps),
        forall|i: int| 0 <= i < es.len() ==> nodup_yaml(#[trigger] es[i].1),
    ensures
        profile_names_unique(ps),
        forall|i: int| 0 <= i < ps.len() ==> (#[trigger] ps[i]).0.len() > 0,
        forall|i: int| 0 <= i < ps.len() ==> wf_request((#[trigger] ps[i].1).req1) && wf_request(
            ps[i].1.req2,
        ),
    decreases es.len(),
{
    if es.len() > 0 {
        let acc = spec_decode_profiles(es.drop_last())->Some_0;
        lemma_decode_profiles_wf(es.drop_last(), acc);
        let p = spec_decode_profile(es.last().1)->Some_0;
        assert(nodup_yaml(es.last().1));
        lemma_decode_profile_wf(es.last().1, p);
        assert(ps == acc.push((es.last().0, p)));
        assert(forall|i: int| 0 <= i < acc.len() ==> (#[trigger] acc[i]).0 != es.last().0);
        assert(forall|i: int| 0 <= i < ps.len() - 1 ==> #[trigger] ps[i] == acc[i]);
        assert(profile_names_unique(ps)) by {
            assert(forall|i: int, j: int|
                0 <= i < j < ps.len() ==> (#[trigger] ps[i]).0 != (#[trigger] ps[j]).0);
        }
    }
}

/// A document decoded from a tree whose mappings have distinct keys is well
/// formed, and itself free of duplicate keys.
pub proof fn lemma_decode_config_wf(m: YamlV, c: DiffConfigV)
    requires
        spec_decode_config(m) == Some(c),
        nodup_yaml(m),
    ensures
        wf_config(c),
        distinct_keys_config(c),
{
    let es = m->Mapping_0;
    lemma_decode_profiles_wf(es, c.profiles);
}

/// Joining mappings with distinct keys across the parts keeps the keys
/// distinct.
proof fn lemma_keys_unique_append(a: Seq<(Seq<char>, YamlV)>, b: Seq<(Seq<char>, YamlV)>)
    requires
        keys_unique(a),
        keys_unique(b),
        forall|i: int, j: int|
            0 <= i < a.len() && 0 <= j < b.len() ==> (#[trigger] a[i]).0 != (#[trigger] b[j]).0,
    ensures
        keys_unique(a + b),
{
    assert(forall|i: int, j: int|
        0 <= i < j < (a + b).len() ==> (#[trigger] (a + b)[i]).0 != (#[trigger] (a + b)[j]).0);
}

/// The tree an encoded request yields has distinct keys in every mapping.
proof fn lemma_encode_request_nodup(r: RequestProfileV)
    requires
        distinct_keys_request(r),
    ensures
        nodup_yaml(spec_encode_request(r)),
{
    reveal_with_fuel(nodup_yaml, 3);
    lemma_request_keys_distinct();
    let base = seq![("method"@, YamlV::Str(method_text(r.method))), ("url"@, YamlV::Str(r.url))];
    let ps = match r.params {
        Some(v) => seq![("params"@, v)],
        None => Seq::<(Seq<char>, YamlV)>::empty(),
    };
    let hsx = if r.headers.len() > 0 {
        seq![("headers"@, YamlV::Mapping(spec_encode_headers(r.headers)))]
    } else {
        Seq::<(Seq<char>, YamlV)>::empty()
    };
    let bs = match r.body {
        Some(v) => seq![("body"@, v)],
        None => Seq::<(Seq<char>, YamlV)>::empty(),
    };
    let es = base + ps + hsx + bs;
    assert(spec_encode_request(r) == YamlV::Mapping(es));
    assert(keys_unique(base));
    assert(keys_unique(ps));
    assert(keys_unique(hsx));
    assert(keys_unique(bs));
    lemma_keys_unique_append(base, ps);
    lemma_keys_unique_append(base + ps, hsx);
    lemma_keys_unique_append(base + ps + hsx, bs);
    assert(nodup_yaml(YamlV::Str(method_text(r.method))));
    assert(nodup_yaml(YamlV::Str(r.url)));
    if r.headers.len() > 0 {
        let he = spec_encode_headers(r.headers);
        assert(keys_unique(he)) by {
            assert(forall|i: int| 0 <= i < he.len() ==> (#[trigger] he[i]).0 == r.headers[i].0);
        }
        assert(forall|i: int| 0 <= i < he.len() ==> nodup_yaml(#[trigger] he[i].1));
        assert(nodup_yaml(YamlV::Mapping(he)));
    }
    assert(forall|i: int| 0 <= i < es.len() ==> nodup_yaml(#[trigger] es[i].1));
}

/// The tree an encoded response yields has distinct keys in every mapping.
proof fn lemma_encode_response_nodup(p: ResponseProfileV)
    ensures
        nodup_yaml(spec_encode_response(p)),
{
    reveal_with_fuel(nodup_yaml, 3);
    lemma_response_keys_distinct();
    let sh = if p.skip_headers.len() > 0 {
        seq![("skip_headers"@, YamlV::List(spec_encode_strings(p.skip_headers)))]
    } else {
        Seq::<(Seq<char>, YamlV)>::empty()
    };
    let sb = if p.skip_body.len() > 0 {
        seq![("skip_body"@, YamlV::List(spec_encode_strings(p.skip_body)))]
    } else {
        Seq::<(Seq<char>, YamlV)>::empty()
    };
    let es = sh + sb;
    assert(spec_encode_response(p) == YamlV::Mapping(es));
    lemma_keys_unique_append(sh, sb);
    let eh = spec_encode_strings(p.skip_headers);
    let eb = spec_encode_strings(p.skip_body);
    assert(forall|i: int| 0 <= i < eh.len() ==> nodup_yaml(#[trigger] eh[i]));
    assert(forall|i: int| 0 <= i < eb.len() ==> nodup_yaml(#[trigger] eb[i]));
    assert(nodup_yaml(YamlV::List(eh)));
    assert(nodup_yaml(YamlV::List(eb)));
    assert(forall|i: int| 0 <= i < es.len() ==> nodup_yaml(#[trigger] es[i].1));
}

/// The tree an encoded profile yields has distinct keys in every mapping.
proof fn lemma_encode_profile_nodup(p: DiffProfileV)
    requires
        distinct_keys_request(p.req1),
        distinct_keys_request(p.req2),
    ensures
        nodup_yaml(spec_encode_profile(p)),
{
    reveal_with_fuel(nodup_yaml, 2);
    lemma_profile_keys_distinct();
    let es = seq![
        ("req1"@, spec_encode_request(p.req1)),
        ("req2"@, spec_encode_request(p.req2)),
        ("res"@, spec_encode_response(p.res)),
    ];
    assert(spec_encode_profile(p) == YamlV::Mapping(es));
    assert(keys_unique(es));
    lemma_encode_request_nodup(p.req1);
    lemma_encode_request_nodup(p.req2);
    lemma_encode_response_nodup(p.res);
    assert(forall|i: int| 0 <= i < es.len() ==> nodup_yaml(#[trigger] es[i].1));
}

/// The tree an encoded document yields has distinct keys in every mapping,
/// as YAML requires, provided the document itself has none repeated.
pub proof fn lemma_encode_config_nodup(c: DiffConfigV)
    requires
        distinct_keys_config(c),
    ensures
        nodup_yaml(spec_encode_config(c)),
{
    reveal_with_fuel(nodup_yaml, 2);
    let es = Seq::new(
        c.profiles.len(),
        |i: int| (c.profiles[i].0, spec_encode_profile(c.profiles[i].1)),
    );
    assert(spec_encode_config(c) == YamlV::Mapping(es));
    assert(keys_unique(es)) by {
        assert(forall|i: int| 0 <= i < es.len() ==> (#[trigger] es[i]).0 == c.profiles[i].0);
    }
    assert(forall|i: int| 0 <= i < es.len() ==> nodup_yaml(#[trigger] es[i].1)) by {
        assert forall|i: int| 0 <= i < es.len() implies nodup_yaml(#[trigger] es[i].1) by {
            lemma_encode_profile_nodup(c.profiles[i].1);
        }
    }
}

} // verus!
