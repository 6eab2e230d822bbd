//! The YAML value tree that configuration documents decode from and encode
//! to, together with the trusted bridge to serde_yaml.
//!
//! The tree holds what the schema can speak about: null, booleans, signed
//! 64-bit integers, strings, sequences, and string-keyed mappings in document
//! order.  Values outside that range (floating-point numbers, integers beyond
//! 64 bits, tagged values, non-string mapping keys) have no counterpart here;
//! a document holding one is rejected.

use vstd::prelude::*;
use serde_yaml::Value;
use crate::text::str_eq;

verus! {

/// A YAML value, as the configuration schema sees it.
#[derive(Debug, PartialEq)]
pub enum Yaml {
    Null,
    Bool(bool),
    Int(i64),
    Str(String),
    List(Vec<Yaml>),
    Mapping(Vec<(String, Yaml)>),
}

/// The mathematical shape of a [`Yaml`] value.
#[verifier::ext_equal]
pub enum YamlV {
    Null,
    Bool(bool),
    Int(int),
    Str(Seq<char>),
    List(Seq<YamlV>),
    Mapping(Seq<(Seq<char>, YamlV)>),
}

/// The shape of a [`Yaml`] value.
pub open spec fn yaml_view(y: Yaml) -> YamlV
    decreases y,
{
    match y {
        Yaml::Null => YamlV::Null,
        Yaml::Bool(b) => YamlV::Bool(b),
        Yaml::Int(i) => YamlV::Int(i as int),
        Yaml::Str(s) => YamlV::Str(s@),
        Yaml::List(xs) => {
            proof {
                assert(decreases_to!(y => xs));
                assert(decreases_to!(xs => xs@));
            }
            YamlV::List(items_view(xs@))
        },
        Yaml::Mapping(es) => {
            proof {
                assert(decreases_to!(y => es));
                assert(decreases_to!(es => es@));
            }
            YamlV::Mapping(entries_view(es@))
        },
    }
}

impl View for Yaml {
    type V = YamlV;

    open spec fn view(&self) -> YamlV {
        yaml_view(*self)
    }
}

/// The shape of a sequence of values.
pub open spec fn items_view(xs: Seq<Yaml>) -> Seq<YamlV>
    decreases xs,
{
    if xs.len() == 0 {
        Seq::empty()
    } else {
        items_view(xs.drop_last()).push(yaml_view(xs.last()))
    }
}

/// The shape of a sequence of mapping entries.
pub open spec fn entries_view(es: Seq<(String, Yaml)>) -> Seq<(Seq<char>, YamlV)>
    decreases es,
{
    if es.len() == 0 {
        Seq::empty()
    } else {
        entries_view(es.drop_last()).push((es.last().0@, yaml_view(es.last().1)))
    }
}

/// A sequence of values has a shape entry for each value, in order.
pub broadcast proof fn lemma_items_view_len(xs: Seq<Yaml>)
    ensures
        (#[trigger] items_view(xs)).len() == xs.len(),
    decreases xs.len(),
{
    if xs.len() > 0 {
        lemma_items_view_len(xs.drop_last());
    }
}

/// The shape of the `i`-th value stands at position `i`.
pub broadcast proof fn lemma_items_view_index(xs: Seq<Yaml>, i: int)
    requires
        0 <= i < xs.len(),
    ensures
        #[trigger] items_view(xs)[i] == yaml_view(xs[i]),
    decreases xs.len(),
{
    lemma_items_view_len(xs.drop_last());
    if i < xs.len() - 1 {
        lemma_items_view_index(xs.drop_last(), i);
    }
}

/// A sequence of entries has a shape entry for each of them, in order.
pub broadcast proof fn lemma_entries_view_len(es: Seq<(String, Yaml)>)
    ensures
        (#[trigger] entries_view(es)).len() == es.len(),
    decreases es.len(),
{
    if es.len() > 0 {
        lemma_entries_view_len(es.drop_last());
    }
}

/// The shape of the `i`-th entry stands at position `i`.
pub broadcast proof fn lemma_entries_view_index(es: Seq<(String, Yaml)>, i: int)
    requires
        0 <= i < es.len(),
    ensures
        #[trigger] entries_view(es)[i] == (es[i].0@, yaml_view(es[i].1)),
    decreases es.len(),
{
    lemma_entries_view_len(es.drop_last());
    if i < es.len() - 1 {
        lemma_entries_view_index(es.drop_last(), i);
    }
}

/// Whether the keys of a mapping are pairwise distinct.
pub open spec fn keys_unique(es: Seq<(Seq<char>, YamlV)>) -> bool {
    forall|i: int, j: int| 0 <= i < j < es.len() ==> es[i].0 != es[j].0
}

/// Whether every mapping inside a tree has pairwise distinct keys.
pub open spec fn nodup_yaml(y: YamlV) -> bool
    decreases y,
{
    match y {
        YamlV::List(xs) => forall|i: int| 0 <= i < xs.len() ==> nodup_yaml(#[trigger] xs[i]),
        YamlV::Mapping(es) => keys_unique(es) && forall|i: int|
            0 <= i < es.len() ==> nodup_yaml(#[trigger] es[i].1),
        _ => true,
    }
}

/// The value under the first entry of `es` whose key is `k`, if any.
pub open spec fn lookup(es: Seq<(Seq<char>, YamlV)>, k: Seq<char>) -> Option<YamlV>
    decreases es.len(),
{
    if es.len() == 0 {
        None
    } else if es[0].0 == k {
        Some(es[0].1)
    } else {
        lookup(es.drop_first(), k)
    }
}

/// Looking a key up finds the first entry that carries it.
pub proof fn lemma_lookup_found(es: Seq<(Seq<char>, YamlV)>, k: Seq<char>, i: int)
    requires
        0 <= i < es.len(),
        es[i].0 == k,
        forall|j: int| 0 <= j < i ==> es[j].0 != k,
    ensures
        lookup(es, k) == Some(es[i].1),
    decreases i,
{
    if i > 0 {
        lemma_lookup_found(es.drop_first(), k, i - 1);
    }
}

/// Looking up a key that no entry carries finds nothing.
pub proof fn lemma_lookup_none(es: Seq<(Seq<char>, YamlV)>, k: Seq<char>)
    requires
        forall|j: int| 0 <= j < es.len() ==> es[j].0 != k,
    ensures
        lookup(es, k) is None,
    decreases es.len(),
{
    if es.len() > 0 {
        lemma_lookup_none(es.drop_first(), k);
    }
}

/// Finds the first entry of `es` whose key is `k`.
pub fn lookup_entry<'a>(es: &'a Vec<(String, Yaml)>, k: &str) -> (r: Option<&'a Yaml>)
    ensures
        match r {
            Some(v) => lookup(entries_view(es@), k@) == Some(v@),
            None => lookup(entries_view(es@), k@) is None,
        },
{
    proof {
        lemma_entries_view_len(es@);
    }
    let mut i: usize = 0;
    while i < es.len()
        invariant
            0 <= i <= es.len(),
            entries_view(es@).len() == es@.len(),
            forall|j: int| 0 <= j < i ==> entries_view(es@)[j].0 != k@,
        decreases es.len() - i,
    {
        proof {
            lemma_entries_view_index(es@, i as int);
        }
        if str_eq(es[i].0.as_str(), k) {
            proof {
                lemma_lookup_found(entries_view(es@), k@, i as int);
            }
            return Some(&es[i].1);
        }
        i += 1;
    }
    proof {
        lemma_lookup_none(entries_view(es@), k@);
    }
    None
}

impl Yaml {
    /// Copies a value tree.
    #[verifier::loop_isolation(false)]
    pub fn duplicate(&self) -> (r: Yaml)
        ensures
            r@ == self@,
        decreases self,
    {
        match self {
            Yaml::Null => Yaml::Null,
            Yaml::Bool(b) => Yaml::Bool(*b),
            Yaml::Int(i) => Yaml::Int(*i),
            Yaml::Str(s) => Yaml::Str(s.clone()),
            Yaml::List(xs) => {
                let mut out: Vec<Yaml> = Vec::new();
                let mut i: usize = 0;
                proof {
                    lemma_items_view_len(xs@);
                    assert(items_view(xs@.take(0)) =~= items_view(out@));
                }
                while i < xs.len()
                    invariant
                        0 <= i <= xs.len(),
                        out@.len() == i,
                        items_view(out@) =~= items_view(xs@.take(i as int)),
                    decreases xs.len() - i,
                {
                    proof {
                        assert(decreases_to!(*self => *xs));
                        assert(decreases_to!(*xs => xs@));
                        assert(decreases_to!(xs@ => xs@[i as int]));
                    }
                    let c = xs[i].duplicate();
                    let ghost prev = out@;
                    out.push(c);
                    proof {
                        assert(out@.drop_last() =~= prev);
                        assert(xs@.take(i as int + 1).drop_last() =~= xs@.take(i as int));
                        assert(xs@.take(i as int + 1).last() == xs@[i as int]);
                        assert(items_view(out@) =~= items_view(xs@.take(i as int + 1)));
                    }
                    i += 1;
                }
                proof {
                    assert(xs@.take(xs@.len() as int) =~= xs@);
                }
                Yaml::List(out)
            },
            Yaml::Mapping(es) => {
                let mut out: Vec<(String, Yaml)> = Vec::new();
                let mut i: usize = 0;
                proof {
                    lemma_entries_view_len(es@);
                    assert(entries_view(es@.take(0)) =~= entries_view(out@));
                }
                while i < es.len()
                    invariant
                        0 <= i <= es.len(),
                        out@.len() == i,
                        entries_view(out@) =~= entries_view(es@.take(i as int)),
                    decreases es.len() - i,
                {
                    proof {
                        assert(decreases_to!(*self => *es));
                        assert(decreases_to!(*es => es@));
                        assert(decreases_to!(es@ => es@[i as int]));
                        assert(decreases_to!(es@[i as int] => es@[i as int].1));
                    }
                    let c = es[i].1.duplicate();
                    let n = es[i].0.clone();
                    let ghost prev = out@;
                    out.push((n, c));
                    proof {
                        assert(out@.drop_last() =~= prev);
                        assert(es@.take(i as int + 1).drop_last() =~= es@.take(i as int));
                        assert(es@.take(i as int + 1).last() == es@[i as int]);
                        assert(entries_view(out@) =~= entries_view(es@.take(i as int + 1)));
                    }
                    i += 1;
                }
                proof {
                    assert(es@.take(es@.len() as int) =~= es@);
                }
                Yaml::Mapping(out)
            },
        }
    }
}

/// The serde_yaml value tree, carried opaquely between the trusted calls
/// below.
#[verifier::external_type_specification]
#[verifier::external_body]
pub struct ExYamlValue(serde_yaml::Value);

/// The shape of a serde_yaml value, where it has one: `None` where the value
/// holds what the library does not model (a floating-point number, an integer
/// beyond signed 64 bits, a tagged value, or a mapping key that is not a
/// string).
pub uninterp spec fn yaml_src(v: serde_yaml::Value) -> Option<YamlV>;

/// The shape of the document that serde_yaml reads from a piece of text:
/// `None` where its reader fails on the text (invalid YAML, more than one
/// document, or nesting past its depth limit), or where the document holds
/// what the library does not model.
pub uninterp spec fn doc_model(s: Seq<char>) -> Option<YamlV>;

/// The text that serde_yaml renders a tree of the given shape to.
pub uninterp spec fn emitted(y: YamlV) -> Seq<char>;

/// Relies on serde_yaml::from_str: decodes YAML text into serde_yaml's value
/// tree; the result depends on the text alone.
#[verifier::external_body]
pub(crate) fn value_from_str(text: &str) -> (r: Result<serde_yaml::Value, String>)
    ensures
        r matches Ok(v) ==> yaml_src(v) == doc_model(text@),
        r is Err ==> doc_model(text@) is None,
{
    serde_yaml::from_str::<serde_yaml::Value>(text).map_err(|e| e.to_string())
}

/// Converts serde_yaml's tree into the library's, one variant arm each.
/// Relies on serde_yaml::Value's variants, on serde_yaml::Number::as_i64, and
/// on serde_yaml::Mapping holding each key once, in document order.
#[verifier::external_body]
pub(crate) fn yaml_of_value(v: serde_yaml::Value) -> (r: Option<Yaml>)
    ensures
        r matches Some(y) ==> yaml_src(v) == Some(y@) && nodup_yaml(y@),
        r is None ==> yaml_src(v) is None,
{
    match v {
        Value::Null => Some(Yaml::Null),
        Value::Bool(b) => Some(Yaml::Bool(b)),
        Value::Number(n) => n.as_i64().map(Yaml::Int),
        Value::String(s) => Some(Yaml::Str(s)),
        Value::Sequence(xs) => {
            xs.into_iter().map(yaml_of_value).collect::<Option<Vec<Yaml>>>().map(Yaml::List)
        },
        Value::Mapping(m) => m.into_iter().map(|(k, x)| match k {
            Value::String(ks) => Some((ks, yaml_of_value(x)?)),
            _ => None,
        }).collect::<Option<Vec<(String, Yaml)>>>().map(Yaml::Mapping),
        Value::Tagged(_) => None,
    }
}

/// Converts the library's tree into serde_yaml's, one variant arm each.
/// Relies on serde_yaml::Value's variants and on serde_yaml::Mapping keeping
/// distinct keys in insertion order.
#[verifier::external_body]
pub(crate) fn value_of_yaml(y: &Yaml) -> (r: serde_yaml::Value)
    ensures
        nodup_yaml(y@) ==> yaml_src(r) == Some(y@),
{
    match y {
        Yaml::Null => Value::Null,
        Yaml::Bool(b) => Value::Bool(*b),
        Yaml::Int(i) => Value::Number(serde_yaml::Number::from(*i)),
        Yaml::Str(s) => Value::String(s.clone()),
        Yaml::List(xs) => Value::Sequence(xs.iter().map(value_of_yaml).collect()),
        Yaml::Mapping(es) => Value::Mapping(
            es.iter().map(|(k, x)| (Value::String(k.clone()), value_of_yaml(x))).collect(),
        ),
    }
}

/// Relies on serde_yaml::to_string: renders a value tree as a YAML document;
/// the text depends on the tree alone.  On a tree the library models — no
/// floats, tags, out-of-range integers or non-string keys — its serializer
/// writes to an in-memory buffer and has no failure path, so the call
/// succeeds.
#[verifier::external_body]
pub(crate) fn string_of_value(v: &serde_yaml::Value) -> (r: Result<String, String>)
    ensures
        yaml_src(*v) is Some ==> r is Ok,
        r matches Ok(s) ==> (yaml_src(*v) matches Some(m) ==> s@ == emitted(m)),
{
    serde_yaml::to_string(v).map_err(|e| e.to_string())
}

} // verus!
