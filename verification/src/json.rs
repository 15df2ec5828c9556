//! Flat models of JSON text as the coercer needs them, and the JSON
//! document type the row serializer builds.
//!
//! The coercer never walks nested JSON: it only needs the top-level shape of
//! a literal (null, string, array, or some other scalar), and for an array
//! the serialized text and the unwrapped content of each element.  The row
//! serializer, by contrast, builds whole documents; those use [`JsonVal`],
//! whose mathematical shape is [`JsonModel`].

use vstd::prelude::*;

use crate::outcalls::{camel_of, to_camel_case};

verus! {

/// One element of a top-level JSON array: its serialized text and, when the
/// element is a JSON string, its unwrapped content.
#[derive(Debug, Clone, PartialEq, Eq)]
pub struct JsonElem {
    pub text: String,
    pub quoted: Option<String>,
}

/// The top-level shape of a candidate JSON literal.
#[derive(Debug, Clone, PartialEq, Eq)]
pub enum JsonShape {
    /// The text is not valid JSON at all.
    NotJson,
    /// The JSON literal `null`.
    Null,
    /// A JSON string, unwrapped.
    Text(String),
    /// A JSON array, one entry per element.
    Array(Vec<JsonElem>),
    /// Any other JSON value (number, boolean, object), serialized back to
    /// text.
    Scalar(String),
}

/// A JSON document built by the row serializer.  Numbers are carried as
/// their decimal text so the document stays independent of float support.
#[derive(Debug, PartialEq, Eq)]
pub enum JsonVal {
    Null,
    Bool(bool),
    NumText(String),
    Str(String),
    Arr(Vec<JsonVal>),
    Obj(Vec<(String, JsonVal)>),
}

/// The mathematical shape of a [`JsonVal`] document.
pub enum JsonModel {
    Null,
    Bool(bool),
    NumText(Seq<char>),
    Str(Seq<char>),
    Arr(Seq<JsonModel>),
    Obj(Seq<(Seq<char>, JsonModel)>),
}

/// The mathematical shape of a document.
pub open spec fn json_model(v: JsonVal) -> JsonModel
    decreases v,
{
    match v {
        JsonVal::Null => JsonModel::Null,
        JsonVal::Bool(b) => JsonModel::Bool(b),
        JsonVal::NumText(s) => JsonModel::NumText(s@),
        JsonVal::Str(s) => JsonModel::Str(s@),
        JsonVal::Arr(items) => JsonModel::Arr(json_model_seq(items@)),
        JsonVal::Obj(entries) => JsonModel::Obj(json_model_entries(entries@)),
    }
}

pub open spec fn json_model_seq(items: Seq<JsonVal>) -> Seq<JsonModel>
    decreases items,
{
    if items.len() == 0 {
        Seq::empty()
    } else {
        json_model_seq(items.drop_last()).push(json_model(items.last()))
    }
}

pub open spec fn json_model_entries(entries: Seq<(String, JsonVal)>) -> Seq<(Seq<char>, JsonModel)>
    decreases entries,
{
    if entries.len() == 0 {
        Seq::empty()
    } else {
        json_model_entries(entries.drop_last()).push(
            (entries.last().0@, json_model(entries.last().1)),
        )
    }
}

/// Every object key rewritten to camelCase, at every depth; everything else
/// unchanged.
pub open spec fn camel_keys_model(m: JsonModel) -> JsonModel
    decreases m,
{
    match m {
        JsonModel::Obj(entries) => JsonModel::Obj(camel_keys_entries(entries)),
        JsonModel::Arr(items) => JsonModel::Arr(camel_keys_seq(items)),
        other => other,
    }
}

pub open spec fn camel_keys_seq(items: Seq<JsonModel>) -> Seq<JsonModel>
    decreases items,
{
    if items.len() == 0 {
        Seq::empty()
    } else {
        camel_keys_seq(items.drop_last()).push(camel_keys_model(items.last()))
    }
}

pub open spec fn camel_keys_entries(entries: Seq<(Seq<char>, JsonModel)>) -> Seq<
    (Seq<char>, JsonModel),
>
    decreases entries,
{
    if entries.len() == 0 {
        Seq::empty()
    } else {
        camel_keys_entries(entries.drop_last()).push(
            (camel_of(entries.last().0), camel_keys_model(entries.last().1)),
        )
    }
}

/// An exact copy of a document.
pub fn clone_json(v: &JsonVal) -> (r: JsonVal)
    ensures
        json_model(r) == json_model(*v),
    decreases *v,
{
    match v {
        JsonVal::Null => JsonVal::Null,
        JsonVal::Bool(b) => JsonVal::Bool(*b),
        JsonVal::NumText(s) => JsonVal::NumText(s.clone()),
        JsonVal::Str(s) => JsonVal::Str(s.clone()),
        JsonVal::Arr(items) => {
            let mut out: Vec<JsonVal> = Vec::new();
            let mut i: usize = 0;
            while i < items.len()
                invariant
                    *v == JsonVal::Arr(*items),
                    i <= items.len(),
                    json_model_seq(out@) == json_model_seq(items@.take(i as int)),
                    out@.len() == i,
                decreases items.len() - i,
            {
                proof {
                    assert(decreases_to!(*v => (*v)->Arr_0));
                    assert((*v)->Arr_0 == *items);
                    assert(decreases_to!(*items => items@));
                    assert(decreases_to!(items@ => items@[i as int]));
                    assert(decreases_to!(*v => items@[i as int]));
                }
                let c = clone_json(&items[i]);
                let ghost out0 = out@;
                out.push(c);
                proof {
                    lemma_json_model_seq_push(out0, items@.take(i as int), c, items@[i as int]);
                    assert(items@.take(i as int + 1) =~= items@.take(i as int).push(
                        items@[i as int],
                    ));
                }
                i = i + 1;
            }
            proof {
                assert(items@.take(items@.len() as int) =~= items@);
            }
            JsonVal::Arr(out)
        },
        JsonVal::Obj(entries) => {
            let mut out: Vec<(String, JsonVal)> = Vec::new();
            let mut i: usize = 0;
            while i < entries.len()
                invariant
                    *v == JsonVal::Obj(*entries),
                    i <= entries.len(),
                    json_model_entries(out@) == json_model_entries(entries@.take(i as int)),
                    out@.len() == i,
                decreases entries.len() - i,
            {
                proof {
                    assert(decreases_to!(*v => (*v)->Obj_0));
                    assert((*v)->Obj_0 == *entries);
                    assert(decreases_to!(*entries => entries@));
                    assert(decreases_to!(entries@ => entries@[i as int]));
                    assert(decreases_to!(entries@[i as int] => entries@[i as int].1));
                    assert(decreases_to!(*v => entries@[i as int].1));
                }
                let k = entries[i].0.clone();
                let c = clone_json(&entries[i].1);
                let ghost out0 = out@;
                out.push((k, c));
                proof {
                    lemma_json_model_entries_push(
                        out0,
                        entries@.take(i as int),
                        (k, c),
                        entries@[i as int],
                    );
                    assert(entries@.take(i as int + 1) =~= entries@.take(i as int).push(
                        entries@[i as int],
                    ));
                }
                i = i + 1;
            }
            proof {
                assert(entries@.take(entries@.len() as int) =~= entries@);
            }
            JsonVal::Obj(out)
        },
    }
}

proof fn lemma_json_model_seq_push(pre: Seq<JsonVal>, pre2: Seq<JsonVal>, a: JsonVal, b: JsonVal)
    requires
        json_model_seq(pre) == json_model_seq(pre2),
        json_model(a) == json_model(b),
    ensures
        json_model_seq(pre.push(a)) == json_model_seq(pre2.push(b)),
{
    assert(pre.push(a).drop_last() =~= pre);
    assert(pre2.push(b).drop_last() =~= pre2);
    assert(pre.push(a).last() == a);
    assert(pre2.push(b).last() == b);
}

proof fn lemma_json_model_entries_push(
    pre: Seq<(String, JsonVal)>,
    pre2: Seq<(String, JsonVal)>,
    a: (String, JsonVal),
    b: (String, JsonVal),
)
    requires
        json_model_entries(pre) == json_model_entries(pre2),
        a.0@ == b.0@,
        json_model(a.1) == json_model(b.1),
    ensures
        json_model_entries(pre.push(a)) == json_model_entries(pre2.push(b)),
{
    assert(pre.push(a).drop_last() =~= pre);
    assert(pre2.push(b).drop_last() =~= pre2);
    assert(pre.push(a).last() == a);
    assert(pre2.push(b).last() == b);
}

/// Rewrites every object key, at every depth, to camelCase.
pub fn camel_case_keys(v: JsonVal) -> (r: JsonVal)
    ensures
        json_model(r) == camel_keys_model(json_model(v)),
{
    camel_keys_of(&v)
}

fn camel_keys_of(v: &JsonVal) -> (r: JsonVal)
    ensures
        json_model(r) == camel_keys_model(json_model(*v)),
    decreases *v,
{
    match v {
        JsonVal::Null => JsonVal::Null,
        JsonVal::Bool(b) => JsonVal::Bool(*b),
        JsonVal::NumText(s) => JsonVal::NumText(s.clone()),
        JsonVal::Str(s) => JsonVal::Str(s.clone()),
        JsonVal::Arr(items) => {
            let mut out: Vec<JsonVal> = Vec::new();
            let mut i: usize = 0;
            while i < items.len()
                invariant
                    *v == JsonVal::Arr(*items),
                    i <= items.len(),
                    json_model_seq(out@) == camel_keys_seq(
                        json_model_seq(items@.take(i as int)),
                    ),
                    out@.len() == i,
                decreases items.len() - i,
            {
                proof {
                    assert(decreases_to!(*v => (*v)->Arr_0));
                    assert((*v)->Arr_0 == *items);
                    assert(decreases_to!(*items => items@));
                    assert(decreases_to!(items@ => items@[i as int]));
                    assert(decreases_to!(*v => items@[i as int]));
                }
                let c = camel_keys_of(&items[i]);
                let ghost out0 = out@;
                out.push(c);
                proof {
                    assert(out0.push(c).drop_last() =~= out0);
                    assert(json_model_seq(out@) == json_model_seq(out0).push(json_model(c)));
                    assert(items@.take(i as int + 1) =~= items@.take(i as int).push(
                        items@[i as int],
                    ));
                    assert(json_model_seq(items@.take(i as int + 1)) == json_model_seq(
                        items@.take(i as int),
                    ).push(json_model(items@[i as int]))) by {
                        assert(items@.take(i as int).push(items@[i as int]).drop_last()
                            =~= items@.take(i as int));
                    }
                    lemma_camel_keys_seq_push(
                        json_model_seq(items@.take(i as int)),
                        json_model(items@[i as int]),
                    );
                }
                i = i + 1;
            }
            proof {
                assert(items@.take(items@.len() as int) =~= items@);
            }
            JsonVal::Arr(out)
        },
        JsonVal::Obj(entries) => {
            let mut out: Vec<(String, JsonVal)> = Vec::new();
            let mut i: usize = 0;
            while i < entries.len()
                invariant
                    *v == JsonVal::Obj(*entries),
                    i <= entries.len(),
                    json_model_entries(out@) == camel_keys_entries(
                        json_model_entries(entries@.take(i as int)),
                    ),
                    out@.len() == i,
                decreases entries.len() - i,
            {
                proof {
                    assert(decreases_to!(*v => (*v)->Obj_0));
                    assert((*v)->Obj_0 == *entries);
                    assert(decreases_to!(*entries => entries@));
                    assert(decreases_to!(entries@ => entries@[i as int]));
                    assert(decreases_to!(entries@[i as int] => entries@[i as int].1));
                    assert(decreases_to!(*v => entries@[i as int].1));
                }
                let k = to_camel_case(entries[i].0.as_str());
                let c = camel_keys_of(&entries[i].1);
                let ghost out0 = out@;
                out.push((k, c));
                proof {
                    assert(out0.push((k, c)).drop_last() =~= out0);
                    assert(json_model_entries(out@) == json_model_entries(out0).push(
                        (k@, json_model(c)),
                    ));
                    assert(entries@.take(i as int + 1) =~= entries@.take(i as int).push(
                        entries@[i as int],
                    ));
                    assert(json_model_entries(entries@.take(i as int + 1)) == json_model_entries(
                        entries@.take(i as int),
                    ).push((entries@[i as int].0@, json_model(entries@[i as int].1)))) by {
                        assert(entries@.take(i as int).push(entries@[i as int]).drop_last()
                            =~= entries@.take(i as int));
                    }
                    lemma_camel_keys_entries_push(
                        json_model_entries(entries@.take(i as int)),
                        (entries@[i as int].0@, json_model(entries@[i as int].1)),
                    );
                }
                i = i + 1;
            }
            proof {
                assert(entries@.take(entries@.len() as int) =~= entries@);
            }
            JsonVal::Obj(out)
        },
    }
}

proof fn lemma_camel_keys_seq_push(items: Seq<JsonModel>, x: JsonModel)
    ensures
        camel_keys_seq(items.push(x)) == camel_keys_seq(items).push(camel_keys_model(x)),
{
    assert(items.push(x).drop_last() =~= items);
    assert(items.push(x).last() == x);
}

proof fn lemma_camel_keys_entries_push(entries: Seq<(Seq<char>, JsonModel)>, x: (Seq<char>, JsonModel))
    ensures
        camel_keys_entries(entries.push(x)) == camel_keys_entries(entries).push(
            (camel_of(x.0), camel_keys_model(x.1)),
        ),
{
    assert(entries.push(x).drop_last() =~= entries);
    assert(entries.push(x).last() == x);
}

} // verus!
