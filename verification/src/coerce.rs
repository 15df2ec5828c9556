//! The Value Coercer: turns a loosely-typed external literal (a string)
//! into a natively-typed, injection-safe bound parameter.
//!
//! Precedence, first match wins: UUID, signed 64-bit integer, float,
//! boolean, JSON (arrays get element-type inference, a JSON string is
//! re-coerced unwrapped, `null` means "omit the parameter"), timestamp, and
//! finally the raw-string fallback.  The coercer never fails on a string it
//! cannot type; the only non-parameter outcomes are the explicit omit signal
//! and the rejection of an array whose first element fixes a type some later
//! element does not have.

use vstd::prelude::*;

use crate::json::{JsonElem, JsonShape};
use crate::numlit::{
    bool_of, is_bool_lit, is_bool_literal, is_float_lit, is_float_literal, is_i64_literal,
    parse_bool, parse_i64, signed_value,
};
use crate::outcalls::{
    is_timestamp_literal, is_uuid_literal, json_shape, json_shape_of, timestamp_parses,
    uuid_parses,
};
use crate::text::{
    int_views, join_strings, join_with, lemma_int_views_push, lemma_str_views_push, str_views,
    strip_dq, strip_dquotes,
};

verus! {

/// A natively-typed bound parameter.  Values whose native type the library
/// cannot carry (UUIDs, floats, timestamps, raw JSON) keep their exact
/// source text; the database boundary re-parses them when binding.
#[derive(Debug, Clone, PartialEq, Eq)]
pub enum BoundParam {
    Uuid(String),
    Int(i64),
    Real(String),
    Bool(bool),
    Timestamp(String),
    UuidArr(Vec<String>),
    IntArr(Vec<i64>),
    StrArr(Vec<String>),
    RawArr(String),
    JsonScalar(String),
    Str(String),
}

/// What coercion produced: a parameter, the explicit "omit" signal for a
/// JSON `null`, or the rejection of a badly-mixed array.
#[derive(Debug, Clone, PartialEq, Eq)]
pub enum CoerceOutcome {
    Param(BoundParam),
    Omit,
    Reject,
}

/// The mathematical shape of a bound parameter.
pub enum ParamModel {
    Uuid(Seq<char>),
    Int(int),
    Real(Seq<char>),
    Bool(bool),
    Timestamp(Seq<char>),
    UuidArr(Seq<Seq<char>>),
    IntArr(Seq<int>),
    StrArr(Seq<Seq<char>>),
    RawArr(Seq<char>),
    JsonScalar(Seq<char>),
    Str(Seq<char>),
}

pub enum OutcomeModel {
    Param(ParamModel),
    Omit,
    Reject,
}

impl View for BoundParam {
    type V = ParamModel;

    open spec fn view(&self) -> ParamModel {
        match self {
            BoundParam::Uuid(s) => ParamModel::Uuid(s@),
            BoundParam::Int(v) => ParamModel::Int(*v as int),
            BoundParam::Real(s) => ParamModel::Real(s@),
            BoundParam::Bool(b) => ParamModel::Bool(*b),
            BoundParam::Timestamp(s) => ParamModel::Timestamp(s@),
            BoundParam::UuidArr(v) => ParamModel::UuidArr(str_views(v@)),
            BoundParam::IntArr(v) => ParamModel::IntArr(int_views(v@)),
            BoundParam::StrArr(v) => ParamModel::StrArr(str_views(v@)),
            BoundParam::RawArr(s) => ParamModel::RawArr(s@),
            BoundParam::JsonScalar(s) => ParamModel::JsonScalar(s@),
            BoundParam::Str(s) => ParamModel::Str(s@),
        }
    }
}

impl View for CoerceOutcome {
    type V = OutcomeModel;

    open spec fn view(&self) -> OutcomeModel {
        match self {
            CoerceOutcome::Param(p) => OutcomeModel::Param(p@),
            CoerceOutcome::Omit => OutcomeModel::Omit,
            CoerceOutcome::Reject => OutcomeModel::Reject,
        }
    }
}

pub open spec fn elem_texts(elems: Seq<JsonElem>) -> Seq<Seq<char>> {
    elems.map_values(|e: JsonElem| e.text@)
}

/// The compact serialization of the whole array, rebuilt from its elements'
/// serialized texts.
pub open spec fn raw_array_text(elems: Seq<JsonElem>) -> Seq<char> {
    seq!['['] + join_with(elem_texts(elems), seq![',']) + seq![']']
}

pub open spec fn all_uuid_elems(elems: Seq<JsonElem>) -> bool {
    forall|i: int|
        0 <= i < elems.len() ==> (#[trigger] elems[i]).quoted is Some && uuid_parses(
            elems[i].quoted->0@,
        )
}

pub open spec fn uuid_elem_vals(elems: Seq<JsonElem>) -> Seq<Seq<char>> {
    elems.map_values(|e: JsonElem| e.quoted->0@)
}

pub open spec fn all_i64_elems(elems: Seq<JsonElem>) -> bool {
    forall|i: int|
        0 <= i < elems.len() ==> (#[trigger] elems[i]).quoted is Some && is_i64_literal(
            elems[i].quoted->0@,
        )
}

pub open spec fn i64_elem_vals(elems: Seq<JsonElem>) -> Seq<int> {
    elems.map_values(|e: JsonElem| signed_value(e.quoted->0@))
}

pub open spec fn str_elem_vals(elems: Seq<JsonElem>) -> Seq<Seq<char>> {
    elems.map_values(|e: JsonElem| strip_dquotes(e.text@))
}

/// Element-type inference for a JSON array literal: the first element picks
/// the type.  A first element that is not a JSON string leaves the array
/// raw; a UUID or integer first element demands that every element parse
/// the same way, and a failing element rejects the whole array; anything
/// else makes a string array with double quotes stripped.
pub open spec fn array_infer_spec(elems: Seq<JsonElem>) -> OutcomeModel {
    if elems.len() == 0 {
        OutcomeModel::Param(ParamModel::RawArr(raw_array_text(elems)))
    } else {
        match elems[0].quoted {
            Option::None => OutcomeModel::Param(ParamModel::RawArr(raw_array_text(elems))),
            Option::Some(q0) => if uuid_parses(q0@) {
                if all_uuid_elems(elems) {
                    OutcomeModel::Param(ParamModel::UuidArr(uuid_elem_vals(elems)))
                } else {
                    OutcomeModel::Reject
                }
            } else if is_i64_literal(q0@) {
                if all_i64_elems(elems) {
                    OutcomeModel::Param(ParamModel::IntArr(i64_elem_vals(elems)))
                } else {
                    OutcomeModel::Reject
                }
            } else {
                OutcomeModel::Param(ParamModel::StrArr(str_elem_vals(elems)))
            },
        }
    }
}

/// The coercion precedence chain, fuel-indexed: unwrapping a JSON string
/// re-runs the chain on the content and spends one unit of fuel; `None`
/// means the fuel ran out before the chain settled.  Fuel never changes
/// which outcome is reached (see `lemma_coerce_deterministic`), it only
/// bounds the unwrapping depth.
pub open spec fn coerce_spec(s: Seq<char>, d: nat) -> Option<OutcomeModel>
    decreases d,
{
    if uuid_parses(s) {
        Some(OutcomeModel::Param(ParamModel::Uuid(s)))
    } else if is_i64_literal(s) {
        Some(OutcomeModel::Param(ParamModel::Int(signed_value(s))))
    } else if is_float_literal(s) {
        Some(OutcomeModel::Param(ParamModel::Real(s)))
    } else if is_bool_literal(s) {
        Some(OutcomeModel::Param(ParamModel::Bool(bool_of(s))))
    } else {
        match json_shape_of(s) {
            JsonShape::NotJson => if timestamp_parses(s) {
                Some(OutcomeModel::Param(ParamModel::Timestamp(s)))
            } else {
                Some(OutcomeModel::Param(ParamModel::Str(s)))
            },
            JsonShape::Null => Some(OutcomeModel::Omit),
            JsonShape::Text(t) => if d == 0 {
                None
            } else {
                coerce_spec(t@, (d - 1) as nat)
            },
            JsonShape::Array(elems) => Some(array_infer_spec(elems@)),
            JsonShape::Scalar(t) => Some(OutcomeModel::Param(ParamModel::JsonScalar(t@))),
        }
    }
}

/// The fuel index never changes the settled outcome: any two fuels that
/// both settle agree.
pub proof fn lemma_coerce_deterministic(s: Seq<char>, d1: nat, d2: nat)
    requires
        coerce_spec(s, d1) is Some,
        coerce_spec(s, d2) is Some,
    ensures
        coerce_spec(s, d1) == coerce_spec(s, d2),
    decreases d1,
{
    if !uuid_parses(s) && !is_i64_literal(s) && !is_float_literal(s) && !is_bool_literal(s) {
        match json_shape_of(s) {
            JsonShape::Text(t) => {
                lemma_coerce_deterministic(t@, (d1 - 1) as nat, (d2 - 1) as nat);
            },
            _ => {},
        }
    }
}

fn collect_texts(elems: &Vec<JsonElem>) -> (r: Vec<String>)
    ensures
        str_views(r@) == elem_texts(elems@),
{
    let mut r: Vec<String> = Vec::new();
    proof {
        assert(str_views(r@) =~= elem_texts(elems@).take(0));
    }
    let mut i: usize = 0;
    while i < elems.len()
        invariant
            i <= elems.len(),
            str_views(r@) == elem_texts(elems@).take(i as int),
        decreases elems.len() - i,
    {
        let x = elems[i].text.clone();
        proof {
            assert(elem_texts(elems@).len() == elems@.len());
            assert(str_views(r@).len() == r@.len());
            assert(elem_texts(elems@)[i as int] == elems@[i as int].text@);
            lemma_str_views_push(r@, x, elem_texts(elems@), i as int);
        }
        r.push(x);
        i = i + 1;
    }
    proof {
        assert(elem_texts(elems@).take(elems@.len() as int) =~= elem_texts(elems@));
    }
    r
}

/// Rebuilds the array's serialized text from its elements.
fn build_raw_array(elems: &Vec<JsonElem>) -> (r: String)
    ensures
        r@ == raw_array_text(elems@),
{
    let texts = collect_texts(elems);
    let joined = join_strings(&texts, ",");
    let mut r = String::new();
    r.append("[");
    r.append(joined.as_str());
    r.append("]");
    proof {
        reveal_strlit("[");
        reveal_strlit("]");
        reveal_strlit(",");
        assert("["@ =~= seq!['[']);
        assert("]"@ =~= seq![']']);
        assert(","@ =~= seq![',']);
        assert(r@ =~= raw_array_text(elems@));
    }
    r
}

fn try_uuid_array(elems: &Vec<JsonElem>) -> (r: Option<Vec<String>>)
    ensures
        match r {
            Some(v) => all_uuid_elems(elems@) && str_views(v@) == uuid_elem_vals(elems@),
            None => !all_uuid_elems(elems@),
        },
{
    let mut out: Vec<String> = Vec::new();
    proof {
        assert(str_views(out@) =~= uuid_elem_vals(elems@).take(0));
    }
    let mut i: usize = 0;
    while i < elems.len()
        invariant
            i <= elems.len(),
            forall|j: int|
                0 <= j < i ==> (#[trigger] elems@[j]).quoted is Some && uuid_parses(
                    elems@[j].quoted->0@,
                ),
            str_views(out@) == uuid_elem_vals(elems@).take(i as int),
        decreases elems.len() - i,
    {
        match &elems[i].quoted {
            Option::Some(q) => {
                if !is_uuid_literal(q.as_str()) {
                    return None;
                }
                let x = q.clone();
                proof {
                    assert(uuid_elem_vals(elems@).len() == elems@.len());
                    assert(str_views(out@).len() == out@.len());
                    assert(uuid_elem_vals(elems@)[i as int] == elems@[i as int].quoted->0@);
                    lemma_str_views_push(out@, x, uuid_elem_vals(elems@), i as int);
                }
                out.push(x);
            },
            Option::None => {
                return None;
            },
        }
        i = i + 1;
    }
    proof {
        assert(uuid_elem_vals(elems@).take(elems@.len() as int) =~= uuid_elem_vals(elems@));
    }
    Some(out)
}

fn try_i64_array(elems: &Vec<JsonElem>) -> (r: Option<Vec<i64>>)
    ensures
        match r {
            Some(v) => all_i64_elems(elems@) && int_views(v@) == i64_elem_vals(elems@),
            None => !all_i64_elems(elems@),
        },
{
    let mut out: Vec<i64> = Vec::new();
    proof {
        assert(int_views(out@) =~= i64_elem_vals(elems@).take(0));
    }
    let mut i: usize = 0;
    while i < elems.len()
        invariant
            i <= elems.len(),
            forall|j: int|
                0 <= j < i ==> (#[trigger] elems@[j]).quoted is Some && is_i64_literal(
                    elems@[j].quoted->0@,
                ),
            int_views(out@) == i64_elem_vals(elems@).take(i as int),
        decreases elems.len() - i,
    {
        match &elems[i].quoted {
            Option::Some(q) => {
                match parse_i64(q.as_str()) {
                    Option::Some(v) => {
                        proof {
                            assert(i64_elem_vals(elems@).len() == elems@.len());
                            assert(int_views(out@).len() == out@.len());
                            assert(i64_elem_vals(elems@)[i as int] == signed_value(
                                elems@[i as int].quoted->0@,
                            ));
                            lemma_int_views_push(out@, v, i64_elem_vals(elems@), i as int);
                        }
                        out.push(v);
                    },
                    Option::None => {
                        return None;
                    },
                }
            },
            Option::None => {
                return None;
            },
        }
        i = i + 1;
    }
    proof {
        assert(i64_elem_vals(elems@).take(elems@.len() as int) =~= i64_elem_vals(elems@));
    }
    Some(out)
}

fn str_array(elems: &Vec<JsonElem>) -> (r: Vec<String>)
    ensures
        str_views(r@) == str_elem_vals(elems@),
{
    let mut out: Vec<String> = Vec::new();
    proof {
        assert(str_views(out@) =~= str_elem_vals(elems@).take(0));
    }
    let mut i: usize = 0;
    while i < elems.len()
        invariant
            i <= elems.len(),
            str_views(out@) == str_elem_vals(elems@).take(i as int),
        decreases elems.len() - i,
    {
        let x = strip_dq(elems[i].text.as_str());
        proof {
            assert(str_elem_vals(elems@).len() == elems@.len());
            assert(str_views(out@).len() == out@.len());
            assert(str_elem_vals(elems@)[i as int] == strip_dquotes(elems@[i as int].text@));
            lemma_str_views_push(out@, x, str_elem_vals(elems@), i as int);
        }
        out.push(x);
        i = i + 1;
    }
    proof {
        assert(str_elem_vals(elems@).take(elems@.len() as int) =~= str_elem_vals(elems@));
    }
    out
}

/// Element-type inference over a parsed array literal.
fn array_infer(elems: &Vec<JsonElem>) -> (r: CoerceOutcome)
    ensures
        r@ == array_infer_spec(elems@),
{
    if elems.len() == 0 {
        return CoerceOutcome::Param(BoundParam::RawArr(build_raw_array(elems)));
    }
    match &elems[0].quoted {
        Option::None => CoerceOutcome::Param(BoundParam::RawArr(build_raw_array(elems))),
        Option::Some(q0) => {
            if is_uuid_literal(q0.as_str()) {
                match try_uuid_array(elems) {
                    Option::Some(v) => CoerceOutcome::Param(BoundParam::UuidArr(v)),
                    Option::None => CoerceOutcome::Reject,
                }
            } else if parse_i64(q0.as_str()).is_some() {
                match try_i64_array(elems) {
                    Option::Some(v) => CoerceOutcome::Param(BoundParam::IntArr(v)),
                    Option::None => CoerceOutcome::Reject,
                }
            } else {
                CoerceOutcome::Param(BoundParam::StrArr(str_array(elems)))
            }
        },
    }
}

/// Coerces one literal.  The result is exactly the settled value of the
/// precedence chain (`coerce_spec`), at some unwrapping depth; in
/// particular a literal that parses as a UUID always becomes a UUID
/// parameter, never a raw string.
pub fn convert_filter_type(input: &str) -> (r: CoerceOutcome)
    ensures
        exists|d: nat| coerce_spec(input@, d) == Some(r@),
        uuid_parses(input@) ==> r@ == OutcomeModel::Param(ParamModel::Uuid(input@)),
    decreases input@.len(),
{
    if is_uuid_literal(input) {
        let r = CoerceOutcome::Param(BoundParam::Uuid(String::from_str(input)));
        proof {
            assert(coerce_spec(input@, 0) == Some(r@));
        }
        r
    } else if let Option::Some(v) = parse_i64(input) {
        let r = CoerceOutcome::Param(BoundParam::Int(v));
        proof {
            assert(coerce_spec(input@, 0) == Some(r@));
        }
        r
    } else if is_float_lit(input) {
        let r = CoerceOutcome::Param(BoundParam::Real(String::from_str(input)));
        proof {
            assert(coerce_spec(input@, 0) == Some(r@));
        }
        r
    } else if is_bool_lit(input) {
        let r = CoerceOutcome::Param(BoundParam::Bool(parse_bool(input)));
        proof {
            assert(coerce_spec(input@, 0) == Some(r@));
        }
        r
    } else {
        match json_shape(input) {
            JsonShape::NotJson => {
                let r = if is_timestamp_literal(input) {
                    CoerceOutcome::Param(BoundParam::Timestamp(String::from_str(input)))
                } else {
                    CoerceOutcome::Param(BoundParam::Str(String::from_str(input)))
                };
                proof {
                    assert(coerce_spec(input@, 0) == Some(r@));
                }
                r
            },
            JsonShape::Null => {
                let r = CoerceOutcome::Omit;
                proof {
                    assert(coerce_spec(input@, 0) == Some(r@));
                }
                r
            },
            JsonShape::Text(t) => {
                let r = convert_filter_type(t.as_str());
                proof {
                    let d0 = choose|d: nat| coerce_spec(t@, d) == Some(r@);
                    assert(coerce_spec(input@, d0 + 1) == Some(r@));
                }
                r
            },
            JsonShape::Array(elems) => {
                let r = array_infer(&elems);
                proof {
                    assert(coerce_spec(input@, 0) == Some(r@));
                }
                r
            },
            JsonShape::Scalar(t) => {
                let r = CoerceOutcome::Param(BoundParam::JsonScalar(t));
                proof {
                    assert(coerce_spec(input@, 0) == Some(r@));
                }
                r
            },
        }
    }
}

} // verus!
