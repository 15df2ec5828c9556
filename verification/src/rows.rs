//! The Row Serializer: turns a generic relational row into a key-normalized
//! JSON document, given each column's declared storage type.
//!
//! Dispatch is a closed match over the declared-type enumeration with an
//! explicit unsupported branch; a null cell always serializes to null,
//! whatever the declared type; a float's decimal text is kept only when it
//! re-reads as a JSON number, else it falls back to `0`; and every object
//! key, at every depth, is rewritten to camelCase at the end.

use vstd::prelude::*;

use crate::json::{
    camel_case_keys, camel_keys_model, clone_json, json_model, json_model_entries, JsonModel,
    JsonVal,
};
use crate::numlit::{is_json_number, is_json_number_lit};
use crate::text::{i64_to_dec, int_dec_str};

verus! {

/// The closed enumeration of storage column types the serializer knows.
#[derive(Debug, Clone, Copy, PartialEq, Eq)]
pub enum ColumnType {
    Uuid,
    Text,
    TimestampTz,
    Date,
    Int2,
    Int4,
    Int8,
    Float4,
    Float8,
    Bool,
    Json,
    Jsonb,
    Unsupported,
}

/// A column's value as the database boundary hands it over: plain values,
/// with UUIDs, timestamps (already rendered in UTC), dates and floats
/// carried as text.
#[derive(Debug, PartialEq, Eq)]
pub enum CellValue {
    Absent,
    Uuid(String),
    Text(String),
    TimestampUtc(String),
    Date(String),
    SmallInt(i16),
    MidInt(i32),
    BigInt(i64),
    FloatText(String),
    Flag(bool),
    JsonData(JsonVal),
}

/// One column of a row: its name in the storage casing, its declared type,
/// and its value.
#[derive(Debug, PartialEq, Eq)]
pub struct RowColumn {
    pub name: String,
    pub ctype: ColumnType,
    pub value: CellValue,
}

/// A relational row.
#[derive(Debug, PartialEq, Eq)]
pub struct RowData {
    pub columns: Vec<RowColumn>,
}

/// A float's decimal text, kept when it re-reads as a JSON number and
/// otherwise replaced by zero.
pub open spec fn num_or_zero(s: Seq<char>) -> JsonModel {
    if is_json_number(s) {
        JsonModel::NumText(s)
    } else {
        JsonModel::NumText("0"@)
    }
}

/// What one cell serializes to: null for a null cell, the type-directed
/// representation for a cell matching its declared type, and null for any
/// mismatched or unsupported combination.
pub open spec fn cell_model(t: ColumnType, c: CellValue) -> JsonModel {
    match (t, c) {
        (_, CellValue::Absent) => JsonModel::Null,
        (ColumnType::Uuid, CellValue::Uuid(s)) => JsonModel::Str(s@),
        (ColumnType::Text, CellValue::Text(s)) => JsonModel::Str(s@),
        (ColumnType::TimestampTz, CellValue::TimestampUtc(s)) => JsonModel::Str(s@),
        (ColumnType::Date, CellValue::Date(s)) => JsonModel::Str(s@),
        (ColumnType::Int2, CellValue::SmallInt(v)) => JsonModel::NumText(int_dec_str(v as int)),
        (ColumnType::Int4, CellValue::MidInt(v)) => JsonModel::NumText(int_dec_str(v as int)),
        (ColumnType::Int8, CellValue::BigInt(v)) => JsonModel::NumText(int_dec_str(v as int)),
        (ColumnType::Float4, CellValue::FloatText(s)) => num_or_zero(s@),
        (ColumnType::Float8, CellValue::FloatText(s)) => num_or_zero(s@),
        (ColumnType::Bool, CellValue::Flag(b)) => JsonModel::Bool(b),
        (ColumnType::Json, CellValue::JsonData(j)) => json_model(j),
        (ColumnType::Jsonb, CellValue::JsonData(j)) => json_model(j),
        _ => JsonModel::Null,
    }
}

/// The row's flat document, keys still in the storage casing.
pub open spec fn row_entries(cols: Seq<RowColumn>) -> Seq<(Seq<char>, JsonModel)>
    decreases cols,
{
    if cols.len() == 0 {
        Seq::empty()
    } else {
        row_entries(cols.drop_last()).push(
            (cols.last().name@, cell_model(cols.last().ctype, cols.last().value)),
        )
    }
}

pub open spec fn row_model(cols: Seq<RowColumn>) -> JsonModel {
    JsonModel::Obj(row_entries(cols))
}

fn cell_to_json(t: ColumnType, c: &CellValue) -> (r: JsonVal)
    ensures
        json_model(r) == cell_model(t, *c),
{
    match c {
        CellValue::Absent => JsonVal::Null,
        CellValue::Uuid(s) => match t {
            ColumnType::Uuid => JsonVal::Str(s.clone()),
            _ => JsonVal::Null,
        },
        CellValue::Text(s) => match t {
            ColumnType::Text => JsonVal::Str(s.clone()),
            _ => JsonVal::Null,
        },
        CellValue::TimestampUtc(s) => match t {
            ColumnType::TimestampTz => JsonVal::Str(s.clone()),
            _ => JsonVal::Null,
        },
        CellValue::Date(s) => match t {
            ColumnType::Date => JsonVal::Str(s.clone()),
            _ => JsonVal::Null,
        },
        CellValue::SmallInt(v) => match t {
            ColumnType::Int2 => JsonVal::NumText(i64_to_dec(*v as i64)),
            _ => JsonVal::Null,
        },
        CellValue::MidInt(v) => match t {
            ColumnType::Int4 => JsonVal::NumText(i64_to_dec(*v as i64)),
            _ => JsonVal::Null,
        },
        CellValue::BigInt(v) => match t {
            ColumnType::Int8 => JsonVal::NumText(i64_to_dec(*v)),
            _ => JsonVal::Null,
        },
        CellValue::FloatText(s) => match t {
            ColumnType::Float4 | ColumnType::Float8 => {
                if is_json_number_lit(s.as_str()) {
                    JsonVal::NumText(s.clone())
                } else {
                    JsonVal::NumText(String::from_str("0"))
                }
            },
            _ => JsonVal::Null,
        },
        CellValue::Flag(b) => match t {
            ColumnType::Bool => JsonVal::Bool(*b),
            _ => JsonVal::Null,
        },
        CellValue::JsonData(j) => match t {
            ColumnType::Json | ColumnType::Jsonb => clone_json(j),
            _ => JsonVal::Null,
        },
    }
}

/// Serialization of one row into a camelCase-keyed document.
pub trait SerializeToJson {
    /// The document this value serializes to, before key normalization.
    spec fn doc_model(&self) -> JsonModel;

    /// The document, with every key rewritten to camelCase.
    fn serialize_row_to_json(&self) -> (r: JsonVal)
        ensures
            json_model(r) == camel_keys_model(self.doc_model()),
    ;
}

impl SerializeToJson for RowData {
    open spec fn doc_model(&self) -> JsonModel {
        row_model(self.columns@)
    }

    fn serialize_row_to_json(&self) -> (r: JsonVal)
        ensures
            json_model(r) == camel_keys_model(self.doc_model()),
    {
        let cols = &self.columns;
        let mut entries: Vec<(String, JsonVal)> = Vec::new();
        proof {
            assert(cols@.take(0) =~= Seq::<RowColumn>::empty());
        }
        let mut i: usize = 0;
        while i < cols.len()
            invariant
                i <= cols@.len(),
                json_model_entries(entries@) == row_entries(cols@.take(i as int)),
                entries@.len() == i,
            decreases cols@.len() - i,
        {
            let k = cols[i].name.clone();
            let cell = cell_to_json(cols[i].ctype, &cols[i].value);
            let ghost entries0 = entries@;
            entries.push((k, cell));
            proof {
                assert(entries0.push((k, cell)).drop_last() =~= entries0);
                assert(json_model_entries(entries@) == json_model_entries(entries0).push(
                    (k@, json_model(cell)),
                ));
                assert(cols@.take(i as int + 1) =~= cols@.take(i as int).push(cols@[i as int]));
                assert(row_entries(cols@.take(i as int + 1)) == row_entries(
                    cols@.take(i as int),
                ).push(
                    (cols@[i as int].name@, cell_model(cols@[i as int].ctype, cols@[i as int].value)),
                )) by {
                    assert(cols@.take(i as int).push(cols@[i as int]).drop_last() =~= cols@.take(
                        i as int,
                    ));
                }
            }
            i = i + 1;
        }
        proof {
            assert(cols@.take(cols@.len() as int) =~= cols@);
        }
        camel_case_keys(JsonVal::Obj(entries))
    }
}

/// Serialization of a batch of rows, one document per row.
pub trait SerializeList {
    /// The documents the batch serializes to, before key normalization.
    spec fn list_models(&self) -> Seq<JsonModel>;

    /// One camelCase-keyed document per row, in order.
    fn serialize_list(&self) -> (r: Vec<JsonVal>)
        ensures
            r@.len() == self.list_models().len(),
            forall|i: int|
                0 <= i < r@.len() ==> json_model(#[trigger] r@[i]) == camel_keys_model(
                    self.list_models()[i],
                ),
    ;
}

impl SerializeList for Vec<RowData> {
    open spec fn list_models(&self) -> Seq<JsonModel> {
        Seq::new(self@.len(), |i: int| row_model(self@[i].columns@))
    }

    fn serialize_list(&self) -> (r: Vec<JsonVal>)
        ensures
            r@.len() == self.list_models().len(),
            forall|i: int|
                0 <= i < r@.len() ==> json_model(#[trigger] r@[i]) == camel_keys_model(
                    self.list_models()[i],
                ),
    {
        let mut out: Vec<JsonVal> = Vec::new();
        let mut i: usize = 0;
        while i < self.len()
            invariant
                i <= self@.len(),
                out@.len() == i,
                forall|j: int|
                    0 <= j < i ==> json_model(#[trigger] out@[j]) == camel_keys_model(
                        row_model(self@[j].columns@),
                    ),
            decreases self@.len() - i,
        {
            let doc = self[i].serialize_row_to_json();
            out.push(doc);
            i = i + 1;
        }
        out
    }
}

} // verus!
