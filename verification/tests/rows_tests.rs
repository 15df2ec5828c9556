use filestore::json::JsonVal;
use filestore::rows::{CellValue, ColumnType, RowColumn, RowData, SerializeList, SerializeToJson};

fn col(name: &str, t: ColumnType, v: CellValue) -> RowColumn {
    RowColumn { name: name.to_string(), ctype: t, value: v }
}

fn entries(doc: &JsonVal) -> &Vec<(String, JsonVal)> {
    match doc {
        JsonVal::Obj(e) => e,
        _ => panic!("expected an object document"),
    }
}

#[test]
fn zero_rows_serialize_to_an_empty_sequence() {
    let rows: Vec<RowData> = Vec::new();
    assert!(rows.serialize_list().is_empty());
}

#[test]
fn each_row_becomes_one_document_with_camel_keys() {
    let rows = vec![
        RowData { columns: vec![col("created_at", ColumnType::Text, CellValue::Text("a".to_string()))] },
        RowData { columns: vec![col("created_at", ColumnType::Text, CellValue::Text("b".to_string()))] },
    ];
    let docs = rows.serialize_list();
    assert_eq!(docs.len(), 2);
    for (i, expect) in ["a", "b"].iter().enumerate() {
        let e = entries(&docs[i]);
        assert_eq!(e.len(), 1);
        assert_eq!(e[0].0, "createdAt");
        assert_eq!(e[0].1, JsonVal::Str(expect.to_string()));
    }
}

#[test]
fn typed_cells_serialize_by_declared_type() {
    let row = RowData {
        columns: vec![
            col("id", ColumnType::Uuid, CellValue::Uuid("550e8400".to_string())),
            col("title", ColumnType::Text, CellValue::Text("cat".to_string())),
            col(
                "created_at",
                ColumnType::TimestampTz,
                CellValue::TimestampUtc("2024-01-01T00:00:00+00:00[UTC]".to_string()),
            ),
            col("size", ColumnType::Int8, CellValue::BigInt(-42)),
            col("small", ColumnType::Int2, CellValue::SmallInt(7)),
            col("is_public", ColumnType::Bool, CellValue::Flag(true)),
        ],
    };
    let doc = row.serialize_row_to_json();
    let e = entries(&doc);
    assert_eq!(e[0].0, "id");
    assert_eq!(e[0].1, JsonVal::Str("550e8400".to_string()));
    assert_eq!(e[1].1, JsonVal::Str("cat".to_string()));
    assert_eq!(e[2].0, "createdAt");
    assert_eq!(e[3].1, JsonVal::NumText("-42".to_string()));
    assert_eq!(e[4].1, JsonVal::NumText("7".to_string()));
    assert_eq!(e[5].0, "isPublic");
    assert_eq!(e[5].1, JsonVal::Bool(true));
}

#[test]
fn null_cell_serializes_to_null_whatever_the_type() {
    let row = RowData {
        columns: vec![
            col("a", ColumnType::Date, CellValue::Absent),
            col("b", ColumnType::Int4, CellValue::Absent),
        ],
    };
    let doc = row.serialize_row_to_json();
    let e = entries(&doc);
    assert_eq!(e[0].1, JsonVal::Null);
    assert_eq!(e[1].1, JsonVal::Null);
}

#[test]
fn float_text_is_kept_when_it_rereads_as_a_number() {
    let row = RowData {
        columns: vec![col("ratio", ColumnType::Float8, CellValue::FloatText("1.5".to_string()))],
    };
    let doc = row.serialize_row_to_json();
    assert_eq!(entries(&doc)[0].1, JsonVal::NumText("1.5".to_string()));
}

#[test]
fn unparseable_float_text_falls_back_to_zero() {
    for bad in ["NaN", "inf", "-inf"] {
        let row = RowData {
            columns: vec![col("ratio", ColumnType::Float4, CellValue::FloatText(bad.to_string()))],
        };
        let doc = row.serialize_row_to_json();
        assert_eq!(entries(&doc)[0].1, JsonVal::NumText("0".to_string()));
    }
}

#[test]
fn unsupported_type_serializes_to_null() {
    let row = RowData {
        columns: vec![col("blob", ColumnType::Unsupported, CellValue::Text("x".to_string()))],
    };
    let doc = row.serialize_row_to_json();
    assert_eq!(entries(&doc)[0].1, JsonVal::Null);
}

#[test]
fn nested_json_keys_are_camelized_recursively() {
    let nested = JsonVal::Obj(vec![
        ("inner_key".to_string(), JsonVal::Str("v".to_string())),
        (
            "deep_list".to_string(),
            JsonVal::Arr(vec![JsonVal::Obj(vec![(
                "leaf_name".to_string(),
                JsonVal::NumText("1".to_string()),
            )])]),
        ),
    ]);
    let row = RowData {
        columns: vec![col("meta_data", ColumnType::Jsonb, CellValue::JsonData(nested))],
    };
    let doc = row.serialize_row_to_json();
    let e = entries(&doc);
    assert_eq!(e[0].0, "metaData");
    let inner = entries(&e[0].1);
    assert_eq!(inner[0].0, "innerKey");
    assert_eq!(inner[1].0, "deepList");
    match &inner[1].1 {
        JsonVal::Arr(items) => {
            let leaf = entries(&items[0]);
            assert_eq!(leaf[0].0, "leafName");
        },
        _ => panic!("expected an array"),
    }
}
