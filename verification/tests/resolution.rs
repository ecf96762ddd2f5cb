use gen_db::catalog::StructSet;
use gen_db::paths::DbData;
use gen_db::resolve::{db_info, resolve_types};

#[test]
fn test_resolve_types() {
    let header = r#"
        typedef struct {
            int field1;
            char field2[10];
        } stSample_t;
        "#;
    let usage = r#"
        stSample_t sample = {};
        .pValue = &sample.field1,
        .pValue = &sample.field2[0],
        "#;
    let struct_set = StructSet::new().analyze_text(header, usage);
    let db_data = DbData::new().analyze_text(usage);

    // Resolution never panics and yields one entry per path.
    let types = resolve_types(struct_set, db_data);
    assert_eq!(types.len(), 2);
}

#[test]
fn end_to_end_single_field() {
    let header = "typedef struct { int field1; char field2[10]; } MyStruct;";
    let usage = r#"
        MyStruct myStructVar = {};
        .pValue = &myStructVar.field1,
        "#;
    let struct_set = StructSet::new().analyze_text(header, usage);
    let db_data = DbData::new().analyze_text(usage);

    assert_eq!(struct_set.definitions().len(), 1);
    assert_eq!(struct_set.definitions()[0].name(), "MyStruct");
    assert_eq!(struct_set.definitions()[0].fields().len(), 2);
    assert_eq!(struct_set.fields().len(), 1);
    assert_eq!(struct_set.fields()[0].get_name(), "MyStruct");
    assert_eq!(struct_set.fields()[0].get_value(), "myStructVar");
    assert_eq!(db_data.links().len(), 1);

    let types = resolve_types(struct_set, db_data);
    assert_eq!(types, vec!["int".to_string()]);
}

#[test]
fn resolution_is_order_preserving() {
    let header = r#"
        typedef struct { int a; } A;
        typedef struct { char b; } B;
        typedef struct { long c; } C;
        "#;
    let usage = r#"
        A first = {};
        B second = {};
        C third = {};
        .pValue = &first.a,
        .pValue = &second.b,
        .pValue = &third.c,
        "#;
    let struct_set = StructSet::new().analyze_text(header, usage);
    let db_data = DbData::new().analyze_text(usage);
    let types = resolve_types(struct_set, db_data);
    assert_eq!(
        types,
        vec!["int".to_string(), "char".to_string(), "long".to_string()]
    );
}

#[test]
fn undeclared_instance_resolves_to_unknown() {
    let header = "typedef struct { int a; } A;";
    let usage = ".pValue = &nowhere.a,";
    let struct_set = StructSet::new().analyze_text(header, usage);
    let db_data = DbData::new().analyze_text(usage);
    let types = resolve_types(struct_set, db_data);
    assert_eq!(types, vec!["Unknown".to_string()]);
}

#[test]
fn multi_level_path_resolves_through_nested_structs() {
    let header = r#"
        typedef struct { StructB b; } StructA;
        typedef struct { int c; } StructB;
        "#;
    let usage = r#"
        StructA a = {};
        .pValue = &a.b.c,
        "#;
    let struct_set = StructSet::new().analyze_text(header, usage);
    let db_data = DbData::new().analyze_text(usage);
    let types = resolve_types(struct_set, db_data);
    assert_eq!(types, vec!["int".to_string()]);
}

#[test]
fn unmatched_segment_keeps_last_successful_type() {
    let header = "typedef struct { int a; } StructA;";
    let usage = r#"
        StructA x = {};
        .pValue = &x.zzz,
        .pValue = &x.zzz.yyy,
        .pValue = &x.a,
        "#;
    let struct_set = StructSet::new().analyze_text(header, usage);
    let db_data = DbData::new().analyze_text(usage);
    let types = resolve_types(struct_set, db_data);
    // Unresolvable segments leave the name unchanged, and the batch goes on.
    assert_eq!(
        types,
        vec!["StructA".to_string(), "StructA".to_string(), "int".to_string()]
    );
}

#[test]
fn db_info_zips_names_and_types_pairwise() {
    let names = vec!["Alpha".to_string(), "Beta".to_string()];
    let types = vec!["int".to_string(), "char[10]".to_string()];
    let records = db_info(names, types);
    assert_eq!(records.len(), 2);
    assert_eq!(records[0].name(), "Alpha");
    assert_eq!(records[0].resolved_type(), "int");
    assert_eq!(records[1].name(), "Beta");
    assert_eq!(records[1].resolved_type(), "char[10]");
}

#[test]
fn db_info_truncates_to_shorter_sequence() {
    let names = vec!["Alpha".to_string(), "Beta".to_string(), "Gamma".to_string()];
    let types = vec!["int".to_string()];
    let records = db_info(names, types);
    assert_eq!(records.len(), 1);
    assert_eq!(records[0].name(), "Alpha");
    assert_eq!(records[0].resolved_type(), "int");
}
