use gen_db::catalog::{Field, StructSet};
use gen_db::paths::{remove_leading_lowercase_and_digits, DbData};

#[test]
fn test_struct_set_analysis() {
    let struct_file_content = r#"
        typedef struct {
            int field1;
            char field2[10];
        } MyStruct;
        "#;
    let usage_file_content = r#"
        MyStruct myStructVar = {};
        "#;

    let struct_set = StructSet::new().analyze_text(struct_file_content, usage_file_content);

    assert_eq!(struct_set.definitions().len(), 1);
    assert_eq!(struct_set.definitions()[0].name(), "MyStruct");
    assert_eq!(struct_set.definitions()[0].fields().len(), 2);
    assert_eq!(struct_set.definitions()[0].fields()[0].get_name(), "int");
    assert_eq!(struct_set.definitions()[0].fields()[1].get_name(), "char[10]");
}

#[test]
fn test_db_data_analysis() {
    let c_file_content = r#"
        .pValue = &myStructVar.field1,
        "#;

    let db_data = DbData::new().analyze_text(c_file_content);

    assert_eq!(db_data.links().len(), 1);
    assert_eq!(db_data.links()[0].get_parts()[0], "myStructVar");
    assert_eq!(db_data.links()[0].get_parts()[1], "field1");
}

#[test]
fn field_lookup_returns_declared_type() {
    let header = "typedef struct { int count; } Sample;";
    let set = StructSet::new().analyze_text(header, "");
    let def = &set.definitions()[0];
    assert_eq!(def.name(), "Sample");
    let field = def.find_field_by_value("count").unwrap();
    assert_eq!(field.get_name(), "int");
    assert_eq!(field.get_value(), "count");
}

#[test]
fn array_field_name_appends_bracketed_size() {
    let f = Field::new("char".to_string(), "label".to_string(), Some("[10]"));
    assert_eq!(f.get_name(), "char[10]");
    assert_eq!(f.get_value(), "label");

    let header = "typedef struct { char label[10]; } L;";
    let set = StructSet::new().analyze_text(header, "");
    let field = set.definitions()[0].find_field_by_value("label").unwrap();
    assert_eq!(field.get_name(), "char[10]");
}

#[test]
fn pointer_field_keeps_star_in_type() {
    let header = "typedef struct { char * ptr; } P;";
    let set = StructSet::new().analyze_text(header, "");
    let field = set.definitions()[0].find_field_by_value("ptr").unwrap();
    assert_eq!(field.get_name(), "char *");
}

#[test]
fn empty_struct_body_is_dropped() {
    let header = r#"
        typedef struct { } Hollow;
        typedef struct { ??? } Garbled;
        typedef struct { int x; } Real;
        "#;
    let set = StructSet::new().analyze_text(header, "");
    assert_eq!(set.definitions().len(), 1);
    assert_eq!(set.definitions()[0].name(), "Real");
}

#[test]
fn malformed_field_lines_are_skipped() {
    let header = "typedef struct { int a; ; int ; int b; } M;";
    let set = StructSet::new().analyze_text(header, "");
    let def = &set.definitions()[0];
    assert_eq!(def.fields().len(), 2);
    assert_eq!(def.fields()[0].get_value(), "a");
    assert_eq!(def.fields()[1].get_value(), "b");
}

#[test]
fn top_level_vars_keep_appearance_order_and_duplicates() {
    let usage = r#"
        StructA x = {};
        StructB x = {};
        StructC y = {};
        "#;
    let set = StructSet::new().analyze_text("", usage);
    assert_eq!(set.fields().len(), 3);
    assert_eq!(set.fields()[0].get_name(), "StructA");
    assert_eq!(set.fields()[0].get_value(), "x");
    assert_eq!(set.fields()[1].get_name(), "StructB");
    assert_eq!(set.fields()[2].get_value(), "y");
    // Lookup by instance name returns the first match in list order.
    let first = set.find_field_by_value("x").unwrap();
    assert_eq!(first.get_name(), "StructA");
}

#[test]
fn trailing_array_index_is_stripped_from_path() {
    let usage = ".pValue = &cfg.buf[3],";
    let db_data = DbData::new().analyze_text(usage);
    assert_eq!(db_data.links().len(), 1);
    let parts = db_data.links()[0].get_parts();
    assert_eq!(parts.len(), 2);
    assert_eq!(parts[0], "cfg");
    assert_eq!(parts[1], "buf");
}

#[test]
fn plain_reference_without_address_of() {
    let usage = ".pValue = x.y,";
    let db_data = DbData::new().analyze_text(usage);
    assert_eq!(db_data.links().len(), 1);
    let parts = db_data.links()[0].get_parts();
    assert_eq!(parts, vec!["x".to_string(), "y".to_string()]);
}

#[test]
fn paths_keep_appearance_order() {
    let usage = r#"
        .pValue = &a.one,
        .pValue = &b.two,
        .pValue = &c.three,
        "#;
    let db_data = DbData::new().analyze_text(usage);
    assert_eq!(db_data.links().len(), 3);
    assert_eq!(db_data.links()[0].get_parts()[0], "a");
    assert_eq!(db_data.links()[1].get_parts()[0], "b");
    assert_eq!(db_data.links()[2].get_parts()[0], "c");
}

#[test]
fn strip_leading_lowercase_and_digits() {
    assert_eq!(remove_leading_lowercase_and_digits("u16Value"), "Value");
    assert_eq!(remove_leading_lowercase_and_digits("myStructVar"), "StructVar");
    assert_eq!(remove_leading_lowercase_and_digits("field1"), "");
    assert_eq!(remove_leading_lowercase_and_digits("Already"), "Already");
    assert_eq!(remove_leading_lowercase_and_digits(""), "");
}

#[test]
fn part_names_concatenate_stripped_segments() {
    let usage = ".pValue = &myStructVar.field1,";
    let db_data = DbData::new().analyze_text(usage);
    let names = db_data.get_part_name();
    assert_eq!(names.len(), 1);
    assert_eq!(names[0], "StructVar");
}
