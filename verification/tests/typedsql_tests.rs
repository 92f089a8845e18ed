use hartex::typedsql::{column_plan, generate_getter_body, replace_all, schema_file_name, table_plan, unquoted_table_name,
    CodegenError, ColumnInfo, GetterBody, TableInfo};

fn column(name: &str, ty: Option<&str>, reftype: Option<&str>, not_null: bool) -> ColumnInfo {
    ColumnInfo { name: String::from(name), rust_type: ty.map(String::from), rust_reftype: reftype.map(String::from), not_null }
}

#[test]
fn table_names_lose_schema_quotes_and_dots() {
    assert_eq!(unquoted_table_name("public.\"Users\""), "Users");
    assert_eq!(unquoted_table_name("\"Nightly\".\"CachedGuilds\""), "NightlyCachedGuilds");
    assert_eq!(unquoted_table_name("plain"), "plain");
}

#[test]
fn replace_matches_std() {
    for (s, p, w) in [("aaa", "aa", "b"), ("public.public.x", "public.", ""), ("abc", "d", "e"), ("", "x", "y"), ("xyx", "x", "xx"), ("abc", "", "-"), ("", "", "y")] {
        assert_eq!(replace_all(s, p, w), s.replace(p, w));
    }
}

#[test]
fn getter_bodies() {
    assert!(matches!(generate_getter_body("& str"), GetterBody::AsStr));
    assert!(matches!(generate_getter_body("Option < & str >"), GetterBody::AsDeref));
    assert!(matches!(generate_getter_body("& [String]"), GetterBody::AsSlice));
    assert!(matches!(generate_getter_body("i64"), GetterBody::Field));
}

#[test]
fn not_null_and_nullable_columns() {
    let p = column_plan(&column("name", Some("String"), Some("& str"), true)).ok().unwrap();
    assert_eq!(p.field_type, "String");
    assert!(!p.optional);
    assert_eq!(p.getter_type, "& str");
    assert!(matches!(p.getter_body, GetterBody::AsStr));
    assert_eq!(p.decode_fn, "decode");
    let p = column_plan(&column("nick", Some("String"), Some("& str"), false)).ok().unwrap();
    assert!(p.optional);
    assert_eq!(p.getter_type, "Option < & str >");
    assert!(matches!(p.getter_body, GetterBody::AsDeref));
    assert_eq!(p.decode_fn, "decode_opt");
    let p = column_plan(&column("id", Some("i64"), Some("i64"), false)).ok().unwrap();
    assert!(matches!(p.getter_body, GetterBody::Field));
}

#[test]
fn unsupported_types_stop_generation() {
    assert!(matches!(column_plan(&column("x", None, None, true)), Err(CodegenError::UnsupportedDataType)));
    let table = TableInfo {
        name: String::from("public.\"T\""),
        columns: vec![column("a", Some("i32"), Some("i32"), true), column("b", None, Some("i32"), true)],
    };
    assert!(matches!(table_plan(&table), Err(CodegenError::UnsupportedDataType)));
}

#[test]
fn table_plan_keeps_column_order() {
    let table = TableInfo {
        name: String::from("public.\"Guilds\""),
        columns: vec![column("id", Some("String"), Some("& str"), true), column("roles", Some("Vec<String>"), Some("& [String]"), true)],
    };
    let plan = table_plan(&table).ok().unwrap();
    assert_eq!(plan.struct_name, "Guilds");
    assert_eq!(plan.columns.len(), 2);
    assert_eq!(plan.columns[1].name, "roles");
    assert!(matches!(plan.columns[1].getter_body, GetterBody::AsSlice));
    assert_eq!(schema_file_name("discord_frontend"), "discord_frontend.rs");
}
