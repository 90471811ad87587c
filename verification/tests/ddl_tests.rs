use dozer_core::ClickhouseTableOptions;
use dozer_core::FieldDefinition;
use dozer_core::FieldType;
use dozer_core::get_create_table_query;
use dozer_core::map_field_to_type;

fn field(name: &str, typ: FieldType, nullable: bool) -> FieldDefinition {
    FieldDefinition { name: name.to_string(), typ, nullable }
}

#[test]
fn column_types_map_to_clickhouse_names() {
    assert_eq!(map_field_to_type(&field("a", FieldType::Int, false)), "Int64");
    assert_eq!(map_field_to_type(&field("a", FieldType::UInt, false)), "UInt64");
    assert_eq!(map_field_to_type(&field("a", FieldType::Text, false)), "String");
    assert_eq!(map_field_to_type(&field("a", FieldType::Bytes, true)), "Nullable(String)");
}

#[test]
fn create_table_query_with_defaults() {
    let fields = vec![
        field("id", FieldType::UInt, false),
        field("name", FieldType::Text, true),
    ];
    let q = get_create_table_query("users", &fields, None);
    assert_eq!(
        q,
        "CREATE TABLE IF NOT EXISTS users (\nid UInt64,\nname Nullable(String),\n\n)\nENGINE = MergeTree()\n"
    );
}

#[test]
fn create_table_query_with_full_options() {
    let fields = vec![field("id", FieldType::UInt, false)];
    let options = ClickhouseTableOptions {
        engine: Some("CollapsingMergeTree".to_string()),
        primary_keys: Some(vec!["id".to_string()]),
        partition_by: Some("toDate(ts)".to_string()),
        sample_by: Some("id".to_string()),
        order_by: Some(vec!["id".to_string(), "ts".to_string()]),
        cluster: Some("c1".to_string()),
    };
    let q = get_create_table_query("users", &fields, Some(options));
    assert_eq!(
        q,
        "CREATE TABLE IF NOT EXISTS users ON CLUSTER c1\n(\nid UInt64,\nsign Int8,\nPRIMARY KEY (id)\n)\nENGINE = CollapsingMergeTree(sign)\nORDER BY (id, ts)\nPARTITION BY toDate(ts)\nSAMPLE BY id\n"
    );
}
