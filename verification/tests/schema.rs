use ampbench::schema::{gen_secondary_index_sql, Column, ColumnType, Index, Schema, SchemaError};

#[test]
fn test_parse_column() {
    let col = Column::parse("int(10)_default_1").unwrap();
    assert_eq!(col.tp, ColumnType::Int);
    assert_eq!(col.len, 10);
    assert_eq!(col.default, Some(String::from("1")));

    let col2 = Column::parse("varchar(32)_default_aaa").unwrap();
    assert_eq!(col2.tp, ColumnType::Varchar);
    assert_eq!(col2.len, 32);
    assert_eq!(col2.default, Some(String::from("aaa")));

    let col3 = Column::parse("datetime_default_now()").unwrap();
    assert_eq!(col3.tp, ColumnType::Datetime);
    assert_eq!(col3.len, 0);
    assert_eq!(col3.default, Some(String::from("now()")));

    let col3 = Column::parse("datetime").unwrap();
    assert_eq!(col3.tp, ColumnType::Datetime);
    assert_eq!(col3.len, 0);
    assert_eq!(col3.default, None);
}

#[test]
fn test_parse_index() {
    let idx = Index::parse("unique_1_3").unwrap();
    assert!(idx.unique);
    assert_eq!(idx.columns, vec![1, 3]);

    let idx2 = Index::parse("2_3").unwrap();
    assert!(!idx2.unique);
    assert_eq!(idx2.columns, vec![2, 3]);
}

#[test]
fn test_schema() {
    let columns: Vec<String> = vec![
        "int(10)".to_owned(),
        "int(10)".to_owned(),
        "char(32)".to_owned(),
        "varchar(255)".to_owned(),
        "text".to_owned(),
        "datetime".to_owned(),
    ];
    let primary = vec!["1".to_owned(), "3".to_owned(), "2".to_owned()];
    let indexes = vec!["unique_1_4".to_owned(), "5".to_owned()];
    let schema = Schema::from_str(columns, primary, indexes, 0).unwrap();
    let create_sql = "create table t0 (\n a int(10) not null,\n b int(10) not null,\n c char(32) not null,\n d varchar(255) not null,\n e text not null,\n f datetime not null,\n primary key (b,d,c),\n unique  key _idx_0 (b,e),\n key _idx_1 (f)\n)";
    assert_eq!(create_sql, schema.gen_create_sql());
}

#[test]
fn test_unsupported_column_type() {
    assert_eq!(
        Column::parse("blob(5)").unwrap_err(),
        SchemaError::UnsupportedColumnType
    );
}

#[test]
fn test_invalid_column_length() {
    assert_eq!(
        Column::parse("int(abc)").unwrap_err(),
        SchemaError::InvalidColumnLength
    );
    assert_eq!(
        Column::parse("int()").unwrap_err(),
        SchemaError::InvalidColumnLength
    );
}

#[test]
fn test_malformed_column_descriptor() {
    assert_eq!(
        Column::parse("int(10)_default").unwrap_err(),
        SchemaError::MalformedColumnDescriptor
    );
    assert_eq!(
        Column::parse("int(10)_default_1_2").unwrap_err(),
        SchemaError::MalformedColumnDescriptor
    );
    assert_eq!(
        Column::parse("int(10)_fallback_1").unwrap_err(),
        SchemaError::MalformedColumnDescriptor
    );
}

#[test]
fn test_invalid_index_column() {
    assert_eq!(
        Index::parse("unique_1_x").unwrap_err(),
        SchemaError::InvalidIndexColumn
    );
    assert_eq!(Index::parse("").unwrap_err(), SchemaError::InvalidIndexColumn);
}

#[test]
fn test_empty_index_descriptor() {
    assert_eq!(
        Index::parse("unique").unwrap_err(),
        SchemaError::EmptyIndexDescriptor
    );
}

#[test]
fn test_invalid_primary_key_column() {
    let columns = vec!["int(10)".to_owned()];
    let primary = vec!["one".to_owned()];
    let err = Schema::from_str(columns, primary, vec![], 0).unwrap_err();
    assert_eq!(err, SchemaError::InvalidPrimaryKeyColumn);
}

#[test]
fn test_position_out_of_range() {
    let columns = vec![
        "int(10)".to_owned(),
        "varchar(255)".to_owned(),
        "text".to_owned(),
    ];
    let primary = vec!["99".to_owned()];
    let err = Schema::from_str(columns.clone(), primary, vec![], 0).unwrap_err();
    assert_eq!(err, SchemaError::ColumnPositionOutOfRange);

    let err2 = Schema::from_str(
        columns.clone(),
        vec!["1".to_owned()],
        vec!["unique_2_99".to_owned()],
        0,
    )
    .unwrap_err();
    assert_eq!(err2, SchemaError::ColumnPositionOutOfRange);

    let err3 = Schema::from_str(columns, vec!["3".to_owned()], vec![], 0).unwrap_err();
    assert_eq!(err3, SchemaError::ColumnPositionOutOfRange);
}

#[test]
fn test_gen_secondary_index_sql() {
    let idx = Index::parse("unique_1_3").unwrap();
    assert_eq!(gen_secondary_index_sql(0, &idx), " unique  key _idx_0 (b,d)");

    let idx2 = Index::parse("2").unwrap();
    assert_eq!(gen_secondary_index_sql(5, &idx2), " key _idx_5 (c)");
}

#[test]
fn test_render_idempotent() {
    let columns = vec![
        "int(10)".to_owned(),
        "varchar(255)_default_x".to_owned(),
        "datetime_default_now()".to_owned(),
    ];
    let primary = vec!["2".to_owned(), "0".to_owned()];
    let indexes = vec!["unique_1".to_owned()];
    let schema = Schema::from_str(columns, primary, indexes, 7).unwrap();
    let first = schema.gen_create_sql();
    let second = schema.gen_create_sql();
    assert_eq!(first, second);
}

#[test]
fn test_default_rendered_verbatim() {
    let columns = vec!["datetime_default_now()".to_owned()];
    let primary = vec!["0".to_owned()];
    let schema = Schema::from_str(columns, primary, vec![], 3).unwrap();
    assert_eq!(
        schema.gen_create_sql(),
        "create table t3 (\n a datetime not null default now(),\n primary key (a))"
    );
}
