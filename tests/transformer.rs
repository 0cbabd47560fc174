use replibyte::transformer::{qualified_name, TransientTransformer};
use replibyte::{Column, Transformer, Transformers};

fn transient() -> TransientTransformer {
    TransientTransformer::new("shop".to_string(), "customers".to_string(), "email".to_string())
}

#[test]
fn qualified_name_joins_with_dots() {
    assert_eq!(qualified_name("db", "users", "email"), "db.users.email");
    assert_eq!(qualified_name("", "", ""), "..");
}

#[test]
fn transformer_routing_key() {
    let t = transient();
    assert_eq!(t.database_and_table_and_column_name(), "shop.customers.email");
    assert_eq!(t.database_name(), "shop");
    assert_eq!(t.table_name(), "customers");
    assert_eq!(t.column_name(), "email");
    assert_eq!(t.id(), "transient");
    assert!(!t.description().is_empty());
}

#[test]
fn routing_key_splits_back_into_the_triple() {
    let key = transient().database_and_table_and_column_name();
    let parts: Vec<&str> = key.split('.').collect();
    assert_eq!(parts, vec!["shop", "customers", "email"]);
}

#[test]
fn transient_keeps_the_value() {
    let t = transient();
    match t.transform(Column::StringValue("email".to_string(), "a@b".to_string())) {
        Column::StringValue(n, v) => {
            assert_eq!(n, "email");
            assert_eq!(v, "a@b");
        }
        _ => panic!("variant changed"),
    }
    assert!(matches!(t.transform(Column::NumberValue("id".to_string(), 3)), Column::NumberValue(_, 3)));
}

#[test]
fn transformer_kinds_are_distinct() {
    assert_ne!(Transformers::Random, Transformers::Transient);
    assert_eq!(Transformers::FirstName, Transformers::FirstName);
}
