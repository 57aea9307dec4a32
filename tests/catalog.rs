use stargazer::catalog::{Catalog, CrudError, CONFLICT, NO_CONTENT};

#[test]
fn create_twice_returns_no_content_then_conflict() {
    let mut c = Catalog::new();
    assert_eq!(c.create("alice"), 204);
    assert_eq!(c.create("alice"), 409);
    assert_eq!(NO_CONTENT, 204);
    assert_eq!(CONFLICT, 409);
    assert_eq!(c.vtubers.len(), 1);
}

#[test]
fn create_then_read_returns_entity() {
    let mut c = Catalog::new();
    c.create("alice");
    c.create("bob");
    let v = c.get("bob").unwrap();
    assert_eq!(v.name, "bob");
    assert!(v.fields.is_empty());
    assert_eq!(c.get("carol").unwrap_err(), CrudError::MissingVtuber);
}

#[test]
fn put_then_get_field_returns_written_value() {
    let mut c = Catalog::new();
    c.create("alice");
    assert_eq!(c.put_bililive("alice", "12345"), Ok(204));
    assert_eq!(c.get_field("alice", "bililive"), Ok("12345".to_string()));
    assert_eq!(c.put_bililive("alice", "777"), Ok(204));
    assert_eq!(c.get_field("alice", "bililive"), Ok("777".to_string()));
    assert_eq!(c.get("alice").unwrap().fields.len(), 1);
    assert_eq!(c.put_debug("alice", "1"), Ok(204));
    assert_eq!(c.get("alice").unwrap().fields.len(), 2);
}

#[test]
fn missing_entity_and_field_errors() {
    let mut c = Catalog::new();
    assert_eq!(c.get_field("nobody", "debug"), Err(CrudError::MissingVtuber));
    assert_eq!(c.put_debug("nobody", "1"), Err(CrudError::MissingVtuber));
    c.create("alice");
    assert_eq!(c.get_field("alice", "debug"), Err(CrudError::MissingField));
    assert_eq!(c.delete_field("alice", "debug"), Err(CrudError::MissingField));
    assert_eq!(c.delete_field("nobody", "debug"), Err(CrudError::MissingVtuber));
    assert_eq!(c.delete("nobody"), Err(CrudError::MissingVtuber));
}

#[test]
fn delete_field_and_entity() {
    let mut c = Catalog::new();
    c.create("alice");
    c.create("bob");
    c.put_debug("alice", "1").unwrap();
    assert_eq!(c.delete_field("alice", "debug"), Ok(204));
    assert_eq!(c.get_field("alice", "debug"), Err(CrudError::MissingField));
    assert_eq!(c.delete("alice"), Ok(204));
    assert_eq!(c.get("alice").unwrap_err(), CrudError::MissingVtuber);
    assert_eq!(c.get("bob").unwrap().name, "bob");
    assert_eq!(c.create("alice"), 204);
}

#[test]
fn error_status_codes() {
    assert_eq!(CrudError::MissingVtuber.status_code(), 404);
    assert_eq!(CrudError::MissingField.status_code(), 404);
    assert_eq!(CrudError::InvalidValue { value: "x".to_string() }.status_code(), 400);
    assert_eq!(CrudError::Inconsistency.status_code(), 500);
    assert_eq!(CrudError::DBError("down".to_string()).status_code(), 500);
}

#[test]
fn existing_entity_reads_ok() {
    let mut c = Catalog::new();
    c.create("alice");
    assert!(c.get("alice").is_ok());
    assert!(c.get("bob").is_err());
}

#[test]
fn malformed_payload_is_rejected_and_nothing_written() {
    let mut c = Catalog::new();
    c.create("n");
    let err = c.put_bililive("n", "not a number").unwrap_err();
    assert_eq!(err, CrudError::InvalidValue { value: "not a number".to_string() });
    assert_eq!(err.status_code(), 400);
    assert_eq!(c.get_field("n", "bililive"), Err(CrudError::MissingField));
    assert_eq!(c.put_debug("nobody", "x"), Err(CrudError::InvalidValue { value: "x".to_string() }));
    c.put_debug("n", "5").unwrap();
    assert!(c.put_debug("n", "-5").is_err());
    assert_eq!(c.get_field("n", "debug"), Ok("5".to_string()));
}

#[test]
fn payload_is_stored_in_decimal_form() {
    let mut c = Catalog::new();
    c.create("n");
    assert_eq!(c.put_debug("n", "+007"), Ok(204));
    assert_eq!(c.get_field("n", "debug"), Ok("7".to_string()));
    assert_eq!(c.put_bililive("n", "18446744073709551615"), Ok(204));
    assert_eq!(c.get_field("n", "bililive"), Ok("18446744073709551615".to_string()));
    assert_eq!(c.put_bililive("n", "0"), Ok(204));
    assert_eq!(c.get_field("n", "bililive"), Ok("0".to_string()));
}
