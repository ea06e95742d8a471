use graphscope::executor::{engine_error_message, resolve_database_path, EngineStage, LookupError};
use graphscope::registry::DatabaseInfo;

fn info(id: usize, name: &str, path: &str) -> DatabaseInfo {
    DatabaseInfo {
        id,
        name: String::from(name),
        path: String::from(path),
        relative_path: String::from(name),
    }
}

#[test]
fn resolves_ids_by_listing_position() {
    let all = vec![info(0, "a", "/d/a.lbdb"), info(1, "b", "/d/b.lbdb")];
    assert_eq!(resolve_database_path(&all, 0).unwrap(), "/d/a.lbdb");
    assert_eq!(resolve_database_path(&all, 1).unwrap(), "/d/b.lbdb");
}

#[test]
fn out_of_range_ids_are_not_found() {
    let all = vec![info(0, "a", "/d/a.lbdb")];
    let e = resolve_database_path(&all, 1).unwrap_err();
    assert_eq!(e, LookupError::NotFound);
    assert_eq!(e.message(), "Database not found");
    assert!(resolve_database_path(&vec![], 0).is_err());
}

#[test]
fn engine_failures_carry_their_stage_and_the_engine_message() {
    assert_eq!(
        engine_error_message(EngineStage::Open, "bad header"),
        "Failed to open database: bad header"
    );
    assert_eq!(
        engine_error_message(EngineStage::Connect, "busy"),
        "Failed to create connection: busy"
    );
    assert_eq!(engine_error_message(EngineStage::NodeQuery, "x"), "Node query failed: x");
    assert_eq!(engine_error_message(EngineStage::LinkQuery, "y"), "Link query failed: y");
    assert_eq!(engine_error_message(EngineStage::Query, "syntax"), "Query failed: syntax");
}
