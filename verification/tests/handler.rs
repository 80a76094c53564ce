use goose::data::handler::{
    append_where_clause, build_delete_sql, build_select_sql, build_upsert_sql, conflict_columns_for_table,
    plan_request, validate_identifier, validate_select_target, SqlStatement,
};
use goose::data::{DataHandler, DataSource, RestMethod, RestRequest};
use goose::engine::SymbolMap;
use goose::error::Error;
use std::cell::RefCell;

fn strings(values: &[&str]) -> Vec<String> {
    values.iter().map(|v| v.to_string()).collect()
}

fn pairs(values: &[(&str, &str)]) -> Vec<(String, String)> {
    values
        .iter()
        .map(|(k, v)| (k.to_string(), v.to_string()))
        .collect()
}

fn body(values: &[(&str, &str)]) -> SymbolMap<String> {
    let mut map = SymbolMap::new();
    for (k, v) in values {
        map.insert(k.to_string(), v.to_string());
    }
    map
}

fn db_message(error: Error) -> String {
    match error {
        Error::Database(message) => message,
        other => panic!("unexpected {other:?}"),
    }
}

struct Recorder {
    statements: RefCell<Vec<(String, Vec<String>)>>,
}

impl DataSource for Recorder {
    fn tables(&self) -> Result<Vec<String>, Error> {
        Ok(strings(&["calendar", "stock_cn"]))
    }

    fn query_params(
        &self,
        sql: &str,
        values: &Vec<String>,
    ) -> Result<Vec<Vec<(String, String)>>, Error> {
        self.statements
            .borrow_mut()
            .push((sql.to_string(), values.clone()));
        Ok(vec![pairs(&[("date", "2026-06-12")])])
    }

    fn execute_params(&self, sql: &str, values: &Vec<String>) -> Result<usize, Error> {
        self.statements
            .borrow_mut()
            .push((sql.to_string(), values.clone()));
        Ok(1)
    }
}

#[test]
fn identifiers_are_strict() {
    assert!(validate_identifier("daily_bar2").is_ok());
    assert!(validate_identifier("_x").is_ok());
    assert_eq!(
        db_message(validate_identifier("").unwrap_err()),
        "empty SQL identifier"
    );
    assert_eq!(
        db_message(validate_identifier("2x").unwrap_err()),
        "invalid SQL identifier: 2x"
    );
    assert_eq!(
        db_message(validate_identifier("a;b").unwrap_err()),
        "invalid SQL identifier: a;b"
    );
    assert!(validate_select_target("*").is_ok());
    assert!(validate_select_target("**").is_err());
}

#[test]
fn select_and_delete_statements_bind_the_filters() {
    let (sql, values) = build_select_sql("calendar", "", &pairs(&[("date", "2026-06-12"), ("market", "cn")]));
    assert_eq!(sql, "SELECT * FROM calendar WHERE date = ?1 AND market = ?2;");
    assert_eq!(values, strings(&["2026-06-12", "cn"]));

    let (sql, values) = build_select_sql("calendar", "is_open", &Vec::new());
    assert_eq!(sql, "SELECT is_open FROM calendar;");
    assert!(values.is_empty());

    let (sql, values) = build_delete_sql("calendar", &pairs(&[("date", "2026-06-12")])).unwrap();
    assert_eq!(sql, "DELETE FROM calendar WHERE date = ?1;");
    assert_eq!(values, strings(&["2026-06-12"]));
    assert_eq!(
        db_message(build_delete_sql("calendar", &Vec::new()).unwrap_err()),
        "400 BadRequest: missing delete condition."
    );
}

#[test]
fn upserts_use_the_conflict_key_of_the_table() {
    let (sql, values) = build_upsert_sql(
        "stock_cn",
        &pairs(&[("code", "000001"), ("date", "2026-06-12"), ("id", "x")]),
    )
    .unwrap();
    assert_eq!(
        sql,
        "INSERT INTO stock_cn (code, date, id) VALUES (?1, ?2, ?3) ON CONFLICT(id, date) DO UPDATE SET code = excluded.code;"
    );
    assert_eq!(values, strings(&["000001", "2026-06-12", "x"]));

    let (sql, _) = build_upsert_sql("entity", &pairs(&[("id", "x")])).unwrap();
    assert_eq!(
        sql,
        "INSERT INTO entity (id) VALUES (?1) ON CONFLICT(id) DO NOTHING;"
    );
    assert_eq!(
        db_message(build_upsert_sql("calendar", &pairs(&[("date", "d")])).unwrap_err()),
        "400 BadRequest: missing upsert conflict column: market."
    );
    assert_eq!(
        db_message(build_upsert_sql("other", &pairs(&[("name", "n")])).unwrap_err()),
        "400 BadRequest: missing upsert conflict column."
    );
    assert_eq!(
        db_message(build_upsert_sql("other", &Vec::new()).unwrap_err()),
        "400 BadRequest: missing upsert body."
    );
    assert_eq!(
        conflict_columns_for_table("daily_bar", &strings(&["exchange", "date", "id"])).unwrap(),
        strings(&["id", "date", "exchange"])
    );
    assert_eq!(
        conflict_columns_for_table("prices", &strings(&["date", "id"])).unwrap(),
        strings(&["id", "date"])
    );
}

#[test]
fn requests_resolve_paths_and_bodies() {
    let store = Recorder {
        statements: RefCell::new(Vec::new()),
    };
    let handler = DataHandler::new(&store);

    let rows = handler
        .request(RestRequest::new(
            RestMethod::Get,
            strings(&["calendar", "market", "cn", "date"]),
            SymbolMap::new(),
        ))
        .unwrap();
    assert_eq!(rows.len(), 1);

    handler
        .request(RestRequest::new(
            RestMethod::Patch,
            strings(&["stock_cn"]),
            body(&[("name", "Bank"), ("id", "x"), ("date", "2026-06-12")]),
        ))
        .unwrap();

    let statements = store.statements.borrow();
    assert_eq!(
        statements[0],
        (
            "SELECT date FROM calendar WHERE market = ?1;".to_string(),
            strings(&["cn"])
        )
    );
    assert_eq!(
        statements[1].0,
        "INSERT INTO stock_cn (date, id, name) VALUES (?1, ?2, ?3) ON CONFLICT(id, date) DO UPDATE SET name = excluded.name;"
    );
    assert_eq!(statements[1].1, strings(&["2026-06-12", "x", "Bank"]));
    drop(statements);

    assert_eq!(
        db_message(
            handler
                .request(RestRequest::new(RestMethod::Get, Vec::new(), SymbolMap::new()))
                .unwrap_err()
        ),
        "400 BadRequest: missing request path."
    );
    assert_eq!(
        db_message(
            handler
                .request(RestRequest::new(RestMethod::Get, strings(&["missing"]), SymbolMap::new()))
                .unwrap_err()
        ),
        "404 Not Found: table missing does not exist."
    );
    assert_eq!(
        db_message(
            handler
                .request(RestRequest::new(
                    RestMethod::Delete,
                    strings(&["calendar", "date", "2026-06-12", "market", "*"]),
                    SymbolMap::new()
                ))
                .unwrap_err()
        ),
        "400 BadRequest: invalid path."
    );
    assert_eq!(
        db_message(
            handler
                .request(RestRequest::new(RestMethod::Delete, strings(&["calendar"]), SymbolMap::new()))
                .unwrap_err()
        ),
        "400 BadRequest: missing delete condition."
    );
}

#[test]
fn requests_plan_one_statement() {
    let tables = strings(&["calendar"]);
    match plan_request(
        RestRequest::new(RestMethod::Delete, strings(&["calendar", "date", "d1", "*"]), SymbolMap::new()),
        &tables,
    ) {
        Ok(SqlStatement::Execute { sql, values }) => {
            assert_eq!(sql, "DELETE FROM calendar WHERE date = ?1;");
            assert_eq!(values, strings(&["d1"]));
        }
        other => panic!("unexpected {other:?}"),
    }
    match plan_request(
        RestRequest::new(
            RestMethod::Put,
            strings(&["calendar"]),
            body(&[("market", "cn"), ("is_open", "1"), ("date", "d1")]),
        ),
        &tables,
    ) {
        Ok(SqlStatement::Execute { sql, values }) => {
            assert_eq!(
                sql,
                "INSERT INTO calendar (date, is_open, market) VALUES (?1, ?2, ?3) ON CONFLICT(market, date) DO UPDATE SET is_open = excluded.is_open;"
            );
            assert_eq!(values, strings(&["d1", "1", "cn"]));
        }
        other => panic!("unexpected {other:?}"),
    }
    assert_eq!(
        db_message(
            plan_request(
                RestRequest::new(RestMethod::Post, strings(&["calendar"]), body(&[("bad key", "1")])),
                &tables,
            )
            .unwrap_err()
        ),
        "invalid SQL identifier: bad key"
    );
}

#[test]
fn where_clauses_number_their_placeholders() {
    let mut sql = "UPDATE t".to_string();
    let values = append_where_clause(&mut sql, &pairs(&[("a", "1"), ("b", "2")]), 9);
    assert_eq!(sql, "UPDATE t WHERE a = ?9 AND b = ?10");
    assert_eq!(values, strings(&["1", "2"]));
    let mut unchanged = "X".to_string();
    assert!(append_where_clause(&mut unchanged, &Vec::new(), 1).is_empty());
    assert_eq!(unchanged, "X");
}

#[test]
fn paths_and_bodies_are_verified() {
    let store = Recorder {
        statements: RefCell::new(Vec::new()),
    };
    let handler = DataHandler::new(&store);
    let (table, query, params) = handler
        .verify_path(strings(&["stock_cn", "code", "000001", "name"]))
        .unwrap();
    assert_eq!(table, "stock_cn");
    assert_eq!(query, "name");
    assert_eq!(params, pairs(&[("code", "000001")]));
    assert_eq!(
        handler.verify_path(strings(&["calendar"])).unwrap(),
        ("calendar".to_string(), String::new(), Vec::new())
    );
    assert_eq!(
        db_message(handler.verify_path(strings(&["calendar", "1x", "v", "*"])).unwrap_err()),
        "invalid SQL identifier: 1x"
    );
    assert_eq!(
        handler
            .verify_body(body(&[("b", "2"), ("a", "1"), ("c", "3")]))
            .unwrap(),
        pairs(&[("a", "1"), ("b", "2"), ("c", "3")])
    );
    assert_eq!(
        db_message(handler.verify_body(body(&[("", "1")])).unwrap_err()),
        "empty SQL identifier"
    );
}

#[test]
fn request_body_holds_each_column_once() {
    let store = Recorder { statements: RefCell::new(Vec::new()) };
    let handler = DataHandler::new(&store);
    let sorted = handler
        .verify_body(body(&[("b", "1"), ("a", "2"), ("b", "3")]))
        .unwrap();
    assert_eq!(sorted, pairs(&[("a", "2"), ("b", "3")]));
}

#[test]
fn filter_values_never_change_the_statement() {
    let tables = strings(&["calendar"]);
    let plan = |values: [&str; 2]| {
        match plan_request(
            RestRequest::new(
                RestMethod::Get,
                strings(&["calendar", "market", values[0], "date", values[1], "*"]),
                SymbolMap::new(),
            ),
            &tables,
        ) {
            Ok(SqlStatement::Query { sql, values }) => (sql, values),
            other => panic!("unexpected {other:?}"),
        }
    };
    let (sql_a, values_a) = plan(["cn", "2026-06-12"]);
    let (sql_b, values_b) = plan(["x'; DROP TABLE calendar; --", "?1"]);
    assert_eq!(sql_a, sql_b);
    assert_eq!(values_a, strings(&["cn", "2026-06-12"]));
    assert_eq!(values_b, strings(&["x'; DROP TABLE calendar; --", "?1"]));
}

#[test]
fn body_values_never_change_the_statement() {
    let tables = strings(&["calendar"]);
    let plan = |fields: &[(&str, &str)]| {
        match plan_request(
            RestRequest::new(RestMethod::Patch, strings(&["calendar"]), body(fields)),
            &tables,
        ) {
            Ok(SqlStatement::Execute { sql, values }) => (sql, values),
            other => panic!("unexpected {other:?}"),
        }
    };
    let (sql_a, values_a) = plan(&[("market", "cn"), ("date", "d1"), ("is_open", "1")]);
    let (sql_b, values_b) = plan(&[
        ("is_open", "'); DROP TABLE calendar; --"),
        ("market", "?2"),
        ("date", "d2"),
    ]);
    assert_eq!(sql_a, sql_b);
    assert_eq!(values_a, strings(&["d1", "1", "cn"]));
    assert_eq!(values_b, strings(&["d2", "'); DROP TABLE calendar; --", "?2"]));
}
