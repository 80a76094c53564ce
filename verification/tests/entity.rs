use goose::data::entity::StockCN;
use goose::data::{DataHandler, DataSource, Date, Entity, ExchangeCN};
use goose::engine::SymbolMap;
use goose::error::{Error, ValidationError};
use std::cell::RefCell;
use uuid::Uuid;

struct Store {
    statements: RefCell<Vec<(String, Vec<String>)>>,
}

impl DataSource for Store {
    fn tables(&self) -> Result<Vec<String>, Error> {
        Ok(vec!["stock_cn".to_string()])
    }

    fn query_params(
        &self,
        _sql: &str,
        _values: &Vec<String>,
    ) -> Result<Vec<Vec<(String, String)>>, Error> {
        Ok(Vec::new())
    }

    fn execute_params(&self, sql: &str, values: &Vec<String>) -> Result<usize, Error> {
        self.statements
            .borrow_mut()
            .push((sql.to_string(), values.clone()));
        Ok(1)
    }
}

fn date(value: &str) -> Date {
    value.parse().unwrap()
}

fn package(values: &[(&str, &str)]) -> SymbolMap<String> {
    let mut map = SymbolMap::new();
    for (k, v) in values {
        map.insert(k.to_string(), v.to_string());
    }
    map
}

fn stock() -> StockCN {
    StockCN::new(
        Uuid::NAMESPACE_OID.as_u128(),
        ExchangeCN::SZ,
        "000001",
        "Ping An Bank",
        date("1991-04-03"),
    )
}

#[test]
fn stock_id_is_the_v5_uuid_of_exchange_and_code() {
    let s = stock();
    let expected = Uuid::new_v5(&Uuid::NAMESPACE_OID, b"exchange_cn_sz.000001");
    assert_eq!(s.id, expected.as_u128());
    assert_eq!(s.code, "000001");
    assert_eq!(s.name, "Ping An Bank");
    assert_eq!(s.list_date, date("1991-04-03"));
    assert_eq!(s.table(), "stock_cn");
}

#[test]
fn stock_upsert_patches_its_row() {
    let s = stock();
    let store = Store { statements: RefCell::new(Vec::new()) };
    let handler = DataHandler::new(&store);
    s.upsert(&handler, date("2024-01-02"), package(&[("name", "PAB"), ("extra", "x")]))
        .unwrap();
    let statements = store.statements.borrow();
    assert_eq!(statements.len(), 1);
    let (sql, values) = &statements[0];
    assert!(sql.starts_with(
        "INSERT INTO stock_cn (code, date, exchange, extra, id, list_date, name) VALUES"
    ));
    let id = Uuid::from_u128(s.id).to_string();
    assert_eq!(
        values,
        &vec![
            "000001".to_string(),
            "2024-01-02".to_string(),
            "exchange_cn_sz".to_string(),
            "x".to_string(),
            id,
            "1991-04-03".to_string(),
            "PAB".to_string(),
        ]
    );
}

#[test]
fn stock_upsert_writes_dates_of_the_package() {
    let s = stock();
    let store = Store { statements: RefCell::new(Vec::new()) };
    let handler = DataHandler::new(&store);
    s.upsert(
        &handler,
        date("2024-01-02"),
        package(&[("list_date", "1991-04-04"), ("delist_date", "2030-12-31")]),
    )
    .unwrap();
    let statements = store.statements.borrow();
    let (sql, values) = &statements[0];
    assert!(sql.starts_with(
        "INSERT INTO stock_cn (code, date, delist_date, exchange, id, list_date, name) VALUES"
    ));
    assert_eq!(values[2], "2030-12-31");
    assert_eq!(values[5], "1991-04-04");
    assert_eq!(values[6], "Ping An Bank");
}

#[test]
fn stock_upsert_refuses_bad_dates_before_asking_the_store() {
    let s = stock();
    let store = Store { statements: RefCell::new(Vec::new()) };
    let handler = DataHandler::new(&store);
    for (key, text) in [("list_date", "2024-13-01"), ("delist_date", "2026-02-29")] {
        match s.upsert(&handler, date("2024-01-02"), package(&[(key, text)])) {
            Err(Error::Validation(ValidationError::Date { value })) => assert_eq!(value, text),
            other => panic!("unexpected {other:?}"),
        }
    }
    match s.upsert(
        &handler,
        date("2024-01-02"),
        package(&[("delist_date", "bad"), ("list_date", "worse")]),
    ) {
        Err(Error::Validation(ValidationError::Date { value })) => assert_eq!(value, "worse"),
        other => panic!("unexpected {other:?}"),
    }
    assert!(store.statements.borrow().is_empty());
}

#[test]
fn stock_upsert_writes_the_hyphenated_id() {
    let s = StockCN {
        id: 0xa1a2a3a4b1b2c1c2d1d2d3d4d5d6d7d8u128,
        exchange: ExchangeCN::BJ,
        code: "430047".to_string(),
        name: "Nuoxin".to_string(),
        list_date: date("2014-01-24"),
    };
    let store = Store { statements: RefCell::new(Vec::new()) };
    let handler = DataHandler::new(&store);
    s.upsert(&handler, date("2024-01-02"), SymbolMap::new()).unwrap();
    let statements = store.statements.borrow();
    let (_, values) = &statements[0];
    assert_eq!(values[2], "exchange_cn_bj");
    assert_eq!(values[3], "a1a2a3a4-b1b2-c1c2-d1d2-d3d4d5d6d7d8");
}
