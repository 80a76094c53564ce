use goose::cli::{import_report, init_report, parse_batch_size, DbAction, DbTask, ImportMode, ImportTable};
use goose::data::fetcher::skippable;
use goose::error::{Error, FetchError, ValidationError};
use goose::data::{Entity, ExchangeCN};

#[test]
fn batch_sizes_are_positive_numbers() {
    assert_eq!(parse_batch_size("100"), Ok(100));
    assert_eq!(parse_batch_size("+7"), Ok(7));
    assert_eq!(
        parse_batch_size("0"),
        Err("batch size must be greater than zero".to_string())
    );
    assert_eq!(
        parse_batch_size("ten"),
        Err("invalid batch size `ten`".to_string())
    );
    assert_eq!(
        parse_batch_size(""),
        Err("invalid batch size ``".to_string())
    );
    assert_eq!(
        parse_batch_size("-1"),
        Err("invalid batch size `-1`".to_string())
    );
    assert_eq!(
        parse_batch_size("99999999999999999999999"),
        Err("invalid batch size `99999999999999999999999`".to_string())
    );
}

#[test]
fn import_names() {
    assert_eq!(ImportTable::Bar.to_string(), "bar");
    assert_eq!(ImportTable::Calendar.to_string(), "calendar");
    assert_eq!(ImportMode::Insert.to_string(), "insert");
    assert_eq!(ImportMode::Upsert.to_string(), "upsert");
}

#[test]
fn actions_name_their_work() {
    let action = DbAction::Import {
        db: "goose.db".to_string(),
        table: ImportTable::Calendar,
        files: vec!["calendar.csv".to_string(), "more.csv".to_string()],
        mode: ImportMode::Upsert,
        batch_size: 3,
    };
    match action.act() {
        DbTask::ImportCalendar {
            db,
            files,
            mode,
            batch_size,
        } => {
            assert_eq!(db, "goose.db");
            assert_eq!(files, vec!["calendar.csv", "more.csv"]);
            assert_eq!(mode, ImportMode::Upsert);
            assert_eq!(batch_size, 3);
        }
        other => panic!("unexpected {other:?}"),
    }
    match (DbAction::Init {
        db: "x.db".to_string(),
    })
    .act()
    {
        DbTask::Init { db } => assert_eq!(db, "x.db"),
        other => panic!("unexpected {other:?}"),
    }
}

#[test]
fn exchanges_have_names_and_a_table() {
    assert_eq!(ExchangeCN::SZ.to_string(), "exchange_cn_sz");
    assert_eq!(ExchangeCN::SH.to_string(), "exchange_cn_sh");
    assert_eq!(ExchangeCN::BJ.to_string(), "exchange_cn_bj");
    assert_eq!(ExchangeCN::BJ.table(), "exchange_cn");
    assert!(ExchangeCN::SH.schema().contains("CREATE TABLE IF NOT EXISTS exchange_cn"));
}

#[test]
fn imports_report_rows_tables_and_files() {
    assert_eq!(
        import_report(2, ImportTable::Calendar, 1),
        "Inserted 2 rows into calendar from 1 CSV file(s)"
    );
    assert_eq!(
        import_report(120, ImportTable::Bar, 2),
        "Inserted 120 rows into bar from 2 CSV file(s)"
    );
    assert_eq!(init_report("goose.db"), "Initialized database at goose.db");
}

#[test]
fn imports_skip_invalid_rows_only() {
    let invalid = Error::Fetch(FetchError::InvalidRecord {
        row: 3,
        source: ValidationError::EmptySymbol,
    });
    let missing = Error::Fetch(FetchError::MissingField {
        row: 3,
        field: "date".to_string(),
    });
    let unreadable = Error::Fetch(FetchError::Csv {
        message: "bad quote".to_string(),
    });
    assert!(skippable(&invalid));
    assert!(skippable(&missing));
    assert!(!skippable(&unreadable));
    assert!(!skippable(&Error::Fetch(FetchError::EmptyBatch)));
}
