use goose::data::fetcher::{import_step, ImportStep};
use goose::data::{
    on_fetched, parse_bar_record, parse_calendar_record, CsvBarFetcher, CsvCalendarFetcher,
    Fetcher, PersistAction, PriceAdjust,
};
use goose::error::{Error, FetchError, ValidationError};

const CSV: &str = "symbol,date,price_adjust,open,high,low,close,volume,amount
AAPL,2026-06-12,raw,10,11,9.5,10.5,1000,10500
MSFT,2026-06-12,qfq,20,21,19.5,20.5,2000,41000
GOOG,2026-06-15,hfq,,,,,,
";

fn input(text: &str) -> Vec<u8> {
    text.as_bytes().to_vec()
}

fn fields(values: &[&str]) -> Vec<String> {
    values.iter().map(|v| v.to_string()).collect()
}

#[test]
fn csv_fetcher_returns_validated_batches_until_eof() {
    let mut fetcher = CsvBarFetcher::from_reader(input(CSV), 2).unwrap();

    let first = fetcher.fetch().unwrap().unwrap();
    assert_eq!(first.len(), 2);
    assert_eq!(first[0].symbol, "AAPL");
    assert_eq!(first[0].ohlc.close.unwrap().to_string(), "10.5000");
    assert_eq!(first[0].volume.unwrap().to_string(), "1000.0000");
    assert_eq!(first[0].amount.unwrap().to_string(), "10500.0000");
    assert_eq!(first[1].ohlc.price_adjust, PriceAdjust::Qfq);

    let second = fetcher.fetch().unwrap().unwrap();
    assert_eq!(second.len(), 1);
    assert_eq!(second[0].symbol, "GOOG");
    assert!(second[0].ohlc.open.is_none());
    assert!(fetcher.fetch().unwrap().is_none());
}

#[test]
fn csv_fetcher_rejects_invalid_headers_and_batch_size() {
    let invalid_headers = "date,symbol,price_adjust,open,high,low,close,volume,amount\n";

    let error = match CsvBarFetcher::from_reader(input(invalid_headers), 1) {
        Ok(_) => panic!("invalid headers were accepted"),
        Err(error) => error,
    };
    assert!(matches!(
        error,
        Error::Fetch(FetchError::InvalidHeaders { .. })
    ));
}

#[test]
fn csv_fetcher_rejects_invalid_domain_values() {
    let invalid_date = "symbol,date,price_adjust,open,high,low,close,volume,amount
AAPL,2026-02-29,raw,10,11,9,10,1000,10000
";
    let invalid_ohlc = "symbol,date,price_adjust,open,high,low,close,volume,amount
AAPL,2026-06-12,raw,10,9,11,10,1000,10000
";

    let mut date_fetcher = CsvBarFetcher::from_reader(input(invalid_date), 1).unwrap();
    assert!(date_fetcher.fetch().is_err());

    let mut ohlc_fetcher = CsvBarFetcher::from_reader(input(invalid_ohlc), 1).unwrap();
    assert!(ohlc_fetcher.fetch().is_err());
}

#[test]
fn csv_calendar_fetcher_returns_batches_and_parses_booleans() {
    let csv = "date,is_open
2026-06-12,true
2026-06-13,FALSE
2026-06-14,1
2026-06-15,0
";
    let mut fetcher = CsvCalendarFetcher::from_reader(input(csv), 3).unwrap();

    let first = fetcher.fetch().unwrap().unwrap();
    assert_eq!(first.len(), 3);
    assert_eq!(first[0].date.to_string(), "2026-06-12");
    assert!(first[0].is_open);
    assert!(!first[1].is_open);
    assert!(first[2].is_open);

    let second = fetcher.fetch().unwrap().unwrap();
    assert_eq!(second.len(), 1);
    assert!(!second[0].is_open);
    assert!(fetcher.fetch().unwrap().is_none());
}

#[test]
fn csv_calendar_fetcher_rejects_invalid_input() {
    let invalid_headers = "is_open,date\ntrue,2026-06-12\n";
    let invalid_date = "date,is_open\n2026-02-29,true\n";
    let invalid_boolean = "date,is_open\n2026-06-12,open\n";

    assert!(CsvCalendarFetcher::from_reader(input(invalid_headers), 1).is_err());

    let mut date_fetcher = CsvCalendarFetcher::from_reader(input(invalid_date), 1).unwrap();
    assert!(date_fetcher.fetch().is_err());

    let mut bool_fetcher = CsvCalendarFetcher::from_reader(input(invalid_boolean), 1).unwrap();
    assert!(bool_fetcher.fetch().is_err());
}

#[test]
fn csv_fetcher_full_batches_leave_the_end_unread() {
    let csv = "date,is_open\n2026-06-12,true\n2026-06-13,false\n";
    let mut fetcher = CsvCalendarFetcher::from_reader(input(csv), 2).unwrap();
    assert_eq!(fetcher.fetch().unwrap().unwrap().len(), 2);
    assert!(fetcher.fetch().unwrap().is_none());
    assert!(fetcher.fetch().unwrap().is_none());
}

#[test]
fn csv_fetcher_trims_fields() {
    let csv = "date , is_open\n 2026-06-12 ,  TRUE \n";
    let mut fetcher = CsvCalendarFetcher::from_reader(input(csv), 5).unwrap();
    let batch = fetcher.fetch().unwrap().unwrap();
    assert_eq!(batch.len(), 1);
    assert!(batch[0].is_open);
}

#[test]
fn csv_invalid_headers_show_both_rows() {
    match CsvCalendarFetcher::from_reader(input("day,open\n"), 1) {
        Err(Error::Fetch(FetchError::InvalidHeaders { expected, actual })) => {
            assert_eq!(expected, "date,is_open");
            assert_eq!(actual, "day,open");
        }
        _ => panic!("invalid headers were accepted"),
    }
}

#[test]
fn bar_rows_report_the_first_invalid_field() {
    let row = |values: &[&str]| parse_bar_record(&fields(values), 7);
    match row(&["AAPL", "2026-06-12", "raw", "1.23456", "", "", "", "", ""]) {
        Err(Error::Fetch(FetchError::InvalidRecord {
            row: 7,
            source: ValidationError::Price { .. },
        })) => {}
        other => panic!("unexpected {other:?}"),
    }
    match row(&["AAPL", "2026-06-12", "adjusted", "", "", "", "", "", ""]) {
        Err(Error::Fetch(FetchError::InvalidRecord {
            row: 7,
            source: ValidationError::PriceAdjust { value },
        })) => assert_eq!(value, "adjusted"),
        other => panic!("unexpected {other:?}"),
    }
    match row(&["AAPL", "2026-06-12", "raw", "", "", "", "", "x", ""]) {
        Err(Error::Fetch(FetchError::InvalidRecord {
            source: ValidationError::Quantity { .. },
            ..
        })) => {}
        other => panic!("unexpected {other:?}"),
    }
    match row(&["AAPL", "2026-06-12"]) {
        Err(Error::Fetch(FetchError::MissingField { row: 7, field })) => {
            assert_eq!(field, "price_adjust")
        }
        other => panic!("unexpected {other:?}"),
    }
    match row(&[" ", "2026-06-12", "raw", "", "", "", "", "", ""]) {
        Err(Error::Fetch(FetchError::InvalidRecord {
            source: ValidationError::EmptySymbol,
            ..
        })) => {}
        other => panic!("unexpected {other:?}"),
    }
    let bar = row(&["AAPL", "2026-06-12", "hfq", "1", "2", "0.5", "1.5", "-3", "4"]).unwrap();
    assert_eq!(bar.ohlc.low.unwrap().to_string(), "0.5000");
    assert_eq!(bar.volume.unwrap().to_string(), "-3.0000");
    assert_eq!(bar.ohlc.price_adjust, PriceAdjust::Hfq);
}

#[test]
fn calendar_rows_report_the_invalid_field() {
    match parse_calendar_record(&fields(&["2026-06-12", "yes"]), 3) {
        Err(Error::Fetch(FetchError::InvalidField { row: 3, field, value })) => {
            assert_eq!(field, "is_open");
            assert_eq!(value, "yes");
        }
        other => panic!("unexpected {other:?}"),
    }
    match parse_calendar_record(&fields(&["2026-06-12"]), 3) {
        Err(Error::Fetch(FetchError::MissingField { field, .. })) => assert_eq!(field, "is_open"),
        other => panic!("unexpected {other:?}"),
    }
    assert!(parse_calendar_record(&fields(&["2026-06-12", "False"]), 3).unwrap().is_open == false);
}

#[test]
fn fetched_batches_are_stored_until_the_source_ends() {
    assert!(matches!(on_fetched::<u8>(5, None), Ok(PersistAction::Done(5))));
    assert!(matches!(
        on_fetched::<u8>(5, Some(vec![])),
        Err(Error::Fetch(FetchError::EmptyBatch))
    ));
    match on_fetched(0, Some(vec![1u8, 2])) {
        Ok(PersistAction::Store(batch)) => assert_eq!(batch, vec![1, 2]),
        other => panic!("unexpected {other:?}"),
    }
}

#[test]
fn csv_fetcher_reads_raw_prices_without_adjust_column() {
    let csv = "symbol,date,open,high,low,close,volume,amount
AAPL,2026-06-12,10,11,9.5,10.5,1000,10500
";
    let mut fetcher = CsvBarFetcher::from_reader(input(csv), 4).unwrap();
    let bars = fetcher.fetch().unwrap().unwrap();
    assert_eq!(bars.len(), 1);
    assert_eq!(bars[0].ohlc.price_adjust, PriceAdjust::Raw);
    assert_eq!(bars[0].ohlc.open.unwrap().to_string(), "10.0000");
    assert_eq!(bars[0].amount.unwrap().to_string(), "10500.0000");
    assert!(fetcher.fetch().unwrap().is_none());
}

#[test]
fn imports_gather_rows_into_batches_and_skip_invalid_ones() {
    let mut pending: Vec<u32> = Vec::new();
    assert!(matches!(
        import_step(&mut pending, Ok(Some(vec![1])), 2),
        Ok(ImportStep::Continue)
    ));
    let skipped = Err(Error::Fetch(FetchError::MissingField {
        row: 3,
        field: "date".to_string(),
    }));
    assert!(matches!(
        import_step(&mut pending, skipped, 2),
        Ok(ImportStep::Continue)
    ));
    match import_step(&mut pending, Ok(Some(vec![2])), 2) {
        Ok(ImportStep::Store(batch)) => assert_eq!(batch, vec![1, 2]),
        other => panic!("unexpected {other:?}"),
    }
    assert!(pending.is_empty());
    assert!(matches!(
        import_step(&mut pending, Ok(Some(vec![3])), 2),
        Ok(ImportStep::Continue)
    ));
    match import_step(&mut pending, Ok(None), 2) {
        Ok(ImportStep::Last(batch)) => assert_eq!(batch, vec![3]),
        other => panic!("unexpected {other:?}"),
    }
    assert!(matches!(import_step(&mut pending, Ok(None), 2), Ok(ImportStep::Done)));
    let unreadable = Err(Error::Fetch(FetchError::Csv {
        message: "bad quote".to_string(),
    }));
    assert!(matches!(
        import_step(&mut pending, unreadable, 2),
        Err(Error::Fetch(FetchError::Csv { .. }))
    ));
}

#[test]
fn csv_fetcher_batches_are_bounded_and_end_for_good() {
    let mut fetcher = CsvBarFetcher::from_reader(input(CSV), 2).unwrap();
    let mut total = 0;
    while let Some(batch) = fetcher.fetch().unwrap() {
        assert!(!batch.is_empty() && batch.len() <= 2);
        total += batch.len();
    }
    assert_eq!(total, 3);
    assert!(fetcher.fetch().unwrap().is_none());
    assert!(fetcher.fetch().unwrap().is_none());
}
