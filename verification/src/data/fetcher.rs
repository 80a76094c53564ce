use vstd::prelude::*;

use crate::data::bar::{ohlc_violation, parse_price_adjust};
use crate::data::date::date_parse;
use crate::data::decimal::{decimal_parse, stored_units};
use crate::data::{CalendarEntry, Date, DateBar, Ohlc, Price, PriceAdjust, Quantity};
use crate::error::{Error, FetchError, ValidationError};
use crate::data::csv_source::{
    csv_header, csv_headers, csv_read_record, csv_reader, csv_rows, reader_header, reader_pending,
};
use crate::text::{ascii_case_eq, eq_ignore_ascii_case, is_blank_text, join, join_strings, str_eq, texts};

verus! {

/// The error of the library for an error of the CSV reader.
fn csv_failure(message: String) -> (r: Error)
    ensures
        r == Error::Fetch(FetchError::Csv { message }),
{
    Error::Fetch(FetchError::Csv { message })
}

/// Reads batches of items from a source.
pub trait Fetcher {
    type Item;

    /// Returns the next non-empty batch, or `None` when the source is exhausted.
    fn fetch(&mut self) -> (r: Result<Option<Vec<Self::Item>>, Error>)
        ensures
            r matches Ok(Some(batch)) ==> batch.len() > 0,
    ;
}

/// Field `index` of a row, or the error naming the missing field.
fn csv_field<'a>(fields: &'a Vec<String>, row: u64, index: usize, name: &str) -> (r: Result<
    &'a str,
    Error,
>)
    ensures
        index < fields@.len() ==> (r matches Ok(s) && s@ == fields@[index as int]@),
        index >= fields@.len() ==> (r matches Err(
            Error::Fetch(FetchError::MissingField { row: x, field }),
        ) && x == row && field@ == name@),
{
    if index < fields.len() {
        Ok(fields[index].as_str())
    } else {
        Err(Error::Fetch(FetchError::MissingField { row, field: name.to_owned() }))
    }
}

/// Whether a list of fields is the expected header row; when it is not, the
/// error shows both rows joined by commas.
pub fn check_headers(actual: &Vec<String>, expected: &Vec<String>) -> (r: Result<(), Error>)
    ensures
        texts(actual@) == texts(expected@) ==> r is Ok,
        texts(actual@) != texts(expected@) ==> (r matches Err(
            Error::Fetch(FetchError::InvalidHeaders { expected: e, actual: a }),
        ) && e@ == join(texts(expected@), ","@) && a@ == join(texts(actual@), ","@)),
{
    let n = actual.len();
    if n != expected.len() {
        assert(texts(actual@).len() != texts(expected@).len());
        return Err(header_mismatch(actual, expected));
    }
    let mut i: usize = 0;
    while i < n
        invariant
            n == actual@.len(),
            n == expected@.len(),
            i <= n,
            forall|k: int| 0 <= k < i ==> actual@[k]@ == expected@[k]@,
        decreases n - i,
    {
        if !str_eq(actual[i].as_str(), expected[i].as_str()) {
            assert(texts(actual@)[i as int] != texts(expected@)[i as int]);
            return Err(header_mismatch(actual, expected));
        }
        i = i + 1;
    }
    assert(texts(actual@) =~= texts(expected@));
    Ok(())
}

/// The error for a header row that is not the expected one.
fn header_mismatch(actual: &Vec<String>, expected: &Vec<String>) -> (r: Error)
    ensures
        r matches Error::Fetch(FetchError::InvalidHeaders { expected: e, actual: a }) && e@
            == join(texts(expected@), ","@) && a@ == join(texts(actual@), ","@),
{
    Error::Fetch(
        FetchError::InvalidHeaders {
            expected: join_strings(expected, ","),
            actual: join_strings(actual, ","),
        },
    )
}

/// A list of strings with the given texts.
fn strings(items: &[&str]) -> (r: Vec<String>)
    ensures
        r@.len() == items@.len(),
        forall|k: int| 0 <= k < items@.len() ==> (#[trigger] r@[k])@ == items@[k]@,
{
    let mut r: Vec<String> = Vec::new();
    let n = items.len();
    let mut i: usize = 0;
    while i < n
        invariant
            n == items@.len(),
            i <= n,
            r@.len() == i,
            forall|k: int| 0 <= k < i ==> (#[trigger] r@[k])@ == items@[k]@,
        decreases n - i,
    {
        r.push(items[i].to_owned());
        i = i + 1;
    }
    r
}


/// The number of ten-thousandths that a decimal field holds: `Some(None)`
/// when it is empty, `None` when it is not a valid price or quantity.
pub open spec fn units_field(s: Seq<char>) -> Option<Option<int>> {
    if s.len() == 0 {
        Some(None)
    } else {
        match decimal_parse(s) {
            None => None,
            Some(d) => match stored_units(d) {
                Ok(u) => Some(Some(u)),
                Err(_) => None,
            },
        }
    }
}

/// The price of a number of ten-thousandths, if there is one.
pub open spec fn price_of(u: Option<int>) -> Option<Price> {
    match u {
        Some(x) => Some(Price::spec_from_units(x)),
        None => None,
    }
}

/// The quantity of a number of ten-thousandths, if there is one.
pub open spec fn quantity_of(u: Option<int>) -> Option<Quantity> {
    match u {
        Some(x) => Some(Quantity::spec_from_units(x)),
        None => None,
    }
}

/// The header row of a CSV file of bars.
pub open spec fn bar_headers() -> Seq<Seq<char>> {
    seq![
        "symbol"@,
        "date"@,
        "price_adjust"@,
        "open"@,
        "high"@,
        "low"@,
        "close"@,
        "volume"@,
        "amount"@,
    ]
}

/// Whether field `i` of a bar row is present and holds a valid value: a date,
/// an adjustment basis, then decimals that may be empty.
pub open spec fn bar_field_ok(f: Seq<Seq<char>>, i: int) -> bool {
    &&& i < f.len()
    &&& (i == 1 ==> date_parse(f[i]) is Some)
    &&& (i == 2 ==> parse_price_adjust(f[i]) is Some)
    &&& (i >= 3 ==> units_field(f[i]) is Some)
}

/// The first field of a bar row that is missing or not valid; nine when all are.
pub open spec fn bar_fault(f: Seq<Seq<char>>) -> int {
    if !bar_field_ok(f, 0) {
        0
    } else if !bar_field_ok(f, 1) {
        1
    } else if !bar_field_ok(f, 2) {
        2
    } else if !bar_field_ok(f, 3) {
        3
    } else if !bar_field_ok(f, 4) {
        4
    } else if !bar_field_ok(f, 5) {
        5
    } else if !bar_field_ok(f, 6) {
        6
    } else if !bar_field_ok(f, 7) {
        7
    } else if !bar_field_ok(f, 8) {
        8
    } else {
        9
    }
}

/// Whether `e` is the validation error of an invalid field `i` of a bar row
/// holding `s`.
pub open spec fn bar_field_error(i: int, s: Seq<char>, e: ValidationError) -> bool {
    if i == 1 {
        e matches ValidationError::Date { value } && value@ == s
    } else if i == 2 {
        e matches ValidationError::PriceAdjust { value } && value@ == s
    } else if i == 7 {
        e is Quantity
    } else {
        e is Price
    }
}

/// The prices of a bar row whose fields are valid.
pub open spec fn row_ohlc(f: Seq<Seq<char>>) -> Ohlc {
    Ohlc {
        open: price_of(units_field(f[3])->0),
        high: price_of(units_field(f[4])->0),
        low: price_of(units_field(f[5])->0),
        close: price_of(units_field(f[6])->0),
        price_adjust: parse_price_adjust(f[2])->0,
    }
}

/// Whether a bar row is valid: all fields are, the prices are consistent and
/// the symbol is not blank.
pub open spec fn bar_row_ok(f: Seq<Seq<char>>) -> bool {
    let o = row_ohlc(f);
    &&& bar_fault(f) == 9
    &&& ohlc_violation(o.open, o.high, o.low, o.close) is None
    &&& !is_blank_text(f[0])
}

/// Whether `b` is the bar that a valid row holds.
pub open spec fn bar_of_row(f: Seq<Seq<char>>, b: DateBar) -> bool {
    &&& bar_row_ok(f)
    &&& b.symbol@ == f[0]
    &&& date_parse(f[1]) == Some(b.date@)
    &&& b.ohlc == row_ohlc(f)
    &&& b.volume == quantity_of(units_field(f[7])->0)
    &&& b.amount == price_of(units_field(f[8])->0)
}

/// A bar read from a row holds the row's fields: the symbol of field 0, the
/// date of field 1, the adjustment basis of field 2, the open, high, low and
/// close of fields 3 to 6, the volume of field 7 and the amount of field 8.
pub proof fn lemma_bar_holds_its_fields(f: Seq<Seq<char>>, row: u64, b: DateBar)
    requires
        bar_parse(f, row, Ok(b)),
    ensures
        b.symbol@ == f[0],
        date_parse(f[1]) == Some(b.date@),
        b.ohlc.price_adjust == parse_price_adjust(f[2])->0,
        b.ohlc.open == price_of(units_field(f[3])->0),
        b.ohlc.high == price_of(units_field(f[4])->0),
        b.ohlc.low == price_of(units_field(f[5])->0),
        b.ohlc.close == price_of(units_field(f[6])->0),
        b.volume == quantity_of(units_field(f[7])->0),
        b.amount == price_of(units_field(f[8])->0),
{
}

/// A row whose fields are all present and valid, whose symbol is not blank
/// and whose open, high, low and close (fields 3 to 6) are consistent is read
/// as a bar.
pub proof fn lemma_consistent_row_is_read(f: Seq<Seq<char>>, row: u64, r: Result<DateBar, Error>)
    requires
        bar_parse(f, row, r),
        forall|i: int| 0 <= i < 9 ==> #[trigger] bar_field_ok(f, i),
        !is_blank_text(f[0]),
        ohlc_violation(
            price_of(units_field(f[3])->0),
            price_of(units_field(f[4])->0),
            price_of(units_field(f[5])->0),
            price_of(units_field(f[6])->0),
        ) is None,
    ensures
        r is Ok,
{
    assert(bar_field_ok(f, 0) && bar_field_ok(f, 1) && bar_field_ok(f, 2) && bar_field_ok(f, 3));
    assert(bar_field_ok(f, 4) && bar_field_ok(f, 5) && bar_field_ok(f, 6) && bar_field_ok(f, 7));
    assert(bar_field_ok(f, 8));
}

/// A price field of a row: none when it is empty.
fn price_field(fields: &Vec<String>, row: u64, index: usize, name: &str) -> (r: Result<
    Option<Price>,
    Error,
>)
    ensures
        index >= fields@.len() ==> (r matches Err(
            Error::Fetch(FetchError::MissingField { row: x, field }),
        ) && x == row && field@ == name@),
        index < fields@.len() ==> match units_field(fields@[index as int]@) {
            Some(u) => r == Ok::<Option<Price>, Error>(price_of(u)),
            None => r matches Err(Error::Fetch(FetchError::InvalidRecord { row: x, source }))
                && x == row && source is Price,
        },
{
    let value = match csv_field(fields, row, index, name) {
        Ok(v) => v,
        Err(e) => {
            return Err(e);
        },
    };
    if value.unicode_len() == 0 {
        return Ok(None);
    }
    match Price::from_str(value) {
        Ok(p) => {
            proof {
                Price::lemma_from_view(p);
            }
            Ok(Some(p))
        },
        Err(source) => Err(Error::Fetch(FetchError::InvalidRecord { row, source })),
    }
}

/// A quantity field of a row: none when it is empty.
fn quantity_field(fields: &Vec<String>, row: u64, index: usize, name: &str) -> (r: Result<
    Option<Quantity>,
    Error,
>)
    ensures
        index >= fields@.len() ==> (r matches Err(
            Error::Fetch(FetchError::MissingField { row: x, field }),
        ) && x == row && field@ == name@),
        index < fields@.len() ==> match units_field(fields@[index as int]@) {
            Some(u) => r == Ok::<Option<Quantity>, Error>(quantity_of(u)),
            None => r matches Err(Error::Fetch(FetchError::InvalidRecord { row: x, source }))
                && x == row && source is Quantity,
        },
{
    let value = match csv_field(fields, row, index, name) {
        Ok(v) => v,
        Err(e) => {
            return Err(e);
        },
    };
    if value.unicode_len() == 0 {
        return Ok(None);
    }
    match Quantity::from_str(value) {
        Ok(q) => {
            proof {
                Quantity::lemma_from_view(q);
            }
            Ok(Some(q))
        },
        Err(source) => Err(Error::Fetch(FetchError::InvalidRecord { row, source })),
    }
}


/// Whether `r` is what parsing a bar row with fields `f`, numbered `row`,
/// gives: the first field that is missing or not valid gives the error; then
/// inconsistent prices, then a blank symbol; else the bar of the row.
pub open spec fn bar_parse(f: Seq<Seq<char>>, row: u64, r: Result<DateBar, Error>) -> bool {
    let bad = bar_fault(f);
    let o = row_ohlc(f);
    if bad < 9 && bad >= f.len() {
        r matches Err(Error::Fetch(FetchError::MissingField { row: x, field })) && x == row
            && field@ == bar_headers()[bad]
    } else if bad < 9 {
        r matches Err(Error::Fetch(FetchError::InvalidRecord { row: x, source })) && x
            == row && bar_field_error(bad, f[bad], source)
    } else if ohlc_violation(o.open, o.high, o.low, o.close) is Some {
        r matches Err(
            Error::Fetch(
                FetchError::InvalidRecord { row: x, source: ValidationError::Ohlc { reason } },
            ),
        ) && x == row && reason@ == ohlc_violation(o.open, o.high, o.low, o.close)->0
    } else if is_blank_text(f[0]) {
        r matches Err(
            Error::Fetch(
                FetchError::InvalidRecord { row: x, source: ValidationError::EmptySymbol },
            ),
        ) && x == row
    } else {
        r matches Ok(b) && bar_of_row(f, b)
    }
}

/// Parses row `row` of a CSV file of bars: symbol, date, adjustment basis,
/// open, high, low, close, volume and amount, where an empty decimal field is
/// none. The first field that is missing or not valid gives the error; then
/// inconsistent prices, then a blank symbol.
pub fn parse_bar_record(fields: &Vec<String>, row: u64) -> (r: Result<DateBar, Error>)
    ensures
        bar_parse(texts(fields@), row, r),
{
    let ghost f = texts(fields@);
    let symbol = match csv_field(fields, row, 0, "symbol") {
        Ok(v) => v,
        Err(e) => {
            return Err(e);
        },
    };
    let date = match csv_field(fields, row, 1, "date") {
        Ok(v) => match Date::from_str(v) {
            Ok(d) => d,
            Err(source) => {
                return Err(Error::Fetch(FetchError::InvalidRecord { row, source }));
            },
        },
        Err(e) => {
            return Err(e);
        },
    };
    let price_adjust = match csv_field(fields, row, 2, "price_adjust") {
        Ok(v) => match PriceAdjust::from_str(v) {
            Ok(a) => a,
            Err(source) => {
                return Err(Error::Fetch(FetchError::InvalidRecord { row, source }));
            },
        },
        Err(e) => {
            return Err(e);
        },
    };
    let open = match price_field(fields, row, 3, "open") {
        Ok(p) => p,
        Err(e) => {
            return Err(e);
        },
    };
    let high = match price_field(fields, row, 4, "high") {
        Ok(p) => p,
        Err(e) => {
            return Err(e);
        },
    };
    let low = match price_field(fields, row, 5, "low") {
        Ok(p) => p,
        Err(e) => {
            return Err(e);
        },
    };
    let close = match price_field(fields, row, 6, "close") {
        Ok(p) => p,
        Err(e) => {
            return Err(e);
        },
    };
    let volume = match quantity_field(fields, row, 7, "volume") {
        Ok(q) => q,
        Err(e) => {
            return Err(e);
        },
    };
    let amount = match price_field(fields, row, 8, "amount") {
        Ok(p) => p,
        Err(e) => {
            return Err(e);
        },
    };
    assert(bar_fault(f) == 9);
    let ohlc = match Ohlc::new(price_adjust, open, high, low, close) {
        Ok(o) => o,
        Err(source) => {
            return Err(Error::Fetch(FetchError::InvalidRecord { row, source }));
        },
    };
    match DateBar::new(symbol, date, ohlc, volume, amount) {
        Ok(b) => Ok(b),
        Err(source) => Err(Error::Fetch(FetchError::InvalidRecord { row, source })),
    }
}


/// The header row of a CSV file of calendar entries.
pub open spec fn calendar_headers() -> Seq<Seq<char>> {
    seq!["date"@, "is_open"@]
}

/// Whether the market is open, as a field says: `1`, `0`, or `true` and
/// `false` in any case.
pub open spec fn open_flag(s: Seq<char>) -> Option<bool> {
    if s == "1"@ {
        Some(true)
    } else if s == "0"@ {
        Some(false)
    } else if ascii_case_eq(s, "true"@) {
        Some(true)
    } else if ascii_case_eq(s, "false"@) {
        Some(false)
    } else {
        None
    }
}

/// Whether `c` is the calendar entry that a valid row holds.
pub open spec fn calendar_of_row(f: Seq<Seq<char>>, c: CalendarEntry) -> bool {
    &&& f.len() >= 2
    &&& date_parse(f[0]) == Some(c.date@)
    &&& open_flag(f[1]) == Some(c.is_open)
}

/// A calendar entry read from a row holds the date of field 0, and is open
/// exactly when field 1 is `1` or `true` in any case of its letters.
pub proof fn lemma_calendar_entry_fields(f: Seq<Seq<char>>, row: u64, c: CalendarEntry)
    requires
        calendar_parse(f, row, Ok(c)),
    ensures
        date_parse(f[0]) == Some(c.date@),
        c.is_open == (f[1] == "1"@ || ascii_case_eq(f[1], "true"@)),
{
    reveal_strlit("1");
    reveal_strlit("0");
    reveal_strlit("true");
    reveal_strlit("false");
    assert("1"@.len() == 1 && "0"@.len() == 1 && "true"@.len() == 4 && "false"@.len() == 5);
    assert("1"@[0] == '1' && "0"@[0] == '0');
}

/// Whether a calendar row holds a valid date and flag.
pub open spec fn calendar_row_ok(f: Seq<Seq<char>>) -> bool {
    &&& f.len() >= 2
    &&& date_parse(f[0]) is Some
    &&& open_flag(f[1]) is Some
}

/// Whether `r` is what parsing a calendar row with fields `f`, numbered
/// `row`, gives.
pub open spec fn calendar_parse(f: Seq<Seq<char>>, row: u64, r: Result<CalendarEntry, Error>) -> bool {
    if f.len() < 1 {
        r matches Err(Error::Fetch(FetchError::MissingField { row: x, field })) && x == row
            && field@ == "date"@
    } else if date_parse(f[0]) is None {
        r matches Err(
            Error::Fetch(
                FetchError::InvalidRecord { row: x, source: ValidationError::Date { value } },
            ),
        ) && x == row && value@ == f[0]
    } else if f.len() < 2 {
        r matches Err(Error::Fetch(FetchError::MissingField { row: x, field })) && x == row
            && field@ == "is_open"@
    } else if open_flag(f[1]) is None {
        r matches Err(Error::Fetch(FetchError::InvalidField { row: x, field, value }))
            && x == row && field@ == "is_open"@ && value@ == f[1]
    } else {
        r matches Ok(c) && calendar_of_row(f, c)
    }
}

/// Parses row `row` of a CSV file of calendar entries: a date and whether the
/// market is open that day.
pub fn parse_calendar_record(fields: &Vec<String>, row: u64) -> (r: Result<CalendarEntry, Error>)
    ensures
        calendar_parse(texts(fields@), row, r),
{
    let date = match csv_field(fields, row, 0, "date") {
        Ok(v) => match Date::from_str(v) {
            Ok(d) => d,
            Err(source) => {
                return Err(Error::Fetch(FetchError::InvalidRecord { row, source }));
            },
        },
        Err(e) => {
            return Err(e);
        },
    };
    let value = match csv_field(fields, row, 1, "is_open") {
        Ok(v) => v,
        Err(e) => {
            return Err(e);
        },
    };
    let is_open = if str_eq(value, "1") {
        true
    } else if str_eq(value, "0") {
        false
    } else if eq_ignore_ascii_case(value, "true") {
        true
    } else if eq_ignore_ascii_case(value, "false") {
        false
    } else {
        return Err(
            Error::Fetch(
                FetchError::InvalidField {
                    row,
                    field: "is_open".to_owned(),
                    value: value.to_owned(),
                },
            ),
        );
    };
    Ok(CalendarEntry { date, is_open })
}


/// A row that the CSV reader hands out: its fields and the line it starts
/// on, or the text of the error reading it.
pub open spec fn row_fields(row: Result<(Seq<Seq<char>>, u64), Seq<char>>) -> Seq<Seq<char>> {
    row->Ok_0.0
}

/// The header row of a CSV file of bars without the adjustment column, whose
/// prices are then raw.
pub open spec fn bar_headers_unadjusted() -> Seq<Seq<char>> {
    seq!["symbol"@, "date"@, "open"@, "high"@, "low"@, "close"@, "volume"@, "amount"@]
}

/// The fields of a bar row as parsed: in a file without the adjustment
/// column, `raw` stands in its place.
pub open spec fn bar_layout(f: Seq<Seq<char>>, adjust_column: bool) -> Seq<Seq<char>> {
    if adjust_column || f.len() < 2 {
        f
    } else {
        f.take(2) + seq!["raw"@] + f.skip(2)
    }
}

/// Whether a row read holds a valid bar.
pub open spec fn bar_row_good(row: Result<(Seq<Seq<char>>, u64), Seq<char>>, adjust_column: bool) -> bool {
    row is Ok && bar_row_ok(bar_layout(row_fields(row), adjust_column))
}

/// The position of the first of the rows from `i` up to `m` that does not
/// hold a valid bar; `m` when all do.
pub open spec fn first_bad_bar(
    rows: Seq<Result<(Seq<Seq<char>>, u64), Seq<char>>>,
    adjust_column: bool,
    i: int,
    m: int,
) -> int
    decreases m - i,
{
    if i >= m {
        m
    } else if !bar_row_good(rows[i], adjust_column) {
        i
    } else {
        first_bad_bar(rows, adjust_column, i + 1, m)
    }
}

/// Whether a row read holds a valid calendar entry.
pub open spec fn calendar_row_good(row: Result<(Seq<Seq<char>>, u64), Seq<char>>) -> bool {
    row is Ok && calendar_row_ok(row_fields(row))
}

/// The position of the first of the rows from `i` up to `m` that does not
/// hold a valid calendar entry; `m` when all do.
pub open spec fn first_bad_calendar(
    rows: Seq<Result<(Seq<Seq<char>>, u64), Seq<char>>>,
    i: int,
    m: int,
) -> int
    decreases m - i,
{
    if i >= m {
        m
    } else if !calendar_row_good(rows[i]) {
        i
    } else {
        first_bad_calendar(rows, i + 1, m)
    }
}

/// Whether the bars `batch` are those of the first rows of `rows`, in order,
/// each of those rows holding a valid bar.
pub open spec fn bars_read(
    rows: Seq<Result<(Seq<Seq<char>>, u64), Seq<char>>>,
    adjust_column: bool,
    batch: Seq<DateBar>,
) -> bool {
    &&& batch.len() <= rows.len()
    &&& forall|k: int| 0 <= k < batch.len() ==> #[trigger] bar_row_good(rows[k], adjust_column)
    &&& forall|k: int|
        0 <= k < batch.len() ==> bar_of_row(
            bar_layout(row_fields(rows[k]), adjust_column),
            #[trigger] batch[k],
        )
}

/// Whether the entries `batch` are those of the first rows of `rows`, in
/// order, each of those rows holding a valid calendar entry.
pub open spec fn entries_read(
    rows: Seq<Result<(Seq<Seq<char>>, u64), Seq<char>>>,
    batch: Seq<CalendarEntry>,
) -> bool {
    &&& batch.len() <= rows.len()
    &&& forall|k: int| 0 <= k < batch.len() ==> #[trigger] calendar_row_good(rows[k])
    &&& forall|k: int| 0 <= k < batch.len() ==> calendar_of_row(row_fields(rows[k]), #[trigger] batch[k])
}

/// The number of rows in the next batch: a full batch, or what is left.
pub open spec fn batch_len(pending_len: nat, batch_size: usize) -> int {
    if (batch_size as int) < pending_len {
        batch_size as int
    } else {
        pending_len as int
    }
}

/// Whether `r` is what fetching a batch of bars from the pending rows `p`
/// gives, with `rest` the rows left and `finished` whether the end of the
/// input was read: the first row among the next `batch_len` that cannot be
/// read or parsed gives its error; else the bars of those rows, or nothing
/// when no row is left.
pub open spec fn bar_fetch(
    p: Seq<Result<(Seq<Seq<char>>, u64), Seq<char>>>,
    batch_size: usize,
    adjust_column: bool,
    r: Result<Option<Vec<DateBar>>, Error>,
    rest: Seq<Result<(Seq<Seq<char>>, u64), Seq<char>>>,
    finished: bool,
) -> bool {
    let m = batch_len(p.len(), batch_size);
    let b = first_bad_bar(p, adjust_column, 0, m);
    if b < m {
        match p[b] {
            Err(t) => r matches Err(Error::Fetch(FetchError::Csv { message })) && message@ == t,
            Ok(row) => r matches Err(e) && bar_parse(
                bar_layout(row.0, adjust_column),
                row.1,
                Err::<DateBar, Error>(e),
            ) && rest == p.skip(b + 1),
        }
    } else if m == 0 {
        r matches Ok(None) && rest == p && finished == (batch_size > 0)
    } else {
        &&& r matches Ok(Some(batch)) && batch.len() == m && forall|k: int|
            0 <= k < m ==> bar_of_row(bar_layout(row_fields(p[k]), adjust_column), #[trigger] batch@[k])
        &&& rest == p.skip(m)
        &&& finished == (m < batch_size)
    }
}

/// Whether `r` is what fetching a batch of calendar entries from the pending
/// rows `p` gives, with `rest` the rows left and `finished` whether the end of
/// the input was read.
pub open spec fn calendar_fetch(
    p: Seq<Result<(Seq<Seq<char>>, u64), Seq<char>>>,
    batch_size: usize,
    r: Result<Option<Vec<CalendarEntry>>, Error>,
    rest: Seq<Result<(Seq<Seq<char>>, u64), Seq<char>>>,
    finished: bool,
) -> bool {
    let m = batch_len(p.len(), batch_size);
    let b = first_bad_calendar(p, 0, m);
    if b < m {
        match p[b] {
            Err(t) => r matches Err(Error::Fetch(FetchError::Csv { message })) && message@ == t,
            Ok(row) => r matches Err(e) && calendar_parse(row.0, row.1, Err::<CalendarEntry, Error>(e))
                && rest == p.skip(b + 1),
        }
    } else if m == 0 {
        r matches Ok(None) && rest == p && finished == (batch_size > 0)
    } else {
        &&& r matches Ok(Some(batch)) && batch.len() == m && forall|k: int|
            0 <= k < m ==> calendar_of_row(row_fields(p[k]), #[trigger] batch@[k])
        &&& rest == p.skip(m)
        &&& finished == (m < batch_size)
    }
}

/// The fields of a bar row as parsed: in a file without the adjustment
/// column, `raw` is put in its place.
fn bar_fields(fields: Vec<String>, adjust_column: bool) -> (r: Vec<String>)
    ensures
        texts(r@) == bar_layout(texts(fields@), adjust_column),
{
    if adjust_column || fields.len() < 2 {
        fields
    } else {
        let mut f = fields;
        let ghost before = f@;
        f.insert(2, "raw".to_owned());
        assert(texts(f@) =~= texts(before).take(2) + seq!["raw"@] + texts(before).skip(2));
        f
    }
}

/// Reads batches of bars from CSV bytes whose header row is
/// `symbol,date,price_adjust,open,high,low,close,volume,amount`, or the same
/// without `price_adjust`, whose prices are then raw. Empty decimal fields are
/// none.
pub struct CsvBarFetcher {
    reader: csv::Reader<std::io::Cursor<Vec<u8>>>,
    batch_size: usize,
    adjust_column: bool,
    finished: bool,
}

impl CsvBarFetcher {
    /// The number of rows in a full batch.
    pub closed spec fn spec_batch_size(&self) -> usize {
        self.batch_size
    }

    /// Whether the file has the adjustment column.
    pub closed spec fn spec_adjust_column(&self) -> bool {
        self.adjust_column
    }

    /// Whether the end of the input has been read.
    pub closed spec fn spec_finished(&self) -> bool {
        self.finished
    }

    /// The data rows yet to be read, in order.
    pub closed spec fn spec_pending(&self) -> Seq<Result<(Seq<Seq<char>>, u64), Seq<char>>> {
        reader_pending(self.reader)
    }

    /// Creates a fetcher of batches of `batch_size` rows from CSV bytes, whose
    /// fields are trimmed of whitespace; fails when the header row cannot be
    /// read or is neither of the two bar headers.
    pub fn from_reader(input: Vec<u8>, batch_size: usize) -> (r: Result<Self, Error>)
        requires
            batch_size > 0,
        ensures
            match csv_header(input@) {
                Err(m) => r matches Err(Error::Fetch(FetchError::Csv { message })) && message@ == m,
                Ok(h) => if h == bar_headers() || h == bar_headers_unadjusted() {
                    r matches Ok(f) && f.spec_batch_size() == batch_size && !f.spec_finished()
                        && f.spec_adjust_column() == (h == bar_headers()) && f.spec_pending()
                        == csv_rows(input@)
                } else {
                    r matches Err(Error::Fetch(FetchError::InvalidHeaders { expected, actual }))
                        && expected@ == join(bar_headers(), ","@) && actual@ == join(h, ","@)
                },
            },
    {
        Self::from_csv_reader(csv_reader(input), batch_size)
    }

    fn from_csv_reader(
        reader: csv::Reader<std::io::Cursor<Vec<u8>>>,
        batch_size: usize,
    ) -> (r: Result<Self, Error>)
        requires
            batch_size > 0,
        ensures
            match reader_header(reader) {
                Err(m) => r matches Err(Error::Fetch(FetchError::Csv { message })) && message@ == m,
                Ok(h) => if h == bar_headers() || h == bar_headers_unadjusted() {
                    r matches Ok(f) && f.spec_batch_size() == batch_size && !f.spec_finished()
                        && f.spec_adjust_column() == (h == bar_headers()) && f.spec_pending()
                        == reader_pending(reader)
                } else {
                    r matches Err(Error::Fetch(FetchError::InvalidHeaders { expected, actual }))
                        && expected@ == join(bar_headers(), ","@) && actual@ == join(h, ","@)
                },
            },
    {
        let mut reader = reader;
        let full = strings(
            &["symbol", "date", "price_adjust", "open", "high", "low", "close", "volume", "amount"],
        );
        let unadjusted = strings(&["symbol", "date", "open", "high", "low", "close", "volume", "amount"]);
        assert(texts(full@) =~= bar_headers());
        assert(texts(unadjusted@) =~= bar_headers_unadjusted());
        let headers = match csv_headers(&mut reader) {
            Ok(h) => h,
            Err(message) => {
                return Err(csv_failure(message));
            },
        };
        let adjust_column = match check_headers(&headers, &full) {
            Ok(()) => true,
            Err(_) => match check_headers(&headers, &unadjusted) {
                Ok(()) => false,
                Err(_) => {
                    return Err(header_mismatch(&headers, &full));
                },
            },
        };
        Ok(CsvBarFetcher { reader, batch_size, adjust_column, finished: false })
    }
}

impl Fetcher for CsvBarFetcher {
    type Item = DateBar;

    /// Reads up to a full batch of rows and parses them, in order; the end
    /// of the input ends a batch early, and once it has been read every
    /// fetch returns `None`. A row that does not parse, or a read that fails,
    /// gives its error.
    fn fetch(&mut self) -> (r: Result<Option<Vec<DateBar>>, Error>)
        ensures
            final(self).spec_batch_size() == old(self).spec_batch_size(),
            final(self).spec_adjust_column() == old(self).spec_adjust_column(),
            old(self).spec_finished() ==> (r matches Ok(None) && *final(self) == *old(self)),
            r matches Ok(Some(batch)) ==> 0 < batch@.len() <= old(self).spec_batch_size(),
            r matches Ok(None) && old(self).spec_batch_size() > 0 ==> final(self).spec_finished(),
            !old(self).spec_finished() ==> bar_fetch(
                old(self).spec_pending(),
                old(self).spec_batch_size(),
                old(self).spec_adjust_column(),
                r,
                final(self).spec_pending(),
                final(self).spec_finished(),
            ),
    {
        if self.finished {
            return Ok(None);
        }
        let ghost p = reader_pending(self.reader);
        let ghost m = batch_len(p.len(), self.batch_size);
        let ghost adjust = self.adjust_column;
        let mut batch: Vec<DateBar> = Vec::new();
        let mut at_end = false;
        while !at_end && batch.len() < self.batch_size
            invariant
                self.batch_size == old(self).spec_batch_size(),
                self.adjust_column == adjust,
                adjust == old(self).spec_adjust_column(),
                p == old(self).spec_pending(),
                !old(self).spec_finished(),
                m == batch_len(p.len(), self.batch_size),
                self.finished == at_end,
                batch.len() <= self.batch_size,
                batch.len() <= p.len(),
                !at_end ==> reader_pending(self.reader) == p.skip(batch.len() as int),
                at_end ==> batch.len() == p.len() && batch.len() < self.batch_size
                    && reader_pending(self.reader).len() == 0,
                bars_read(p, adjust, batch@),
                first_bad_bar(p, adjust, 0, m) == first_bad_bar(p, adjust, batch.len() as int, m),
            decreases self.batch_size - batch.len(), if at_end { 0int } else { 1int },
        {
            let ghost i = batch.len() as int;
            let next = match csv_read_record(&mut self.reader) {
                Ok(n) => n,
                Err(message) => {
                    proof {
                        assert(p.skip(i)[0] == p[i]);
                        assert(first_bad_bar(p, adjust, i, m) == i);
                    }
                    return Err(csv_failure(message));
                },
            };
            match next {
                None => {
                    self.finished = true;
                    at_end = true;
                },
                Some((fields, line)) => {
                    proof {
                        assert(p.skip(i)[0] == p[i]);
                        assert(p.skip(i).drop_first() =~= p.skip(i + 1));
                    }
                    let row = match line {
                        Some(l) => l,
                        None => 0,
                    };
                    let ghost read = texts(fields@);
                    let fields = bar_fields(fields, self.adjust_column);
                    match parse_bar_record(&fields, row) {
                        Ok(item) => {
                            proof {
                                assert(read == row_fields(p[i]));
                                assert(bar_of_row(bar_layout(row_fields(p[i]), adjust), item));
                                assert(bar_row_good(p[i], adjust));
                                assert(i < m);
                                assert(first_bad_bar(p, adjust, i, m) == first_bad_bar(
                                    p,
                                    adjust,
                                    i + 1,
                                    m,
                                ));
                            }
                            let ghost old_batch = batch@;
                            batch.push(item);
                            proof {
                                assert forall|k: int| 0 <= k < batch@.len() implies bar_row_good(
                                    p[k],
                                    adjust,
                                ) && bar_of_row(
                                    bar_layout(row_fields(p[k]), adjust),
                                    #[trigger] batch@[k],
                                ) by {
                                    if k < i {
                                        assert(batch@[k] == old_batch[k]);
                                    }
                                }
                                assert(bars_read(p, adjust, batch@));
                            }
                        },
                        Err(e) => {
                            proof {
                                assert(first_bad_bar(p, adjust, i, m) == i);
                            }
                            return Err(e);
                        },
                    }
                },
            }
        }
        proof {
            assert(p.skip(0) =~= p);
            if at_end {
                assert(p.skip(p.len() as int) =~= reader_pending(self.reader));
            }
        }
        if batch.len() == 0 {
            Ok(None)
        } else {
            Ok(Some(batch))
        }
    }
}

/// Reads batches of calendar entries from CSV bytes whose header row is
/// `date,is_open`.
pub struct CsvCalendarFetcher {
    reader: csv::Reader<std::io::Cursor<Vec<u8>>>,
    batch_size: usize,
    finished: bool,
}

impl CsvCalendarFetcher {
    /// The number of rows in a full batch.
    pub closed spec fn spec_batch_size(&self) -> usize {
        self.batch_size
    }

    /// Whether the end of the input has been read.
    pub closed spec fn spec_finished(&self) -> bool {
        self.finished
    }

    /// The data rows yet to be read, in order.
    pub closed spec fn spec_pending(&self) -> Seq<Result<(Seq<Seq<char>>, u64), Seq<char>>> {
        reader_pending(self.reader)
    }

    /// Creates a fetcher of batches of `batch_size` rows from CSV bytes, whose
    /// fields are trimmed of whitespace; fails when the header row cannot be
    /// read or is not `date,is_open`.
    pub fn from_reader(input: Vec<u8>, batch_size: usize) -> (r: Result<Self, Error>)
        requires
            batch_size > 0,
        ensures
            match csv_header(input@) {
                Err(m) => r matches Err(Error::Fetch(FetchError::Csv { message })) && message@ == m,
                Ok(h) => if h == calendar_headers() {
                    r matches Ok(f) && f.spec_batch_size() == batch_size && !f.spec_finished()
                        && f.spec_pending() == csv_rows(input@)
                } else {
                    r matches Err(Error::Fetch(FetchError::InvalidHeaders { expected, actual }))
                        && expected@ == join(calendar_headers(), ","@) && actual@ == join(h, ","@)
                },
            },
    {
        Self::from_csv_reader(csv_reader(input), batch_size)
    }

    fn from_csv_reader(
        reader: csv::Reader<std::io::Cursor<Vec<u8>>>,
        batch_size: usize,
    ) -> (r: Result<Self, Error>)
        requires
            batch_size > 0,
        ensures
            match reader_header(reader) {
                Err(m) => r matches Err(Error::Fetch(FetchError::Csv { message })) && message@ == m,
                Ok(h) => if h == calendar_headers() {
                    r matches Ok(f) && f.spec_batch_size() == batch_size && !f.spec_finished()
                        && f.spec_pending() == reader_pending(reader)
                } else {
                    r matches Err(Error::Fetch(FetchError::InvalidHeaders { expected, actual }))
                        && expected@ == join(calendar_headers(), ","@) && actual@ == join(h, ","@)
                },
            },
    {
        let mut reader = reader;
        let expected = strings(&["date", "is_open"]);
        assert(texts(expected@) =~= calendar_headers());
        let headers = match csv_headers(&mut reader) {
            Ok(h) => h,
            Err(message) => {
                return Err(csv_failure(message));
            },
        };
        match check_headers(&headers, &expected) {
            Ok(()) => {},
            Err(e) => {
                return Err(e);
            },
        }
        Ok(CsvCalendarFetcher { reader, batch_size, finished: false })
    }
}

impl Fetcher for CsvCalendarFetcher {
    type Item = CalendarEntry;

    /// Reads up to a full batch of rows and parses them, in order; the end
    /// of the input ends a batch early, and once it has been read every
    /// fetch returns `None`. A row that does not parse, or a read that fails,
    /// gives its error.
    fn fetch(&mut self) -> (r: Result<Option<Vec<CalendarEntry>>, Error>)
        ensures
            final(self).spec_batch_size() == old(self).spec_batch_size(),
            old(self).spec_finished() ==> (r matches Ok(None) && *final(self) == *old(self)),
            r matches Ok(Some(batch)) ==> 0 < batch@.len() <= old(self).spec_batch_size(),
            r matches Ok(None) && old(self).spec_batch_size() > 0 ==> final(self).spec_finished(),
            !old(self).spec_finished() ==> calendar_fetch(
                old(self).spec_pending(),
                old(self).spec_batch_size(),
                r,
                final(self).spec_pending(),
                final(self).spec_finished(),
            ),
    {
        if self.finished {
            return Ok(None);
        }
        let ghost p = reader_pending(self.reader);
        let ghost m = batch_len(p.len(), self.batch_size);
        let mut batch: Vec<CalendarEntry> = Vec::new();
        let mut at_end = false;
        while !at_end && batch.len() < self.batch_size
            invariant
                self.batch_size == old(self).spec_batch_size(),
                p == old(self).spec_pending(),
                !old(self).spec_finished(),
                m == batch_len(p.len(), self.batch_size),
                self.finished == at_end,
                batch.len() <= self.batch_size,
                batch.len() <= p.len(),
                !at_end ==> reader_pending(self.reader) == p.skip(batch.len() as int),
                at_end ==> batch.len() == p.len() && batch.len() < self.batch_size
                    && reader_pending(self.reader).len() == 0,
                entries_read(p, batch@),
                first_bad_calendar(p, 0, m) == first_bad_calendar(p, batch.len() as int, m),
            decreases self.batch_size - batch.len(), if at_end { 0int } else { 1int },
        {
            let ghost i = batch.len() as int;
            let next = match csv_read_record(&mut self.reader) {
                Ok(n) => n,
                Err(message) => {
                    proof {
                        assert(p.skip(i)[0] == p[i]);
                        assert(first_bad_calendar(p, i, m) == i);
                    }
                    return Err(csv_failure(message));
                },
            };
            match next {
                None => {
                    self.finished = true;
                    at_end = true;
                },
                Some((fields, line)) => {
                    proof {
                        assert(p.skip(i)[0] == p[i]);
                        assert(p.skip(i).drop_first() =~= p.skip(i + 1));
                    }
                    let row = match line {
                        Some(l) => l,
                        None => 0,
                    };
                    match parse_calendar_record(&fields, row) {
                        Ok(item) => {
                            proof {
                                assert(texts(fields@) == row_fields(p[i]));
                                assert(calendar_row_good(p[i]));
                                assert(i < m);
                                assert(first_bad_calendar(p, i, m) == first_bad_calendar(
                                    p,
                                    i + 1,
                                    m,
                                ));
                            }
                            let ghost old_batch = batch@;
                            batch.push(item);
                            proof {
                                assert forall|k: int| 0 <= k < batch@.len() implies calendar_row_good(
                                    p[k],
                                ) && calendar_of_row(row_fields(p[k]), #[trigger] batch@[k]) by {
                                    if k < i {
                                        assert(batch@[k] == old_batch[k]);
                                    }
                                }
                                assert(entries_read(p, batch@));
                            }
                        },
                        Err(e) => {
                            proof {
                                assert(first_bad_calendar(p, i, m) == i);
                            }
                            return Err(e);
                        },
                    }
                },
            }
        }
        proof {
            assert(p.skip(0) =~= p);
            if at_end {
                assert(p.skip(p.len() as int) =~= reader_pending(self.reader));
            }
        }
        if batch.len() == 0 {
            Ok(None)
        } else {
            Ok(Some(batch))
        }
    }
}

/// Whether an error is that of a row that does not hold a valid record.
pub open spec fn row_error(e: Error) -> bool {
    e matches Error::Fetch(f) && (f is InvalidRecord || f is MissingField || f is InvalidField)
}

/// Whether an import skips a row that failed with this error and goes on: a
/// row that does not hold a valid record is skipped; a failure to read the
/// input, or a header that does not fit, stops the import.
pub fn skippable(e: &Error) -> (r: bool)
    ensures
        r == row_error(*e),
{
    match e {
        Error::Fetch(FetchError::InvalidRecord { .. }) => true,
        Error::Fetch(FetchError::MissingField { .. }) => true,
        Error::Fetch(FetchError::InvalidField { .. }) => true,
        _ => false,
    }
}

/// What an import does next with the rows it holds.
#[derive(Debug)]
pub enum ImportStep<T> {
    /// Store this batch, then fetch again.
    Store(Vec<T>),
    /// Store this last batch; the source is exhausted.
    Last(Vec<T>),
    /// Fetch again.
    Continue,
    /// The source is exhausted and nothing is left to store.
    Done,
}

/// Decides what an import does with the result of a fetch, holding the rows
/// `pending` not yet stored: fetched rows join them, and once there are
/// `batch_size` or more they are stored together; at the end of the source
/// what is held is stored last; a row that does not hold a valid record is
/// skipped; any other error stops the import.
pub fn import_step<T>(
    pending: &mut Vec<T>,
    fetched: Result<Option<Vec<T>>, Error>,
    batch_size: usize,
) -> (r: Result<ImportStep<T>, Error>)
    ensures
        match fetched {
            Ok(Some(rows)) => if old(pending)@.len() + rows@.len() >= batch_size {
                r matches Ok(ImportStep::Store(b)) && b@ == old(pending)@ + rows@
                    && final(pending)@.len() == 0
            } else {
                r matches Ok(ImportStep::Continue) && final(pending)@ == old(pending)@ + rows@
            },
            Ok(None) => if old(pending)@.len() == 0 {
                r matches Ok(ImportStep::Done) && final(pending)@.len() == 0
            } else {
                r matches Ok(ImportStep::Last(b)) && b@ == old(pending)@ && final(pending)@.len() == 0
            },
            Err(e) => if row_error(e) {
                r matches Ok(ImportStep::Continue) && final(pending)@ == old(pending)@
            } else {
                r == Err::<ImportStep<T>, Error>(e) && final(pending)@ == old(pending)@
            },
        },
{
    match fetched {
        Ok(Some(rows)) => {
            let mut rows = rows;
            pending.append(&mut rows);
            if pending.len() >= batch_size {
                let mut batch: Vec<T> = Vec::new();
                core::mem::swap(&mut batch, pending);
                Ok(ImportStep::Store(batch))
            } else {
                Ok(ImportStep::Continue)
            }
        },
        Ok(None) => {
            if pending.len() == 0 {
                Ok(ImportStep::Done)
            } else {
                let mut batch: Vec<T> = Vec::new();
                core::mem::swap(&mut batch, pending);
                Ok(ImportStep::Last(batch))
            }
        },
        Err(e) => {
            if skippable(&e) {
                Ok(ImportStep::Continue)
            } else {
                Err(e)
            }
        },
    }
}

/// What storing fetched batches does next.
#[derive(Debug)]
pub enum PersistAction<T> {
    /// Store this batch, then fetch again.
    Store(Vec<T>),
    /// The source is exhausted; the batches stored affected this many rows.
    Done(usize),
}

/// Decides what to do with the result of a fetch, when the batches stored so
/// far affected `affected` rows: an exhausted source ends with that total, an
/// empty batch is an error, and a batch is stored.
pub fn on_fetched<T>(affected: usize, fetched: Option<Vec<T>>) -> (r: Result<PersistAction<T>, Error>)
    ensures
        match fetched {
            None => r == Ok::<PersistAction<T>, Error>(PersistAction::Done(affected)),
            Some(batch) => if batch.len() == 0 {
                r == Err::<PersistAction<T>, Error>(Error::Fetch(FetchError::EmptyBatch))
            } else {
                r == Ok::<PersistAction<T>, Error>(PersistAction::Store(batch))
            },
        },
{
    match fetched {
        None => Ok(PersistAction::Done(affected)),
        Some(batch) => if batch.len() == 0 {
            Err(Error::Fetch(FetchError::EmptyBatch))
        } else {
            Ok(PersistAction::Store(batch))
        },
    }
}

} // verus!
