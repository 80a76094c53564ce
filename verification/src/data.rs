pub mod bar;
pub mod csv_source;
pub mod date;
pub mod decimal;
pub mod entity;
pub mod fetcher;
pub mod handler;
pub mod market;

pub use bar::{validate_ohlc, CalendarEntry, DateBar, Ohlc, PriceAdjust};
pub use date::Date;
pub use decimal::{Decimal, Price, Quantity};
pub use entity::{Entity, ExchangeCN, StockCN};
pub use fetcher::{
    on_fetched, parse_bar_record, parse_calendar_record, CsvBarFetcher, CsvCalendarFetcher, Fetcher,
    PersistAction,
};
pub use handler::{DataHandler, DataSource, RestMethod, RestRequest};
pub use market::MarketData;
