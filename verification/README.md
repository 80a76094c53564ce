# goose

A small quantitative trading toolkit, verified with Verus.

- `src/data` — prices and quantities stored as ten-thousandths, ISO dates,
  daily bars and trading calendars, CSV readers that parse them in batches,
  and a REST-like handler that turns requests into parameterised SQL.
  The stores behind the handler and the backtest are traits whose answers
  are described by the store itself; the library's contracts say which
  question each answer came from. Stocks of mainland exchanges write
  themselves through the handler.
- `src/engine` — an event-driven backtest: an account, brokers, strategies,
  loggers and the engine that reads the trading days and their
  cross-sections from a data source and replays each day as preview, open,
  order, fill and close. Strategies and brokers describe their own answers,
  and the engine's contract says that each logged order and fill is such an
  answer to the event before it.
- `src/backtest` — a broker driven by a clock, which fills every order on
  the day it is placed with slippage and commission.
- `src/cli.rs` — the commands of the tool and their arguments.
- `app/` — the command-line program: argument parsing, the SQLite database,
  reading the CSV files to import (skipping rows that hold no valid record)
  and the output.
- `tests/` — tests of the library.
