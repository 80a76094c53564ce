use vstd::prelude::*;

use crate::text::{decimal_digits, digits_value, is_ascii_digit, usize_text};

verus! {

/// The commands of the tool.
#[derive(Debug, Clone)]
pub enum Cli {
    /// Works on a database.
    Db { action: DbAction },
}

/// What to do with a database.
#[derive(Debug, Clone)]
pub enum DbAction {
    /// Creates the database at a path.
    Init { db: String },
    /// Imports CSV files into a table of the database.
    Import {
        db: String,
        table: ImportTable,
        files: Vec<String>,
        mode: ImportMode,
        batch_size: usize,
    },
}

/// The tables that a CSV file can be imported into.
#[derive(Debug, Clone, Copy, PartialEq, Eq, Structural)]
pub enum ImportTable {
    Bar,
    Calendar,
}

/// How imported rows meet rows already stored.
#[derive(Debug, Clone, Copy, PartialEq, Eq, Structural)]
pub enum ImportMode {
    /// A row whose key is already stored is an error.
    Insert,
    /// A row whose key is already stored replaces its values.
    Upsert,
}

/// The name of a table.
pub open spec fn import_table_text(t: ImportTable) -> Seq<char> {
    match t {
        ImportTable::Bar => "bar"@,
        ImportTable::Calendar => "calendar"@,
    }
}

/// The name of a mode.
pub open spec fn import_mode_text(m: ImportMode) -> Seq<char> {
    match m {
        ImportMode::Insert => "insert"@,
        ImportMode::Upsert => "upsert"@,
    }
}

impl ImportTable {
    /// The name of the table.
    pub fn to_string(&self) -> (r: String)
        ensures
            r@ == import_table_text(*self),
    {
        match self {
            ImportTable::Bar => "bar".to_owned(),
            ImportTable::Calendar => "calendar".to_owned(),
        }
    }
}

impl ImportMode {
    /// The name of the mode.
    pub fn to_string(&self) -> (r: String)
        ensures
            r@ == import_mode_text(*self),
    {
        match self {
            ImportMode::Insert => "insert".to_owned(),
            ImportMode::Upsert => "upsert".to_owned(),
        }
    }
}

/// The work that a database command asks for.
#[derive(Debug, Clone)]
pub enum DbTask {
    /// Create the database at `db`.
    Init { db: String },
    /// Read bars from the CSV files `files`, one after the other, and store
    /// them in `db` in batches.
    ImportBars { db: String, files: Vec<String>, mode: ImportMode, batch_size: usize },
    /// Read calendar entries from the CSV files `files`, one after the other,
    /// and store them in `db` in batches.
    ImportCalendar { db: String, files: Vec<String>, mode: ImportMode, batch_size: usize },
}

/// A copy of a list of texts.
fn copy_texts(items: &Vec<String>) -> (r: Vec<String>)
    ensures
        r@ == items@,
{
    let n = items.len();
    let mut r: Vec<String> = Vec::new();
    let mut i: usize = 0;
    while i < n
        invariant
            n == items@.len(),
            i <= n,
            r@ == items@.take(i as int),
        decreases n - i,
    {
        r.push(items[i].clone());
        assert(r@ =~= items@.take(i + 1));
        i = i + 1;
    }
    assert(items@.take(n as int) =~= items@);
    r
}

impl DbAction {
    /// The work that the command asks for: creating the database, or reading
    /// the CSV files with the reader of the chosen table and storing their
    /// rows in the chosen mode.
    pub fn act(&self) -> (r: DbTask)
        ensures
            match *self {
                DbAction::Init { db } => r matches DbTask::Init { db: d } && d@ == db@,
                DbAction::Import { db, table, files, mode, batch_size } => match table {
                    ImportTable::Bar => r matches DbTask::ImportBars {
                        db: d,
                        files: f,
                        mode: m,
                        batch_size: b,
                    } && d@ == db@ && f@ == files@ && m == mode && b == batch_size,
                    ImportTable::Calendar => r matches DbTask::ImportCalendar {
                        db: d,
                        files: f,
                        mode: m,
                        batch_size: b,
                    } && d@ == db@ && f@ == files@ && m == mode && b == batch_size,
                },
            },
    {
        match self {
            DbAction::Init { db } => DbTask::Init { db: db.clone() },
            DbAction::Import { db, table, files, mode, batch_size } => match table {
                ImportTable::Bar => DbTask::ImportBars {
                    db: db.clone(),
                    files: copy_texts(files),
                    mode: *mode,
                    batch_size: *batch_size,
                },
                ImportTable::Calendar => DbTask::ImportCalendar {
                    db: db.clone(),
                    files: copy_texts(files),
                    mode: *mode,
                    batch_size: *batch_size,
                },
            },
        }
    }
}

/// What an import reports: the number of rows it stored, the table, and the
/// number of CSV files it read.
pub open spec fn import_report_text(affected: nat, table: ImportTable, files: nat) -> Seq<char> {
    "Inserted "@ + decimal_digits(affected) + " rows into "@ + import_table_text(table)
        + " from "@ + decimal_digits(files) + " CSV file(s)"@
}

/// The report of an import.
pub fn import_report(affected: usize, table: ImportTable, files: usize) -> (r: String)
    ensures
        r@ == import_report_text(affected as nat, table, files as nat),
{
    let mut r = "Inserted ".to_owned();
    r.append(usize_text(affected).as_str());
    r.append(" rows into ");
    r.append(table.to_string().as_str());
    r.append(" from ");
    r.append(usize_text(files).as_str());
    r.append(" CSV file(s)");
    r
}

/// The report of creating the database at `db`.
pub fn init_report(db: &str) -> (r: String)
    ensures
        r@ == "Initialized database at "@ + db@,
{
    let mut r = "Initialized database at ".to_owned();
    r.append(db);
    r
}

/// The digits of an unsigned number's text: a leading `+` is allowed.
pub open spec fn unsigned_digits(s: Seq<char>) -> Seq<char> {
    if s.len() > 0 && s[0] == '+' {
        s.drop_first()
    } else {
        s
    }
}

/// The `usize` that a text holds: an optional `+`, then at least one decimal
/// digit, and nothing else, for a value that fits.
pub open spec fn usize_of_text(s: Seq<char>) -> Option<int> {
    let d = unsigned_digits(s);
    if d.len() > 0 && (forall|k: int| 0 <= k < d.len() ==> is_ascii_digit(#[trigger] d[k]))
        && digits_value(d) <= usize::MAX {
        Some(digits_value(d))
    } else {
        None
    }
}

/// A longer text of digits has a value at least as large.
proof fn lemma_digits_value_grows(d: Seq<char>, i: int, j: int)
    requires
        0 <= i <= j <= d.len(),
        forall|k: int| 0 <= k < d.len() ==> is_ascii_digit(#[trigger] d[k]),
    ensures
        0 <= digits_value(d.take(i)) <= digits_value(d.take(j)),
    decreases j - i,
{
    if i < j {
        lemma_digits_value_grows(d, i, j - 1);
        assert(d.take(j).drop_last() =~= d.take(j - 1));
        assert(d.take(j).last() == d[j - 1]);
        assert(is_ascii_digit(d[j - 1]));
        let x = digits_value(d.take(j - 1));
        assert(x * 10 >= x) by (nonlinear_arith)
            requires
                x >= 0,
        ;
    } else {
        lemma_digits_value_nonnegative(d, i);
    }
}

/// A text of digits has a value that is not negative.
proof fn lemma_digits_value_nonnegative(d: Seq<char>, i: int)
    requires
        0 <= i <= d.len(),
        forall|k: int| 0 <= k < d.len() ==> is_ascii_digit(#[trigger] d[k]),
    ensures
        0 <= digits_value(d.take(i)),
    decreases i,
{
    if i > 0 {
        lemma_digits_value_nonnegative(d, i - 1);
        assert(d.take(i).drop_last() =~= d.take(i - 1));
        assert(d.take(i).last() == d[i - 1]);
        assert(is_ascii_digit(d[i - 1]));
        let x = digits_value(d.take(i - 1));
        assert(x * 10 >= 0) by (nonlinear_arith)
            requires
                x >= 0,
        ;
    }
}

/// Parses the size of the batches of an import: a `usize` text, not zero.
pub fn parse_batch_size(value: &str) -> (r: Result<usize, String>)
    ensures
        match usize_of_text(value@) {
            None => r matches Err(e) && e@ == "invalid batch size `"@ + value@ + "`"@,
            Some(n) => if n == 0 {
                r matches Err(e) && e@ == "batch size must be greater than zero"@
            } else {
                r == Ok::<usize, String>(#[verifier::truncate] (n as usize))
            },
        },
{
    let n = value.unicode_len();
    let mut start: usize = 0;
    if n > 0 && value.get_char(0) == '+' {
        start = 1;
    }
    let ghost d = unsigned_digits(value@);
    assert(d =~= value@.skip(start as int));
    if start == n {
        return Err(invalid_batch_size(value));
    }
    let mut total: usize = 0;
    let mut i: usize = start;
    while i < n
        invariant
            n == value@.len(),
            start <= i <= n,
            start < n,
            d == value@.skip(start as int),
            d == unsigned_digits(value@),
            forall|k: int| start <= k < i ==> is_ascii_digit(#[trigger] value@[k]),
            total == digits_value(d.take(i - start)),
        decreases n - i,
    {
        let c = value.get_char(i);
        if !('0' <= c && c <= '9') {
            proof {
                assert(d[i - start] == c);
                assert(!is_ascii_digit(d[i - start]));
            }
            return Err(invalid_batch_size(value));
        }
        proof {
            assert(d.take(i - start + 1).drop_last() =~= d.take(i - start));
            assert(d.take(i - start + 1).last() == c);
        }
        let digit = (c as u32 - 48) as usize;
        let next = match total.checked_mul(10) {
            Some(t) => t.checked_add(digit),
            None => None,
        };
        match next {
            Some(t) => {
                total = t;
            },
            None => {
                proof {
                    assert(total * 10 + digit > usize::MAX) by (nonlinear_arith)
                        requires
                            next is None,
                            next == (if total * 10 <= usize::MAX {
                                if total * 10 + digit <= usize::MAX {
                                    Some((total * 10 + digit) as usize)
                                } else {
                                    None::<usize>
                                }
                            } else {
                                None::<usize>
                            }),
                            digit >= 0,
                    ;
                    if forall|k: int| 0 <= k < d.len() ==> is_ascii_digit(#[trigger] d[k]) {
                        lemma_digits_value_grows(d, i - start + 1, d.len() as int);
                        assert(d.take(d.len() as int) =~= d);
                    }
                }
                return Err(invalid_batch_size(value));
            },
        }
        i = i + 1;
    }
    proof {
        assert(d.take(n - start) =~= d);
    }
    if total == 0 {
        return Err("batch size must be greater than zero".to_owned());
    }
    Ok(total)
}

/// The error for a batch size that is not a number.
fn invalid_batch_size(value: &str) -> (r: String)
    ensures
        r@ == "invalid batch size `"@ + value@ + "`"@,
{
    let mut r = "invalid batch size `".to_owned();
    r.append(value);
    r.append("`");
    r
}

} // verus!
