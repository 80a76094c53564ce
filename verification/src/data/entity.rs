use vstd::prelude::*;

use crate::data::date::{date_parse, date_text};
use crate::data::handler::{request_answered, DataHandler, DataSource, RestMethod, RestRequest};
use crate::data::Date;
use crate::engine::symbols::{lookup, SymbolMap};
use crate::error::{Error, ValidationError};
use crate::text::texts;

verus! {

/// Something stored in a table of its own.
pub trait Entity {
    /// The name of the table.
    fn table(&self) -> &'static str;

    /// The statement that creates the table when it does not exist.
    fn schema(&self) -> &'static str;
}

/// The stock exchanges of mainland China.
#[derive(Debug, Clone, Copy, PartialEq, Eq, Structural)]
pub enum ExchangeCN {
    SZ,
    SH,
    BJ,
}

/// The name of an exchange.
pub open spec fn exchange_text(e: ExchangeCN) -> Seq<char> {
    match e {
        ExchangeCN::SZ => "exchange_cn_sz"@,
        ExchangeCN::SH => "exchange_cn_sh"@,
        ExchangeCN::BJ => "exchange_cn_bj"@,
    }
}

impl ExchangeCN {
    /// The name of the exchange.
    pub fn to_string(&self) -> (r: String)
        ensures
            r@ == exchange_text(*self),
    {
        match self {
            ExchangeCN::SZ => "exchange_cn_sz".to_owned(),
            ExchangeCN::SH => "exchange_cn_sh".to_owned(),
            ExchangeCN::BJ => "exchange_cn_bj".to_owned(),
        }
    }
}

impl Entity for ExchangeCN {
    fn table(&self) -> (r: &'static str)
        ensures
            r@ == "exchange_cn"@,
    {
        "exchange_cn"
    }

    fn schema(&self) -> (r: &'static str)
        ensures
            r@ == "
        CREATE TABLE IF NOT EXISTS exchange_cn (
            id          TEXT NOT NULL,
            date        TEXT NOT NULL,
            PRIMARY KEY (id, date)
        );
        "@,
    {
        "
        CREATE TABLE IF NOT EXISTS exchange_cn (
            id          TEXT NOT NULL,
            date        TEXT NOT NULL,
            PRIMARY KEY (id, date)
        );
        "
    }
}


/// The lower-case hexadecimal digit of a number from 0 to 15.
pub open spec fn hex_digit(n: int) -> char {
    if n < 10 {
        (48 + n) as char
    } else {
        (87 + n) as char
    }
}

/// `16^n`.
pub open spec fn pow16(n: nat) -> int
    decreases n,
{
    if n == 0 {
        1
    } else {
        16 * pow16((n - 1) as nat)
    }
}

/// The hyphenated text of the UUID whose 128-bit value is `id`: its 32
/// lower-case hexadecimal digits, most significant first, in groups of 8, 4,
/// 4, 4 and 12 joined by hyphens.
pub open spec fn uuid_text(id: u128) -> Seq<char> {
    Seq::new(
        36,
        |i: int|
            if i == 8 || i == 13 || i == 18 || i == 23 {
                '-'
            } else {
                let k = if i < 8 {
                    i
                } else if i < 13 {
                    i - 1
                } else if i < 18 {
                    i - 2
                } else if i < 23 {
                    i - 3
                } else {
                    i - 4
                };
                hex_digit((id as int / pow16((31 - k) as nat)) % 16)
            },
    )
}

/// What `uuid::Uuid::new_v5` gives, as a 128-bit value, for the namespace
/// whose 128-bit value is `namespace` and the bytes of the text `name`.
pub uninterp spec fn uuid_v5(namespace: u128, name: Seq<char>) -> u128;

/// Calls `uuid::Uuid::from_u128` and writes the UUID with `to_string`, whose
/// text is the hyphenated lower-case form of the value.
#[verifier::external_body]
fn outside_uuid_text(id: u128) -> (r: String)
    ensures
        r@ == uuid_text(id),
{
    uuid::Uuid::from_u128(id).to_string()
}

/// Calls `uuid::Uuid::new_v5` on a namespace given as its 128-bit value and
/// the bytes of a text; the result, taken with `as_u128`, is named.
#[verifier::external_body]
fn outside_uuid_v5(namespace: u128, name: &str) -> (r: u128)
    ensures
        r == uuid_v5(namespace, name@),
{
    uuid::Uuid::new_v5(&uuid::Uuid::from_u128(namespace), name.as_bytes()).as_u128()
}

/// A stock listed on an exchange of mainland China.
#[derive(Debug, Clone)]
pub struct StockCN {
    /// The 128-bit value of the stock's UUID.
    pub id: u128,
    pub exchange: ExchangeCN,
    pub code: String,
    pub name: String,
    pub list_date: Date,
}

/// A date field of a package: none, a text that is read as a day, or the
/// text that cannot be read.
pub open spec fn date_field(v: Option<String>) -> Result<Option<(int, int, int)>, Seq<char>> {
    match v {
        None => Ok(None),
        Some(t) => match date_parse(t@) {
            Some(d) => Ok(Some(d)),
            None => Err(t@),
        },
    }
}

/// The text held for `key` in `entries`, if any.
pub open spec fn text_at(entries: Seq<(String, String)>, key: Seq<char>) -> Option<Seq<char>> {
    match lookup(entries, key) {
        Some(v) => Some(v@),
        None => None,
    }
}

/// The fields that an upsert of `stock` on `date` writes over a package
/// whose entries are `package`, when its list date (if any) reads as
/// `list_date` and its delist date as `delist_date`: the stock's id, the
/// date, code and exchange; the package's name, else the stock's; the list
/// date read from the package, else the stock's; and the delist date when the
/// package has one.
pub open spec fn stock_field(
    stock: StockCN,
    date: Date,
    package: Seq<(String, String)>,
    list_date: Option<(int, int, int)>,
    delist_date: Option<(int, int, int)>,
    key: Seq<char>,
) -> Option<Seq<char>> {
    if key == "id"@ {
        Some(uuid_text(stock.id))
    } else if key == "date"@ {
        Some(date_text(date@))
    } else if key == "code"@ {
        Some(stock.code@)
    } else if key == "name"@ {
        match text_at(package, "name"@) {
            Some(n) => Some(n),
            None => Some(stock.name@),
        }
    } else if key == "exchange"@ {
        Some(exchange_text(stock.exchange))
    } else if key == "list_date"@ {
        match list_date {
            Some(d) => Some(date_text(d)),
            None => Some(date_text(stock.list_date@)),
        }
    } else if key == "delist_date"@ {
        match delist_date {
            Some(d) => Some(date_text(d)),
            None => None,
        }
    } else {
        text_at(package, key)
    }
}

/// Whether `body` holds exactly the texts that an upsert of `stock` on
/// `date` writes over `package`.
pub open spec fn stock_body(
    body: Seq<(String, String)>,
    stock: StockCN,
    date: Date,
    package: Seq<(String, String)>,
    list_date: Option<(int, int, int)>,
    delist_date: Option<(int, int, int)>,
) -> bool {
    forall|key: Seq<char>|
        #[trigger] text_at(body, key) == stock_field(
            stock,
            date,
            package,
            list_date,
            delist_date,
            key,
        )
}

impl StockCN {
    /// A stock whose id is the version 5 UUID, in the namespace `namespace`,
    /// of the name of its exchange, a point and its code.
    pub fn new(namespace: u128, exchange: ExchangeCN, code: &str, name: &str, list_date: Date) -> (r: Self)
        ensures
            r.id == uuid_v5(namespace, exchange_text(exchange) + seq!['.'] + code@),
            r.exchange == exchange,
            r.code@ == code@,
            r.name@ == name@,
            r.list_date == list_date,
    {
        let mut key = exchange.to_string();
        proof {
            reveal_strlit(".");
        }
        key.append(".");
        key.append(code);
        assert(key@ =~= exchange_text(exchange) + seq!['.'] + code@);
        let id = outside_uuid_v5(namespace, key.as_str());
        StockCN { id, exchange, code: code.to_string(), name: name.to_string(), list_date }
    }

    /// Writes the stock as it stands on `date`, with the fields of `package`,
    /// through a PATCH request on its table.
    ///
    /// The package's name, list date and delist date are used where it has
    /// them; a list or delist date that cannot be read is refused, the list
    /// date first, before anything is asked of the store. Otherwise the body
    /// is the package with the stock's id, the date, code, name, exchange and
    /// list date, and the delist date if there is one, written over it, and
    /// the result is what the handler answers to that request.
    pub fn upsert<S: DataSource>(
        &self,
        handler: &DataHandler<'_, S>,
        date: Date,
        package: SymbolMap<String>,
    ) -> (r: Result<(), Error>)
        ensures
            match date_field(lookup(package.spec_entries(), "list_date"@)) {
                Err(t) => r matches Err(Error::Validation(ValidationError::Date { value }))
                    && value@ == t,
                Ok(list_date) => match date_field(lookup(package.spec_entries(), "delist_date"@)) {
                    Err(t) => r matches Err(Error::Validation(ValidationError::Date { value }))
                        && value@ == t,
                    Ok(delist_date) => exists|
                        request: RestRequest,
                        rows: Result<Vec<Vec<(String, String)>>, Error>,
                    |
                        #![trigger request_answered(*handler.spec_source(), request, rows)]
                        request.method == RestMethod::Patch && texts(request.path@) == seq![
                            "stock_cn"@,
                        ] && stock_body(
                            request.body.spec_entries(),
                            *self,
                            date,
                            package.spec_entries(),
                            list_date,
                            delist_date,
                        ) && request_answered(*handler.spec_source(), request, rows) && match rows {
                            Ok(_) => r is Ok,
                            Err(e) => r == Err::<(), Error>(e),
                        },
                },
            },
    {
        let name = match package.get("name") {
            Some(n) => n.clone(),
            None => self.name.clone(),
        };
        let list_date = match package.get("list_date") {
            Some(value) => match Date::from_str(value.as_str()) {
                Ok(d) => d,
                Err(e) => {
                    return Err(Error::Validation(e));
                },
            },
            None => self.list_date,
        };
        let delist_date = match package.get("delist_date") {
            Some(value) => match Date::from_str(value.as_str()) {
                Ok(d) => Some(d),
                Err(e) => {
                    return Err(Error::Validation(e));
                },
            },
            None => None,
        };
        let ghost given = package;
        let ghost list_read = date_field(lookup(given.spec_entries(), "list_date"@))->Ok_0;
        let ghost delist_read = date_field(lookup(given.spec_entries(), "delist_date"@))->Ok_0;
        proof {
            reveal_strlit("id");
            reveal_strlit("date");
            reveal_strlit("code");
            reveal_strlit("name");
            reveal_strlit("exchange");
            reveal_strlit("list_date");
            reveal_strlit("delist_date");
            reveal_strlit("stock_cn");
            assert("id"@.len() == 2 && "date"@.len() == 4 && "code"@.len() == 4);
            assert("name"@.len() == 4 && "exchange"@.len() == 8);
            assert("date"@[0] == 'd' && "code"@[0] == 'c' && "name"@[0] == 'n');
            assert("list_date"@.len() == 9 && "delist_date"@.len() == 11);
        }
        proof {
            assert(name@ == (match text_at(given.spec_entries(), "name"@) {
                Some(n) => n,
                None => self.name@,
            }));
            assert(list_date@ == (match list_read {
                Some(d) => d,
                None => self.list_date@,
            }));
            assert(match delist_date {
                Some(d) => delist_read == Some(d@),
                None => delist_read is None,
            });
        }
        let mut package = package;
        let id_text = outside_uuid_text(self.id);
        package.insert("id".to_string(), id_text);
        let ghost m1 = package;
        assert(text_at(m1.spec_entries(), "id"@) == Some(uuid_text(self.id)));
        let date_text_value = date.to_string();
        package.insert("date".to_string(), date_text_value);
        let ghost m2 = package;
        assert(text_at(m2.spec_entries(), "date"@) == Some(date_text(date@)));
        let code = self.code.clone();
        package.insert("code".to_string(), code);
        let ghost m3 = package;
        assert(text_at(m3.spec_entries(), "code"@) == Some(self.code@));
        let ghost name_view = name@;
        package.insert("name".to_string(), name);
        let ghost m4 = package;
        assert(text_at(m4.spec_entries(), "name"@) == Some(name_view));
        let exchange = self.exchange.to_string();
        package.insert("exchange".to_string(), exchange);
        let ghost m5 = package;
        assert(text_at(m5.spec_entries(), "exchange"@) == Some(exchange_text(self.exchange)));
        let list_text = list_date.to_string();
        package.insert("list_date".to_string(), list_text);
        let ghost m6 = package;
        assert(text_at(m6.spec_entries(), "list_date"@) == Some(date_text(list_date@)));
        match delist_date {
            Some(d) => {
                let delist_text = d.to_string();
                package.insert("delist_date".to_string(), delist_text);
                assert(text_at(package.spec_entries(), "delist_date"@) == Some(date_text(d@)));
            },
            None => {},
        }
        proof {
            assert forall|key: Seq<char>|
                #[trigger] text_at(package.spec_entries(), key) == stock_field(
                    *self,
                    date,
                    given.spec_entries(),
                    list_read,
                    delist_read,
                    key,
                ) by {
                if key != "delist_date"@ {
                    assert(package.spec_get(key) == m6.spec_get(key));
                }
                if key != "list_date"@ && key != "delist_date"@ {
                    assert(m6.spec_get(key) == m5.spec_get(key));
                }
                if key != "exchange"@ && key != "list_date"@ && key != "delist_date"@ {
                    assert(m5.spec_get(key) == m4.spec_get(key));
                }
                if key != "name"@ && key != "exchange"@ && key != "list_date"@ && key
                    != "delist_date"@ {
                    assert(m4.spec_get(key) == m3.spec_get(key));
                }
                if key != "code"@ && key != "name"@ && key != "exchange"@ && key != "list_date"@
                    && key != "delist_date"@ {
                    assert(m3.spec_get(key) == m2.spec_get(key));
                }
                if key != "date"@ && key != "code"@ && key != "name"@ && key != "exchange"@ && key
                    != "list_date"@ && key != "delist_date"@ {
                    assert(m2.spec_get(key) == m1.spec_get(key));
                }
                if key != "id"@ && key != "date"@ && key != "code"@ && key != "name"@ && key
                    != "exchange"@ && key != "list_date"@ && key != "delist_date"@ {
                    assert(m1.spec_get(key) == given.spec_get(key));
                }
            }
        }
        let mut path: Vec<String> = Vec::new();
        path.push(self.table().to_string());
        assert(texts(path@) =~= seq!["stock_cn"@]);
        let request = RestRequest::new(RestMethod::Patch, path, package);
        let ghost asked = request;
        let answer = handler.request(request);
        proof {
            assert(request_answered(*handler.spec_source(), asked, answer));
        }
        match answer {
            Ok(_) => Ok(()),
            Err(e) => Err(e),
        }
    }
}

impl Entity for StockCN {
    fn table(&self) -> (r: &'static str)
        ensures
            r@ == "stock_cn"@,
    {
        "stock_cn"
    }

    fn schema(&self) -> (r: &'static str)
        ensures
            r@ == "
        CREATE TABLE IF NOT EXISTS stock_cn (
            id          TEXT NOT NULL,
            date        TEXT NOT NULL,
            code        TEXT NOT NULL,
            name        TEXT NOT NULL,
            exchange    TEXT NOT NULL,
            list_date   TEXT NOT NULL,
            delist_date TEXT,
            PRIMARY KEY (id, date)
        );
        "@,
    {
        "
        CREATE TABLE IF NOT EXISTS stock_cn (
            id          TEXT NOT NULL,
            date        TEXT NOT NULL,
            code        TEXT NOT NULL,
            name        TEXT NOT NULL,
            exchange    TEXT NOT NULL,
            list_date   TEXT NOT NULL,
            delist_date TEXT,
            PRIMARY KEY (id, date)
        );
        "
    }
}

} // verus!
