use vstd::prelude::*;

use crate::engine::symbols::{keys_distinct, SymbolMap};
use crate::error::Error;
use crate::text::{
    contains_str, is_identifier, join, join_strings, str_eq, text_lt, texts, usize_text,
    decimal_digits, lemma_text_lt_asymmetric, lemma_text_lt_total, lemma_text_lt_transitive,
    str_lt,
};

verus! {

/// A store that answers parameterised SQL.
///
/// What a store may answer to each question is its own description; a store
/// that describes nothing may answer anything.
pub trait DataSource {
    /// Whether `answer` is an answer of the store for the names of its tables.
    open spec fn spec_tables_answer(&self, answer: Result<Vec<String>, Error>) -> bool {
        true
    }

    /// Whether `answer` is an answer of the store to the query `sql` with the
    /// placeholder values `values`.
    open spec fn spec_query_answer(
        &self,
        sql: Seq<char>,
        values: Seq<Seq<char>>,
        answer: Result<Vec<Vec<(String, String)>>, Error>,
    ) -> bool {
        true
    }

    /// Whether `answer` is an answer of the store to the statement `sql` with
    /// the placeholder values `values`.
    open spec fn spec_execute_answer(
        &self,
        sql: Seq<char>,
        values: Seq<Seq<char>>,
        answer: Result<usize, Error>,
    ) -> bool {
        true
    }

    /// The names of the tables of the store.
    fn tables(&self) -> (r: Result<Vec<String>, Error>)
        ensures
            self.spec_tables_answer(r),
    ;

    /// Runs a query and returns its rows, each as column names and values.
    fn query_params(&self, sql: &str, values: &Vec<String>) -> (r: Result<
        Vec<Vec<(String, String)>>,
        Error,
    >)
        ensures
            self.spec_query_answer(sql@, texts(values@), r),
    ;

    /// Runs a statement and returns the number of rows it changed.
    fn execute_params(&self, sql: &str, values: &Vec<String>) -> (r: Result<usize, Error>)
        ensures
            self.spec_execute_answer(sql@, texts(values@), r),
    ;
}

/// The method of a REST-like request.
#[derive(Debug, Clone, Copy, PartialEq, Eq, Structural)]
pub enum RestMethod {
    Post,
    Put,
    Patch,
    Get,
    Delete,
}

/// A REST-like request on the tables of a store.
#[derive(Debug, Clone)]
pub struct RestRequest {
    /// What to do.
    pub method: RestMethod,
    /// Path segments, already split by the caller:
    /// `table/filter_key/filter_value/.../select_target`.
    pub path: Vec<String>,
    /// Column names and values to write, each column once.
    pub body: SymbolMap<String>,
}

impl RestRequest {
    /// A request with a method, the segments of its path and a body.
    pub fn new(method: RestMethod, path: Vec<String>, body: SymbolMap<String>) -> (r: Self)
        ensures
            r.method == method,
            r.path == path,
            r.body == body,
    {
        RestRequest { method, path, body }
    }
}

/// Whether `e` is a database error with the message `msg`.
pub open spec fn is_db_error(e: Error, msg: Seq<char>) -> bool {
    e matches Error::Database(m) && m@ == msg
}

/// Why `s` may not be interpolated into SQL as an identifier, if it may not.
pub open spec fn identifier_check(s: Seq<char>) -> Option<Seq<char>> {
    if is_identifier(s) {
        None
    } else if s.len() == 0 {
        Some("empty SQL identifier"@)
    } else {
        Some("invalid SQL identifier: "@ + s)
    }
}

/// Why `s` may not be the target of a SELECT, if it may not: the target is
/// either `*` or an identifier.
pub open spec fn select_target_check(s: Seq<char>) -> Option<Seq<char>> {
    if s == "*"@ {
        None
    } else {
        identifier_check(s)
    }
}

/// The characters of a list of pairs of strings.
pub open spec fn text_pairs(v: Seq<(String, String)>) -> Seq<(Seq<char>, Seq<char>)> {
    v.map_values(|p: (String, String)| (p.0@, p.1@))
}

/// Path filters taken as key/value pairs; every key must be an identifier.
pub open spec fn parse_pairs(m: Seq<Seq<char>>) -> Result<Seq<(Seq<char>, Seq<char>)>, Seq<char>>
    decreases m.len(),
{
    if m.len() == 0 {
        Ok(Seq::empty())
    } else if m.len() == 1 {
        Err("400 BadRequest: invalid path."@)
    } else {
        match identifier_check(m[0]) {
            Some(e) => Err(e),
            None => match parse_pairs(m.subrange(2, m.len() as int)) {
                Ok(rest) => Ok(seq![(m[0], m[1])] + rest),
                Err(e) => Err(e),
            },
        }
    }
}

/// A request path parsed against the tables of the store: the first segment
/// names an existing table, the last is the select target, and the segments
/// between are key/value filters.
pub open spec fn parse_path(path: Seq<Seq<char>>, tables: Seq<Seq<char>>) -> Result<
    (Seq<char>, Seq<char>, Seq<(Seq<char>, Seq<char>)>),
    Seq<char>,
> {
    if path.len() == 0 {
        Err("400 BadRequest: missing request path."@)
    } else if identifier_check(path[0]) is Some {
        Err(identifier_check(path[0])->0)
    } else if !tables.contains(path[0]) {
        Err("404 Not Found: table "@ + path[0] + " does not exist."@)
    } else if path.len() == 1 {
        Ok((path[0], Seq::empty(), Seq::empty()))
    } else if select_target_check(path.last()) is Some {
        Err(select_target_check(path.last())->0)
    } else {
        match parse_pairs(path.subrange(1, path.len() - 1)) {
            Ok(ps) => Ok((path[0], path.last(), ps)),
            Err(e) => Err(e),
        }
    }
}

/// Checks that a text may be interpolated into SQL as an identifier.
pub fn validate_identifier(value: &str) -> (r: Result<(), Error>)
    ensures
        match identifier_check(value@) {
            None => r is Ok,
            Some(m) => r matches Err(e) && is_db_error(e, m),
        },
{
    let n = value.unicode_len();
    if n == 0 {
        return Err(Error::Database(String::from_str("empty SQL identifier")));
    }
    let first = value.get_char(0);
    let mut ok = ('a' <= first && first <= 'z') || ('A' <= first && first <= 'Z') || first == '_';
    let mut i: usize = 1;
    while ok && i < n
        invariant
            n == value@.len(),
            1 <= i <= n,
            ok == ((crate::text::is_ascii_letter(value@[0]) || value@[0] == '_') && forall|k: int|
                1 <= k < i ==> (crate::text::is_ascii_letter(#[trigger] value@[k])
                    || crate::text::is_ascii_digit(value@[k]) || value@[k] == '_')),
        decreases n - i,
    {
        let c = value.get_char(i);
        ok = ('a' <= c && c <= 'z') || ('A' <= c && c <= 'Z') || ('0' <= c && c <= '9') || c
            == '_';
        i = i + 1;
    }
    if ok {
        Ok(())
    } else {
        let mut message = String::from_str("invalid SQL identifier: ");
        message.append(value);
        Err(Error::Database(message))
    }
}

/// Checks that a text may be the target of a SELECT: `*` or an identifier.
pub fn validate_select_target(value: &str) -> (r: Result<(), Error>)
    ensures
        match select_target_check(value@) {
            None => r is Ok,
            Some(m) => r matches Err(e) && is_db_error(e, m),
        },
{
    if str_eq(value, "*") {
        Ok(())
    } else {
        validate_identifier(value)
    }
}

proof fn lemma_parse_pairs_step(m: Seq<Seq<char>>, i: int)
    requires
        0 <= i,
        i + 2 <= m.len(),
    ensures
        m.skip(i).subrange(2, m.skip(i).len() as int) =~= m.skip(i + 2),
        m.skip(i)[0] == m[i],
        m.skip(i)[1] == m[i + 1],
{
}

/// Parses a request path against the tables of the store.
pub fn parse_request_path(path: &Vec<String>, tables: &Vec<String>) -> (r: Result<
    (String, String, Vec<(String, String)>),
    Error,
>)
    ensures
        match parse_path(texts(path@), texts(tables@)) {
            Ok(p) => r matches Ok(q) && q.0@ == p.0 && q.1@ == p.1 && text_pairs(q.2@) == p.2,
            Err(m) => r matches Err(e) && is_db_error(e, m),
        },
        r matches Ok(q) ==> q.2@.len() < path@.len(),
{
    let ghost pv = texts(path@);
    let n = path.len();
    if n == 0 {
        return Err(Error::Database(String::from_str("400 BadRequest: missing request path.")));
    }
    let table = &path[0];
    assert(pv[0] == table@);
    match validate_identifier(table.as_str()) {
        Ok(()) => {},
        Err(e) => {
            return Err(e);
        },
    }
    if !contains_str(tables, table.as_str()) {
        let mut message = String::from_str("404 Not Found: table ");
        message.append(table.as_str());
        message.append(" does not exist.");
        return Err(Error::Database(message));
    }
    if n == 1 {
        return Ok((table.clone(), String::new(), Vec::new()));
    }
    let query = &path[n - 1];
    assert(pv.last() == query@);
    match validate_select_target(query.as_str()) {
        Ok(()) => {},
        Err(e) => {
            return Err(e);
        },
    }
    let ghost middle = pv.subrange(1, n - 1);
    let mut params: Vec<(String, String)> = Vec::new();
    let mut i: usize = 1;
    assert(middle.skip(0) =~= middle);
    while i + 1 < n
        invariant
            n == path@.len(),
            n >= 2,
            pv == texts(path@),
            middle == pv.subrange(1, n - 1),
            parse_path(pv, texts(tables@)) == (match parse_pairs(middle) {
                Ok(ps) => Ok((pv[0], pv.last(), ps)),
                Err(e) => Err(e),
            }),
            table@ == pv[0],
            query@ == pv.last(),
            1 <= i <= n - 1,
            (i - 1) % 2 == 0,
            params@.len() * 2 == i - 1,
            parse_pairs(middle) == (match parse_pairs(middle.skip(i - 1)) {
                Ok(rest) => Ok(text_pairs(params@) + rest),
                Err(e) => Err::<Seq<(Seq<char>, Seq<char>)>, Seq<char>>(e),
            }),
        decreases n - i,
    {
        let ghost j = (i - 1) as int;
        if i + 2 > n - 1 {
            proof {
                assert(middle.skip(j).len() == 1);
            }
            return Err(Error::Database(String::from_str("400 BadRequest: invalid path.")));
        }
        proof {
            lemma_parse_pairs_step(middle, j);
            assert(middle.skip(j)[0] == path@[i as int]@);
        }
        let key = &path[i];
        let value = &path[i + 1];
        proof {
            lemma_parse_pairs_step(middle, j);
            assert(middle.skip(j)[1] == value@);
        }
        match validate_identifier(key.as_str()) {
            Ok(()) => {},
            Err(e) => {
                return Err(e);
            },
        }
        let ghost old_params = params@;
        params.push((key.clone(), value.clone()));
        proof {
            assert(text_pairs(params@) =~= text_pairs(old_params) + seq![(key@, value@)]);
            match parse_pairs(middle.skip(j + 2)) {
                Ok(rest) => {
                    assert(text_pairs(params@) + rest =~= text_pairs(old_params) + (seq![
                        (key@, value@),
                    ] + rest));
                },
                Err(_) => {},
            }
        }
        i = i + 2;
    }
    proof {
        assert(middle.skip(i - 1).len() == 0);
        assert(text_pairs(params@) + Seq::<(Seq<char>, Seq<char>)>::empty() =~= text_pairs(
            params@,
        ));
    }
    Ok((table.clone(), query.clone(), params))
}


/// The first body column that is not an identifier, as the message of its refusal.
pub open spec fn body_check(b: Seq<(String, String)>) -> Option<Seq<char>>
    decreases b.len(),
{
    if b.len() == 0 {
        None
    } else {
        match identifier_check(b[0].0@) {
            Some(e) => Some(e),
            None => body_check(b.drop_first()),
        }
    }
}

/// Whether the pairs are ordered by their column names.
pub open spec fn sorted_by_key(b: Seq<(String, String)>) -> bool {
    forall|i: int, j: int| 0 <= i < j < b.len() ==> !text_lt(#[trigger] b[j].0@, #[trigger] b[i].0@)
}

/// Inserts a pair into pairs ordered by column name, after those whose names
/// do not sort after its own.
fn insert_by_key(sorted: &mut Vec<(String, String)>, pair: (String, String))
    requires
        sorted_by_key(old(sorted)@),
    ensures
        sorted_by_key(final(sorted)@),
        final(sorted)@.to_multiset() == old(sorted)@.to_multiset().insert(pair),
{
    let n = sorted.len();
    let mut p: usize = 0;
    while p < n && !str_lt(pair.0.as_str(), sorted[p].0.as_str())
        invariant
            n == sorted@.len(),
            p <= n,
            forall|k: int| 0 <= k < p ==> !text_lt(pair.0@, #[trigger] sorted@[k].0@),
        decreases n - p,
    {
        p = p + 1;
    }
    let ghost s = sorted@;
    assert(p < n ==> text_lt(pair.0@, s[p as int].0@));
    sorted.insert(p, pair);
    proof {
        vstd::seq_lib::to_multiset_insert(s, p as int, pair);
        let t = sorted@;
        assert forall|i: int, j: int| 0 <= i < j < t.len() implies !text_lt(
            #[trigger] t[j].0@,
            #[trigger] t[i].0@,
        ) by {
            if j < p {
                assert(t[i] == s[i] && t[j] == s[j]);
            } else if j == p {
                assert(t[j] == pair && t[i] == s[i]);
            } else if i == p {
                assert(t[i] == pair && t[j] == s[j - 1]);
                lemma_text_lt_asymmetric(pair.0@, s[p as int].0@);
                lemma_text_lt_transitive(s[j - 1].0@, pair.0@, s[p as int].0@);
                if j - 1 > p {
                    assert(!text_lt(s[j - 1].0@, s[p as int].0@));
                }
            } else if i < p {
                assert(t[i] == s[i] && t[j] == s[j - 1]);
            } else {
                assert(t[i] == s[i - 1] && t[j] == s[j - 1]);
            }
        }
    }
}

/// The column names and values of a body, in its order.
pub fn body_pairs(body: &SymbolMap<String>) -> (r: Vec<(String, String)>)
    ensures
        r@ == body.spec_entries(),
        keys_distinct(r@),
{
    let ghost entries = body.spec_entries();
    let n = body.len();
    let mut r: Vec<(String, String)> = Vec::new();
    let mut i: usize = 0;
    while i < n
        invariant
            n == entries.len(),
            entries == body.spec_entries(),
            keys_distinct(entries),
            i <= n,
            r@ == entries.take(i as int),
        decreases n - i,
    {
        let entry = body.entry(i);
        r.push((entry.0.clone(), entry.1.clone()));
        assert(r@ =~= entries.take(i + 1));
        i = i + 1;
    }
    assert(entries.take(n as int) =~= entries);
    r
}

/// Reordering pairs whose columns are distinct keeps the columns distinct.
proof fn lemma_keys_distinct_kept(a: Seq<(String, String)>, b: Seq<(String, String)>)
    requires
        keys_distinct(a),
        a.to_multiset() == b.to_multiset(),
    ensures
        keys_distinct(b),
{
    assert(a.no_duplicates()) by {
        assert forall|i: int, j: int| 0 <= i < a.len() && 0 <= j < a.len() && i != j implies a[i]
            != a[j] by {
            if i < j {
                assert(a[i].0@ != a[j].0@);
            } else {
                assert(a[j].0@ != a[i].0@);
            }
        }
    }
    a.lemma_multiset_has_no_duplicates();
    b.lemma_multiset_has_no_duplicates_conv();
    assert forall|i: int, j: int| 0 <= i < j < b.len() implies (#[trigger] b[i]).0@ != (
    #[trigger] b[j]).0@ by {
        vstd::seq_lib::to_multiset_contains(b, b[i]);
        vstd::seq_lib::to_multiset_contains(b, b[j]);
        vstd::seq_lib::to_multiset_contains(a, b[i]);
        vstd::seq_lib::to_multiset_contains(a, b[j]);
        assert(b.contains(b[i]));
        assert(b.contains(b[j]));
        let p = choose|p: int| 0 <= p < a.len() && a[p] == b[i];
        let q = choose|q: int| 0 <= q < a.len() && a[q] == b[j];
        assert(b[i] != b[j]);
        assert(p != q);
        if p < q {
            assert(a[p].0@ != a[q].0@);
        } else {
            assert(a[q].0@ != a[p].0@);
        }
    }
}

/// Checks that every body column is an identifier, then orders the pairs by
/// column name.
pub fn sort_body(body: Vec<(String, String)>) -> (r: Result<Vec<(String, String)>, Error>)
    ensures
        match body_check(body@) {
            Some(m) => r matches Err(e) && is_db_error(e, m),
            None => r matches Ok(b) && sorted_by_key(b@) && b@.to_multiset() == body@.to_multiset(),
        },
{
    let n = body.len();
    let mut i: usize = 0;
    assert(body@.skip(0) =~= body@);
    while i < n
        invariant
            n == body@.len(),
            i <= n,
            body_check(body@) == body_check(body@.skip(i as int)),
        decreases n - i,
    {
        proof {
            assert(body@.skip(i as int)[0] == body@[i as int]);
            assert(body@.skip(i as int).drop_first() =~= body@.skip(i + 1));
        }
        match validate_identifier(body[i].0.as_str()) {
            Ok(()) => {},
            Err(e) => {
                return Err(e);
            },
        }
        i = i + 1;
    }
    let mut sorted: Vec<(String, String)> = Vec::new();
    let mut k: usize = 0;
    assert(sorted@ =~= body@.take(0));
    while k < n
        invariant
            n == body@.len(),
            k <= n,
            body_check(body@) is None,
            sorted_by_key(sorted@),
            sorted@.to_multiset() == body@.take(k as int).to_multiset(),
        decreases n - k,
    {
        let pair = (body[k].0.clone(), body[k].1.clone());
        assert(pair == body@[k as int]);
        insert_by_key(&mut sorted, pair);
        proof {
            assert(body@.take(k + 1) =~= body@.take(k as int).push(body@[k as int]));
            vstd::seq_lib::to_multiset_build(body@.take(k as int), body@[k as int]);
        }
        k = k + 1;
    }
    assert(body@.take(n as int) =~= body@);
    Ok(sorted)
}


/// The WHERE clause of the filters, with placeholders numbered from `start`.
pub open spec fn where_sql(params: Seq<(Seq<char>, Seq<char>)>, start: nat) -> Seq<char>
    decreases params.len(),
{
    if params.len() == 0 {
        Seq::empty()
    } else {
        where_sql(params.drop_last(), start) + (if params.len() == 1 {
            " WHERE "@
        } else {
            " AND "@
        }) + params.last().0 + " = ?"@ + decimal_digits((start + params.len() - 1) as nat)
    }
}

/// Whether `values` are the values of the pairs, in order.
pub open spec fn values_of(values: Seq<String>, pairs: Seq<(String, String)>) -> bool {
    &&& values.len() == pairs.len()
    &&& forall|k: int| 0 <= k < values.len() ==> (#[trigger] values[k])@ == pairs[k].1@
}

/// Appends a WHERE clause with numbered placeholders for the filters, and
/// returns the values that the placeholders stand for.
pub fn append_where_clause(
    sql: &mut String,
    params: &Vec<(String, String)>,
    placeholder_start: usize,
) -> (r: Vec<String>)
    requires
        placeholder_start + params@.len() <= usize::MAX,
    ensures
        final(sql)@ == old(sql)@ + where_sql(text_pairs(params@), placeholder_start as nat),
        values_of(r@, params@),
{
    let ghost start = sql@;
    let ghost pv = text_pairs(params@);
    let n = params.len();
    let mut values: Vec<String> = Vec::new();
    let mut i: usize = 0;
    assert(pv.take(0) =~= Seq::<(Seq<char>, Seq<char>)>::empty());
    assert(sql@ =~= start + where_sql(pv.take(0), placeholder_start as nat));
    while i < n
        invariant
            n == params@.len(),
            pv == text_pairs(params@),
            placeholder_start + n <= usize::MAX,
            i <= n,
            sql@ == start + where_sql(pv.take(i as int), placeholder_start as nat),
            values_of(values@, params@.take(i as int)),
        decreases n - i,
    {
        let ghost before = sql@;
        if i == 0 {
            sql.append(" WHERE ");
        } else {
            sql.append(" AND ");
        }
        sql.append(params[i].0.as_str());
        sql.append(" = ?");
        let digits = usize_text(placeholder_start + i);
        sql.append(digits.as_str());
        values.push(params[i].1.clone());
        proof {
            let t = pv.take(i + 1);
            assert(t.drop_last() =~= pv.take(i as int));
            assert(t.last() == (params@[i as int].0@, params@[i as int].1@));
            assert(t.len() == i + 1);
            assert(sql@ =~= start + where_sql(t, placeholder_start as nat));
            assert forall|k: int| 0 <= k < values@.len() implies (#[trigger] values@[k])@
                == params@.take(i + 1)[k].1@ by {
                if k < i {
                    assert(params@.take(i + 1)[k] == params@.take(i as int)[k]);
                }
            }
        }
        i = i + 1;
    }
    assert(pv.take(n as int) =~= pv);
    assert(params@.take(n as int) =~= params@);
    values
}

/// The SELECT statement of a parsed path.
pub open spec fn select_sql(
    table: Seq<char>,
    query: Seq<char>,
    params: Seq<(Seq<char>, Seq<char>)>,
) -> Seq<char> {
    "SELECT "@ + (if query.len() == 0 {
        "*"@
    } else {
        query
    }) + " FROM "@ + table + where_sql(params, 1) + ";"@
}

/// Builds a parameterised SELECT statement from a parsed path.
pub fn build_select_sql(table: &str, query: &str, params: &Vec<(String, String)>) -> (r: (
    String,
    Vec<String>,
))
    requires
        params@.len() < usize::MAX,
    ensures
        r.0@ == select_sql(table@, query@, text_pairs(params@)),
        values_of(r.1@, params@),
{
    let mut sql = String::from_str("SELECT ");
    if query.unicode_len() == 0 {
        sql.append("*");
    } else {
        sql.append(query);
    }
    sql.append(" FROM ");
    sql.append(table);
    let values = append_where_clause(&mut sql, params, 1);
    sql.append(";");
    proof {
        assert(sql@ =~= select_sql(table@, query@, text_pairs(params@)));
    }
    (sql, values)
}

/// The DELETE statement of a parsed path; deleting without a filter is refused.
pub open spec fn delete_sql(table: Seq<char>, params: Seq<(Seq<char>, Seq<char>)>) -> Result<
    Seq<char>,
    Seq<char>,
> {
    if params.len() == 0 {
        Err("400 BadRequest: missing delete condition."@)
    } else {
        Ok("DELETE FROM "@ + table + where_sql(params, 1) + ";"@)
    }
}

/// Builds a parameterised DELETE statement and refuses to delete a whole table.
pub fn build_delete_sql(table: &str, params: &Vec<(String, String)>) -> (r: Result<
    (String, Vec<String>),
    Error,
>)
    requires
        params@.len() < usize::MAX,
    ensures
        match delete_sql(table@, text_pairs(params@)) {
            Ok(sql) => r matches Ok(p) && p.0@ == sql && values_of(p.1@, params@),
            Err(m) => r matches Err(e) && is_db_error(e, m),
        },
{
    if params.len() == 0 {
        return Err(Error::Database(String::from_str("400 BadRequest: missing delete condition.")));
    }
    let mut sql = String::from_str("DELETE FROM ");
    sql.append(table);
    let values = append_where_clause(&mut sql, params, 1);
    sql.append(";");
    proof {
        assert(sql@ =~= "DELETE FROM "@ + table@ + where_sql(text_pairs(params@), 1) + ";"@);
    }
    Ok((sql, values))
}


/// The conflict key of a table: fixed for the known tables, otherwise `id`
/// and `date`, or `id` alone, when the columns hold them.
pub open spec fn conflict_key(table: Seq<char>, columns: Seq<Seq<char>>) -> Option<Seq<Seq<char>>> {
    if table == "calendar"@ {
        Some(seq!["market"@, "date"@])
    } else if table == "daily_bar"@ {
        Some(seq!["id"@, "date"@, "exchange"@])
    } else if table == "exchange_cn"@ || table == "stock_cn"@ {
        Some(seq!["id"@, "date"@])
    } else if table == "entity"@ {
        Some(seq!["id"@])
    } else if columns.contains("id"@) && columns.contains("date"@) {
        Some(seq!["id"@, "date"@])
    } else if columns.contains("id"@) {
        Some(seq!["id"@])
    } else {
        None
    }
}

/// The first key column that the columns lack.
pub open spec fn first_missing(key: Seq<Seq<char>>, columns: Seq<Seq<char>>) -> Option<Seq<char>>
    decreases key.len(),
{
    if key.len() == 0 {
        None
    } else if !columns.contains(key[0]) {
        Some(key[0])
    } else {
        first_missing(key.drop_first(), columns)
    }
}

/// The conflict columns of an upsert, all of which the written columns must hold.
pub open spec fn conflict_columns(table: Seq<char>, columns: Seq<Seq<char>>) -> Result<
    Seq<Seq<char>>,
    Seq<char>,
> {
    match conflict_key(table, columns) {
        None => Err("400 BadRequest: missing upsert conflict column."@),
        Some(key) => match first_missing(key, columns) {
            Some(c) => Err("400 BadRequest: missing upsert conflict column: "@ + c + "."@),
            None => Ok(key),
        },
    }
}

fn literal_list(items: &[&str]) -> (r: Vec<String>)
    ensures
        r@.len() == items@.len(),
        forall|k: int| 0 <= k < items@.len() ==> (#[trigger] r@[k])@ == items@[k]@,
{
    let mut r: Vec<String> = Vec::new();
    let mut i: usize = 0;
    while i < items.len()
        invariant
            i <= items@.len(),
            r@.len() == i,
            forall|k: int| 0 <= k < i ==> (#[trigger] r@[k])@ == items@[k]@,
        decreases items@.len() - i,
    {
        r.push(String::from_str(items[i]));
        i = i + 1;
    }
    r
}

/// Chooses the conflict key that matches the table, and checks that the
/// written columns hold all of it.
pub fn conflict_columns_for_table(table: &str, columns: &Vec<String>) -> (r: Result<
    Vec<String>,
    Error,
>)
    ensures
        match conflict_columns(table@, texts(columns@)) {
            Ok(key) => r matches Ok(k) && texts(k@) == key,
            Err(m) => r matches Err(e) && is_db_error(e, m),
        },
{
    let key = if str_eq(table, "calendar") {
        literal_list(&["market", "date"])
    } else if str_eq(table, "daily_bar") {
        literal_list(&["id", "date", "exchange"])
    } else if str_eq(table, "exchange_cn") || str_eq(table, "stock_cn") {
        literal_list(&["id", "date"])
    } else if str_eq(table, "entity") {
        literal_list(&["id"])
    } else if contains_str(columns, "id") && contains_str(columns, "date") {
        literal_list(&["id", "date"])
    } else if contains_str(columns, "id") {
        literal_list(&["id"])
    } else {
        return Err(
            Error::Database(String::from_str("400 BadRequest: missing upsert conflict column.")),
        );
    };
    let ghost kv = conflict_key(table@, texts(columns@))->0;
    proof {
        assert(texts(key@) =~= kv);
    }
    let n = key.len();
    let mut i: usize = 0;
    assert(kv.skip(0) =~= kv);
    while i < n
        invariant
            n == key@.len(),
            i <= n,
            texts(key@) == kv,
            conflict_key(table@, texts(columns@)) == Some(kv),
            first_missing(kv, texts(columns@)) == first_missing(kv.skip(i as int), texts(columns@)),
        decreases n - i,
    {
        proof {
            assert(kv.skip(i as int)[0] == key@[i as int]@);
            assert(kv.skip(i as int).drop_first() =~= kv.skip(i + 1));
        }
        if !contains_str(columns, key[i].as_str()) {
            let mut message = String::from_str("400 BadRequest: missing upsert conflict column: ");
            message.append(key[i].as_str());
            message.append(".");
            return Err(Error::Database(message));
        }
        i = i + 1;
    }
    Ok(key)
}

/// Numbered placeholders `?1` to `?n`.
pub open spec fn placeholders(n: nat) -> Seq<Seq<char>> {
    Seq::new(n, |i: int| "?"@ + decimal_digits((i + 1) as nat))
}

/// The assignments that update every written column outside the conflict key.
pub open spec fn column_updates(columns: Seq<Seq<char>>, key: Seq<Seq<char>>) -> Seq<Seq<char>>
    decreases columns.len(),
{
    if columns.len() == 0 {
        Seq::empty()
    } else {
        let rest = column_updates(columns.drop_last(), key);
        if key.contains(columns.last()) {
            rest
        } else {
            rest.push(columns.last() + " = excluded."@ + columns.last())
        }
    }
}

/// The written columns outside the conflict key, in column order.
pub open spec fn non_key_columns(columns: Seq<Seq<char>>, key: Seq<Seq<char>>) -> Seq<Seq<char>> {
    columns.filter(|c: Seq<char>| !key.contains(c))
}

/// The updates of an upsert are one assignment `c = excluded.c` for each
/// written column `c` outside the conflict key, in column order, and nothing
/// else.
pub proof fn lemma_column_updates(columns: Seq<Seq<char>>, key: Seq<Seq<char>>)
    ensures
        column_updates(columns, key).len() == non_key_columns(columns, key).len(),
        forall|i: int|
            0 <= i < column_updates(columns, key).len() ==> #[trigger] column_updates(
                columns,
                key,
            )[i] == non_key_columns(columns, key)[i] + " = excluded."@ + non_key_columns(
                columns,
                key,
            )[i],
    decreases columns.len(),
{
    reveal(Seq::filter);
    if columns.len() > 0 {
        lemma_column_updates(columns.drop_last(), key);
        let sub = non_key_columns(columns.drop_last(), key);
        assert(non_key_columns(columns, key) == if !key.contains(columns.last()) {
            sub.push(columns.last())
        } else {
            sub
        });
    }
}

/// What an upsert does on a conflict.
pub open spec fn conflict_action(updates: Seq<Seq<char>>) -> Seq<char> {
    if updates.len() == 0 {
        "DO NOTHING"@
    } else {
        "DO UPDATE SET "@ + join(updates, ", "@)
    }
}

/// The column names of body pairs.
pub open spec fn column_names(body: Seq<(Seq<char>, Seq<char>)>) -> Seq<Seq<char>> {
    body.map_values(|p: (Seq<char>, Seq<char>)| p.0)
}

/// The UPSERT statement of a body; an empty body is refused.
pub open spec fn upsert_sql(table: Seq<char>, body: Seq<(Seq<char>, Seq<char>)>) -> Result<
    Seq<char>,
    Seq<char>,
> {
    if body.len() == 0 {
        Err("400 BadRequest: missing upsert body."@)
    } else {
        match conflict_columns(table, column_names(body)) {
            Err(e) => Err(e),
            Ok(key) => Ok(
                "INSERT INTO "@ + table + " ("@ + join(column_names(body), ", "@) + ") VALUES ("@
                    + join(placeholders(body.len()), ", "@) + ") ON CONFLICT("@ + join(
                    key,
                    ", "@,
                ) + ") "@ + conflict_action(column_updates(column_names(body), key)) + ";"@,
            ),
        }
    }
}

/// Builds a parameterised UPSERT statement from body fields.
pub fn build_upsert_sql(table: &str, body: &Vec<(String, String)>) -> (r: Result<
    (String, Vec<String>),
    Error,
>)
    ensures
        match upsert_sql(table@, text_pairs(body@)) {
            Ok(sql) => r matches Ok(p) && p.0@ == sql && values_of(p.1@, body@),
            Err(m) => r matches Err(e) && is_db_error(e, m),
        },
{
    let ghost bv = text_pairs(body@);
    if body.len() == 0 {
        return Err(Error::Database(String::from_str("400 BadRequest: missing upsert body.")));
    }
    let n = body.len();
    let mut columns: Vec<String> = Vec::new();
    let mut values: Vec<String> = Vec::new();
    let mut marks: Vec<String> = Vec::new();
    let mut i: usize = 0;
    while i < n
        invariant
            n == body@.len(),
            bv == text_pairs(body@),
            i <= n,
            texts(columns@) == column_names(bv).take(i as int),
            texts(marks@) == placeholders(n as nat).take(i as int),
            values_of(values@, body@.take(i as int)),
        decreases n - i,
    {
        let ghost old_columns = columns@;
        let ghost old_marks = marks@;
        columns.push(body[i].0.clone());
        values.push(body[i].1.clone());
        let mut mark = String::from_str("?");
        let digits = usize_text(i + 1);
        mark.append(digits.as_str());
        marks.push(mark);
        proof {
            assert(texts(columns@) =~= texts(old_columns).push(body@[i as int].0@));
            assert(column_names(bv).take(i + 1) =~= column_names(bv).take(i as int).push(
                body@[i as int].0@,
            ));
            assert(texts(columns@) =~= column_names(bv).take(i + 1));
            assert(texts(marks@) =~= texts(old_marks).push("?"@ + decimal_digits((i + 1) as nat)));
            assert(placeholders(n as nat).take(i + 1) =~= placeholders(n as nat).take(
                i as int,
            ).push("?"@ + decimal_digits((i + 1) as nat)));
            assert(texts(marks@) =~= placeholders(n as nat).take(i + 1));
            assert forall|k: int| 0 <= k < values@.len() implies (#[trigger] values@[k])@
                == body@.take(i + 1)[k].1@ by {
                if k < i {
                    assert(body@.take(i + 1)[k] == body@.take(i as int)[k]);
                }
            }
        }
        i = i + 1;
    }
    proof {
        assert(column_names(bv).take(n as int) =~= column_names(bv));
        assert(placeholders(n as nat).take(n as int) =~= placeholders(n as nat));
        assert(body@.take(n as int) =~= body@);
    }
    let key = match conflict_columns_for_table(table, &columns) {
        Ok(k) => k,
        Err(e) => {
            return Err(e);
        },
    };
    let ghost cv = texts(columns@);
    let mut updates: Vec<String> = Vec::new();
    let mut j: usize = 0;
    while j < n
        invariant
            n == columns@.len(),
            cv == texts(columns@),
            j <= n,
            texts(updates@) == column_updates(cv.take(j as int), texts(key@)),
        decreases n - j,
    {
        proof {
            assert(cv.take(j + 1).drop_last() =~= cv.take(j as int));
            assert(cv.take(j + 1).last() == columns@[j as int]@);
        }
        if !contains_str(&key, columns[j].as_str()) {
            let mut update = columns[j].clone();
            update.append(" = excluded.");
            update.append(columns[j].as_str());
            updates.push(update);
            proof {
                assert(texts(updates@) =~= column_updates(cv.take(j as int), texts(key@)).push(
                    columns@[j as int]@ + " = excluded."@ + columns@[j as int]@,
                ));
            }
        }
        j = j + 1;
    }
    assert(cv.take(n as int) =~= cv);
    let mut sql = String::from_str("INSERT INTO ");
    sql.append(table);
    sql.append(" (");
    let joined_columns = join_strings(&columns, ", ");
    sql.append(joined_columns.as_str());
    sql.append(") VALUES (");
    let joined_marks = join_strings(&marks, ", ");
    sql.append(joined_marks.as_str());
    sql.append(") ON CONFLICT(");
    let joined_key = join_strings(&key, ", ");
    sql.append(joined_key.as_str());
    sql.append(") ");
    if updates.len() == 0 {
        sql.append("DO NOTHING");
    } else {
        sql.append("DO UPDATE SET ");
        let joined_updates = join_strings(&updates, ", ");
        sql.append(joined_updates.as_str());
    }
    sql.append(";");
    proof {
        assert(sql@ =~= "INSERT INTO "@ + table@ + " ("@ + join(column_names(bv), ", "@)
            + ") VALUES ("@ + join(placeholders(n as nat), ", "@) + ") ON CONFLICT("@ + join(
            texts(key@),
            ", "@,
        ) + ") "@ + conflict_action(column_updates(column_names(bv), texts(key@))) + ";"@);
    }
    Ok((sql, values))
}


/// A parsed path as the successful result of [`parse_path`].
pub open spec fn parsed_ok(p: (String, String, Vec<(String, String)>)) -> Result<
    (Seq<char>, Seq<char>, Seq<(Seq<char>, Seq<char>)>),
    Seq<char>,
> {
    Ok((p.0@, p.1@, text_pairs(p.2@)))
}

/// Whether `method` writes a body.
pub open spec fn writes_body(method: RestMethod) -> bool {
    method == RestMethod::Post || method == RestMethod::Put || method == RestMethod::Patch
}

/// The values of a sequence of pairs, in order.
pub open spec fn pair_values(ps: Seq<(Seq<char>, Seq<char>)>) -> Seq<Seq<char>> {
    ps.map_values(|p: (Seq<char>, Seq<char>)| p.1)
}

/// What a store is asked to run for a request.
#[derive(Debug, Clone)]
pub enum SqlStatement {
    /// A query whose rows are returned.
    Query { sql: String, values: Vec<String> },
    /// A statement whose rows are not returned.
    Execute { sql: String, values: Vec<String> },
}

/// Whether a statement is a query or a statement, with that SQL and those
/// values for its placeholders.
pub open spec fn statement_is(
    s: SqlStatement,
    query: bool,
    sql: Seq<char>,
    values: Seq<Seq<char>>,
) -> bool {
    match s {
        SqlStatement::Query { sql: q, values: v } => query && q@ == sql && texts(v@) == values,
        SqlStatement::Execute { sql: q, values: v } => !query && q@ == sql && texts(v@) == values,
    }
}

/// The statement that answers a request on a store that has the tables
/// `tables`, or the refusal: a GET selects with the filters of the path; a
/// DELETE deletes with them and needs at least one; POST, PUT and PATCH upsert
/// the body, ordered by column name, on the conflict key of the table.
pub open spec fn planned(request: RestRequest, tables: Seq<Seq<char>>, r: Result<SqlStatement, Error>) -> bool {
    match parse_path(texts(request.path@), tables) {
        Err(m) => r matches Err(e) && is_db_error(e, m),
        Ok(p) => match request.method {
            RestMethod::Get => r matches Ok(s) && statement_is(
                s,
                true,
                select_sql(p.0, p.1, p.2),
                pair_values(p.2),
            ),
            RestMethod::Delete => match delete_sql(p.0, p.2) {
                Ok(sql) => r matches Ok(s) && statement_is(s, false, sql, pair_values(p.2)),
                Err(m) => r matches Err(e) && is_db_error(e, m),
            },
            _ => match body_check(request.body.spec_entries()) {
                Some(m) => r matches Err(e) && is_db_error(e, m),
                None => exists|b: Seq<(String, String)>|
                    #![trigger upsert_sql(p.0, text_pairs(b))]
                    sorted_by_key(b) && b.to_multiset() == request.body.spec_entries().to_multiset()
                        && match upsert_sql(p.0, text_pairs(b)) {
                        Ok(sql) => r matches Ok(s) && statement_is(
                            s,
                            false,
                            sql,
                            pair_values(text_pairs(b)),
                        ),
                        Err(m) => r matches Err(e) && is_db_error(e, m),
                    },
            },
        },
    }
}

/// The statement that answers a request on a store that has the tables
/// `tables`: a GET selects with the filters of the path; a DELETE deletes with
/// them and needs at least one; POST, PUT and PATCH upsert the body, ordered
/// by column name, on the conflict key of the table.
pub fn plan_request(request: RestRequest, tables: &Vec<String>) -> (r: Result<SqlStatement, Error>)
    ensures
        planned(request, texts(tables@), r),
{
    let method = request.method;
    let path_len = request.path.len();
    let (table, query, params) = match parse_request_path(&request.path, tables) {
        Ok(p) => p,
        Err(e) => {
            return Err(e);
        },
    };
    match method {
        RestMethod::Get => {
            assert(params@.len() < path_len);
            let (sql, values) = build_select_sql(table.as_str(), query.as_str(), &params);
            assert(texts(values@) =~= pair_values(text_pairs(params@)));
            Ok(SqlStatement::Query { sql, values })
        },
        RestMethod::Delete => {
            assert(params@.len() < path_len);
            match build_delete_sql(table.as_str(), &params) {
                Ok((sql, values)) => {
                    assert(texts(values@) =~= pair_values(text_pairs(params@)));
                    Ok(SqlStatement::Execute { sql, values })
                },
                Err(e) => Err(e),
            }
        },
        _ => {
            let body = match sort_body(body_pairs(&request.body)) {
                Ok(b) => b,
                Err(e) => {
                    return Err(e);
                },
            };
            let ghost b = body@;
            match build_upsert_sql(table.as_str(), &body) {
                Ok((sql, values)) => {
                    assert(texts(values@) =~= pair_values(text_pairs(b)));
                    let r = SqlStatement::Execute { sql, values };
                    assert(match upsert_sql(table@, text_pairs(b)) {
                        Ok(q) => statement_is(r, false, q, pair_values(text_pairs(b))),
                        Err(_) => false,
                    });
                    Ok(r)
                },
                Err(e) => {
                    assert(upsert_sql(table@, text_pairs(b)) is Err);
                    Err(e)
                },
            }
        },
    }
}

/// Whether `r` is what parsing a path gives: the table, the select target and
/// the filter pairs, or the refusal.
pub open spec fn path_outcome(
    parsed: Result<(Seq<char>, Seq<char>, Seq<(Seq<char>, Seq<char>)>), Seq<char>>,
    r: Result<(String, String, Vec<(String, String)>), Error>,
) -> bool {
    match parsed {
        Ok(p) => r matches Ok(q) && parsed_ok(q) == Ok::<
            (Seq<char>, Seq<char>, Seq<(Seq<char>, Seq<char>)>),
            Seq<char>,
        >(p),
        Err(m) => r matches Err(e) && is_db_error(e, m),
    }
}

/// Whether `r` is what a request answers once it is planned as `plan`: the
/// refusal of the plan; the rows that the store answered to the query; or no
/// row once the store answered that it ran the statement, else the error it
/// answered.
pub open spec fn request_outcome<S: DataSource>(
    source: S,
    plan: Result<SqlStatement, Error>,
    r: Result<Vec<Vec<(String, String)>>, Error>,
) -> bool {
    match plan {
        Err(e) => r == Err::<Vec<Vec<(String, String)>>, Error>(e),
        Ok(SqlStatement::Query { sql, values }) => source.spec_query_answer(sql@, texts(values@), r),
        Ok(SqlStatement::Execute { sql, values }) => match r {
            Ok(rows) => rows@.len() == 0 && exists|n: usize|
                source.spec_execute_answer(sql@, texts(values@), Ok::<usize, Error>(n)),
            Err(e) => source.spec_execute_answer(sql@, texts(values@), Err::<usize, Error>(e)),
        },
    }
}

/// Whether two paths differ at most in their filter values: the table, the
/// filter keys and the select target are the same.
pub open spec fn same_but_values(a: Seq<Seq<char>>, b: Seq<Seq<char>>) -> bool {
    &&& a.len() == b.len()
    &&& forall|i: int|
        0 <= i < a.len() && !(i % 2 == 0 && 2 <= i <= a.len() - 2) ==> #[trigger] a[i] == b[i]
}

/// The SQL text of a statement.
pub open spec fn statement_sql(s: SqlStatement) -> Seq<char> {
    match s {
        SqlStatement::Query { sql, .. } => sql@,
        SqlStatement::Execute { sql, .. } => sql@,
    }
}

/// The message of a refusal.
pub open spec fn refusal_text(e: Error) -> Seq<char> {
    match e {
        Error::Database(m) => m@,
        _ => Seq::empty(),
    }
}

/// Filters whose keys agree are parsed alike: both or neither are refused,
/// for the same reason, and the keys parsed are the same.
proof fn lemma_parse_pairs_keys(m1: Seq<Seq<char>>, m2: Seq<Seq<char>>)
    requires
        m1.len() == m2.len(),
        forall|j: int| 0 <= j < m1.len() && j % 2 == 0 ==> #[trigger] m1[j] == m2[j],
    ensures
        (parse_pairs(m1) is Ok) == (parse_pairs(m2) is Ok),
        parse_pairs(m1) is Err ==> parse_pairs(m1) == parse_pairs(m2),
        parse_pairs(m1) is Ok ==> column_names(parse_pairs(m1)->Ok_0) == column_names(
            parse_pairs(m2)->Ok_0,
        ),
    decreases m1.len(),
{
    if m1.len() >= 2 {
        let r1 = m1.subrange(2, m1.len() as int);
        let r2 = m2.subrange(2, m2.len() as int);
        assert(m1[0] == m2[0]);
        assert forall|j: int| 0 <= j < r1.len() && j % 2 == 0 implies #[trigger] r1[j] == r2[j] by {
            assert(r1[j] == m1[j + 2]);
            assert(r2[j] == m2[j + 2]);
        }
        lemma_parse_pairs_keys(r1, r2);
        if parse_pairs(r1) is Ok && identifier_check(m1[0]) is None {
            let a = parse_pairs(r1)->Ok_0;
            let b = parse_pairs(r2)->Ok_0;
            assert(column_names(seq![(m1[0], m1[1])] + a) =~= seq![m1[0]] + column_names(a));
            assert(column_names(seq![(m2[0], m2[1])] + b) =~= seq![m2[0]] + column_names(b));
        }
    }
}

/// The WHERE clause of filters depends on their keys alone.
proof fn lemma_where_sql_keys(a: Seq<(Seq<char>, Seq<char>)>, b: Seq<(Seq<char>, Seq<char>)>, start: nat)
    requires
        column_names(a) == column_names(b),
    ensures
        where_sql(a, start) == where_sql(b, start),
    decreases a.len(),
{
    assert(column_names(a).len() == a.len() && column_names(b).len() == b.len());
    if a.len() > 0 {
        assert(column_names(a.drop_last()) =~= column_names(a).drop_last());
        assert(column_names(b.drop_last()) =~= column_names(b).drop_last());
        assert(column_names(a)[a.len() - 1] == a.last().0);
        assert(column_names(b)[b.len() - 1] == b.last().0);
        lemma_where_sql_keys(a.drop_last(), b.drop_last(), start);
    }
}

/// Reading or deleting rows, the values of the filters never change the
/// statement: two requests that differ only in their filter values are both
/// refused for the same reason, or both planned with the same SQL text.
pub proof fn lemma_values_do_not_shape_sql(
    r1: RestRequest,
    r2: RestRequest,
    tables: Seq<Seq<char>>,
    s1: Result<SqlStatement, Error>,
    s2: Result<SqlStatement, Error>,
)
    requires
        r1.method == r2.method,
        r1.method == RestMethod::Get || r1.method == RestMethod::Delete,
        same_but_values(texts(r1.path@), texts(r2.path@)),
        planned(r1, tables, s1),
        planned(r2, tables, s2),
    ensures
        (s1 is Ok) == (s2 is Ok),
        s1 is Ok ==> statement_sql(s1->Ok_0) == statement_sql(s2->Ok_0),
        s1 is Err ==> refusal_text(s1->Err_0) == refusal_text(s2->Err_0),
{
    let p1 = texts(r1.path@);
    let p2 = texts(r2.path@);
    let n = p1.len();
    if n > 0 {
        assert(p1[0] == p2[0]);
        assert(p1[n - 1] == p2[n - 1]);
        assert(p1.last() == p2.last());
        if n > 1 {
            let m1 = p1.subrange(1, n - 1);
            let m2 = p2.subrange(1, n - 1);
            assert forall|j: int| 0 <= j < m1.len() && j % 2 == 0 implies #[trigger] m1[j] == m2[j] by {
                assert(m1[j] == p1[j + 1]);
                assert(m2[j] == p2[j + 1]);
            }
            lemma_parse_pairs_keys(m1, m2);
            if parse_pairs(m1) is Ok {
                lemma_where_sql_keys(parse_pairs(m1)->Ok_0, parse_pairs(m2)->Ok_0, 1);
                let a = parse_pairs(m1)->Ok_0;
                let b = parse_pairs(m2)->Ok_0;
                assert(a.len() == column_names(a).len());
                assert(b.len() == column_names(b).len());
            }
        }
    }
}

/// Writing a body, the values never change the statement: two bodies with the
/// same columns in the same order give the same UPSERT statement, or the same
/// refusal.
pub proof fn lemma_upsert_sql_keys(
    table: Seq<char>,
    a: Seq<(Seq<char>, Seq<char>)>,
    b: Seq<(Seq<char>, Seq<char>)>,
)
    requires
        column_names(a) == column_names(b),
    ensures
        upsert_sql(table, a) == upsert_sql(table, b),
{
    assert(column_names(a).len() == a.len() && column_names(b).len() == b.len());
}

/// The column names of body pairs, in order.
pub open spec fn body_keys(b: Seq<(String, String)>) -> Seq<Seq<char>> {
    b.map_values(|p: (String, String)| p.0@)
}

/// Pairs that are a rearrangement of each other have column names that are
/// a rearrangement of each other.
proof fn lemma_body_keys_multiset(x: Seq<(String, String)>, y: Seq<(String, String)>)
    requires
        x.to_multiset() == y.to_multiset(),
    ensures
        body_keys(x).to_multiset() == body_keys(y).to_multiset(),
    decreases x.len(),
{
    vstd::seq_lib::to_multiset_len(x);
    vstd::seq_lib::to_multiset_len(y);
    if x.len() == 0 {
        assert(body_keys(x) =~= body_keys(y));
    } else {
        let e = x[0];
        vstd::seq_lib::to_multiset_contains(x, e);
        vstd::seq_lib::to_multiset_contains(y, e);
        assert(x.contains(e)) by {
            assert(x[0] == e);
        }
        let j = choose|j: int| 0 <= j < y.len() && y[j] == e;
        let y1 = y.remove(j);
        vstd::seq_lib::to_multiset_remove(x, 0);
        vstd::seq_lib::to_multiset_remove(y, j);
        assert(x.remove(0) =~= x.drop_first());
        lemma_body_keys_multiset(x.drop_first(), y1);
        let k = e.0@;
        assert(body_keys(x) =~= body_keys(x.drop_first()).insert(0, k));
        assert(body_keys(y) =~= body_keys(y1).insert(j, k));
        vstd::seq_lib::to_multiset_insert(body_keys(x.drop_first()), 0, k);
        vstd::seq_lib::to_multiset_insert(body_keys(y1), j, k);
    }
}

/// Pairs ordered by column name, with the same column names, list those names
/// in the same order.
proof fn lemma_sorted_keys_unique(s: Seq<(String, String)>, t: Seq<(String, String)>)
    requires
        sorted_by_key(s),
        sorted_by_key(t),
        body_keys(s).to_multiset() == body_keys(t).to_multiset(),
    ensures
        body_keys(s) == body_keys(t),
    decreases s.len(),
{
    let ks = body_keys(s);
    let kt = body_keys(t);
    vstd::seq_lib::to_multiset_len(ks);
    vstd::seq_lib::to_multiset_len(kt);
    if s.len() == 0 {
        assert(ks =~= kt);
    } else {
        let a = ks[0];
        let b = kt[0];
        vstd::seq_lib::to_multiset_contains(ks, b);
        vstd::seq_lib::to_multiset_contains(kt, b);
        vstd::seq_lib::to_multiset_contains(ks, a);
        vstd::seq_lib::to_multiset_contains(kt, a);
        assert(kt.contains(b)) by {
            assert(kt[0] == b);
        }
        assert(ks.contains(a)) by {
            assert(ks[0] == a);
        }
        let j = choose|j: int| 0 <= j < ks.len() && ks[j] == b;
        let i = choose|i: int| 0 <= i < kt.len() && kt[i] == a;
        if j > 0 {
            assert(!text_lt(s[j].0@, s[0].0@));
        }
        if i > 0 {
            assert(!text_lt(t[i].0@, t[0].0@));
        }
        lemma_text_lt_total(a, b);
        assert(a == b);
        vstd::seq_lib::to_multiset_remove(ks, 0);
        vstd::seq_lib::to_multiset_remove(kt, 0);
        assert(ks.remove(0) =~= body_keys(s.drop_first()));
        assert(kt.remove(0) =~= body_keys(t.drop_first()));
        assert forall|p: int, q: int| 0 <= p < q < s.drop_first().len() implies !text_lt(
            #[trigger] s.drop_first()[q].0@,
            #[trigger] s.drop_first()[p].0@,
        ) by {
            assert(s.drop_first()[q] == s[q + 1]);
            assert(s.drop_first()[p] == s[p + 1]);
        }
        assert forall|p: int, q: int| 0 <= p < q < t.drop_first().len() implies !text_lt(
            #[trigger] t.drop_first()[q].0@,
            #[trigger] t.drop_first()[p].0@,
        ) by {
            assert(t.drop_first()[q] == t[q + 1]);
            assert(t.drop_first()[p] == t[p + 1]);
        }
        lemma_sorted_keys_unique(s.drop_first(), t.drop_first());
        assert forall|p: int| 0 <= p < ks.len() implies ks[p] == kt[p] by {
            if p > 0 {
                assert(ks[p] == body_keys(s.drop_first())[p - 1]);
                assert(kt[p] == body_keys(t.drop_first())[p - 1]);
            }
        }
        assert(ks =~= kt);
    }
}

/// A body passes the check exactly when every column name is an identifier.
proof fn lemma_body_check_all(b: Seq<(String, String)>)
    ensures
        body_check(b) is None <==> forall|i: int|
            0 <= i < b.len() ==> #[trigger] identifier_check(b[i].0@) is None,
    decreases b.len(),
{
    if b.len() > 0 {
        lemma_body_check_all(b.drop_first());
        if body_check(b) is None {
            assert forall|i: int| 0 <= i < b.len() implies #[trigger] identifier_check(
                b[i].0@,
            ) is None by {
                if i > 0 {
                    assert(b[i] == b.drop_first()[i - 1]);
                }
            }
        } else if identifier_check(b[0].0@) is None {
            let k = choose|k: int|
                0 <= k < b.drop_first().len() && !(#[trigger] identifier_check(
                    b.drop_first()[k].0@,
                ) is None);
            assert(b.drop_first()[k] == b[k + 1]);
        }
    }
}

/// Writing a body, the values never change the statement: two writes with the
/// same method and path, whose bodies have the same columns, are both refused
/// or both planned with the same SQL text.
pub proof fn lemma_body_values_do_not_shape_sql(
    r1: RestRequest,
    r2: RestRequest,
    tables: Seq<Seq<char>>,
    s1: Result<SqlStatement, Error>,
    s2: Result<SqlStatement, Error>,
)
    requires
        r1.method == r2.method,
        writes_body(r1.method),
        texts(r1.path@) == texts(r2.path@),
        body_keys(r1.body.spec_entries()).to_multiset() == body_keys(
            r2.body.spec_entries(),
        ).to_multiset(),
        planned(r1, tables, s1),
        planned(r2, tables, s2),
    ensures
        (s1 is Ok) == (s2 is Ok),
        s1 is Ok ==> statement_sql(s1->Ok_0) == statement_sql(s2->Ok_0),
{
    let b1 = r1.body.spec_entries();
    let b2 = r2.body.spec_entries();
    let k1 = body_keys(b1);
    let k2 = body_keys(b2);
    lemma_body_check_all(b1);
    lemma_body_check_all(b2);
    assert forall|i: int| 0 <= i < b1.len() && identifier_check(b1[i].0@) is Some implies body_check(
        b2,
    ) is Some by {
        vstd::seq_lib::to_multiset_contains(k1, k1[i]);
        vstd::seq_lib::to_multiset_contains(k2, k1[i]);
        assert(k1.contains(k1[i]));
        let j = choose|j: int| 0 <= j < k2.len() && k2[j] == k1[i];
        assert(identifier_check(b2[j].0@) is Some);
    }
    assert forall|i: int| 0 <= i < b2.len() && identifier_check(b2[i].0@) is Some implies body_check(
        b1,
    ) is Some by {
        vstd::seq_lib::to_multiset_contains(k2, k2[i]);
        vstd::seq_lib::to_multiset_contains(k1, k2[i]);
        assert(k2.contains(k2[i]));
        let j = choose|j: int| 0 <= j < k1.len() && k1[j] == k2[i];
        assert(identifier_check(b1[j].0@) is Some);
    }
    assert((body_check(b1) is None) == (body_check(b2) is None));
    match parse_path(texts(r1.path@), tables) {
        Err(_) => {},
        Ok(p) => {
            if body_check(b1) is None {
                let c1 = choose|c: Seq<(String, String)>|
                    #![trigger upsert_sql(p.0, text_pairs(c))]
                    sorted_by_key(c) && c.to_multiset() == b1.to_multiset() && match upsert_sql(
                        p.0,
                        text_pairs(c),
                    ) {
                        Ok(sql) => s1 matches Ok(s) && statement_is(
                            s,
                            false,
                            sql,
                            pair_values(text_pairs(c)),
                        ),
                        Err(m) => s1 matches Err(e) && is_db_error(e, m),
                    };
                let c2 = choose|c: Seq<(String, String)>|
                    #![trigger upsert_sql(p.0, text_pairs(c))]
                    sorted_by_key(c) && c.to_multiset() == b2.to_multiset() && match upsert_sql(
                        p.0,
                        text_pairs(c),
                    ) {
                        Ok(sql) => s2 matches Ok(s) && statement_is(
                            s,
                            false,
                            sql,
                            pair_values(text_pairs(c)),
                        ),
                        Err(m) => s2 matches Err(e) && is_db_error(e, m),
                    };
                lemma_body_keys_multiset(c1, b1);
                lemma_body_keys_multiset(c2, b2);
                lemma_sorted_keys_unique(c1, c2);
                assert(column_names(text_pairs(c1)) =~= body_keys(c1));
                assert(column_names(text_pairs(c2)) =~= body_keys(c2));
                lemma_upsert_sql_keys(p.0, text_pairs(c1), text_pairs(c2));
            }
        },
    }
}

/// Whether `r` is what a request answers on the store `source`: a request
/// without a path, or whose table is not an identifier, is refused; a
/// DELETE that succeeds has a filter, and a write that succeeds has a valid
/// body; otherwise either the store's list of tables failed, or the request
/// is planned on that list and `r` is the outcome of the plan.
pub open spec fn request_answered<S: DataSource>(
    source: S,
    request: RestRequest,
    r: Result<Vec<Vec<(String, String)>>, Error>,
) -> bool {
    &&& request.path@.len() == 0 ==> (r matches Err(e) && is_db_error(
        e,
        "400 BadRequest: missing request path."@,
    ))
    &&& request.path@.len() > 0 && identifier_check(request.path@[0]@) is Some ==> (r matches Err(
        e,
    ) && is_db_error(e, identifier_check(request.path@[0]@)->0))
    &&& request.method == RestMethod::Delete && r is Ok ==> exists|t: Seq<Seq<char>>|
        #[trigger] parse_path(texts(request.path@), t) matches Ok(p) && p.2.len() > 0
    &&& writes_body(request.method) && r is Ok ==> request.body.spec_entries().len() > 0
        && body_check(request.body.spec_entries()) is None
    &&& request.path@.len() > 0 && identifier_check(request.path@[0]@) is None ==> ({
        ||| r matches Err(e) && source.spec_tables_answer(Err::<Vec<String>, Error>(e))
        ||| exists|t: Vec<String>, plan: Result<SqlStatement, Error>|
            #![trigger source.spec_tables_answer(Ok::<Vec<String>, Error>(t)), planned(request, texts(t@), plan)]
            source.spec_tables_answer(Ok::<Vec<String>, Error>(t)) && planned(
                request,
                texts(t@),
                plan,
            ) && request_outcome(source, plan, r)
    })
}

/// Answers REST-like requests from a data source.
pub struct DataHandler<'a, S: DataSource> {
    source: &'a S,
}

impl<'a, S: DataSource> DataHandler<'a, S> {
    /// The store that the handler works on.
    pub closed spec fn spec_source(&self) -> &'a S {
        self.source
    }

    /// A handler of requests on a store.
    pub fn new(source: &'a S) -> (r: Self)
        ensures
            r.spec_source() == source,
    {
        DataHandler { source }
    }

    /// Parses a path as `table/filter_key/filter_value/.../select_target`
    /// against the tables of the source.
    pub fn verify_path(&self, path: Vec<String>) -> (r: Result<
        (String, String, Vec<(String, String)>),
        Error,
    >)
        ensures
            path@.len() == 0 ==> (r matches Err(e) && is_db_error(
                e,
                "400 BadRequest: missing request path."@,
            )),
            path@.len() > 0 && identifier_check(path@[0]@) is Some ==> (r matches Err(e)
                && is_db_error(e, identifier_check(path@[0]@)->0)),
            path@.len() > 0 && identifier_check(path@[0]@) is None ==> ({
                ||| r matches Err(e) && (*self.spec_source()).spec_tables_answer(
                    Err::<Vec<String>, Error>(e),
                )
                ||| exists|t: Vec<String>|
                    #[trigger] (*self.spec_source()).spec_tables_answer(Ok::<Vec<String>, Error>(t))
                        && path_outcome(parse_path(texts(path@), texts(t@)), r)
            }),
            r matches Ok(p) ==> p.2@.len() < path@.len(),
    {
        if path.len() == 0 {
            return Err(Error::Database(String::from_str("400 BadRequest: missing request path.")));
        }
        match validate_identifier(path[0].as_str()) {
            Ok(()) => {},
            Err(e) => {
                return Err(e);
            },
        }
        let tables = match self.source.tables() {
            Ok(t) => t,
            Err(e) => {
                return Err(e);
            },
        };
        let r = parse_request_path(&path, &tables);
        proof {
            if r is Ok {
                assert(parse_path(texts(path@), texts(tables@)) == parsed_ok(r->Ok_0));
            }
            assert(path_outcome(parse_path(texts(path@), texts(tables@)), r));
            assert((*self.spec_source()).spec_tables_answer(Ok::<Vec<String>, Error>(tables)));
        }
        r
    }

    /// Checks that every body column is an identifier and orders the body by
    /// column name, each column once.
    pub fn verify_body(&self, body: SymbolMap<String>) -> (r: Result<
        Vec<(String, String)>,
        Error,
    >)
        ensures
            match body_check(body.spec_entries()) {
                Some(m) => r matches Err(e) && is_db_error(e, m),
                None => r matches Ok(b) && sorted_by_key(b@) && keys_distinct(b@) && b@.to_multiset()
                    == body.spec_entries().to_multiset(),
            },
    {
        let pairs = body_pairs(&body);
        let r = sort_body(pairs);
        proof {
            if r is Ok {
                lemma_keys_distinct_kept(pairs@, r->Ok_0@);
            }
        }
        r
    }

    /// Answers a request: GET returns the selected rows; DELETE, which needs
    /// at least one filter, and POST, PUT and PATCH, which upsert the body,
    /// return no rows.
    pub fn request(&self, request: RestRequest) -> (r: Result<Vec<Vec<(String, String)>>, Error>)
        ensures
            request_answered(*self.spec_source(), request, r),
    {
        if request.path.len() == 0 {
            return Err(Error::Database(String::from_str("400 BadRequest: missing request path.")));
        }
        match validate_identifier(request.path[0].as_str()) {
            Ok(()) => {},
            Err(e) => {
                return Err(e);
            },
        }
        let tables = match self.source.tables() {
            Ok(t) => t,
            Err(e) => {
                return Err(e);
            },
        };
        let ghost method = request.method;
        let ghost path = request.path@;
        let ghost body = request.body.spec_entries();
        let ghost asked = request;
        let plan = plan_request(request, &tables);
        let ghost plan0 = plan;
        proof {
            assert(planned(asked, texts(tables@), plan0));
            assert((*self.spec_source()).spec_tables_answer(Ok::<Vec<String>, Error>(tables)));
        }
        let r = match plan {
            Ok(SqlStatement::Query { sql, values }) => self.source.query_params(sql.as_str(), &values),
            Ok(SqlStatement::Execute { sql, values }) => {
                proof {
                    if writes_body(method) {
                        let p = parse_path(texts(path), texts(tables@))->Ok_0;
                        let b = choose|b: Seq<(String, String)>|
                            #![trigger upsert_sql(p.0, text_pairs(b))]
                            sorted_by_key(b) && b.to_multiset() == body.to_multiset() && upsert_sql(
                                p.0,
                                text_pairs(b),
                            ) is Ok;
                        vstd::seq_lib::to_multiset_len(b);
                        vstd::seq_lib::to_multiset_len(body);
                    }
                }
                match self.source.execute_params(sql.as_str(), &values) {
                    Ok(n) => {
                        assert((*self.spec_source()).spec_execute_answer(
                            sql@,
                            texts(values@),
                            Ok::<usize, Error>(n),
                        ));
                        Ok(Vec::new())
                    },
                    Err(e) => Err(e),
                }
            },
            Err(e) => Err(e),
        };
        proof {
            assert(request_outcome(*self.spec_source(), plan0, r));
        }
        r
    }
}

} // verus!
