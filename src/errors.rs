//! Errors of a write attempt, their classification, and the recovery that each calls for.
use vstd::prelude::*;
use crate::ident::{clean_id, clean_id_of};
use vstd::string::StringExecFns;
use crate::order::compare_names;
use crate::types::{SqlType, Dimension, Measurement, Datum};
use crate::type_conversion::{TypeConverter, dimension_type_of, measurement_type_of};

verus! {

/// A failure reported by the database client, as plain values.
pub enum PostgresError {
    /// The server answered with an SQLSTATE code and a message.
    Db { code: String, message: String },
    /// A value of the row did not fit the column's type on the client side.
    WrongType { message: String },
    /// Any other client or transport failure.
    Other { message: String },
}

pub enum PostgresErrorView {
    Db { code: Seq<char>, message: Seq<char> },
    WrongType { message: Seq<char> },
    Other { message: Seq<char> },
}

impl View for PostgresError {
    type V = PostgresErrorView;

    open spec fn view(&self) -> PostgresErrorView {
        match self {
            PostgresError::Db { code, message } => PostgresErrorView::Db { code: code@, message: message@ },
            PostgresError::WrongType { message } => PostgresErrorView::WrongType { message: message@ },
            PostgresError::Other { message } => PostgresErrorView::Other { message: message@ },
        }
    }
}

pub struct DescribedError {
    pub message: String,
    pub inner: PostgresError,
}

pub struct StringError {
    pub message: String,
}

pub struct MissingTable {
    pub table: String,
}

pub struct MissingColumn {
    pub table: String,
    pub column: String,
    pub data_type: String,
}

/// Why a write attempt failed.
pub enum SinkError {
    Postgres(PostgresError),
    DescribedError(DescribedError),
    StringError(StringError),
    MissingColumn(MissingColumn),
    MissingTable(MissingTable),
}

pub enum SinkErrorView {
    Postgres(PostgresErrorView),
    DescribedError { message: Seq<char>, inner: PostgresErrorView },
    StringError { message: Seq<char> },
    MissingColumn { table: Seq<char>, column: Seq<char>, data_type: Seq<char> },
    MissingTable { table: Seq<char> },
}

impl View for SinkError {
    type V = SinkErrorView;

    open spec fn view(&self) -> SinkErrorView {
        match self {
            SinkError::Postgres(e) => SinkErrorView::Postgres(e@),
            SinkError::DescribedError(e) => SinkErrorView::DescribedError { message: e.message@, inner: e.inner@ },
            SinkError::StringError(e) => SinkErrorView::StringError { message: e.message@ },
            SinkError::MissingColumn(e) => SinkErrorView::MissingColumn { table: e.table@, column: e.column@, data_type: e.data_type@ },
            SinkError::MissingTable(e) => SinkErrorView::MissingTable { table: e.table@ },
        }
    }
}

/// SQLSTATE of an undefined column.
pub open spec fn undefined_column_code() -> Seq<char> {
    "42703"@
}

/// SQLSTATE of an undefined table.
pub open spec fn undefined_table_code() -> Seq<char> {
    "42P01"@
}

/// SQLSTATE of a missing privilege.
pub open spec fn insufficient_privilege_code() -> Seq<char> {
    "42501"@
}

pub open spec fn undefined_column_pattern() -> Seq<char> {
    "column \"(.+)\" of relation \"(.+)\" does not exist"@
}

pub open spec fn undefined_table_pattern() -> Seq<char> {
    "relation \"(.+)\" does not exist"@
}

/// What the regex crate captures of `text` with `pattern`: the whole match, then each group.
pub uninterp spec fn regex_groups(pattern: Seq<char>, text: Seq<char>) -> Option<Seq<Seq<char>>>;

pub open spec fn groups_view(g: Option<Vec<String>>) -> Option<Seq<Seq<char>>> {
    match g {
        Some(v) => Some(v@.map_values(|s: String| s@)),
        None => None,
    }
}

/// Relies on regex::Regex::new and Regex::captures: the groups of the leftmost match of
/// `pattern` in `text`, none where the pattern does not compile or does not match.
#[verifier::external_body]
fn capture_groups(pattern: &str, text: &str) -> (r: Option<Vec<String>>)
    ensures
        groups_view(r) == regex_groups(pattern@, text@),
{
    match regex::Regex::new(pattern) {
        Ok(re) => re.captures(text).map(|c| {
            c.iter().map(|g| g.map_or(String::new(), |m| m.as_str().to_string())).collect()
        }),
        Err(_) => None,
    }
}

/// Name of a column type in DDL; histograms travel as JSONB into columns of the `histogram`
/// type, a domain over jsonb.
pub open spec fn sql_type_name(t: SqlType) -> Seq<char> {
    match t {
        SqlType::Timestamptz => "timestamptz"@,
        SqlType::Text => "text"@,
        SqlType::Int8 => "int8"@,
        SqlType::Bool => "boolean"@,
        SqlType::Int4 => "int4"@,
        SqlType::Float8 => "float8"@,
        SqlType::Float4 => "float4"@,
        SqlType::StatisticSet => "statistic_set"@,
        SqlType::Jsonb => "histogram"@,
    }
}

/// Name of a column type in DDL.
pub fn sql_type_string(t: SqlType) -> (r: &'static str)
    ensures
        r@ == sql_type_name(t),
{
    match t {
        SqlType::Timestamptz => "timestamptz",
        SqlType::Text => "text",
        SqlType::Int8 => "int8",
        SqlType::Bool => "boolean",
        SqlType::Int4 => "int4",
        SqlType::Float8 => "float8",
        SqlType::Float4 => "float4",
        SqlType::StatisticSet => "statistic_set",
        SqlType::Jsonb => "histogram",
    }
}

/// DDL type name of a measurement that carries a value.
pub fn sql_data_type_string(measurement: &Measurement) -> (r: &'static str)
    requires
        measurement.value is Some,
    ensures
        r@ == sql_type_name(measurement_type_of(*measurement)->Some_0),
{
    match TypeConverter::new().measurement_sql_type(measurement) {
        Some(t) => sql_type_string(t),
        None => sql_type_string(SqlType::Float8),
    }
}

/// DDL type name of a dimension that carries a value.
pub fn sql_dimension_type_string(dimension: &Dimension) -> (r: &'static str)
    requires
        dimension.value is Some,
    ensures
        r@ == sql_type_name(dimension_type_of(*dimension)->Some_0),
{
    match TypeConverter::new().dimension_sql_type(dimension) {
        Some(t) => sql_type_string(t),
        None => sql_type_string(SqlType::Text),
    }
}

/// Index of the last entry of `entries` whose cleaned name is `column`.
pub open spec fn last_column_index_of<V>(entries: Seq<(String, V)>, column: Seq<char>) -> Option<int>
    decreases entries.len(),
{
    if entries.len() == 0 {
        None
    } else if clean_id_of(entries.last().0@) == column {
        Some(entries.len() - 1)
    } else {
        last_column_index_of(entries.drop_last(), column)
    }
}

fn find_last_column<V>(entries: &Vec<(String, V)>, column: &String) -> (r: Option<usize>)
    ensures
        match r {
            Some(i) => i < entries@.len() && last_column_index_of(entries@, column@) == Some(i as int),
            None => last_column_index_of(entries@, column@) is None,
        },
{
    let mut found: Option<usize> = None;
    let mut j: usize = 0;
    while j < entries.len()
        invariant
            j <= entries@.len(),
            match found {
                Some(i) => i < j && last_column_index_of(entries@.subrange(0, j as int), column@) == Some(i as int),
                None => last_column_index_of(entries@.subrange(0, j as int), column@) is None,
            },
        decreases entries@.len() - j,
    {
        let ghost pre = entries@.subrange(0, j as int + 1);
        assert(pre.drop_last() =~= entries@.subrange(0, j as int));
        let cleaned = clean_id(entries[j].0.as_str());
        if compare_names(cleaned.as_str(), column.as_str()) == 0 {
            found = Some(j);
        }
        j = j + 1;
    }
    assert(entries@.subrange(0, j as int) =~= entries@);
    found
}

/// The type that one datum gives the table column `column`: that of its dimension whose
/// cleaned name is `column` if it has a value, else that of its measurement whose cleaned
/// name is `column`.
pub open spec fn datum_column_type(d: Datum, column: Seq<char>) -> Option<SqlType> {
    let dt = match last_column_index_of(d.dimensions@, column) {
        Some(i) => dimension_type_of(d.dimensions@[i].1),
        None => None,
    };
    if dt is Some {
        dt
    } else {
        match last_column_index_of(d.measurements@, column) {
            Some(i) => measurement_type_of(d.measurements@[i].1),
            None => None,
        }
    }
}

/// The type of `column` in the first datum that gives it one.
pub open spec fn batch_column_type(datums: Seq<Datum>, column: Seq<char>) -> Option<SqlType>
    decreases datums.len(),
{
    if datums.len() == 0 {
        None
    } else if datum_column_type(datums[0], column) is Some {
        datum_column_type(datums[0], column)
    } else {
        batch_column_type(datums.drop_first(), column)
    }
}

/// The type that `datums` give the table column `column`: the first datum with a typed
/// dimension, or else a typed measurement, whose cleaned name is `column` decides.
pub fn column_type_in_batch(datums: &[Datum], column: &String) -> (r: Option<SqlType>)
    ensures
        r == batch_column_type(datums@, column@),
{
    let type_converter = TypeConverter::new();
    let n = datums.len();
    let mut i: usize = 0;
    assert(datums@.subrange(0, n as int) =~= datums@);
    while i < n
        invariant
            i <= n,
            n == datums@.len(),
            batch_column_type(datums@, column@) == batch_column_type(datums@.subrange(i as int, n as int), column@),
        decreases n - i,
    {
        let d = &datums[i];
        let ghost rest = datums@.subrange(i as int, n as int);
        assert(rest[0] == *d);
        assert(rest.drop_first() =~= datums@.subrange(i as int + 1, n as int));
        let mut found: Option<SqlType> = None;
        match find_last_column(&d.dimensions, column) {
            Some(k) => {
                found = type_converter.dimension_sql_type(&d.dimensions[k].1);
            },
            None => {},
        }
        if found.is_none() {
            match find_last_column(&d.measurements, column) {
                Some(k) => {
                    found = type_converter.measurement_sql_type(&d.measurements[k].1);
                },
                None => {},
            }
        }
        assert(found == datum_column_type(*d, column@));
        if found.is_some() {
            return found;
        }
        i = i + 1;
    }
    None
}

/// The error for an undefined column, given the groups captured from the server's message:
/// a missing column with the type that the batch gives it, a described error where the batch
/// gives it none, the database error itself where the message did not match.
pub open spec fn missing_column_error_of(err: PostgresErrorView, groups: Option<Seq<Seq<char>>>, datums: Seq<Datum>) -> SinkErrorView {
    match groups {
        Some(g) => if g.len() >= 3 {
            match batch_column_type(datums, g[1]) {
                Some(t) => SinkErrorView::MissingColumn { table: g[2], column: g[1], data_type: sql_type_name(t) },
                None => SinkErrorView::DescribedError { message: "Type not foud, can't add column"@, inner: err },
            }
        } else {
            SinkErrorView::Postgres(err)
        },
        None => SinkErrorView::Postgres(err),
    }
}

/// The error for an undefined table, given the groups captured from the server's message.
pub open spec fn missing_table_error_of(err: PostgresErrorView, groups: Option<Seq<Seq<char>>>) -> SinkErrorView {
    match groups {
        Some(g) => if g.len() >= 2 {
            SinkErrorView::MissingTable { table: g[1] }
        } else {
            SinkErrorView::Postgres(err)
        },
        None => SinkErrorView::Postgres(err),
    }
}

/// How a failure to open the COPY is classified.
pub open spec fn classified_open_error(err: PostgresErrorView, datums: Seq<Datum>) -> SinkErrorView {
    match err {
        PostgresErrorView::Db { code, message } => if code == undefined_column_code() {
            missing_column_error_of(err, regex_groups(undefined_column_pattern(), message), datums)
        } else if code == undefined_table_code() {
            missing_table_error_of(err, regex_groups(undefined_table_pattern(), message))
        } else {
            SinkErrorView::Postgres(err)
        },
        _ => SinkErrorView::Postgres(err),
    }
}

fn group_at(g: &Vec<String>, i: usize) -> (r: String)
    requires
        i < g@.len(),
    ensures
        r@ == g@[i as int]@,
{
    g[i].clone()
}

/// Builds the error for an undefined column from the groups captured from the message.
pub fn missing_column_error(err: PostgresError, groups: Option<Vec<String>>, datums: &[Datum]) -> (r: SinkError)
    ensures
        r@ == missing_column_error_of(err@, groups_view(groups), datums@),
{
    match groups {
        Some(g) => {
            if g.len() >= 3 {
                let column = group_at(&g, 1);
                let table = group_at(&g, 2);
                match column_type_in_batch(datums, &column) {
                    Some(t) => SinkError::MissingColumn(MissingColumn {
                        table,
                        column,
                        data_type: String::from_str(sql_type_string(t)),
                    }),
                    None => SinkError::DescribedError(DescribedError {
                        message: String::from_str("Type not foud, can't add column"),
                        inner: err,
                    }),
                }
            } else {
                SinkError::Postgres(err)
            }
        },
        None => SinkError::Postgres(err),
    }
}

/// Builds the error for an undefined table from the groups captured from the message.
pub fn missing_table_error(err: PostgresError, groups: Option<Vec<String>>) -> (r: SinkError)
    ensures
        r@ == missing_table_error_of(err@, groups_view(groups)),
{
    match groups {
        Some(g) => {
            if g.len() >= 2 {
                SinkError::MissingTable(MissingTable { table: group_at(&g, 1) })
            } else {
                SinkError::Postgres(err)
            }
        },
        None => SinkError::Postgres(err),
    }
}

/// Classifies a failure to open the COPY of `datums`: an undefined column or table becomes a
/// structured error naming it; anything else stays a database error.
pub fn classify_open_error(err: PostgresError, datums: &[Datum]) -> (r: SinkError)
    ensures
        r@ == classified_open_error(err@, datums@),
{
    let mut column_groups: Option<Option<Vec<String>>> = None;
    let mut table_groups: Option<Option<Vec<String>>> = None;
    match &err {
        PostgresError::Db { code, message } => {
            if compare_names(code.as_str(), "42703") == 0 {
                column_groups = Some(capture_groups("column \"(.+)\" of relation \"(.+)\" does not exist", message.as_str()));
            } else if compare_names(code.as_str(), "42P01") == 0 {
                table_groups = Some(capture_groups("relation \"(.+)\" does not exist", message.as_str()));
            }
        },
        _ => {},
    }
    match column_groups {
        Some(g) => missing_column_error(err, g, datums),
        None => match table_groups {
            Some(g) => missing_table_error(err, g),
            None => SinkError::Postgres(err),
        },
    }
}

/// What `{:?}` writes for a string: the text quoted, with quotes, backslashes and control
/// chars escaped.
pub uninterp spec fn debug_quoted(s: Seq<char>) -> Seq<char>;

/// Relies on `<str as Debug>::fmt`: the quoted, escaped form of the text.
#[verifier::external_body]
fn quoted(s: &str) -> (r: String)
    ensures
        r@ == debug_quoted(s@),
{
    format!("{:?}", s)
}

impl DescribedError {
    /// `DescribedError { message: "..", cause: .. }`, the cause as the database's message.
    pub fn describe(&self) -> (r: String)
        ensures
            r@ == "DescribedError { message: "@ + debug_quoted(self.message@) + ", cause: "@ + debug_quoted(self.inner.message_of()) + " }"@,
    {
        let mut r = String::from_str("DescribedError { message: ");
        r.append(quoted(self.message.as_str()).as_str());
        r.append(", cause: ");
        r.append(quoted(self.inner.message()).as_str());
        r.append(" }");
        r
    }
}

impl PostgresError {
    pub open spec fn message_of(&self) -> Seq<char> {
        match self {
            PostgresError::Db { message, .. } => message@,
            PostgresError::WrongType { message } => message@,
            PostgresError::Other { message } => message@,
        }
    }

    /// The message that came with the failure.
    pub fn message(&self) -> (r: &str)
        ensures
            r@ == self.message_of(),
    {
        match self {
            PostgresError::Db { message, .. } => message.as_str(),
            PostgresError::WrongType { message } => message.as_str(),
            PostgresError::Other { message } => message.as_str(),
        }
    }
}

impl StringError {
    /// `StringError { message: ".." }`.
    pub fn describe(&self) -> (r: String)
        ensures
            r@ == "StringError { message: "@ + debug_quoted(self.message@) + " }"@,
    {
        let mut r = String::from_str("StringError { message: ");
        r.append(quoted(self.message.as_str()).as_str());
        r.append(" }");
        r
    }
}

impl MissingTable {
    /// `MissingTable { table: ".." }`.
    pub fn describe(&self) -> (r: String)
        ensures
            r@ == "MissingTable { table: "@ + debug_quoted(self.table@) + " }"@,
    {
        let mut r = String::from_str("MissingTable { table: ");
        r.append(quoted(self.table.as_str()).as_str());
        r.append(" }");
        r
    }
}

impl MissingColumn {
    /// `MissingColumn { table: "..", column: ".." }`.
    pub fn describe(&self) -> (r: String)
        ensures
            r@ == "MissingColumn { table: "@ + debug_quoted(self.table@) + ", column: "@ + debug_quoted(self.column@) + " }"@,
    {
        let mut r = String::from_str("MissingColumn { table: ");
        r.append(quoted(self.table.as_str()).as_str());
        r.append(", column: ");
        r.append(quoted(self.column.as_str()).as_str());
        r.append(" }");
        r
    }
}

impl SinkError {
    /// One line that says what kind of error this is.
    pub fn describe(&self) -> (r: &'static str)
        ensures
            r@ == (match self {
                SinkError::Postgres(_) => "unhandled postgres error"@,
                SinkError::DescribedError(_) => "Some postgres error with a description"@,
                SinkError::StringError(_) => "unhandled error"@,
                SinkError::MissingColumn(_) => "i gotta have more column"@,
                SinkError::MissingTable(_) => "i gotta have more table"@,
            }),
    {
        match self {
            SinkError::Postgres(_) => "unhandled postgres error",
            SinkError::DescribedError(_) => "Some postgres error with a description",
            SinkError::StringError(_) => "unhandled error",
            SinkError::MissingColumn(_) => "i gotta have more column",
            SinkError::MissingTable(_) => "i gotta have more table",
        }
    }
}

} // verus!
