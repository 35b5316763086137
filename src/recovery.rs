//! What the sink does after a failed write attempt, and the DDL it issues.
use vstd::prelude::*;
use vstd::string::StringExecFns;
use crate::ident::{clean_id, clean_id_of};
use crate::order::compare_names;
use crate::errors::{PostgresError, PostgresErrorView, SinkError, SinkErrorView, insufficient_privilege_code};

verus! {

/// Why a batch is dropped.
#[derive(Clone, Copy, Debug, PartialEq, Eq, Structural)]
pub enum DropReason {
    PermissionDenied,
    UnhandledDb,
    WrongType,
    Transient,
    Described,
    Unhandled,
}

/// The step that follows a failed attempt.
pub enum Recovery {
    AddColumn { table: String, column: String, data_type: String },
    CreateTable { table: String },
    Drop(DropReason),
}

pub enum RecoveryView {
    AddColumn { table: Seq<char>, column: Seq<char>, data_type: Seq<char> },
    CreateTable { table: Seq<char> },
    Drop(DropReason),
}

impl View for Recovery {
    type V = RecoveryView;

    open spec fn view(&self) -> RecoveryView {
        match self {
            Recovery::AddColumn { table, column, data_type } => RecoveryView::AddColumn { table: table@, column: column@, data_type: data_type@ },
            Recovery::CreateTable { table } => RecoveryView::CreateTable { table: table@ },
            Recovery::Drop(r) => RecoveryView::Drop(*r),
        }
    }
}

/// The recovery for each kind of error: a missing column or table is created, everything
/// else drops the batch.
pub open spec fn recovery_of(e: SinkErrorView) -> RecoveryView {
    match e {
        SinkErrorView::MissingColumn { table, column, data_type } => RecoveryView::AddColumn { table, column, data_type },
        SinkErrorView::MissingTable { table } => RecoveryView::CreateTable { table },
        SinkErrorView::Postgres(PostgresErrorView::Db { code, message }) => if code == insufficient_privilege_code() {
            RecoveryView::Drop(DropReason::PermissionDenied)
        } else {
            RecoveryView::Drop(DropReason::UnhandledDb)
        },
        SinkErrorView::Postgres(PostgresErrorView::WrongType { .. }) => RecoveryView::Drop(DropReason::WrongType),
        SinkErrorView::Postgres(PostgresErrorView::Other { .. }) => RecoveryView::Drop(DropReason::Transient),
        SinkErrorView::DescribedError { .. } => RecoveryView::Drop(DropReason::Described),
        SinkErrorView::StringError { .. } => RecoveryView::Drop(DropReason::Unhandled),
    }
}

/// Decides what follows a failed attempt.
pub fn recovery_for(e: SinkError) -> (r: Recovery)
    ensures
        r@ == recovery_of(e@),
{
    match e {
        SinkError::MissingColumn(m) => Recovery::AddColumn { table: m.table, column: m.column, data_type: m.data_type },
        SinkError::MissingTable(m) => Recovery::CreateTable { table: m.table },
        SinkError::Postgres(PostgresError::Db { code, message }) => {
            if compare_names(code.as_str(), "42501") == 0 {
                Recovery::Drop(DropReason::PermissionDenied)
            } else {
                Recovery::Drop(DropReason::UnhandledDb)
            }
        },
        SinkError::Postgres(PostgresError::WrongType { .. }) => Recovery::Drop(DropReason::WrongType),
        SinkError::Postgres(PostgresError::Other { .. }) => Recovery::Drop(DropReason::Transient),
        SinkError::DescribedError(_) => Recovery::Drop(DropReason::Described),
        SinkError::StringError(_) => Recovery::Drop(DropReason::Unhandled),
    }
}

/// Another attempt follows exactly when the recovery was DDL and that DDL succeeded.
pub fn should_retry(r: &Recovery, ddl_succeeded: bool) -> (retry: bool)
    ensures
        retry == (ddl_succeeded && !(r@ is Drop)),
{
    match r {
        Recovery::Drop(_) => false,
        _ => ddl_succeeded,
    }
}

pub open spec fn create_table_statement_of(table: Seq<char>) -> Seq<char> {
    "create table if not exists "@ + clean_id_of(table) + " (time timestamptz not null)"@
}

pub open spec fn add_column_statement_of(table: Seq<char>, column: Seq<char>, data_type: Seq<char>) -> Seq<char> {
    "alter table "@ + clean_id_of(table) + " add column if not exists "@ + clean_id_of(column) + " "@ + data_type
}

/// `create table if not exists <table> (time timestamptz not null)`.
pub fn create_table_statement(table: &str) -> (r: String)
    ensures
        r@ == create_table_statement_of(table@),
{
    let mut r = String::from_str("create table if not exists ");
    r.append(clean_id(table).as_str());
    r.append(" (time timestamptz not null)");
    r
}

/// `alter table <table> add column if not exists <column> <data_type>`.
pub fn add_column_statement(table: &str, column: &str, data_type: &str) -> (r: String)
    ensures
        r@ == add_column_statement_of(table@, column@, data_type@),
{
    let mut r = String::from_str("alter table ");
    r.append(clean_id(table).as_str());
    r.append(" add column if not exists ");
    r.append(clean_id(column).as_str());
    r.append(" ");
    r.append(data_type);
    r
}

/// The DDL that a recovery issues, none for a drop.
pub fn recovery_statement(r: &Recovery) -> (s: Option<String>)
    ensures
        match r@ {
            RecoveryView::AddColumn { table, column, data_type } => s is Some && s->Some_0@ == add_column_statement_of(table, column, data_type),
            RecoveryView::CreateTable { table } => s is Some && s->Some_0@ == create_table_statement_of(table),
            RecoveryView::Drop(_) => s is None,
        },
{
    match r {
        Recovery::AddColumn { table, column, data_type } => Some(add_column_statement(table.as_str(), column.as_str(), data_type.as_str())),
        Recovery::CreateTable { table } => Some(create_table_statement(table.as_str())),
        Recovery::Drop(_) => None,
    }
}

/// Creates the composite type `statistic_set`, doing nothing where it exists.
pub fn statistic_set_type_statement() -> (r: &'static str)
    ensures
        r@ == "do $$ begin create type statistic_set as (minimum float8, maximum float8, samplesum float8, samplecount int8); exception when duplicate_object then null; end $$"@,
{
    "do $$ begin create type statistic_set as (minimum float8, maximum float8, samplesum float8, samplecount int8); exception when duplicate_object then null; end $$"
}

/// Creates the type `histogram`, a domain over jsonb, doing nothing where it exists.
pub fn histogram_type_statement() -> (r: &'static str)
    ensures
        r@ == "do $$ begin create domain histogram as jsonb; exception when duplicate_object then null; end $$"@,
{
    "do $$ begin create domain histogram as jsonb; exception when duplicate_object then null; end $$"
}

} // verus!
