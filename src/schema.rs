//! A model of the database schema under the sink's DDL, and of the attempt loop over it.
use vstd::prelude::*;
use crate::ident::{clean_id_of, lemma_clean_id_idempotent};
use crate::recovery::RecoveryView;

verus! {

/// Tables of the database, each with the names of its columns.
pub type Schema = Map<Seq<char>, Set<Seq<char>>>;

/// What the DDL of a recovery does to the schema: `create table if not exists` and
/// `add column if not exists` on the cleaned names.
pub open spec fn apply_recovery(s: Schema, r: RecoveryView) -> Schema {
    match r {
        RecoveryView::CreateTable { table } => if s.contains_key(clean_id_of(table)) {
            s
        } else {
            s.insert(clean_id_of(table), set!["time"@])
        },
        RecoveryView::AddColumn { table, column, data_type } => if s.contains_key(clean_id_of(table)) {
            s.insert(clean_id_of(table), s[clean_id_of(table)].insert(clean_id_of(column)))
        } else {
            s
        },
        RecoveryView::Drop(_) => s,
    }
}

/// Running the DDL of a recovery twice leaves the schema as running it once.
pub proof fn lemma_ddl_idempotent(s: Schema, r: RecoveryView)
    ensures
        apply_recovery(apply_recovery(s, r), r) == apply_recovery(s, r),
{
    let once = apply_recovery(s, r);
    match r {
        RecoveryView::AddColumn { table, column, data_type } => {
            if s.contains_key(clean_id_of(table)) {
                let t = clean_id_of(table);
                assert(once[t].insert(clean_id_of(column)) =~= once[t]);
                assert(once.insert(t, once[t]) =~= once);
            }
        },
        _ => {},
    }
}

/// The first of `columns` that `present` lacks.
pub open spec fn first_missing(present: Set<Seq<char>>, columns: Seq<Seq<char>>) -> Option<Seq<char>>
    decreases columns.len(),
{
    if columns.len() == 0 {
        None
    } else if !present.contains(columns[0]) {
        Some(columns[0])
    } else {
        first_missing(present, columns.drop_first())
    }
}

/// How a COPY of `columns` into `table` fails on schema `s`: the recovery that the error
/// classifier derives from the server's error, none where the COPY opens.
pub open spec fn copy_failure(s: Schema, table: Seq<char>, columns: Seq<Seq<char>>) -> Option<RecoveryView> {
    if !s.contains_key(table) {
        Some(RecoveryView::CreateTable { table })
    } else {
        match first_missing(s[table], columns) {
            Some(c) => Some(RecoveryView::AddColumn { table, column: c, data_type: Seq::empty() }),
            None => None,
        }
    }
}

/// Number of `columns` that `present` lacks.
pub open spec fn count_missing(present: Set<Seq<char>>, columns: Seq<Seq<char>>) -> nat
    decreases columns.len(),
{
    if columns.len() == 0 {
        0
    } else {
        (if present.contains(columns[0]) { 0nat } else { 1nat }) + count_missing(present, columns.drop_first())
    }
}

/// The schema work left before a COPY of `columns` into `table` opens.
pub open spec fn work_left(s: Schema, table: Seq<char>, columns: Seq<Seq<char>>) -> nat {
    if s.contains_key(table) {
        count_missing(s[table], columns)
    } else {
        columns.len() + 1
    }
}

proof fn lemma_count_bounds(present: Set<Seq<char>>, columns: Seq<Seq<char>>)
    ensures
        count_missing(present, columns) <= columns.len(),
        first_missing(present, columns) is None ==> count_missing(present, columns) == 0,
    decreases columns.len(),
{
    if columns.len() > 0 {
        lemma_count_bounds(present, columns.drop_first());
    }
}

proof fn lemma_count_insert(present: Set<Seq<char>>, columns: Seq<Seq<char>>, c: Seq<char>)
    requires
        first_missing(present, columns) == Some(c),
    ensures
        count_missing(present.insert(c), columns) < count_missing(present, columns),
    decreases columns.len(),
{
    lemma_count_le_insert(present, columns.drop_first(), c);
    if columns.len() > 0 && present.contains(columns[0]) {
        lemma_count_insert(present, columns.drop_first(), c);
    }
}

proof fn lemma_count_le_insert(present: Set<Seq<char>>, columns: Seq<Seq<char>>, c: Seq<char>)
    ensures
        count_missing(present.insert(c), columns) <= count_missing(present, columns),
    decreases columns.len(),
{
    if columns.len() > 0 {
        lemma_count_le_insert(present, columns.drop_first(), c);
    }
}

/// Each recovery from a schema failure strictly reduces the work left.
pub proof fn lemma_recovery_progress(s: Schema, table: Seq<char>, columns: Seq<Seq<char>>)
    requires
        clean_id_of(table) == table,
        forall|i: int| 0 <= i < columns.len() ==> clean_id_of(#[trigger] columns[i]) == columns[i],
        copy_failure(s, table, columns) is Some,
    ensures
        work_left(apply_recovery(s, copy_failure(s, table, columns)->Some_0), table, columns) < work_left(s, table, columns),
{
    let s2 = apply_recovery(s, copy_failure(s, table, columns)->Some_0);
    if !s.contains_key(table) {
        lemma_count_bounds(set!["time"@], columns);
        assert(s2.contains_key(table));
        assert(s2[table] == set!["time"@]);
    } else {
        let c = first_missing(s[table], columns)->Some_0;
        lemma_first_missing_in(s[table], columns);
        let i = choose|i: int| 0 <= i < columns.len() && columns[i] == c;
        assert(clean_id_of(columns[i]) == columns[i]);
        assert(s2[table] == s[table].insert(c));
        lemma_count_insert(s[table], columns, c);
    }
}

proof fn lemma_first_missing_in(present: Set<Seq<char>>, columns: Seq<Seq<char>>)
    ensures
        first_missing(present, columns) is Some ==> exists|i: int| 0 <= i < columns.len() && columns[i] == first_missing(present, columns)->Some_0,
    decreases columns.len(),
{
    if columns.len() > 0 && present.contains(columns[0]) {
        lemma_first_missing_in(present, columns.drop_first());
        if first_missing(present, columns) is Some {
            let i = choose|i: int| 0 <= i < columns.drop_first().len() && columns.drop_first()[i] == first_missing(present, columns)->Some_0;
            assert(columns[i + 1] == columns.drop_first()[i]);
        }
    } else if columns.len() > 0 {
        assert(columns[0] == first_missing(present, columns)->Some_0);
    }
}

/// Number of COPY attempts of the loop that recovers from each schema failure and tries again.
pub open spec fn attempts(s: Schema, table: Seq<char>, columns: Seq<Seq<char>>) -> nat
    decreases work_left(s, table, columns),
{
    if clean_id_of(table) == table && (forall|i: int| 0 <= i < columns.len() ==> clean_id_of(#[trigger] columns[i]) == columns[i]) && copy_failure(s, table, columns) is Some {
        proof {
            lemma_recovery_progress(s, table, columns);
        }
        1 + attempts(apply_recovery(s, copy_failure(s, table, columns)->Some_0), table, columns)
    } else {
        1
    }
}

/// Schema after the attempt loop has run.
pub open spec fn final_schema(s: Schema, table: Seq<char>, columns: Seq<Seq<char>>) -> Schema
    decreases work_left(s, table, columns),
{
    if clean_id_of(table) == table && (forall|i: int| 0 <= i < columns.len() ==> clean_id_of(#[trigger] columns[i]) == columns[i]) && copy_failure(s, table, columns) is Some {
        proof {
            lemma_recovery_progress(s, table, columns);
        }
        final_schema(apply_recovery(s, copy_failure(s, table, columns)->Some_0), table, columns)
    } else {
        s
    }
}

/// Rows that one COPY attempt writes: none where the COPY fails to open, every row where it
/// opens.
pub open spec fn attempt_rows(s: Schema, table: Seq<char>, columns: Seq<Seq<char>>, rows: nat) -> nat {
    if copy_failure(s, table, columns) is Some {
        0
    } else {
        rows
    }
}

/// Rows that the attempt loop writes in all: the sum of what each of its attempts writes.
pub open spec fn rows_written(s: Schema, table: Seq<char>, columns: Seq<Seq<char>>, rows: nat) -> nat
    decreases work_left(s, table, columns),
{
    if clean_id_of(table) == table && (forall|i: int| 0 <= i < columns.len() ==> clean_id_of(#[trigger] columns[i]) == columns[i]) && copy_failure(s, table, columns) is Some {
        proof {
            lemma_recovery_progress(s, table, columns);
        }
        attempt_rows(s, table, columns, rows) + rows_written(apply_recovery(s, copy_failure(s, table, columns)->Some_0), table, columns, rows)
    } else {
        attempt_rows(s, table, columns, rows)
    }
}

proof fn lemma_attempts_converge(s: Schema, table: Seq<char>, columns: Seq<Seq<char>>)
    requires
        clean_id_of(table) == table,
        forall|i: int| 0 <= i < columns.len() ==> clean_id_of(#[trigger] columns[i]) == columns[i],
    ensures
        attempts(s, table, columns) <= work_left(s, table, columns) + 1,
        attempts(s, table, columns) <= columns.len() + 2,
        copy_failure(final_schema(s, table, columns), table, columns) is None,
        forall|rows: nat| #[trigger] rows_written(s, table, columns, rows) == rows,
    decreases work_left(s, table, columns),
{
    if s.contains_key(table) {
        lemma_count_bounds(s[table], columns);
    }
    if copy_failure(s, table, columns) is Some {
        lemma_recovery_progress(s, table, columns);
        let s2 = apply_recovery(s, copy_failure(s, table, columns)->Some_0);
        lemma_attempts_converge(s2, table, columns);
        assert forall|rows: nat| #[trigger] rows_written(s, table, columns, rows) == rows by {
            assert(attempt_rows(s, table, columns, rows) == 0);
            assert(rows_written(s, table, columns, rows) == rows_written(s2, table, columns, rows));
        }
    }
}

/// Each of `names`, cleaned.
pub open spec fn cleaned_names(names: Seq<Seq<char>>) -> Seq<Seq<char>> {
    names.map_values(|n: Seq<char>| clean_id_of(n))
}

/// From any schema, the attempt loop for a metric whose datums carry the dimension and
/// measurement `names` (its table and columns being the cleaned names) ends after at most one
/// attempt per name plus two, its last attempt opens the COPY, and the batch's rows are
/// written exactly once in all.
pub proof fn lemma_batch_converges(s: Schema, metric: Seq<char>, names: Seq<Seq<char>>)
    ensures
        attempts(s, clean_id_of(metric), cleaned_names(names)) <= names.len() + 2,
        copy_failure(
            final_schema(s, clean_id_of(metric), cleaned_names(names)),
            clean_id_of(metric),
            cleaned_names(names),
        ) is None,
        forall|rows: nat| #[trigger] rows_written(s, clean_id_of(metric), cleaned_names(names), rows) == rows,
{
    let table = clean_id_of(metric);
    let columns = cleaned_names(names);
    lemma_clean_id_idempotent(metric);
    assert forall|i: int| 0 <= i < columns.len() implies clean_id_of(#[trigger] columns[i]) == columns[i] by {
        lemma_clean_id_idempotent(names[i]);
    }
    lemma_attempts_converge(s, table, columns);
}

proof fn lemma_count_insert_absent(present: Set<Seq<char>>, columns: Seq<Seq<char>>, c: Seq<char>)
    requires
        !columns.contains(c),
    ensures
        count_missing(present.insert(c), columns) == count_missing(present, columns),
    decreases columns.len(),
{
    if columns.len() > 0 {
        assert(columns[0] != c);
        assert forall|x: Seq<char>| columns.drop_first().contains(x) implies columns.contains(x) by {
            let i = choose|i: int| 0 <= i < columns.drop_first().len() && columns.drop_first()[i] == x;
            assert(columns[i + 1] == x);
        }
        lemma_count_insert_absent(present, columns.drop_first(), c);
    }
}

proof fn lemma_count_insert_exact(present: Set<Seq<char>>, columns: Seq<Seq<char>>, c: Seq<char>)
    requires
        columns.no_duplicates(),
        columns.contains(c),
        !present.contains(c),
    ensures
        count_missing(present.insert(c), columns) + 1 == count_missing(present, columns),
    decreases columns.len(),
{
    let rest = columns.drop_first();
    assert(rest.no_duplicates()) by {
        assert forall|a: int, b: int| 0 <= a < rest.len() && 0 <= b < rest.len() && a != b implies rest[a] != rest[b] by {
            assert(rest[a] == columns[a + 1] && rest[b] == columns[b + 1]);
        }
    }
    if columns[0] == c {
        assert(!rest.contains(c)) by {
            if rest.contains(c) {
                let i = choose|i: int| 0 <= i < rest.len() && rest[i] == c;
                assert(columns[i + 1] == columns[0]);
            }
        }
        lemma_count_insert_absent(present, rest, c);
    } else {
        let i = choose|i: int| 0 <= i < columns.len() && columns[i] == c;
        assert(rest[i - 1] == c);
        lemma_count_insert_exact(present, rest, c);
    }
}

proof fn lemma_count_new_table(columns: Seq<Seq<char>>)
    requires
        !columns.contains("time"@),
    ensures
        count_missing(set!["time"@], columns) == columns.len(),
    decreases columns.len(),
{
    if columns.len() > 0 {
        assert(columns[0] != "time"@);
        assert(!columns.drop_first().contains("time"@)) by {
            if columns.drop_first().contains("time"@) {
                let i = choose|i: int| 0 <= i < columns.drop_first().len() && columns.drop_first()[i] == "time"@;
                assert(columns[i + 1] == "time"@);
            }
        }
        lemma_count_new_table(columns.drop_first());
    }
}

proof fn lemma_attempts_exact(s: Schema, table: Seq<char>, columns: Seq<Seq<char>>)
    requires
        clean_id_of(table) == table,
        forall|i: int| 0 <= i < columns.len() ==> clean_id_of(#[trigger] columns[i]) == columns[i],
        columns.no_duplicates(),
        !columns.contains("time"@),
    ensures
        attempts(s, table, columns) == work_left(s, table, columns) + 1,
    decreases work_left(s, table, columns),
{
    if s.contains_key(table) {
        lemma_count_bounds(s[table], columns);
    }
    if copy_failure(s, table, columns) is Some {
        lemma_recovery_progress(s, table, columns);
        let s2 = apply_recovery(s, copy_failure(s, table, columns)->Some_0);
        lemma_attempts_exact(s2, table, columns);
        if !s.contains_key(table) {
            assert(s2[table] == set!["time"@]);
            lemma_count_new_table(columns);
        } else {
            let c = first_missing(s[table], columns)->Some_0;
            lemma_first_missing_in(s[table], columns);
            lemma_first_missing_absent(s[table], columns);
            let i = choose|i: int| 0 <= i < columns.len() && columns[i] == c;
            assert(clean_id_of(columns[i]) == columns[i]);
            assert(s2[table] == s[table].insert(c));
            lemma_count_insert_exact(s[table], columns, c);
        }
    }
}

proof fn lemma_first_missing_absent(present: Set<Seq<char>>, columns: Seq<Seq<char>>)
    ensures
        first_missing(present, columns) is Some ==> !present.contains(first_missing(present, columns)->Some_0),
    decreases columns.len(),
{
    if columns.len() > 0 && present.contains(columns[0]) {
        lemma_first_missing_absent(present, columns.drop_first());
    }
}

/// Into a database without the metric's table, a batch whose cleaned names are distinct and
/// none of them `time` takes exactly two attempts more than it has names: one that fails on
/// the missing table, one per name that fails on its missing column, and the last, which
/// opens the COPY.
pub proof fn lemma_new_table_attempts(s: Schema, metric: Seq<char>, names: Seq<Seq<char>>)
    requires
        !s.contains_key(clean_id_of(metric)),
        cleaned_names(names).no_duplicates(),
        !cleaned_names(names).contains("time"@),
    ensures
        attempts(s, clean_id_of(metric), cleaned_names(names)) == names.len() + 2,
{
    let table = clean_id_of(metric);
    let columns = cleaned_names(names);
    lemma_clean_id_idempotent(metric);
    assert forall|i: int| 0 <= i < columns.len() implies clean_id_of(#[trigger] columns[i]) == columns[i] by {
        lemma_clean_id_idempotent(names[i]);
    }
    lemma_attempts_exact(s, table, columns);
}

} // verus!
