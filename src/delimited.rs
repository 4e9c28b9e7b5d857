use vstd::prelude::*;

use crate::error::AppError;
use crate::fields_subset::{initial_state, observe, project_row, FieldsSubset, FileData, FileState, KindModel};

verus! {

/// The rows that re-emitting `rows` writes out, resolution state `fd` in
/// hand, or the first error.
pub open spec fn reemit_from(
    kind: KindModel,
    fd: FileState,
    rows: Seq<Seq<Seq<char>>>,
    is_first_row: bool,
) -> Result<Seq<Seq<Seq<char>>>, Seq<char>>
    decreases rows.len(),
{
    if rows.len() == 0 {
        Ok(Seq::empty())
    } else {
        match observe(kind, fd, rows[0], is_first_row) {
            Err(e) => Err(e),
            Ok(f) => match reemit_from(kind, f, rows.drop_first(), false) {
                Err(e) => Err(e),
                Ok(rest) => Ok(seq![project_row(kind, f, rows[0])] + rest),
            },
        }
    }
}

/// The rows that re-emitting a whole input writes out.
pub open spec fn reemit_all(kind: KindModel, rows: Seq<Seq<Seq<char>>>) -> Result<
    Seq<Seq<Seq<char>>>,
    Seq<char>,
> {
    reemit_from(kind, initial_state(kind), rows, true)
}

/// The fields to write for one input row: resolution moved on by the row,
/// then the row projected.
pub fn reemit_row(subset: &FieldsSubset, file_data: &mut FileData, row: Vec<String>, is_first_row: bool) -> (r:
    Result<Vec<String>, AppError>)
    ensures
        match observe(subset@, old(file_data)@, row.deep_view(), is_first_row) {
            Ok(s) => r is Ok && final(file_data)@ == s && r->Ok_0.deep_view() == project_row(
                subset@,
                s,
                row.deep_view(),
            ),
            Err(e) => r is Err && r->Err_0@ == e,
        },
{
    match subset.set_from_row(file_data, &row, is_first_row) {
        Ok(()) => {},
        Err(e) => return Err(e),
    }
    Ok(subset.transform_row(file_data, row))
}

proof fn lemma_reemit_from_all(fd: FileState, rows: Seq<Seq<Seq<char>>>, is_first_row: bool)
    ensures
        reemit_from(KindModel::All, fd, rows, is_first_row) == Ok::<Seq<Seq<Seq<char>>>, Seq<char>>(rows),
    decreases rows.len(),
{
    if rows.len() > 0 {
        lemma_reemit_from_all(fd, rows.drop_first(), false);
        assert(seq![rows[0]] + rows.drop_first() =~= rows);
    } else {
        assert(rows =~= Seq::empty());
    }
}

/// Without a projection, re-emitting an input writes every row with exactly
/// the fields it was read with.
pub proof fn lemma_reemit_round_trip(rows: Seq<Seq<Seq<char>>>)
    ensures
        reemit_all(KindModel::All, rows) == Ok::<Seq<Seq<Seq<char>>>, Seq<char>>(rows),
{
    lemma_reemit_from_all(initial_state(KindModel::All), rows, true);
}

/// An input without rows re-emits no rows.
pub proof fn lemma_reemit_empty(kind: KindModel)
    ensures
        reemit_all(kind, Seq::empty()) == Ok::<Seq<Seq<Seq<char>>>, Seq<char>>(Seq::empty()),
{
}

} // verus!
