//! The shape that a store must have to be read or written.

use crate::error::CliError;
use crate::model::{Db, DbView};
use vstd::prelude::*;

verus! {

/// Whether a store has the one version there is and counters that start
/// at 1 or above.
pub open spec fn shape_ok(db: DbView) -> bool {
    &&& db.version == 1
    &&& db.meta.next_habit_number >= 1
    &&& db.meta.next_declaration_number >= 1
    &&& db.meta.next_excuse_number >= 1
    &&& db.meta.next_penalty_rule_number >= 1
}

/// Checks the shape of a store.
pub fn validate_db_shape(db: &Db) -> (r: Result<(), CliError>)
    ensures
        r is Ok <==> shape_ok(db@),
        r is Err ==> r->Err_0.exit_code == crate::error::EXIT_IO && r->Err_0.message@
            == "DB corrupted"@,
{
    if db.version != 1 {
        return Err(CliError::io("DB corrupted"));
    }
    if db.meta.next_habit_number < 1 || db.meta.next_declaration_number < 1
        || db.meta.next_excuse_number < 1 || db.meta.next_penalty_rule_number < 1 {
        return Err(CliError::io("DB corrupted"));
    }
    Ok(())
}

} // verus!
