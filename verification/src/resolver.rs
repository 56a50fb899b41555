//! End-of-run reconciliation: after the types and interfaces phases, any
//! name still referenced but never declared aborts the run with one
//! aggregate error listing every dangling reference site.

use vstd::prelude::*;

use crate::schema::{Hosts, InterfaceDeclResults, Schema, TypeDeclResults, UnknownType, Versioning};
use crate::tracker::{Tracker, tr_dangling};

verus! {

/// The aggregate terminal failure: every site that referenced a type
/// name no declaration ever matched, in first-mention order.
#[derive(Debug, PartialEq)]
pub struct MissingTypeDeclError {
    pub list: Vec<UnknownType>,
}

/// Reconcile the usage tracker at the end of a run: succeed exactly when
/// no reference is left dangling.
pub fn reconcile(types_usage: &Tracker) -> (r: Result<(), MissingTypeDeclError>)
    ensures
        match r {
            Ok(_) => tr_dangling(types_usage@).len() == 0,
            Err(e) => e.list@ == tr_dangling(types_usage@) && e.list@.len() > 0,
        },
{
    let missing = types_usage.dangling();
    if missing.len() == 0 {
        Ok(())
    } else {
        Err(MissingTypeDeclError { list: missing })
    }
}

/// Assemble the final schema, reconciling the tracker first: a run
/// either completes with a full schema or fails with the aggregate
/// error; partial results are discarded on failure.
pub fn assemble(
    hosts: Hosts,
    versioning: Versioning,
    types: TypeDeclResults,
    interfaces: InterfaceDeclResults,
    types_usage: &Tracker,
) -> (r: Result<Schema, MissingTypeDeclError>)
    ensures
        match r {
            Ok(s) => {
                &&& tr_dangling(types_usage@).len() == 0
                &&& s == (Schema { hosts, versioning, types, interfaces })
            },
            Err(e) => e.list@ == tr_dangling(types_usage@) && e.list@.len() > 0,
        },
{
    match reconcile(types_usage) {
        Ok(_) => Ok(Schema { hosts, versioning, types, interfaces }),
        Err(e) => Err(e),
    }
}

} // verus!
