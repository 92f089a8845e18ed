//! The entity cache's notion of an entity, and the plugins configuration
//! object read from a guild's configuration.

use vstd::prelude::*;

verus! {

/// A cache entity.
pub trait Entity {
    /// The identifier of the entity.
    type Id;

    /// Returns the entity identifier.
    fn id(&self) -> Self::Id;
}

/// The plugins configuration object: an optional configuration object for
/// each of the management, modlog and utilities plugins.
pub struct Plugins<M, L, U> {
    pub management: Option<M>,
    pub modlog: Option<L>,
    pub utilities: Option<U>,
}

/// The error given for a configuration value that is not a table.
pub open spec fn mismatched_type_text(found_type: Seq<char>) -> Seq<char> {
    "Dashboard: mismatched value type, expected table, found: "@ + found_type
}

/// The error given for a configuration value that is not a table, naming
/// the value's type.
pub fn mismatched_type_message(found_type: &str) -> (r: String)
    ensures
        r@ == mismatched_type_text(found_type@),
{
    let mut message = String::from_str("Dashboard: mismatched value type, expected table, found: ");
    message.append(found_type);
    message
}

impl<M, L, U> Plugins<M, L, U> {
    /// The plugins configuration read from a table: the objects under the
    /// keys `management`, `modlog` and `utilities`, each absent when the
    /// table does not hold it.
    pub fn from_table_entries(management: Option<M>, modlog: Option<L>, utilities: Option<U>) -> (r: Self)
        ensures
            r.management == management,
            r.modlog == modlog,
            r.utilities == utilities,
    {
        Plugins { management, modlog, utilities }
    }
}

} // verus!
