//! The schema versions of the two databases: a database written by another
//! version of the schema is refused.
use vstd::prelude::*;
use crate::text::{nat_digits, u64_text};

verus! {

/// The schema version of the transactions database.
pub const TRANSACTIONS_DB_SCHEMA_VERSION: u64 = 1;
/// The schema version of the assets database.
pub const ASSETS_DB_SCHEMA_VERSION: u64 = 1;

/// A database holds another schema version than the supported one.
#[derive(Debug, Clone, Copy, PartialEq, Eq, Structural)]
pub struct SchemaVersionMismatch {
    pub stored_version: u64,
    pub current_version: u64,
}

impl SchemaVersionMismatch {
    /// The text of the error, naming the database.
    pub fn message(&self, name: &str) -> (r: String)
        ensures
            r@ == name@ + " schema version "@ + nat_digits(self.stored_version as nat)
                + " does not match supported version "@ + nat_digits(self.current_version as nat),
    {
        let mut m = String::new();
        m.append(name);
        m.append(" schema version ");
        m.append(u64_text(self.stored_version).as_str());
        m.append(" does not match supported version ");
        m.append(u64_text(self.current_version).as_str());
        m
    }
}

/// Accepts a stored schema version only where it is the supported one.
pub fn ensure_database_schema_version(stored_version: u64, current_version: u64) -> (r: Result<(), SchemaVersionMismatch>)
    ensures
        r is Ok <==> stored_version == current_version,
        r matches Err(e) ==> e == (SchemaVersionMismatch { stored_version, current_version }),
{
    if stored_version != current_version {
        return Err(SchemaVersionMismatch { stored_version, current_version });
    }
    Ok(())
}

/// The text of the error for a database without a stored schema version.
pub fn missing_schema_version_message(name: &str) -> (r: String)
    ensures
        r@ == name@ + " is missing schema version"@,
{
    let mut m = String::new();
    m.append(name);
    m.append(" is missing schema version");
    m
}

} // verus!
