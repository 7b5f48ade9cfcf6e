//! The authorization gate: each statement variant names the minimum
//! permission tier it needs, and execution is refused before any
//! introspection work when the caller's tier falls short.

use crate::statement::InfoStatement;
use vstd::prelude::*;

verus! {

/// A permission tier: namespace-level authority outranks database-level.
#[derive(Clone, Copy, Debug, PartialEq, Eq, Structural)]
pub enum Level {
    Ns,
    Db,
}

impl Level {
    /// The tier's place in the order; a higher rank grants more.
    pub open spec fn rank(self) -> int {
        match self {
            Level::Ns => 2,
            Level::Db => 1,
        }
    }

    /// A holder of `self` may perform what `required` asks for.
    pub open spec fn permits(self, required: Level) -> bool {
        self.rank() >= required.rank()
    }
}

/// How executing a statement can fail.
#[derive(Clone, Copy, Debug, PartialEq, Eq, Structural)]
pub enum Error {
    /// The caller's permission tier falls short of what the statement needs;
    /// nothing was executed.
    NotPermitted,
    /// The permission check succeeded, but retrieving the metadata itself
    /// is work this library leaves to the surrounding runtime.
    Unimplemented,
}

/// The caller's execution options: the permission tier the request runs
/// under.
#[derive(Clone, Copy, Debug, PartialEq, Eq, Structural)]
pub struct Options {
    pub auth: Level,
}

impl Options {
    /// The single authorization check: succeeds exactly when the caller's
    /// tier meets the required one.
    pub fn check(&self, required: Level) -> (r: Result<(), Error>)
        ensures
            r is Ok <==> self.auth.permits(required),
            r is Err ==> r matches Err(Error::NotPermitted),
    {
        let permitted = match (self.auth, required) {
            (Level::Ns, _) => true,
            (Level::Db, Level::Db) => true,
            (Level::Db, Level::Ns) => false,
        };
        if permitted {
            Ok(())
        } else {
            Err(Error::NotPermitted)
        }
    }
}

impl InfoStatement {
    /// The minimum permission tier required to execute this statement.
    pub open spec fn required_level(self) -> Level {
        match self {
            InfoStatement::Namespace => Level::Ns,
            InfoStatement::Database => Level::Db,
            InfoStatement::Scope(_) => Level::Db,
            InfoStatement::Table(_) => Level::Db,
        }
    }

    /// Executes the statement under the caller's options: one authorization
    /// check against the variant's required tier, then delegation to the
    /// external introspection collaborator.
    ///
    /// Fail-closed and fail-fast: an under-privileged caller gets
    /// `Error::NotPermitted` and no introspection is attempted; a permitted
    /// caller reaches the delegation point, which reports
    /// `Error::Unimplemented`.
    pub fn compute<V>(&self, opt: &Options) -> (r: Result<V, Error>)
        ensures
            r is Err,
            (r matches Err(e) ==> (e is NotPermitted <==> !opt.auth.permits(
                self.required_level(),
            ))),
            (r matches Err(e) ==> (e is Unimplemented <==> opt.auth.permits(
                self.required_level(),
            ))),
    {
        let gate = match self {
            InfoStatement::Namespace => opt.check(Level::Ns),
            InfoStatement::Database => opt.check(Level::Db),
            InfoStatement::Scope(_) => opt.check(Level::Db),
            InfoStatement::Table(_) => opt.check(Level::Db),
        };
        match gate {
            Err(e) => Err(e),
            Ok(()) => Err(Error::Unimplemented),
        }
    }
}

} // verus!
