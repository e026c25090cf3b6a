//! Errors of the alias resolver and of a synchronisation run.

use vstd::prelude::*;
use vstd::string::*;

verus! {

/// What can go wrong when an alias is resolved to its physical index.
#[derive(Debug, Clone, Copy, PartialEq, Eq, Structural)]
pub enum ElasticError {
    /// The alias does not exist at all.
    NoAlias,
    /// The alias exists, but the listing of its indices came back empty.
    NoIndexFoundForAlias,
    /// More than one physical index carries the alias.
    MoreThanOneIndexFoundForAlias,
    /// An index of that name is already there.
    IndexAlreadyExists,
}

impl ElasticError {
    /// The text that stands for every error of the resolver.
    pub fn message(&self) -> (text: String)
        ensures
            text@ == "Elastic error.."@,
    {
        "Elastic error..".to_owned()
    }

    /// Whether a run may go on after this error: only a missing alias is
    /// expected (on a first run) and leads to the creation path.
    pub open spec fn spec_is_fatal(self) -> bool {
        self != ElasticError::NoAlias
    }

    #[verifier::when_used_as_spec(spec_is_fatal)]
    pub fn is_fatal(self) -> (fatal: bool)
        ensures
            fatal == self.spec_is_fatal(),
    {
        match self {
            ElasticError::NoAlias => false,
            _ => true,
        }
    }
}


/// Why a synchronisation run came to a halt.
#[derive(Debug, Clone, Copy, PartialEq, Eq, Structural)]
pub enum SyncError {
    /// The alias could not be resolved to one index. A missing alias is not
    /// among these: it leads to the creation of the index.
    Alias(ElasticError),
    /// A batch could not be fetched or enriched, or the source answered with
    /// a page that it does not owe. The watermark has not moved.
    FetchFailure,
    /// Documents were still not committed after the last attempt allowed.
    WriteFailure,
    /// The new physical index could not be created.
    IndexCreateFailure,
    /// The alias could not be moved to the new index. The old index, if any,
    /// still carries it; the new one stays for inspection.
    AliasSwapFailure,
    /// The alias was moved, but the old index could not be dropped.
    IndexDeleteFailure,
    /// An event arrived that does not answer the last action.
    UnexpectedEvent,
}

/// The step of a run at which it halted.
#[derive(Debug, Clone, Copy, PartialEq, Eq, Structural)]
pub enum Stage {
    Resolve,
    Create,
    Fetch,
    Write,
    Swap,
    Retire,
}

/// The end of a run that did not complete: what failed, at which step, and
/// the watermark at that moment, from which a later run may safely resume.
#[derive(Debug, Clone, Copy, PartialEq, Eq, Structural)]
pub struct Halt {
    pub error: SyncError,
    pub stage: Stage,
    pub watermark: u32,
}

} // verus!
