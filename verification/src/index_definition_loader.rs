//! Builds index definitions that share a definitions directory and a prefix.

use crate::index_definition::{IndexDefinition, IndexIdentity};
use vstd::prelude::*;

verus! {

/// What every definition made by one loader has in common.
pub struct IndexDefinitionLoader {
    pub directory: String,
    pub index_prefix: String,
}

impl IndexDefinitionLoader {
    pub fn new(directory: String, index_prefix: String) -> (loader: Self)
        ensures
            loader.directory@ == directory@,
            loader.index_prefix@ == index_prefix@,
    {
        IndexDefinitionLoader { directory, index_prefix }
    }

    /// The definition of the index `index_name` on the domain `domain_id`.
    pub fn get_definition(self, index_name: String, domain_id: u8) -> (definition:
        IndexDefinition)
        ensures
            definition@ == (IndexIdentity {
                index_name: index_name@,
                definitions_directory: self.directory@,
                index_prefix: self.index_prefix@,
                domain_id: domain_id as int,
            }),
    {
        IndexDefinition {
            index_name,
            definitions_directory: self.directory,
            index_prefix: self.index_prefix,
            domain_id,
        }
    }
}

} // verus!
