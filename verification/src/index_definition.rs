//! The identity of a logical index and the names derived from it.

use crate::text::{decimal, u8_to_string};
use vstd::prelude::*;
use vstd::string::*;

verus! {

/// The identity of a logical index, as contracts see it.
pub struct IndexIdentity {
    pub index_name: Seq<char>,
    pub definitions_directory: Seq<char>,
    pub index_prefix: Seq<char>,
    pub domain_id: int,
}

/// A logical index: its name, the tenant (domain) it serves, an optional
/// prefix shared by an installation, and the directory that holds its
/// structural definition.
pub struct IndexDefinition {
    pub index_name: String,
    pub definitions_directory: String,
    pub index_prefix: String,
    pub domain_id: u8,
}

impl View for IndexDefinition {
    type V = IndexIdentity;

    open spec fn view(&self) -> IndexIdentity {
        IndexIdentity {
            index_name: self.index_name@,
            definitions_directory: self.definitions_directory@,
            index_prefix: self.index_prefix@,
            domain_id: self.domain_id as int,
        }
    }
}

impl Clone for IndexDefinition {
    fn clone(&self) -> (copy: Self)
        ensures
            copy@ == self@,
    {
        IndexDefinition {
            index_name: self.index_name.clone(),
            definitions_directory: self.definitions_directory.clone(),
            index_prefix: self.index_prefix.clone(),
            domain_id: self.domain_id,
        }
    }
}

impl IndexIdentity {
    /// The alias: `name_domain`, or `prefix_name_domain` where a prefix is set.
    pub open spec fn alias(self) -> Seq<char> {
        if self.index_prefix.len() == 0 {
            self.index_name + seq!['_'] + decimal(self.domain_id)
        } else {
            self.index_prefix + seq!['_'] + self.index_name + seq!['_'] + decimal(
                self.domain_id,
            )
        }
    }

    /// The name of a physical index built for this identity: the alias, an
    /// underscore and the suffix that makes the name unique.
    pub open spec fn physical_name(self, suffix: Seq<char>) -> Seq<char> {
        self.alias() + seq!['_'] + suffix
    }
}

impl IndexDefinition {
    /// The stable name under which readers and writers address the index.
    pub fn get_index_alias(&self) -> (alias: String)
        ensures
            alias@ == self@.alias(),
    {
        proof {
            reveal_strlit("_");
        }
        let domain = u8_to_string(self.domain_id);
        let mut alias = String::new();
        if !self.index_prefix.as_str().is_empty() {
            alias.append(self.index_prefix.as_str());
            alias.append("_");
        }
        alias.append(self.index_name.as_str());
        alias.append("_");
        alias.append(domain.as_str());
        assert(alias@ =~= self@.alias());
        alias
    }

    /// The name for a new physical index of this identity. The caller supplies
    /// the suffix (a content hash, a timestamp) that sets it apart from
    /// earlier ones.
    pub fn physical_index_name(&self, suffix: &str) -> (name: String)
        ensures
            name@ == self@.physical_name(suffix@),
    {
        proof {
            reveal_strlit("_");
        }
        let mut name = self.get_index_alias();
        name.append("_");
        name.append(suffix);
        assert(name@ =~= self@.physical_name(suffix@));
        name
    }
}

/// A physical name is never the alias it was derived from, so an index and its
/// alias cannot be mistaken for one another.
pub proof fn lemma_physical_name_differs_from_alias(identity: IndexIdentity, suffix: Seq<char>)
    ensures
        identity.physical_name(suffix) != identity.alias(),
        identity.physical_name(suffix).len() == identity.alias().len() + 1 + suffix.len(),
{
}

} // verus!
