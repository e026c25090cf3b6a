//! Reads the catalogue out of the engine's alias listing.
//!
//! The engine lists aliases as a JSON object with one member for each index.
//! The member's name is the name of the index; its value is an object whose
//! member `aliases` is an object with one member for each alias of the index.

use crate::index_repository::{distinct_names, IndexAliases, IndexEntry, IndexRepository};
use crate::json::{
    array_elements, elements_of, member_names, member_of, object_keys, object_member,
    string_text, text_of,
};
use vstd::prelude::*;
use vstd::string::*;

verus! {

/// The aliases that the listing gives for one index: the member names of the
/// object under `aliases`, and none where the entry is missing or not of
/// that shape.
pub open spec fn listed_aliases(entry: Option<serde_json::Value>) -> Seq<Seq<char>> {
    match entry {
        Some(found) => match member_of(found, "aliases"@) {
            Some(aliases) => match member_names(aliases) {
                Some(names) => names,
                None => Seq::empty(),
            },
            None => Seq::empty(),
        },
        None => Seq::empty(),
    }
}

/// The catalogue that a listing stands for: one entry for each member, in the
/// listing's order. `None` where the listing is no object.
pub open spec fn catalogue_of(listing: serde_json::Value) -> Option<Seq<IndexEntry>> {
    match member_names(listing) {
        Some(names) => Some(
            Seq::new(
                names.len(),
                |i: int|
                    IndexEntry {
                        index: names[i],
                        aliases: listed_aliases(member_of(listing, names[i])),
                    },
            ),
        ),
        None => None,
    }
}

/// The view of an optional repository.
pub open spec fn catalogue_view(repository: Option<IndexRepository>) -> Option<Seq<IndexEntry>> {
    match repository {
        Some(found) => Some(found@),
        None => None,
    }
}

/// The aliases that the listing gives for the index `name`.
fn aliases_in(listing: &serde_json::Value, name: &str) -> (aliases: Vec<String>)
    ensures
        aliases.deep_view() == listed_aliases(member_of(*listing, name@)),
{
    let none: Vec<String> = Vec::new();
    assert(none.deep_view() =~= Seq::<Seq<char>>::empty());
    match object_member(listing, name) {
        Some(entry) => match object_member(entry, "aliases") {
            Some(aliases) => match object_keys(aliases) {
                Some(names) => names,
                None => none,
            },
            None => none,
        },
        None => none,
    }
}

impl IndexRepository {
    /// The repository over the engine's alias listing; `None` where the
    /// listing is no JSON object. No index is listed twice.
    pub fn from_alias_listing(listing: &serde_json::Value) -> (repository: Option<Self>)
        ensures
            catalogue_view(repository) == catalogue_of(*listing),
            repository matches Some(found) ==> distinct_names(found@),
    {
        let names = match object_keys(listing) {
            Some(names) => names,
            None => {
                return None;
            },
        };
        let ghost listed = names.deep_view();
        let mut indices: Vec<IndexAliases> = Vec::new();
        let mut i: usize = 0;
        while i < names.len()
            invariant
                i <= names.len(),
                listed == names.deep_view(),
                indices@.len() == i,
                forall|j: int|
                    0 <= j < i ==> (#[trigger] indices@[j]).deep_view() == (IndexEntry {
                        index: listed[j],
                        aliases: listed_aliases(member_of(*listing, listed[j])),
                    }),
            decreases names.len() - i,
        {
            assert(listed[i as int] == names@[i as int]@);
            let aliases = aliases_in(listing, names[i].as_str());
            indices.push(IndexAliases { index: names[i].clone(), aliases });
            i = i + 1;
        }
        let repository = IndexRepository { indices };
        assert(repository@ =~= catalogue_of(*listing).unwrap());
        assert forall|a: int, b: int| 0 <= a < b < repository@.len() implies (
        #[trigger] repository@[a]).index != (#[trigger] repository@[b]).index by {
            assert(listed[a] != listed[b]);
        }
        Some(repository)
    }
}


/// The name that a record of the engine's table of indices gives: the text
/// under `index`, if there is one.
pub open spec fn listed_name(record: serde_json::Value) -> Option<Seq<char>> {
    match member_of(record, "index"@) {
        Some(name) => text_of(name),
        None => None,
    }
}

/// The names that the records give, in the order of the records. A record
/// without a name gives none.
pub open spec fn listed_names(records: Seq<serde_json::Value>) -> Seq<Seq<char>>
    decreases records.len(),
{
    if records.len() == 0 {
        Seq::empty()
    } else {
        match listed_name(records.last()) {
            Some(name) => listed_names(records.drop_last()).push(name),
            None => listed_names(records.drop_last()),
        }
    }
}

/// The names of the indices in the engine's table of indices, which is a JSON
/// array with one record for each index. A table of another shape gives no
/// name.
pub fn index_names_of_table(table: &serde_json::Value) -> (names: Vec<String>)
    ensures
        names.deep_view() == match elements_of(*table) {
            Some(records) => listed_names(records),
            None => Seq::empty(),
        },
{
    let mut names: Vec<String> = Vec::new();
    assert(names.deep_view() =~= Seq::<Seq<char>>::empty());
    let records = match array_elements(table) {
        Some(records) => records,
        None => {
            return names;
        },
    };
    let mut i: usize = 0;
    while i < records.len()
        invariant
            i <= records.len(),
            names.deep_view() == listed_names(records@.take(i as int)),
        decreases records.len() - i,
    {
        assert(records@.take(i as int + 1).drop_last() =~= records@.take(i as int));
        assert(records@.take(i as int + 1).last() == records@[i as int]);
        let found = match object_member(&records[i], "index") {
            Some(name) => string_text(name),
            None => None,
        };
        match found {
            Some(name) => {
                let ghost before = names.deep_view();
                let ghost text = name@;
                names.push(name);
                assert(names.deep_view() =~= before.push(text));
            },
            None => {},
        }
        i = i + 1;
    }
    assert(records@.take(i as int) =~= records@);
    names
}

} // verus!
