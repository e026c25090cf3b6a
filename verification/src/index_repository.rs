//! The catalogue of physical indices and their aliases, and the alias
//! resolver that reads it.
//!
//! A repository is a snapshot of what the search engine lists: each physical
//! index with the aliases bound to it. An alias is the stable name that
//! readers use; at any time it should be bound to exactly one physical index.

use crate::bulk::{bulk_call, BulkRequest};
use crate::error::ElasticError;
use crate::index_definition::IndexDefinition;
use crate::product_index::ProductExportData;
use crate::text::{contains_text, occurs_in, same_text, text_contains};
use vstd::prelude::*;
use vstd::string::*;

verus! {

/// One physical index and the aliases bound to it, as contracts see them.
pub struct IndexEntry {
    pub index: Seq<char>,
    pub aliases: Seq<Seq<char>>,
}

/// One physical index and the aliases bound to it.
#[derive(Debug)]
pub struct IndexAliases {
    pub index: String,
    pub aliases: Vec<String>,
}

impl DeepView for IndexAliases {
    type V = IndexEntry;

    open spec fn deep_view(&self) -> IndexEntry {
        IndexEntry { index: self.index@, aliases: self.aliases.deep_view() }
    }
}

/// The names of the indices that carry `alias`, in the catalogue's order.
pub open spec fn carriers(catalogue: Seq<IndexEntry>, alias: Seq<char>) -> Seq<Seq<char>>
    decreases catalogue.len(),
{
    if catalogue.len() == 0 {
        Seq::empty()
    } else if catalogue.last().aliases.contains(alias) {
        carriers(catalogue.drop_last(), alias).push(catalogue.last().index)
    } else {
        carriers(catalogue.drop_last(), alias)
    }
}

/// The names of the indices that carry an alias in which `pattern` occurs, in
/// the catalogue's order.
pub open spec fn carriers_matching(catalogue: Seq<IndexEntry>, pattern: Seq<char>) -> Seq<
    Seq<char>,
>
    decreases catalogue.len(),
{
    if catalogue.len() == 0 {
        Seq::empty()
    } else if some_alias_holds(catalogue.last().aliases, pattern) {
        carriers_matching(catalogue.drop_last(), pattern).push(catalogue.last().index)
    } else {
        carriers_matching(catalogue.drop_last(), pattern)
    }
}

/// Whether `pattern` occurs in one of `aliases`.
pub open spec fn some_alias_holds(aliases: Seq<Seq<char>>, pattern: Seq<char>) -> bool {
    exists|i: int| 0 <= i < aliases.len() && occurs_in(pattern, #[trigger] aliases[i])
}

/// Whether the catalogue lists an index of that name.
pub open spec fn has_index(catalogue: Seq<IndexEntry>, name: Seq<char>) -> bool {
    exists|i: int| 0 <= i < catalogue.len() && (#[trigger] catalogue[i]).index == name
}

/// The names of all indices, in the catalogue's order.
pub open spec fn names_of(catalogue: Seq<IndexEntry>) -> Seq<Seq<char>> {
    Seq::new(catalogue.len(), |i: int| catalogue[i].index)
}

/// The index behind an alias, from the two answers of the engine: whether the
/// alias exists, and which indices carry it. A missing alias is `NoAlias`; an
/// alias without an index is `NoIndexFoundForAlias`; an alias on two or more
/// indices is ambiguous and is never settled by picking one.
pub open spec fn resolve(alias_created: bool, names: Seq<Seq<char>>) -> Result<
    Seq<char>,
    ElasticError,
> {
    if !alias_created {
        Err(ElasticError::NoAlias)
    } else if names.len() == 0 {
        Err(ElasticError::NoIndexFoundForAlias)
    } else if names.len() > 1 {
        Err(ElasticError::MoreThanOneIndexFoundForAlias)
    } else {
        Ok(names[0])
    }
}

/// The index behind an alias according to a catalogue. An alias exists
/// exactly if some index carries it.
pub open spec fn current_index(catalogue: Seq<IndexEntry>, alias: Seq<char>) -> Result<
    Seq<char>,
    ElasticError,
> {
    resolve(carriers(catalogue, alias).len() > 0, carriers(catalogue, alias))
}

/// The view of a resolver's answer: the name as text.
pub open spec fn name_view(answer: Result<String, ElasticError>) -> Result<
    Seq<char>,
    ElasticError,
> {
    match answer {
        Ok(name) => Ok(name@),
        Err(error) => Err(error),
    }
}

/// The index behind an alias, from the engine's two answers.
pub fn resolve_current_index(alias_created: bool, names: &Vec<String>) -> (answer: Result<
    String,
    ElasticError,
>)
    ensures
        name_view(answer) == resolve(alias_created, names.deep_view()),
{
    if !alias_created {
        Err(ElasticError::NoAlias)
    } else if names.len() == 0 {
        Err(ElasticError::NoIndexFoundForAlias)
    } else if names.len() > 1 {
        Err(ElasticError::MoreThanOneIndexFoundForAlias)
    } else {
        assert(names.deep_view()[0] == names@[0]@);
        Ok(names[0].clone())
    }
}

/// A snapshot of the engine's catalogue.
#[derive(Debug)]
pub struct IndexRepository {
    pub indices: Vec<IndexAliases>,
}

impl View for IndexRepository {
    type V = Seq<IndexEntry>;

    open spec fn view(&self) -> Seq<IndexEntry> {
        self.indices.deep_view()
    }
}

impl IndexRepository {
    /// A repository over the listing that the engine gave.
    pub fn new(indices: Vec<IndexAliases>) -> (repository: Self)
        ensures
            repository@ == indices.deep_view(),
    {
        IndexRepository { indices }
    }

    /// Whether a physical index of that name exists.
    pub fn is_index_created(&self, index_name: &str) -> (created: bool)
        ensures
            created == has_index(self@, index_name@),
    {
        let mut i: usize = 0;
        while i < self.indices.len()
            invariant
                i <= self.indices.len(),
                forall|j: int| 0 <= j < i ==> (#[trigger] self@[j]).index != index_name@,
            decreases self.indices.len() - i,
        {
            assert(self@[i as int] == self.indices@[i as int].deep_view());
            if same_text(self.indices[i].index.as_str(), index_name) {
                return true;
            }
            i = i + 1;
        }
        false
    }

    /// The names of the indices that carry the alias. `NoAlias` where none
    /// does: an alias exists only as long as an index carries it.
    pub fn find_index_names_for_alias(&self, index_alias: &str) -> (answer: Result<
        Vec<String>,
        ElasticError,
    >)
        ensures
            match answer {
                Ok(names) => names.deep_view() == carriers(self@, index_alias@) && names@.len()
                    > 0,
                Err(error) => error == ElasticError::NoAlias && carriers(
                    self@,
                    index_alias@,
                ).len() == 0,
            },
    {
        let mut names: Vec<String> = Vec::new();
        let mut i: usize = 0;
        while i < self.indices.len()
            invariant
                i <= self.indices.len(),
                names.deep_view() == carriers(self@.take(i as int), index_alias@),
            decreases self.indices.len() - i,
        {
            assert(self@.take(i as int + 1).drop_last() =~= self@.take(i as int));
            assert(self@.take(i as int + 1).last() == self.indices@[i as int].deep_view());
            if contains_text(&self.indices[i].aliases, index_alias) {
                let ghost before = names.deep_view();
                names.push(self.indices[i].index.clone());
                assert(names.deep_view() =~= before.push(self.indices@[i as int].index@));
            }
            i = i + 1;
        }
        assert(self@.take(i as int) =~= self@);
        if names.len() == 0 {
            Err(ElasticError::NoAlias)
        } else {
            Ok(names)
        }
    }

    /// Whether the alias exists, that is, whether any index carries it.
    pub fn is_alias_created(&self, index_alias: &str) -> (created: bool)
        ensures
            created == (carriers(self@, index_alias@).len() > 0),
    {
        match self.find_index_names_for_alias(index_alias) {
            Ok(_) => true,
            Err(_) => false,
        }
    }

    /// The one physical index behind the alias.
    pub fn find_current_index_name_for_alias(&self, index_alias: &str) -> (answer: Result<
        String,
        ElasticError,
    >)
        ensures
            name_view(answer) == current_index(self@, index_alias@),
    {
        match self.find_index_names_for_alias(index_alias) {
            Ok(names) => resolve_current_index(true, &names),
            Err(error) => Err(error),
        }
    }

    /// The indices that carry exactly the alias of the definition.
    pub fn get_indicies_by_index_definition_raw(&self, index_definition: &IndexDefinition) -> (names:
        Vec<String>)
        ensures
            names.deep_view() == carriers(self@, index_definition@.alias()),
    {
        let alias = index_definition.get_index_alias();
        match self.find_index_names_for_alias(alias.as_str()) {
            Ok(names) => names,
            Err(_) => {
                let names: Vec<String> = Vec::new();
                assert(names.deep_view() =~= carriers(self@, index_definition@.alias()));
                names
            },
        }
    }

    /// The indices that carry any alias in which the alias of the definition
    /// occurs: those of the definition itself and of every identity whose
    /// alias extends it.
    pub fn get_indicies_by_index_definition(&self, index_definition: &IndexDefinition) -> (names:
        Vec<String>)
        ensures
            names.deep_view() == carriers_matching(self@, index_definition@.alias()),
    {
        let alias = index_definition.get_index_alias();
        let mut names: Vec<String> = Vec::new();
        let mut i: usize = 0;
        while i < self.indices.len()
            invariant
                i <= self.indices.len(),
                alias@ == index_definition@.alias(),
                names.deep_view() == carriers_matching(self@.take(i as int), alias@),
            decreases self.indices.len() - i,
        {
            assert(self@.take(i as int + 1).drop_last() =~= self@.take(i as int));
            assert(self@.take(i as int + 1).last() == self.indices@[i as int].deep_view());
            if any_alias_holds(&self.indices[i].aliases, alias.as_str()) {
                let ghost before = names.deep_view();
                names.push(self.indices[i].index.clone());
                assert(names.deep_view() =~= before.push(self.indices@[i as int].index@));
            }
            i = i + 1;
        }
        assert(self@.take(i as int) =~= self@);
        names
    }

    /// The bulk call that upserts a batch through the alias of the
    /// definition; none for an empty batch.
    pub fn bulk_update(
        &self,
        index_definition: &IndexDefinition,
        current_batch_data: &Vec<ProductExportData>,
    ) -> (request: Option<BulkRequest>)
        ensures
            request.deep_view() == bulk_call(
                index_definition@.alias(),
                current_batch_data.deep_view(),
            ),
    {
        let alias = index_definition.get_index_alias();
        crate::bulk::write(alias.as_str(), current_batch_data)
    }

    /// The names of all indices.
    pub fn index_names(&self) -> (names: Vec<String>)
        ensures
            names.deep_view() == names_of(self@),
    {
        let mut names: Vec<String> = Vec::new();
        let mut i: usize = 0;
        while i < self.indices.len()
            invariant
                i <= self.indices.len(),
                names@.len() == i,
                forall|j: int| 0 <= j < i ==> (#[trigger] names@[j])@ == self@[j].index,
            decreases self.indices.len() - i,
        {
            assert(self@[i as int] == self.indices@[i as int].deep_view());
            names.push(self.indices[i].index.clone());
            i = i + 1;
        }
        assert(names.deep_view() =~= names_of(self@));
        names
    }
}

/// Whether `pattern` occurs in one of `aliases`.
fn any_alias_holds(aliases: &Vec<String>, pattern: &str) -> (found: bool)
    ensures
        found == some_alias_holds(aliases.deep_view(), pattern@),
{
    let mut i: usize = 0;
    while i < aliases.len()
        invariant
            i <= aliases.len(),
            forall|j: int| 0 <= j < i ==> !occurs_in(pattern@, #[trigger] aliases.deep_view()[j]),
        decreases aliases.len() - i,
    {
        assert(aliases.deep_view()[i as int] == aliases@[i as int]@);
        if text_contains(aliases[i].as_str(), pattern) {
            return true;
        }
        i = i + 1;
    }
    false
}


/// The aliases without `alias`, in their order.
pub open spec fn without(aliases: Seq<Seq<char>>, alias: Seq<char>) -> Seq<Seq<char>>
    decreases aliases.len(),
{
    if aliases.len() == 0 {
        Seq::empty()
    } else if aliases.last() == alias {
        without(aliases.drop_last(), alias)
    } else {
        without(aliases.drop_last(), alias).push(aliases.last())
    }
}

/// The aliases with `alias` among them: added at the end unless it is there.
pub open spec fn with_alias(aliases: Seq<Seq<char>>, alias: Seq<char>) -> Seq<Seq<char>> {
    if aliases.contains(alias) {
        aliases
    } else {
        aliases.push(alias)
    }
}

/// What one swap does to one entry: the index `to` gets the alias, the index
/// `from` (if any, and if it is not `to`) loses it, every other entry stays.
pub open spec fn swapped_entry(
    entry: IndexEntry,
    alias: Seq<char>,
    from: Option<Seq<char>>,
    to: Seq<char>,
) -> IndexEntry {
    if entry.index == to {
        IndexEntry { index: entry.index, aliases: with_alias(entry.aliases, alias) }
    } else if from == Some(entry.index) {
        IndexEntry { index: entry.index, aliases: without(entry.aliases, alias) }
    } else {
        entry
    }
}

/// The catalogue after the alias has been taken from `from` and given to `to`
/// in one step.
pub open spec fn after_swap(
    catalogue: Seq<IndexEntry>,
    alias: Seq<char>,
    from: Option<Seq<char>>,
    to: Seq<char>,
) -> Seq<IndexEntry> {
    Seq::new(catalogue.len(), |i: int| swapped_entry(catalogue[i], alias, from, to))
}

/// Whether the engine carries out a swap: the index that gets the alias has to
/// exist, and so has the index that loses it, where one is named.
pub open spec fn swap_allowed(catalogue: Seq<IndexEntry>, from: Option<Seq<char>>, to: Seq<char>) -> bool {
    &&& has_index(catalogue, to)
    &&& from matches Some(name) ==> has_index(catalogue, name)
}

/// The catalogue with a new index that carries no alias yet.
pub open spec fn after_create(catalogue: Seq<IndexEntry>, name: Seq<char>) -> Seq<IndexEntry> {
    catalogue.push(IndexEntry { index: name, aliases: Seq::empty() })
}

/// The catalogue without the indices of that name.
pub open spec fn after_delete(catalogue: Seq<IndexEntry>, name: Seq<char>) -> Seq<IndexEntry>
    decreases catalogue.len(),
{
    if catalogue.len() == 0 {
        Seq::empty()
    } else if catalogue.last().index == name {
        after_delete(catalogue.drop_last(), name)
    } else {
        after_delete(catalogue.drop_last(), name).push(catalogue.last())
    }
}

/// Whether no two entries of the catalogue have the same name.
pub open spec fn distinct_names(catalogue: Seq<IndexEntry>) -> bool {
    forall|i: int, j: int|
        0 <= i < j < catalogue.len() ==> (#[trigger] catalogue[i]).index != (
        #[trigger] catalogue[j]).index
}

/// The text of an optional name.
pub open spec fn optional_text(name: Option<&str>) -> Option<Seq<char>> {
    match name {
        Some(text) => Some(text@),
        None => None,
    }
}

/// The aliases without `alias`.
fn remove_alias(aliases: Vec<String>, alias: &str) -> (kept: Vec<String>)
    ensures
        kept.deep_view() == without(aliases.deep_view(), alias@),
{
    let ghost all = aliases.deep_view();
    let mut kept: Vec<String> = Vec::new();
    let length = aliases.len();
    let mut i: usize = 0;
    while i < length
        invariant
            i <= length,
            length == aliases@.len(),
            all == aliases.deep_view(),
            kept.deep_view() == without(all.take(i as int), alias@),
        decreases length - i,
    {
        assert(all.take(i as int + 1).drop_last() =~= all.take(i as int));
        assert(all.take(i as int + 1).last() == aliases@[i as int]@);
        if !same_text(aliases[i].as_str(), alias) {
            let ghost before = kept.deep_view();
            kept.push(aliases[i].clone());
            assert(kept.deep_view() =~= before.push(aliases@[i as int]@));
        }
        i = i + 1;
    }
    assert(all.take(i as int) =~= all);
    kept
}

/// A copy of a list of names.
fn clone_names(names: &Vec<String>) -> (copy: Vec<String>)
    ensures
        copy.deep_view() == names.deep_view(),
{
    let mut copy: Vec<String> = Vec::new();
    let mut i: usize = 0;
    while i < names.len()
        invariant
            i <= names.len(),
            copy@.len() == i,
            forall|j: int| 0 <= j < i ==> (#[trigger] copy@[j])@ == names@[j]@,
        decreases names.len() - i,
    {
        copy.push(names[i].clone());
        i = i + 1;
    }
    assert(copy.deep_view() =~= names.deep_view());
    copy
}

/// What one swap makes of one entry.
fn swap_entry(entry: &IndexAliases, alias: &str, from: Option<&str>, to: &str) -> (swapped:
    IndexAliases)
    ensures
        swapped.deep_view() == swapped_entry(
            entry.deep_view(),
            alias@,
            optional_text(from),
            to@,
        ),
{
    let index = entry.index.clone();
    if same_text(entry.index.as_str(), to) {
        let mut aliases = clone_names(&entry.aliases);
        if !contains_text(&entry.aliases, alias) {
            let ghost before = aliases.deep_view();
            aliases.push(alias.to_owned());
            assert(aliases.deep_view() =~= before.push(alias@));
        }
        IndexAliases { index, aliases }
    } else {
        let loses = match from {
            Some(name) => same_text(entry.index.as_str(), name),
            None => false,
        };
        if loses {
            IndexAliases { index, aliases: remove_alias(clone_names(&entry.aliases), alias) }
        } else {
            IndexAliases { index, aliases: clone_names(&entry.aliases) }
        }
    }
}

impl IndexRepository {
    /// Records a new physical index, without any alias. An index of that name
    /// must not exist yet.
    pub fn create_index(&mut self, index_name: &str) -> (outcome: Result<(), ElasticError>)
        ensures
            has_index(old(self)@, index_name@) ==> outcome == Err::<(), ElasticError>(
                ElasticError::IndexAlreadyExists,
            ) && final(self)@ == old(self)@,
            !has_index(old(self)@, index_name@) ==> outcome.is_ok() && final(self)@
                == after_create(old(self)@, index_name@),
    {
        if self.is_index_created(index_name) {
            return Err(ElasticError::IndexAlreadyExists);
        }
        self.indices.push(IndexAliases { index: index_name.to_owned(), aliases: Vec::new() });
        assert(self@ =~= after_create(old(self)@, index_name@)) by {
            assert(self.indices@.last().aliases.deep_view() =~= Seq::<Seq<char>>::empty());
        }
        Ok(())
    }

    /// Moves the alias in one step: takes it from `from`, where one is named,
    /// and gives it to `to`. Nothing changes, and the result is `false`, where
    /// the engine would refuse the request.
    pub fn swap_alias(&mut self, index_alias: &str, from: Option<&str>, to: &str) -> (swapped:
        bool)
        ensures
            swapped == swap_allowed(old(self)@, optional_text(from), to@),
            swapped ==> final(self)@ == after_swap(
                old(self)@,
                index_alias@,
                optional_text(from),
                to@,
            ),
            !swapped ==> final(self)@ == old(self)@,
    {
        if !self.is_index_created(to) {
            return false;
        }
        match from {
            Some(name) => {
                if !self.is_index_created(name) {
                    return false;
                }
            },
            None => {},
        }
        let mut entries: Vec<IndexAliases> = Vec::new();
        let mut i: usize = 0;
        while i < self.indices.len()
            invariant
                i <= self.indices.len(),
                entries@.len() == i,
                forall|j: int|
                    0 <= j < i ==> (#[trigger] entries@[j]).deep_view() == swapped_entry(
                        self@[j],
                        index_alias@,
                        optional_text(from),
                        to@,
                    ),
            decreases self.indices.len() - i,
        {
            assert(self@[i as int] == self.indices@[i as int].deep_view());
            entries.push(swap_entry(&self.indices[i], index_alias, from, to));
            i = i + 1;
        }
        assert(entries.deep_view() =~= after_swap(
            self@,
            index_alias@,
            optional_text(from),
            to@,
        ));
        self.indices = entries;
        true
    }

    /// Drops the physical index of that name. The result says whether there
    /// was one.
    pub fn delete_index(&mut self, index_name: &str) -> (deleted: bool)
        ensures
            deleted == has_index(old(self)@, index_name@),
            final(self)@ == after_delete(old(self)@, index_name@),
    {
        let deleted = self.is_index_created(index_name);
        let ghost all = self@;
        let mut entries: Vec<IndexAliases> = Vec::new();
        let mut i: usize = 0;
        while i < self.indices.len()
            invariant
                i <= self.indices.len(),
                all == self@,
                entries.deep_view() == after_delete(all.take(i as int), index_name@),
            decreases self.indices.len() - i,
        {
            assert(all.take(i as int + 1).drop_last() =~= all.take(i as int));
            assert(all.take(i as int + 1).last() == self.indices@[i as int].deep_view());
            if !same_text(self.indices[i].index.as_str(), index_name) {
                let ghost before = entries.deep_view();
                let entry = IndexAliases {
                    index: self.indices[i].index.clone(),
                    aliases: clone_names(&self.indices[i].aliases),
                };
                entries.push(entry);
                assert(entries.deep_view() =~= before.push(self.indices@[i as int].deep_view()));
            }
            i = i + 1;
        }
        assert(all.take(i as int) =~= all);
        self.indices = entries;
        deleted
    }
}


/// An index is among the carriers of an alias exactly if the catalogue has an
/// entry of that name whose aliases hold the alias.
pub proof fn lemma_carriers_members(catalogue: Seq<IndexEntry>, alias: Seq<char>)
    ensures
        forall|name: Seq<char>|
            carriers(catalogue, alias).contains(name) <==> exists|i: int|
                0 <= i < catalogue.len() && (#[trigger] catalogue[i]).index == name
                    && catalogue[i].aliases.contains(alias),
    decreases catalogue.len(),
{
    let found = carriers(catalogue, alias);
    if catalogue.len() > 0 {
        let front = catalogue.drop_last();
        let earlier = carriers(front, alias);
        let entry = catalogue.last();
        lemma_carriers_members(front, alias);
        assert forall|name: Seq<char>| found.contains(name) implies exists|i: int|
            0 <= i < catalogue.len() && (#[trigger] catalogue[i]).index == name
                && catalogue[i].aliases.contains(alias) by {
            if earlier.contains(name) {
                let i = choose|i: int|
                    0 <= i < front.len() && (#[trigger] front[i]).index == name
                        && front[i].aliases.contains(alias);
                assert(catalogue[i] == front[i]);
            } else {
                let k = choose|k: int| 0 <= k < found.len() && found[k] == name;
                if k < earlier.len() {
                    assert(earlier[k] == name);
                }
                assert(catalogue[catalogue.len() - 1] == entry);
            }
        }
        assert forall|name: Seq<char>|
            (exists|i: int|
                0 <= i < catalogue.len() && (#[trigger] catalogue[i]).index == name
                    && catalogue[i].aliases.contains(alias)) implies found.contains(name) by {
            let i = choose|i: int|
                0 <= i < catalogue.len() && (#[trigger] catalogue[i]).index == name
                    && catalogue[i].aliases.contains(alias);
            if i < front.len() {
                assert(front[i] == catalogue[i]);
                assert(front[i].index == name && front[i].aliases.contains(alias));
                assert(earlier.contains(name));
                let k = choose|k: int| 0 <= k < earlier.len() && earlier[k] == name;
                assert(found[k] == name);
            } else {
                assert(catalogue[i] == entry);
                assert(found[found.len() - 1] == name);
            }
        }
    }
}

/// What is left after an alias was removed does not hold it.
pub proof fn lemma_without_excludes(aliases: Seq<Seq<char>>, alias: Seq<char>)
    ensures
        !without(aliases, alias).contains(alias),
    decreases aliases.len(),
{
    if aliases.len() > 0 {
        lemma_without_excludes(aliases.drop_last(), alias);
        let kept = without(aliases, alias);
        if kept.contains(alias) {
            let k = choose|k: int| 0 <= k < kept.len() && kept[k] == alias;
            if k < without(aliases.drop_last(), alias).len() {
                assert(without(aliases.drop_last(), alias)[k] == alias);
            }
        }
    }
}

/// Where the entries that hold an alias are exactly those named `owner`, and
/// no name occurs twice, the alias has `owner` as its one carrier, or none
/// where no entry has that name.
pub proof fn lemma_single_carrier(catalogue: Seq<IndexEntry>, alias: Seq<char>, owner: Seq<char>)
    requires
        distinct_names(catalogue),
        forall|i: int|
            0 <= i < catalogue.len() ==> ((#[trigger] catalogue[i]).aliases.contains(alias)
                <==> catalogue[i].index == owner),
    ensures
        carriers(catalogue, alias) == if has_index(catalogue, owner) {
            seq![owner]
        } else {
            Seq::<Seq<char>>::empty()
        },
    decreases catalogue.len(),
{
    if catalogue.len() > 0 {
        let front = catalogue.drop_last();
        let entry = catalogue.last();
        assert forall|i: int, j: int| 0 <= i < j < front.len() implies (#[trigger] front[i]).index
            != (#[trigger] front[j]).index by {
            assert(catalogue[i].index != catalogue[j].index);
        }
        assert forall|i: int| 0 <= i < front.len() implies ((#[trigger] front[i]).aliases.contains(
            alias,
        ) <==> front[i].index == owner) by {
            assert(front[i] == catalogue[i]);
        }
        lemma_single_carrier(front, alias, owner);
        assert(entry == catalogue[catalogue.len() - 1]);
        if entry.index == owner {
            if has_index(front, owner) {
                let i = choose|i: int| 0 <= i < front.len() && (#[trigger] front[i]).index == owner;
                assert(catalogue[i].index != catalogue[catalogue.len() - 1].index);
            }
            assert(carriers(catalogue, alias) =~= seq![owner]);
        } else {
            if has_index(catalogue, owner) {
                let i = choose|i: int|
                    0 <= i < catalogue.len() && (#[trigger] catalogue[i]).index == owner;
                assert(front[i].index == owner);
            }
            if has_index(front, owner) {
                let i = choose|i: int| 0 <= i < front.len() && (#[trigger] front[i]).index == owner;
                assert(catalogue[i].index == owner);
            }
        }
    }
}

/// The alias invariant of a cutover. Take a catalogue in which no name occurs
/// twice, an alias that is bound to one index (`Some(old)`) or to none
/// (`None`), and a new index that exists and does not carry the alias. Then
/// the engine accepts the swap from the old index to the new one, and after
/// it the alias resolves to exactly one index, the new one; the old index
/// no longer carries the alias; and the catalogue lists the same indices as
/// before.
pub proof fn lemma_cutover_keeps_one_owner(
    catalogue: Seq<IndexEntry>,
    alias: Seq<char>,
    old_index: Option<Seq<char>>,
    new_index: Seq<char>,
)
    requires
        distinct_names(catalogue),
        has_index(catalogue, new_index),
        !carriers(catalogue, alias).contains(new_index),
        match old_index {
            Some(old) => current_index(catalogue, alias) == Ok::<Seq<char>, ElasticError>(old),
            None => current_index(catalogue, alias) == Err::<Seq<char>, ElasticError>(
                ElasticError::NoAlias,
            ),
        },
    ensures
        swap_allowed(catalogue, old_index, new_index),
        current_index(after_swap(catalogue, alias, old_index, new_index), alias) == Ok::<
            Seq<char>,
            ElasticError,
        >(new_index),
        carriers(after_swap(catalogue, alias, old_index, new_index), alias) == seq![new_index],
        old_index matches Some(old) ==> !carriers(
            after_swap(catalogue, alias, old_index, new_index),
            alias,
        ).contains(old),
        names_of(after_swap(catalogue, alias, old_index, new_index)) == names_of(catalogue),
        distinct_names(after_swap(catalogue, alias, old_index, new_index)),
{
    let after = after_swap(catalogue, alias, old_index, new_index);
    let owners = carriers(catalogue, alias);
    lemma_carriers_members(catalogue, alias);
    match old_index {
        Some(old) => {
            assert(owners.len() == 1 && owners[0] == old);
            assert(owners.contains(old));
            let i = choose|i: int|
                0 <= i < catalogue.len() && (#[trigger] catalogue[i]).index == old
                    && catalogue[i].aliases.contains(alias);
            assert(has_index(catalogue, old));
            assert(old != new_index);
        },
        None => {
            assert(owners.len() == 0);
        },
    }
    assert forall|i: int| 0 <= i < after.len() implies ((#[trigger] after[i]).aliases.contains(
        alias,
    ) <==> after[i].index == new_index) by {
        let entry = catalogue[i];
        if entry.index == new_index {
            if !entry.aliases.contains(alias) {
                assert(entry.aliases.push(alias)[entry.aliases.len() as int] == alias);
            }
        } else if old_index == Some(entry.index) {
            lemma_without_excludes(entry.aliases, alias);
        } else {
            if entry.aliases.contains(alias) {
                assert(owners.contains(entry.index));
                let k = choose|k: int| 0 <= k < owners.len() && owners[k] == entry.index;
                assert(false);
            }
        }
    }
    assert forall|i: int, j: int| 0 <= i < j < after.len() implies (#[trigger] after[i]).index != (
    #[trigger] after[j]).index by {
        assert(catalogue[i].index != catalogue[j].index);
    }
    let w = choose|w: int| 0 <= w < catalogue.len() && (#[trigger] catalogue[w]).index == new_index;
    assert(after[w].index == new_index);
    lemma_single_carrier(after, alias, new_index);
    assert(names_of(after) =~= names_of(catalogue));
    if old_index is Some {
        let old = old_index.unwrap();
        if seq![new_index].contains(old) {
            let k = choose|k: int| 0 <= k < seq![new_index].len() && seq![new_index][k] == old;
            assert(false);
        }
    }
}


/// A new index carries no alias, so its creation changes the carriers of no
/// alias; and it keeps the names of the catalogue distinct where its own
/// name was free.
pub proof fn lemma_create_keeps_carriers(
    catalogue: Seq<IndexEntry>,
    name: Seq<char>,
    alias: Seq<char>,
)
    ensures
        carriers(after_create(catalogue, name), alias) == carriers(catalogue, alias),
        has_index(after_create(catalogue, name), name),
        distinct_names(catalogue) && !has_index(catalogue, name) ==> distinct_names(
            after_create(catalogue, name),
        ),
{
    let created = after_create(catalogue, name);
    assert(created.drop_last() =~= catalogue);
    assert(created.last().aliases.len() == 0);
    assert(created[catalogue.len() as int].index == name);
    if distinct_names(catalogue) && !has_index(catalogue, name) {
        assert forall|i: int, j: int| 0 <= i < j < created.len() implies (
        #[trigger] created[i]).index != (#[trigger] created[j]).index by {
            if j < catalogue.len() {
                assert(catalogue[i].index != catalogue[j].index);
            } else {
                assert(catalogue[i].index != name);
            }
        }
    }
}

/// Dropping an index that does not carry an alias changes the carriers of
/// that alias in nothing.
pub proof fn lemma_delete_keeps_carriers(
    catalogue: Seq<IndexEntry>,
    name: Seq<char>,
    alias: Seq<char>,
)
    requires
        !carriers(catalogue, alias).contains(name),
    ensures
        carriers(after_delete(catalogue, name), alias) == carriers(catalogue, alias),
    decreases catalogue.len(),
{
    if catalogue.len() > 0 {
        let front = catalogue.drop_last();
        let entry = catalogue.last();
        let found = carriers(catalogue, alias);
        if carriers(front, alias).contains(name) {
            let k = choose|k: int|
                0 <= k < carriers(front, alias).len() && carriers(front, alias)[k] == name;
            assert(found[k] == name);
        }
        lemma_delete_keeps_carriers(front, name, alias);
        if entry.index == name && entry.aliases.contains(alias) {
            assert(found[found.len() - 1] == name);
        }
        if entry.index != name {
            assert(after_delete(catalogue, name).drop_last() =~= after_delete(front, name));
        }
    }
}

} // verus!
