//! A product of the system of record with its optional satellite data.

use crate::text::{clone_or_empty, text_or_empty};
use vstd::prelude::*;
use vstd::string::*;

verus! {

/// The translated name parts of a product, as contracts see them.
pub struct TranslationFields {
    pub name: Option<Seq<char>>,
    pub name_prefix: Option<Seq<char>>,
    pub name_sufix: Option<Seq<char>>,
}

impl TranslationFields {
    /// The translation of a product that has no translation row.
    pub open spec fn absent() -> TranslationFields {
        TranslationFields { name: None, name_prefix: None, name_sufix: None }
    }

    /// The display name: prefix, name and suffix, each empty where absent,
    /// joined by single spaces. Doubled or dangling spaces are left as they
    /// come.
    pub open spec fn fullname(self) -> Seq<char> {
        text_or_empty(self.name_prefix) + seq![' '] + text_or_empty(self.name) + seq![' ']
            + text_or_empty(self.name_sufix)
    }
}

/// The name parts of a product in one locale.
#[derive(Debug)]
pub struct ProductTranslation {
    pub name: Option<String>,
    pub name_prefix: Option<String>,
    pub name_sufix: Option<String>,
}

impl View for ProductTranslation {
    type V = TranslationFields;

    open spec fn view(&self) -> TranslationFields {
        TranslationFields {
            name: self.name.deep_view(),
            name_prefix: self.name_prefix.deep_view(),
            name_sufix: self.name_sufix.deep_view(),
        }
    }
}

impl DeepView for ProductTranslation {
    type V = TranslationFields;

    open spec fn deep_view(&self) -> TranslationFields {
        self@
    }
}

impl Default for ProductTranslation {
    fn default() -> (translation: Self)
        ensures
            translation@ == TranslationFields::absent(),
    {
        ProductTranslation { name: None, name_prefix: None, name_sufix: None }
    }
}

/// The domain-scoped fields of a product, as contracts see them.
pub struct DomainFields {
    pub domain_id: int,
    pub description: Option<Seq<char>>,
}

impl DomainFields {
    /// The domain fields of a product that has no row on the domain.
    pub open spec fn absent() -> DomainFields {
        DomainFields { domain_id: 0, description: None }
    }
}

/// What a product holds on one domain.
#[derive(Debug)]
pub struct ProductDomain {
    pub domain_id: i32,
    pub description: Option<String>,
}

impl View for ProductDomain {
    type V = DomainFields;

    open spec fn view(&self) -> DomainFields {
        DomainFields {
            domain_id: self.domain_id as int,
            description: self.description.deep_view(),
        }
    }
}

impl DeepView for ProductDomain {
    type V = DomainFields;

    open spec fn deep_view(&self) -> DomainFields {
        self@
    }
}

impl Default for ProductDomain {
    fn default() -> (domain: Self)
        ensures
            domain@ == DomainFields::absent(),
    {
        ProductDomain { domain_id: 0, description: None }
    }
}

/// A product, as contracts see it.
pub struct ProductFields {
    pub id: int,
    pub catnum: Seq<char>,
    pub partno: Option<Seq<char>>,
    pub ean: Option<Seq<char>>,
    pub translation: Option<TranslationFields>,
    pub domain: Option<DomainFields>,
}

impl ProductFields {
    /// The translation that the name getters read: the attached one, or the
    /// absent translation where none is attached.
    pub open spec fn translation_or_absent(self) -> TranslationFields {
        match self.translation {
            Some(translation) => translation,
            None => TranslationFields::absent(),
        }
    }

    pub open spec fn name(self) -> Seq<char> {
        text_or_empty(self.translation_or_absent().name)
    }

    pub open spec fn name_prefix(self) -> Seq<char> {
        text_or_empty(self.translation_or_absent().name_prefix)
    }

    pub open spec fn name_sufix(self) -> Seq<char> {
        text_or_empty(self.translation_or_absent().name_sufix)
    }

    pub open spec fn fullname(self) -> Seq<char> {
        self.translation_or_absent().fullname()
    }

    pub open spec fn description(self) -> Seq<char> {
        match self.domain {
            Some(domain) => text_or_empty(domain.description),
            None => Seq::empty(),
        }
    }
}

/// A product row with the satellite data attached to it so far.
#[derive(Debug)]
pub struct Product {
    pub id: i32,
    pub catnum: String,
    pub partno: Option<String>,
    pub ean: Option<String>,
    pub translation: Option<ProductTranslation>,
    pub domain: Option<ProductDomain>,
}

impl View for Product {
    type V = ProductFields;

    open spec fn view(&self) -> ProductFields {
        ProductFields {
            id: self.id as int,
            catnum: self.catnum@,
            partno: self.partno.deep_view(),
            ean: self.ean.deep_view(),
            translation: self.translation.deep_view(),
            domain: self.domain.deep_view(),
        }
    }
}

impl Default for Product {
    fn default() -> (product: Self)
        ensures
            product@ == (ProductFields {
                id: 0,
                catnum: Seq::empty(),
                partno: None,
                ean: None,
                translation: None,
                domain: None,
            }),
    {
        Product {
            id: 0,
            catnum: String::new(),
            partno: None,
            ean: None,
            translation: None,
            domain: None,
        }
    }
}

impl Product {
    /// Attaches a translation unless one is attached already. `fetched` is the
    /// row that the lookup found, `None` where it found none: the product
    /// then gets the absent translation, not an error.
    pub fn with_translation(&mut self, fetched: Option<ProductTranslation>)
        ensures
            final(self)@ == (ProductFields {
                translation: Some(
                    match old(self)@.translation {
                        Some(attached) => attached,
                        None => match fetched.deep_view() {
                            Some(row) => row,
                            None => TranslationFields::absent(),
                        },
                    },
                ),
                ..old(self)@
            }),
    {
        if self.translation.is_some() {
            return ;
        }
        let translation = match fetched {
            Some(row) => row,
            None => ProductTranslation::default(),
        };
        self.translation = Some(translation);
    }

    /// Attaches the domain fields unless they are attached already, with the
    /// absent fields where the lookup found no row.
    pub fn with_domain(&mut self, fetched: Option<ProductDomain>)
        ensures
            final(self)@ == (ProductFields {
                domain: Some(
                    match old(self)@.domain {
                        Some(attached) => attached,
                        None => match fetched.deep_view() {
                            Some(row) => row,
                            None => DomainFields::absent(),
                        },
                    },
                ),
                ..old(self)@
            }),
    {
        if self.domain.is_some() {
            return ;
        }
        let domain = match fetched {
            Some(row) => row,
            None => ProductDomain::default(),
        };
        self.domain = Some(domain);
    }

    /// The translated name, empty where there is no translation or no name.
    pub fn name(&self) -> (name: String)
        ensures
            name@ == self@.name(),
    {
        match &self.translation {
            Some(translation) => clone_or_empty(&translation.name),
            None => String::new(),
        }
    }

    /// The translated name prefix, empty where absent.
    pub fn name_prefix(&self) -> (prefix: String)
        ensures
            prefix@ == self@.name_prefix(),
    {
        match &self.translation {
            Some(translation) => clone_or_empty(&translation.name_prefix),
            None => String::new(),
        }
    }

    /// The translated name suffix, empty where absent.
    pub fn name_sufix(&self) -> (sufix: String)
        ensures
            sufix@ == self@.name_sufix(),
    {
        match &self.translation {
            Some(translation) => clone_or_empty(&translation.name_sufix),
            None => String::new(),
        }
    }

    /// Prefix, name and suffix joined by single spaces.
    pub fn fullname(&self) -> (fullname: String)
        ensures
            fullname@ == self@.fullname(),
    {
        let fullname = join_name_parts(
            self.name_prefix().as_str(),
            self.name().as_str(),
            self.name_sufix().as_str(),
        );
        fullname
    }

    /// The description on the attached domain, empty where absent.
    pub fn description(&self) -> (description: String)
        ensures
            description@ == self@.description(),
    {
        match &self.domain {
            Some(domain) => clone_or_empty(&domain.description),
            None => String::new(),
        }
    }
}

/// The three name parts with a single space between neighbours.
pub fn join_name_parts(prefix: &str, name: &str, sufix: &str) -> (joined: String)
    ensures
        joined@ == prefix@ + seq![' '] + name@ + seq![' '] + sufix@,
{
    proof {
        reveal_strlit(" ");
    }
    let mut joined = String::new();
    joined.append(prefix);
    joined.append(" ");
    joined.append(name);
    joined.append(" ");
    joined.append(sufix);
    assert(joined@ =~= prefix@ + seq![' '] + name@ + seq![' '] + sufix@);
    joined
}

} // verus!
