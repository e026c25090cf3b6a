//! The enrichment lookup of one batch and the assembly of export documents.
//!
//! Satellite data is fetched once per batch and per category, scoped to the
//! batch's keys, and collected here. Documents are then assembled from the
//! collected rows alone: a key without a row in some category gets that
//! category's empty value.

use crate::product::{join_name_parts, TranslationFields};
use crate::text::{clone_or_empty, decimal, i32_to_string, text_or_empty};
use vstd::prelude::*;
use vstd::string::*;

verus! {

/// A product row of the export query, as contracts see it.
pub struct ProductRecord {
    pub id: int,
    pub catnum: Seq<char>,
    pub partno: Option<Seq<char>>,
    pub ean: Option<Seq<char>>,
    pub brand_id: Option<int>,
}

/// A product row as the export query returns it.
#[derive(Debug)]
pub struct ProductForElasticExport {
    pub id: i32,
    pub catnum: String,
    pub partno: Option<String>,
    pub ean: Option<String>,
    pub brand_id: Option<i32>,
}

impl View for ProductForElasticExport {
    type V = ProductRecord;

    open spec fn view(&self) -> ProductRecord {
        ProductRecord {
            id: self.id as int,
            catnum: self.catnum@,
            partno: self.partno.deep_view(),
            ean: self.ean.deep_view(),
            brand_id: match self.brand_id {
                Some(brand) => Some(brand as int),
                None => None,
            },
        }
    }
}

impl DeepView for ProductForElasticExport {
    type V = ProductRecord;

    open spec fn deep_view(&self) -> ProductRecord {
        self@
    }
}

/// The translated name parts of a product.
pub struct ProductTranslationForElasticExport {
    pub name: Option<String>,
    pub name_prefix: Option<String>,
    pub name_sufix: Option<String>,
}

impl View for ProductTranslationForElasticExport {
    type V = TranslationFields;

    open spec fn view(&self) -> TranslationFields {
        TranslationFields {
            name: self.name.deep_view(),
            name_prefix: self.name_prefix.deep_view(),
            name_sufix: self.name_sufix.deep_view(),
        }
    }
}

impl Default for ProductTranslationForElasticExport {
    fn default() -> (translation: Self)
        ensures
            translation@ == TranslationFields::absent(),
    {
        ProductTranslationForElasticExport { name: None, name_prefix: None, name_sufix: None }
    }
}

impl Clone for ProductTranslationForElasticExport {
    fn clone(&self) -> (copy: Self)
        ensures
            copy@ == self@,
    {
        ProductTranslationForElasticExport {
            name: clone_text(&self.name),
            name_prefix: clone_text(&self.name_prefix),
            name_sufix: clone_text(&self.name_sufix),
        }
    }
}

/// The domain-scoped texts of a product, as contracts see them.
pub struct DomainTexts {
    pub id: int,
    pub domain_id: int,
    pub description: Option<Seq<char>>,
    pub short_description: Option<Seq<char>>,
}

impl DomainTexts {
    /// The domain texts of a product that has no row on the domain.
    pub open spec fn absent() -> DomainTexts {
        DomainTexts { id: 0, domain_id: 0, description: None, short_description: None }
    }
}

/// The domain-scoped texts of a product.
pub struct ProductDomainForElasticExport {
    pub id: i32,
    pub domain_id: i32,
    pub description: Option<String>,
    pub short_description: Option<String>,
}

impl View for ProductDomainForElasticExport {
    type V = DomainTexts;

    open spec fn view(&self) -> DomainTexts {
        DomainTexts {
            id: self.id as int,
            domain_id: self.domain_id as int,
            description: self.description.deep_view(),
            short_description: self.short_description.deep_view(),
        }
    }
}

impl Default for ProductDomainForElasticExport {
    fn default() -> (domain: Self)
        ensures
            domain@ == DomainTexts::absent(),
    {
        ProductDomainForElasticExport {
            id: 0,
            domain_id: 0,
            description: None,
            short_description: None,
        }
    }
}

impl Clone for ProductDomainForElasticExport {
    fn clone(&self) -> (copy: Self)
        ensures
            copy@ == self@,
    {
        ProductDomainForElasticExport {
            id: self.id,
            domain_id: self.domain_id,
            description: clone_text(&self.description),
            short_description: clone_text(&self.short_description),
        }
    }
}

/// The main category of a product: its id and its bounds in the nested set.
#[derive(Debug, Clone, Copy, PartialEq, Eq, Structural)]
pub struct MainCategory {
    pub id: i32,
    pub lft: i32,
    pub rgt: i32,
}

impl Default for MainCategory {
    fn default() -> (category: Self)
        ensures
            category == (MainCategory { id: 0, lft: 0, rgt: 0 }),
    {
        MainCategory { id: 0, lft: 0, rgt: 0 }
    }
}

/// One export document, as contracts see it.
pub struct Document {
    pub id: int,
    pub catnum: Seq<char>,
    pub partno: Seq<char>,
    pub ean: Seq<char>,
    pub name: Seq<char>,
    pub fullname: Seq<char>,
    pub description: Seq<char>,
    pub short_description: Seq<char>,
    pub brand: Seq<char>,
    pub flags: Seq<i32>,
    pub categories: Seq<i32>,
}

/// The flattened projection of one product and its satellite data. Its
/// identity is the product's key; it is built anew on every run.
#[derive(Debug)]
pub struct ProductExportData {
    pub id: i32,
    pub catnum: String,
    pub partno: String,
    pub ean: String,
    pub name: String,
    pub fullname: String,
    pub description: String,
    pub short_description: String,
    pub brand: String,
    pub flags: Vec<i32>,
    pub categories: Vec<i32>,
}

impl View for ProductExportData {
    type V = Document;

    open spec fn view(&self) -> Document {
        Document {
            id: self.id as int,
            catnum: self.catnum@,
            partno: self.partno@,
            ean: self.ean@,
            name: self.name@,
            fullname: self.fullname@,
            description: self.description@,
            short_description: self.short_description@,
            brand: self.brand@,
            flags: self.flags@,
            categories: self.categories@,
        }
    }
}

impl DeepView for ProductExportData {
    type V = Document;

    open spec fn deep_view(&self) -> Document {
        self@
    }
}

impl Clone for ProductExportData {
    fn clone(&self) -> (copy: Self)
        ensures
            copy@ == self@,
    {
        ProductExportData {
            id: self.id,
            catnum: self.catnum.clone(),
            partno: self.partno.clone(),
            ean: self.ean.clone(),
            name: self.name.clone(),
            fullname: self.fullname.clone(),
            description: self.description.clone(),
            short_description: self.short_description.clone(),
            brand: self.brand.clone(),
            flags: copy_ids(&self.flags),
            categories: copy_ids(&self.categories),
        }
    }
}

/// A copy of an optional text field.
pub fn clone_text(field: &Option<String>) -> (copy: Option<String>)
    ensures
        copy.deep_view() == field.deep_view(),
{
    match field {
        Some(text) => Some(text.clone()),
        None => None,
    }
}

/// A copy of a list of ids.
pub fn copy_ids(ids: &Vec<i32>) -> (copy: Vec<i32>)
    ensures
        copy@ == ids@,
{
    let mut copy: Vec<i32> = Vec::new();
    let mut i: usize = 0;
    while i < ids.len()
        invariant
            i <= ids.len(),
            copy@ == ids@.take(i as int),
        decreases ids.len() - i,
    {
        copy.push(ids[i]);
        i = i + 1;
        assert(copy@ =~= ids@.take(i as int));
    }
    assert(ids@.take(ids.len() as int) =~= ids@);
    copy
}


/// A translation row of the batch query: the product it belongs to and the
/// name parts.
pub struct TranslationRow {
    pub product_id: i32,
    pub translation: ProductTranslationForElasticExport,
}

/// A translation row, as contracts see it.
pub struct TranslationEntry {
    pub product_id: int,
    pub translation: TranslationFields,
}

impl DeepView for TranslationRow {
    type V = TranslationEntry;

    open spec fn deep_view(&self) -> TranslationEntry {
        TranslationEntry { product_id: self.product_id as int, translation: self.translation@ }
    }
}

/// A domain row of the batch query: the product it belongs to and the texts.
pub struct DomainRow {
    pub product_id: i32,
    pub domain: ProductDomainForElasticExport,
}

/// A domain row, as contracts see it.
pub struct DomainEntry {
    pub product_id: int,
    pub domain: DomainTexts,
}

impl DeepView for DomainRow {
    type V = DomainEntry;

    open spec fn deep_view(&self) -> DomainEntry {
        DomainEntry { product_id: self.product_id as int, domain: self.domain@ }
    }
}

/// A sellable variant and the main variant it belongs to.
#[derive(Debug, Clone, Copy, PartialEq, Eq, Structural)]
pub struct VariantRow {
    pub main_variant_id: i32,
    pub id: i32,
}

/// A flag carried by a product on the batch's domain.
#[derive(Debug, Clone, Copy, PartialEq, Eq, Structural)]
pub struct FlagRow {
    pub product_id: i32,
    pub flag_id: i32,
}

/// A category that a product is filed under on the batch's domain.
#[derive(Debug, Clone, Copy, PartialEq, Eq, Structural)]
pub struct CategoryRow {
    pub product_id: i32,
    pub category_id: i32,
}

/// The main category found for a product. Rows of one product come in the
/// query's order of preference, so the first one counts.
#[derive(Debug, Clone, Copy, PartialEq, Eq, Structural)]
pub struct MainCategoryRow {
    pub product_id: i32,
    pub category: MainCategory,
}

/// The translation of the first row that belongs to `key`, the absent
/// translation where no row does.
pub open spec fn translation_of(rows: Seq<TranslationEntry>, key: int) -> TranslationFields
    decreases rows.len(),
{
    if rows.len() == 0 {
        TranslationFields::absent()
    } else if rows[0].product_id == key {
        rows[0].translation
    } else {
        translation_of(rows.skip(1), key)
    }
}

/// The domain texts of the first row that belongs to `key`, the absent texts
/// where no row does.
pub open spec fn domain_of(rows: Seq<DomainEntry>, key: int) -> DomainTexts
    decreases rows.len(),
{
    if rows.len() == 0 {
        DomainTexts::absent()
    } else if rows[0].product_id == key {
        rows[0].domain
    } else {
        domain_of(rows.skip(1), key)
    }
}

/// The main category of the first row that belongs to `key`, the zero
/// category where no row does.
pub open spec fn main_category_of(rows: Seq<MainCategoryRow>, key: int) -> MainCategory
    decreases rows.len(),
{
    if rows.len() == 0 {
        MainCategory { id: 0, lft: 0, rgt: 0 }
    } else if rows[0].product_id == key {
        rows[0].category
    } else {
        main_category_of(rows.skip(1), key)
    }
}

/// The ids of the variants of `main`, in the order of the rows.
pub open spec fn variants_of(rows: Seq<VariantRow>, main: int) -> Seq<i32>
    decreases rows.len(),
{
    if rows.len() == 0 {
        Seq::empty()
    } else if rows.last().main_variant_id == main {
        variants_of(rows.drop_last(), main).push(rows.last().id)
    } else {
        variants_of(rows.drop_last(), main)
    }
}

/// The ids of the categories of `key`, in the order of the rows.
pub open spec fn categories_of(rows: Seq<CategoryRow>, key: int) -> Seq<i32>
    decreases rows.len(),
{
    if rows.len() == 0 {
        Seq::empty()
    } else if rows.last().product_id == key {
        categories_of(rows.drop_last(), key).push(rows.last().category_id)
    } else {
        categories_of(rows.drop_last(), key)
    }
}

/// The flags carried by any of `products`, each once, in the order in which
/// the rows first name them.
pub open spec fn flags_of(rows: Seq<FlagRow>, products: Seq<i32>) -> Seq<i32>
    decreases rows.len(),
{
    if rows.len() == 0 {
        Seq::empty()
    } else {
        let earlier = flags_of(rows.drop_last(), products);
        let row = rows.last();
        if products.contains(row.product_id) && !earlier.contains(row.flag_id) {
            earlier.push(row.flag_id)
        } else {
            earlier
        }
    }
}

/// The keys whose flags one product's document shows: its sellable variants,
/// then the product itself.
pub open spec fn flag_owners(variants: Seq<VariantRow>, key: int) -> Seq<i32> {
    variants_of(variants, key).push(key as i32)
}

/// The satellite rows of one batch, as contracts see them.
pub struct Enrichment {
    pub translations: Seq<TranslationEntry>,
    pub domains: Seq<DomainEntry>,
    pub variants: Seq<VariantRow>,
    pub flags: Seq<FlagRow>,
    pub categories: Seq<CategoryRow>,
    pub main_categories: Seq<MainCategoryRow>,
}

impl Enrichment {
    /// The document of one product: its own columns, the name parts of its
    /// translation, the texts of its domain row, the flags of the product and
    /// its variants, and its categories. Every absent part is empty.
    pub open spec fn document_for(self, product: ProductRecord) -> Document {
        let translation = translation_of(self.translations, product.id);
        let domain = domain_of(self.domains, product.id);
        Document {
            id: product.id,
            catnum: product.catnum,
            partno: text_or_empty(product.partno),
            ean: text_or_empty(product.ean),
            name: text_or_empty(translation.name),
            fullname: translation.fullname(),
            description: text_or_empty(domain.description),
            short_description: text_or_empty(domain.short_description),
            brand: match product.brand_id {
                Some(brand) => decimal(brand),
                None => Seq::empty(),
            },
            flags: flags_of(self.flags, flag_owners(self.variants, product.id)),
            categories: categories_of(self.categories, product.id),
        }
    }

    /// The documents of a batch, one per product, in the batch's order.
    pub open spec fn documents_for(self, products: Seq<ProductRecord>) -> Seq<Document> {
        Seq::new(products.len(), |i: int| self.document_for(products[i]))
    }
}

/// The lookup structure of one batch: the rows of every satellite category,
/// fetched for the batch's keys and collected before documents are assembled.
pub struct ProductIndex {
    pub translations: Vec<TranslationRow>,
    pub domains: Vec<DomainRow>,
    pub variants: Vec<VariantRow>,
    pub flags: Vec<FlagRow>,
    pub categories: Vec<CategoryRow>,
    pub main_categories: Vec<MainCategoryRow>,
}

impl View for ProductIndex {
    type V = Enrichment;

    open spec fn view(&self) -> Enrichment {
        Enrichment {
            translations: self.translations.deep_view(),
            domains: self.domains.deep_view(),
            variants: self.variants@,
            flags: self.flags@,
            categories: self.categories@,
            main_categories: self.main_categories@,
        }
    }
}

/// Whether `needle` occurs in `ids`.
pub fn contains_id(ids: &Vec<i32>, needle: i32) -> (found: bool)
    ensures
        found == ids@.contains(needle),
{
    let mut i: usize = 0;
    while i < ids.len()
        invariant
            i <= ids.len(),
            forall|j: int| 0 <= j < i ==> ids@[j] != needle,
        decreases ids.len() - i,
    {
        if ids[i] == needle {
            return true;
        }
        i = i + 1;
    }
    false
}

impl ProductIndex {
    /// Collects the rows of a batch. Translation, domain, category and main
    /// category rows are those of the batch's keys; flag rows are those of the
    /// keys that `flag_lookup_keys` gives.
    pub fn new(
        translations: Vec<TranslationRow>,
        domains: Vec<DomainRow>,
        variants: Vec<VariantRow>,
        flags: Vec<FlagRow>,
        categories: Vec<CategoryRow>,
        main_categories: Vec<MainCategoryRow>,
    ) -> (index: Self)
        ensures
            index.translations == translations,
            index.domains == domains,
            index.variants == variants,
            index.flags == flags,
            index.categories == categories,
            index.main_categories == main_categories,
    {
        ProductIndex { translations, domains, variants, flags, categories, main_categories }
    }

    /// The translation of a product, absent (all parts `None`) where the
    /// batch has no translation row for it.
    pub fn get_product_translation(&self, product_id: i32) -> (translation:
        ProductTranslationForElasticExport)
        ensures
            translation@ == translation_of(self@.translations, product_id as int),
    {
        let ghost rows = self@.translations;
        assert(rows.skip(0) =~= rows);
        let mut i: usize = 0;
        while i < self.translations.len()
            invariant
                i <= self.translations.len(),
                rows == self.translations.deep_view(),
                translation_of(rows, product_id as int) == translation_of(
                    rows.skip(i as int),
                    product_id as int,
                ),
            decreases self.translations.len() - i,
        {
            assert(rows.skip(i as int)[0] == self.translations[i as int].deep_view());
            if self.translations[i].product_id == product_id {
                return self.translations[i].translation.clone();
            }
            assert(rows.skip(i as int).skip(1) =~= rows.skip(i as int + 1));
            i = i + 1;
        }
        ProductTranslationForElasticExport::default()
    }

    /// The domain texts of a product, absent where the batch has no domain
    /// row for it.
    pub fn get_product_domain(&self, product_id: i32) -> (domain: ProductDomainForElasticExport)
        ensures
            domain@ == domain_of(self@.domains, product_id as int),
    {
        let ghost rows = self@.domains;
        assert(rows.skip(0) =~= rows);
        let mut i: usize = 0;
        while i < self.domains.len()
            invariant
                i <= self.domains.len(),
                rows == self.domains.deep_view(),
                domain_of(rows, product_id as int) == domain_of(
                    rows.skip(i as int),
                    product_id as int,
                ),
            decreases self.domains.len() - i,
        {
            assert(rows.skip(i as int)[0] == self.domains[i as int].deep_view());
            if self.domains[i].product_id == product_id {
                return self.domains[i].domain.clone();
            }
            assert(rows.skip(i as int).skip(1) =~= rows.skip(i as int + 1));
            i = i + 1;
        }
        ProductDomainForElasticExport::default()
    }

    /// The main category of a product, the zero category where none was
    /// found.
    pub fn get_product_main_category_by_domain_id(&self, product_id: i32) -> (category:
        MainCategory)
        ensures
            category == main_category_of(self@.main_categories, product_id as int),
    {
        let ghost rows = self@.main_categories;
        assert(rows.skip(0) =~= rows);
        let mut i: usize = 0;
        while i < self.main_categories.len()
            invariant
                i <= self.main_categories.len(),
                rows == self.main_categories@,
                main_category_of(rows, product_id as int) == main_category_of(
                    rows.skip(i as int),
                    product_id as int,
                ),
            decreases self.main_categories.len() - i,
        {
            assert(rows.skip(i as int)[0] == self.main_categories[i as int]);
            if self.main_categories[i].product_id == product_id {
                return self.main_categories[i].category;
            }
            assert(rows.skip(i as int).skip(1) =~= rows.skip(i as int + 1));
            i = i + 1;
        }
        MainCategory::default()
    }

    /// The ids of the sellable variants of a main variant.
    pub fn get_sellable_variants(&self, main_variant_id: i32) -> (ids: Vec<i32>)
        ensures
            ids@ == variants_of(self@.variants, main_variant_id as int),
    {
        let mut ids: Vec<i32> = Vec::new();
        let mut i: usize = 0;
        while i < self.variants.len()
            invariant
                i <= self.variants.len(),
                ids@ == variants_of(self.variants@.take(i as int), main_variant_id as int),
            decreases self.variants.len() - i,
        {
            assert(self.variants@.take(i as int + 1).drop_last() =~= self.variants@.take(
                i as int,
            ));
            if self.variants[i].main_variant_id == main_variant_id {
                ids.push(self.variants[i].id);
            }
            i = i + 1;
        }
        assert(self.variants@.take(i as int) =~= self.variants@);
        ids
    }

    /// The ids of the categories of a product; empty where it has none.
    pub fn get_category_ids(&self, product_id: i32) -> (ids: Vec<i32>)
        ensures
            ids@ == categories_of(self@.categories, product_id as int),
    {
        let mut ids: Vec<i32> = Vec::new();
        let mut i: usize = 0;
        while i < self.categories.len()
            invariant
                i <= self.categories.len(),
                ids@ == categories_of(self.categories@.take(i as int), product_id as int),
            decreases self.categories.len() - i,
        {
            assert(self.categories@.take(i as int + 1).drop_last() =~= self.categories@.take(
                i as int,
            ));
            if self.categories[i].product_id == product_id {
                ids.push(self.categories[i].category_id);
            }
            i = i + 1;
        }
        assert(self.categories@.take(i as int) =~= self.categories@);
        ids
    }

    /// The distinct flags of the given products.
    pub fn extract_flags_for_domain(&self, product_ids: &Vec<i32>) -> (flag_ids: Vec<i32>)
        ensures
            flag_ids@ == flags_of(self@.flags, product_ids@),
    {
        let mut flag_ids: Vec<i32> = Vec::new();
        let mut i: usize = 0;
        while i < self.flags.len()
            invariant
                i <= self.flags.len(),
                flag_ids@ == flags_of(self.flags@.take(i as int), product_ids@),
            decreases self.flags.len() - i,
        {
            assert(self.flags@.take(i as int + 1).drop_last() =~= self.flags@.take(i as int));
            let row = self.flags[i];
            if contains_id(product_ids, row.product_id) && !contains_id(&flag_ids, row.flag_id) {
                flag_ids.push(row.flag_id);
            }
            i = i + 1;
        }
        assert(self.flags@.take(i as int) =~= self.flags@);
        flag_ids
    }

    /// The document of one product.
    pub fn build_document(&self, product: &ProductForElasticExport) -> (document:
        ProductExportData)
        ensures
            document@ == self@.document_for(product@),
    {
        let translation = self.get_product_translation(product.id);
        let domain = self.get_product_domain(product.id);
        let mut owners = self.get_sellable_variants(product.id);
        owners.push(product.id);
        let flags = self.extract_flags_for_domain(&owners);
        let categories = self.get_category_ids(product.id);
        let brand = match product.brand_id {
            Some(brand) => i32_to_string(brand),
            None => String::new(),
        };
        let prefix = clone_or_empty(&translation.name_prefix);
        let name = clone_or_empty(&translation.name);
        let sufix = clone_or_empty(&translation.name_sufix);
        ProductExportData {
            id: product.id,
            catnum: product.catnum.clone(),
            partno: clone_or_empty(&product.partno),
            ean: clone_or_empty(&product.ean),
            fullname: join_name_parts(prefix.as_str(), name.as_str(), sufix.as_str()),
            name,
            description: clone_or_empty(&domain.description),
            short_description: clone_or_empty(&domain.short_description),
            brand,
            flags,
            categories,
        }
    }

    /// The documents of a batch: one per product, in the batch's order. Never
    /// fails for missing satellite data.
    pub fn get_export_data_for_batch(&self, products: &Vec<ProductForElasticExport>) -> (documents:
        Vec<ProductExportData>)
        ensures
            documents.deep_view() == self@.documents_for(products.deep_view()),
    {
        let mut documents: Vec<ProductExportData> = Vec::new();
        let mut i: usize = 0;
        while i < products.len()
            invariant
                i <= products.len(),
                documents.len() == i,
                forall|j: int|
                    0 <= j < i ==> (#[trigger] documents@[j])@ == self@.document_for(
                        products@[j]@,
                    ),
            decreases products.len() - i,
        {
            let document = self.build_document(&products[i]);
            documents.push(document);
            i = i + 1;
        }
        assert(documents.deep_view() =~= self@.documents_for(products.deep_view()));
        documents
    }
}

/// The keys of a batch, in the batch's order.
pub open spec fn keys_of(products: Seq<ProductRecord>) -> Seq<int> {
    Seq::new(products.len(), |i: int| products[i].id)
}

/// The keys of a batch, for the satellite queries that are scoped to them.
pub fn batch_keys(products: &Vec<ProductForElasticExport>) -> (keys: Vec<i32>)
    ensures
        keys@.len() == products@.len(),
        forall|i: int| 0 <= i < keys@.len() ==> keys@[i] == products@[i].id,
{
    let mut keys: Vec<i32> = Vec::new();
    let mut i: usize = 0;
    while i < products.len()
        invariant
            i <= products.len(),
            keys@.len() == i,
            forall|j: int| 0 <= j < i ==> keys@[j] == products@[j].id,
        decreases products.len() - i,
    {
        keys.push(products[i].id);
        i = i + 1;
    }
    keys
}

/// The ids of all variant rows, in the order of the rows.
pub open spec fn variant_ids(rows: Seq<VariantRow>) -> Seq<i32> {
    Seq::new(rows.len(), |i: int| rows[i].id)
}

/// The keys for the one flag query of a batch: the batch's own keys followed
/// by the keys of all their variants, so that the flags of primary and
/// related products come from a single call.
pub fn flag_lookup_keys(keys: &Vec<i32>, variants: &Vec<VariantRow>) -> (lookup: Vec<i32>)
    ensures
        lookup@ == keys@ + variant_ids(variants@),
{
    let mut lookup = copy_ids(keys);
    let mut i: usize = 0;
    while i < variants.len()
        invariant
            i <= variants.len(),
            lookup@ == keys@ + variant_ids(variants@).take(i as int),
        decreases variants.len() - i,
    {
        lookup.push(variants[i].id);
        i = i + 1;
        assert(lookup@ =~= keys@ + variant_ids(variants@).take(i as int));
    }
    assert(variant_ids(variants@).take(i as int) =~= variant_ids(variants@));
    lookup
}


/// Whether no translation row belongs to `key`.
pub open spec fn no_translation_row(rows: Seq<TranslationEntry>, key: int) -> bool {
    forall|i: int| 0 <= i < rows.len() ==> (#[trigger] rows[i]).product_id != key
}

/// Whether no category row belongs to `key`.
pub open spec fn no_category_row(rows: Seq<CategoryRow>, key: int) -> bool {
    forall|i: int| 0 <= i < rows.len() ==> (#[trigger] rows[i]).product_id != key
}

/// A key without a translation row has the absent translation.
pub proof fn lemma_translation_absent(rows: Seq<TranslationEntry>, key: int)
    requires
        no_translation_row(rows, key),
    ensures
        translation_of(rows, key) == TranslationFields::absent(),
    decreases rows.len(),
{
    if rows.len() > 0 {
        assert(rows[0].product_id != key);
        assert forall|i: int| 0 <= i < rows.skip(1).len() implies (#[trigger] rows.skip(
            1,
        )[i]).product_id != key by {
            assert(rows.skip(1)[i] == rows[i + 1]);
        }
        lemma_translation_absent(rows.skip(1), key);
    }
}

/// A key without a category row has no categories.
pub proof fn lemma_categories_absent(rows: Seq<CategoryRow>, key: int)
    requires
        no_category_row(rows, key),
    ensures
        categories_of(rows, key) == Seq::<i32>::empty(),
    decreases rows.len(),
{
    if rows.len() > 0 {
        assert(rows.last() == rows[rows.len() - 1]);
        assert forall|i: int| 0 <= i < rows.drop_last().len() implies (
        #[trigger] rows.drop_last()[i]).product_id != key by {
            assert(rows.drop_last()[i] == rows[i]);
        }
        lemma_categories_absent(rows.drop_last(), key);
    }
}

/// Missing enrichment is no failure. A product without a translation row gets
/// a document whose name is empty and whose full name holds nothing but the
/// two joining spaces; a product without a category row gets a document with
/// no categories.
pub proof fn lemma_enrichment_defaults(enrichment: Enrichment, product: ProductRecord)
    ensures
        no_translation_row(enrichment.translations, product.id) ==> {
            &&& enrichment.document_for(product).name == Seq::<char>::empty()
            &&& enrichment.document_for(product).fullname == seq![' ', ' ']
        },
        no_category_row(enrichment.categories, product.id) ==> enrichment.document_for(
            product,
        ).categories == Seq::<i32>::empty(),
        enrichment.document_for(product).id == product.id,
{
    if no_translation_row(enrichment.translations, product.id) {
        lemma_translation_absent(enrichment.translations, product.id);
        assert(TranslationFields::absent().fullname() =~= seq![' ', ' ']);
    }
    if no_category_row(enrichment.categories, product.id) {
        lemma_categories_absent(enrichment.categories, product.id);
    }
}

/// The flags of a document form a set: no flag is listed twice, and a flag is
/// listed exactly if some row gives it to one of the products asked for.
pub proof fn lemma_flags_form_a_set(rows: Seq<FlagRow>, products: Seq<i32>)
    ensures
        flags_of(rows, products).no_duplicates(),
        forall|flag: i32|
            flags_of(rows, products).contains(flag) <==> exists|i: int|
                0 <= i < rows.len() && products.contains((#[trigger] rows[i]).product_id)
                    && rows[i].flag_id == flag,
    decreases rows.len(),
{
    let flags = flags_of(rows, products);
    if rows.len() > 0 {
        let front = rows.drop_last();
        let earlier = flags_of(front, products);
        let row = rows.last();
        lemma_flags_form_a_set(front, products);
        assert forall|flag: i32| flags.contains(flag) implies exists|i: int|
            0 <= i < rows.len() && products.contains((#[trigger] rows[i]).product_id)
                && rows[i].flag_id == flag by {
            if earlier.contains(flag) {
                let i = choose|i: int|
                    0 <= i < front.len() && products.contains((#[trigger] front[i]).product_id)
                        && front[i].flag_id == flag;
                assert(rows[i] == front[i]);
            } else {
                let k = choose|k: int| 0 <= k < flags.len() && flags[k] == flag;
                if k < earlier.len() {
                    assert(earlier[k] == flag);
                    assert(false);
                }
                assert(rows[rows.len() - 1] == row);
            }
        }
        assert forall|flag: i32|
            (exists|i: int|
                0 <= i < rows.len() && products.contains((#[trigger] rows[i]).product_id)
                    && rows[i].flag_id == flag) implies flags.contains(flag) by {
            let i = choose|i: int|
                0 <= i < rows.len() && products.contains((#[trigger] rows[i]).product_id)
                    && rows[i].flag_id == flag;
            if i < front.len() {
                assert(front[i] == rows[i]);
                assert(earlier.contains(flag));
                let k = choose|k: int| 0 <= k < earlier.len() && earlier[k] == flag;
                assert(flags[k] == flag);
            } else {
                assert(rows[i] == row);
                if earlier.contains(flag) {
                    let k = choose|k: int| 0 <= k < earlier.len() && earlier[k] == flag;
                    assert(flags[k] == flag);
                } else {
                    assert(flags[earlier.len() as int] == flag);
                }
            }
        }
    }
}

} // verus!
