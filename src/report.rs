use vstd::hash_map::StringHashMap;
use vstd::prelude::*;

use crate::price::{parse_quantity, price_cents, price_from_str, quantity_units};
use crate::text::{split_text, to_upper, upper_of};
use crate::upc::{normalized, Upc};

verus! {

/// A product of the local inventory, seen as plain values.
pub struct ProductView {
    pub sku: Seq<char>,
    pub desc: Seq<char>,
    pub upcs: Seq<Seq<u8>>,
    pub list: int,
    pub cost: int,
    pub stock: int,
}

/// A product of the local inventory: its SKU as the report wrote it, its description, the UPCs
/// it carries, its list price and cost in cents, and its stock in whole units.
#[derive(Debug)]
pub struct AbcProduct {
    sku: String,
    desc: String,
    upcs: Vec<Upc>,
    list: i64,
    cost: i64,
    stock: i64,
}

/// The views of a run of UPCs.
pub open spec fn upc_views(u: Seq<Upc>) -> Seq<Seq<u8>> {
    u.map_values(|x: Upc| x@)
}

impl View for AbcProduct {
    type V = ProductView;

    closed spec fn view(&self) -> ProductView {
        ProductView {
            sku: self.sku@,
            desc: self.desc@,
            upcs: upc_views(self.upcs@),
            list: self.list as int,
            cost: self.cost as int,
            stock: self.stock as int,
        }
    }
}

/// A copy of a run of UPCs.
fn copy_upcs(v: &Vec<Upc>) -> (r: Vec<Upc>)
    ensures
        r@ == v@,
{
    let mut out: Vec<Upc> = Vec::new();
    for i in 0..v.len()
        invariant
            out@ == v@.take(i as int),
    {
        out.push(v[i]);
        assert(v@.take(i + 1) == v@.take(i as int).push(v@[i as int]));
    }
    assert(v@.take(v@.len() as int) == v@);
    out
}

impl AbcProduct {
    /// A product with every field given.
    pub fn new(sku: String, desc: String, upcs: Vec<Upc>, list: i64, cost: i64, stock: i64) -> (r: AbcProduct)
        ensures
            r@ == (ProductView {
                sku: sku@,
                desc: desc@,
                upcs: upc_views(upcs@),
                list: list as int,
                cost: cost as int,
                stock: stock as int,
            }),
    {
        AbcProduct { sku, desc, upcs, list, cost, stock }
    }

    pub fn sku(&self) -> (r: String)
        ensures
            r@ == self@.sku,
    {
        self.sku.clone()
    }

    pub fn desc(&self) -> (r: String)
        ensures
            r@ == self@.desc,
    {
        self.desc.clone()
    }

    pub fn upcs(&self) -> (r: Vec<Upc>)
        ensures
            upc_views(r@) == self@.upcs,
    {
        copy_upcs(&self.upcs)
    }

    /// The number of UPCs the product carries.
    pub fn upc_count(&self) -> (r: usize)
        ensures
            r == self@.upcs.len(),
    {
        self.upcs.len()
    }

    /// The `i`-th UPC the product carries.
    pub fn upc_at(&self, i: usize) -> (r: Upc)
        requires
            i < self@.upcs.len(),
        ensures
            r@ == self@.upcs[i as int],
    {
        self.upcs[i]
    }

    pub fn list(&self) -> (r: i64)
        ensures
            r == self@.list,
    {
        self.list
    }

    pub fn cost(&self) -> (r: i64)
        ensures
            r == self@.cost,
    {
        self.cost
    }

    pub fn stock(&self) -> (r: i64)
        ensures
            r == self@.stock,
    {
        self.stock
    }

    /// The same product with its stock and SKU replaced.
    fn with_stock_and_sku(&self, stock: i64, sku: String) -> (r: AbcProduct)
        ensures
            r@ == (ProductView { stock: stock as int, sku: sku@, ..self@ }),
    {
        AbcProduct {
            sku,
            desc: self.desc.clone(),
            upcs: copy_upcs(&self.upcs),
            list: self.list,
            cost: self.cost,
            stock,
        }
    }
}

/// A field that a product cannot do without.
#[derive(Debug, Clone, Copy, PartialEq, Eq, Structural)]
pub enum ProductField {
    Sku,
    Desc,
    List,
    Cost,
}

/// What a builder has been given, as plain values.
pub struct BuilderView {
    pub sku: Option<Seq<char>>,
    pub desc: Option<Seq<char>>,
    pub upcs: Seq<Seq<u8>>,
    pub list: Option<i64>,
    pub cost: Option<i64>,
    pub stock: Option<i64>,
}

/// Gathers the fields of a product one at a time. The SKU, description, list price and cost are
/// required; the product carries no UPC and no stock unless given.
pub struct AbcProductBuilder {
    sku: Option<String>,
    desc: Option<String>,
    upcs: Vec<Upc>,
    list: Option<i64>,
    cost: Option<i64>,
    stock: Option<i64>,
}

/// The required fields that `b` lacks, in the order SKU, description, list price, cost.
pub open spec fn missing_fields(b: BuilderView) -> Seq<ProductField> {
    (if b.sku is None {
        seq![ProductField::Sku]
    } else {
        Seq::empty()
    }) + (if b.desc is None {
        seq![ProductField::Desc]
    } else {
        Seq::empty()
    }) + (if b.list is None {
        seq![ProductField::List]
    } else {
        Seq::empty()
    }) + (if b.cost is None {
        seq![ProductField::Cost]
    } else {
        Seq::empty()
    })
}

impl View for AbcProductBuilder {
    type V = BuilderView;

    closed spec fn view(&self) -> BuilderView {
        BuilderView {
            sku: match self.sku {
                Some(s) => Some(s@),
                None => None,
            },
            desc: match self.desc {
                Some(s) => Some(s@),
                None => None,
            },
            upcs: upc_views(self.upcs@),
            list: self.list,
            cost: self.cost,
            stock: self.stock,
        }
    }
}

impl AbcProductBuilder {
    /// A builder that has been given nothing.
    pub fn new() -> (r: Self)
        ensures
            r@ == (BuilderView {
                sku: None,
                desc: None,
                upcs: Seq::empty(),
                list: None,
                cost: None,
                stock: None,
            }),
    {
        let r = AbcProductBuilder {
            sku: None,
            desc: None,
            upcs: Vec::new(),
            list: None,
            cost: None,
            stock: None,
        };
        assert(r@.upcs =~= Seq::empty());
        r
    }

    pub fn with_sku(self, sku: &str) -> (r: Self)
        ensures
            r@ == (BuilderView { sku: Some(sku@), ..self@ }),
    {
        AbcProductBuilder { sku: Some(String::from_str(sku)), ..self }
    }

    pub fn with_desc(self, desc: &str) -> (r: Self)
        ensures
            r@ == (BuilderView { desc: Some(desc@), ..self@ }),
    {
        AbcProductBuilder { desc: Some(String::from_str(desc)), ..self }
    }

    pub fn with_upcs(self, upcs: Vec<Upc>) -> (r: Self)
        ensures
            r@ == (BuilderView { upcs: upc_views(upcs@), ..self@ }),
    {
        AbcProductBuilder { upcs, ..self }
    }

    pub fn add_upc(self, upc: Upc) -> (r: Self)
        ensures
            r@ == (BuilderView { upcs: self@.upcs.push(upc@), ..self@ }),
    {
        let mut upcs = self.upcs;
        let ghost before = upcs@;
        upcs.push(upc);
        assert(upc_views(upcs@) =~= upc_views(before).push(upc@));
        AbcProductBuilder { upcs, ..self }
    }

    pub fn with_list(self, list: i64) -> (r: Self)
        ensures
            r@ == (BuilderView { list: Some(list), ..self@ }),
    {
        AbcProductBuilder { list: Some(list), ..self }
    }

    pub fn with_cost(self, cost: i64) -> (r: Self)
        ensures
            r@ == (BuilderView { cost: Some(cost), ..self@ }),
    {
        AbcProductBuilder { cost: Some(cost), ..self }
    }

    pub fn with_stock(self, stock: i64) -> (r: Self)
        ensures
            r@ == (BuilderView { stock: Some(stock), ..self@ }),
    {
        AbcProductBuilder { stock: Some(stock), ..self }
    }

    /// The product, or every required field that was not given.
    pub fn build(self) -> (r: Result<AbcProduct, Vec<ProductField>>)
        ensures
            match r {
                Ok(p) => missing_fields(self@).len() == 0 && p@ == (ProductView {
                    sku: self@.sku->0,
                    desc: self@.desc->0,
                    upcs: self@.upcs,
                    list: self@.list->0 as int,
                    cost: self@.cost->0 as int,
                    stock: match self@.stock {
                        Some(s) => s as int,
                        None => 0,
                    },
                }),
                Err(missing) => missing_fields(self@).len() > 0 && missing@ == missing_fields(self@),
            },
    {
        let mut missing: Vec<ProductField> = Vec::new();
        if self.sku.is_none() {
            missing.push(ProductField::Sku);
        }
        if self.desc.is_none() {
            missing.push(ProductField::Desc);
        }
        if self.list.is_none() {
            missing.push(ProductField::List);
        }
        if self.cost.is_none() {
            missing.push(ProductField::Cost);
        }
        assert(missing@ =~= missing_fields(self@));
        match (self.sku, self.desc, self.list, self.cost) {
            (Some(sku), Some(desc), Some(list), Some(cost)) => {
                let stock = match self.stock {
                    Some(s) => s,
                    None => 0,
                };
                Ok(AbcProduct { sku, desc, upcs: self.upcs, list, cost, stock })
            },
            _ => Err(missing),
        }
    }
}

/// The products of one run, each under its key: its SKU in upper case, so that SKUs that differ
/// only in case name the same product. Products keep the order in which they were first added.
pub struct ProductSet {
    keys: Vec<String>,
    products: Vec<AbcProduct>,
    positions: StringHashMap<usize>,
}

impl View for ProductSet {
    type V = Map<Seq<char>, ProductView>;

    closed spec fn view(&self) -> Map<Seq<char>, ProductView> {
        self.positions@.map_values(|i: usize| self.products@[i as int]@)
    }
}

impl ProductSet {
    /// The keys are distinct and each names the product at its position.
    pub closed spec fn wf(&self) -> bool {
        &&& self.keys@.len() == self.products@.len()
        &&& forall|k: Seq<char>| #[trigger]
            self.positions@.contains_key(k) ==> self.positions@[k] < self.keys@.len()
                && self.keys@[self.positions@[k] as int]@ == k
        &&& forall|i: int| 0 <= i < self.keys@.len() ==> #[trigger] self.positions@.contains_key(
            self.keys@[i]@,
        ) && self.positions@[self.keys@[i]@] == i
    }

    /// The number of products.
    pub closed spec fn spec_len(&self) -> nat {
        self.products@.len()
    }

    /// The key of the product at position `i`.
    pub closed spec fn key_at(&self, i: int) -> Seq<char> {
        self.keys@[i]@
    }

    /// The product at position `i`.
    pub closed spec fn product_at(&self, i: int) -> ProductView {
        self.products@[i]@
    }

    /// Positions and keys name the same products: the set holds one product per position, the key
    /// at each position names the product there, keys at different positions differ, and every
    /// key has a position.
    pub proof fn lemma_positions(&self)
        requires
            self.wf(),
        ensures
            self.spec_len() == self@.len(),
            forall|i: int|
                0 <= i < self.spec_len() ==> #[trigger] self@.contains_key(self.key_at(i))
                    && self@[self.key_at(i)] == self.product_at(i),
            forall|i: int, j: int|
                0 <= i < self.spec_len() && 0 <= j < self.spec_len() && i != j ==> self.key_at(i)
                    != self.key_at(j),
            forall|k: Seq<char>| #[trigger]
                self@.contains_key(k) ==> exists|i: int|
                    0 <= i < self.spec_len() && self.key_at(i) == k,
    {
        let ks = self.keys@.map_values(|x: String| x@);
        assert forall|i: int, j: int|
            0 <= i < self.spec_len() && 0 <= j < self.spec_len() && i != j implies self.key_at(i)
            != self.key_at(j) by {
            assert(self.positions@.contains_key(self.keys@[i]@));
            assert(self.positions@.contains_key(self.keys@[j]@));
        }
        assert forall|k: Seq<char>| #[trigger] self@.contains_key(k) implies exists|i: int|
            0 <= i < self.spec_len() && self.key_at(i) == k by {
            let i = self.positions@[k] as int;
            assert(self.key_at(i) == k);
        }
        assert(ks.no_duplicates()) by {
            assert forall|i: int, j: int| 0 <= i < ks.len() && 0 <= j < ks.len() && i != j implies ks[i]
                != ks[j] by {
                assert(ks[i] == self.key_at(i));
                assert(ks[j] == self.key_at(j));
            }
        }
        assert(ks.to_set() =~= self@.dom()) by {
            assert forall|k: Seq<char>| ks.to_set().contains(k) <==> self@.dom().contains(k) by {
                if ks.to_set().contains(k) {
                    let i = choose|i: int| 0 <= i < ks.len() && ks[i] == k;
                    assert(self.positions@.contains_key(self.keys@[i]@));
                }
                if self@.dom().contains(k) {
                    let i = self.positions@[k] as int;
                    assert(ks[i] == k);
                }
            }
        }
        ks.unique_seq_to_set();
    }

    /// An empty set.
    pub fn new() -> (r: ProductSet)
        ensures
            r.wf(),
            r@ == Map::<Seq<char>, ProductView>::empty(),
            r.spec_len() == 0,
    {
        let r = ProductSet { keys: Vec::new(), products: Vec::new(), positions: StringHashMap::new() };
        assert(r@ =~= Map::<Seq<char>, ProductView>::empty());
        r
    }

    /// The number of products.
    pub fn len(&self) -> (r: usize)
        ensures
            r == self.spec_len(),
    {
        self.products.len()
    }

    /// The product at position `i` and its key.
    pub fn at(&self, i: usize) -> (r: (&String, &AbcProduct))
        requires
            self.wf(),
            i < self.spec_len(),
        ensures
            r.0@ == self.key_at(i as int),
            r.1@ == self.product_at(i as int),
            self@.contains_key(r.0@),
            self@[r.0@] == r.1@,
    {
        (&self.keys[i], &self.products[i])
    }

    /// The product with the given key, if there is one.
    pub fn get(&self, key: &str) -> (r: Option<&AbcProduct>)
        requires
            self.wf(),
        ensures
            match r {
                Some(p) => self@.contains_key(key@) && self@[key@] == p@,
                None => !self@.contains_key(key@),
            },
    {
        match self.positions.get(key) {
            Some(i) => Some(&self.products[*i]),
            None => None,
        }
    }

    /// Puts `p` under `key`, in place of the product that was there, if any.
    pub fn insert(&mut self, key: String, p: AbcProduct)
        requires
            old(self).wf(),
        ensures
            final(self).wf(),
            final(self)@ == old(self)@.insert(key@, p@),
    {
        let ghost pv = p@;
        match self.positions.get(key.as_str()) {
            Some(i) => {
                let i = *i;
                self.products.set(i, p);
                proof {
                    assert forall|k: Seq<char>| #[trigger] self.positions@.contains_key(k) && k != key@
                        implies self.positions@[k] != i by {}
                }
                assert(self@ =~= old(self)@.insert(key@, pv));
                assert(self.wf());
            },
            None => {
                let n = self.keys.len();
                let k2 = key.clone();
                self.positions.insert(k2, n);
                self.keys.push(key);
                self.products.push(p);
                proof {
                    assert forall|k: Seq<char>| #[trigger] self.positions@.contains_key(k) implies self.positions@[k]
                        < self.keys@.len() && self.keys@[self.positions@[k] as int]@ == k by {
                        if k != key@ {
                            assert(old(self).positions@.contains_key(k));
                        }
                    }
                    assert forall|i: int| 0 <= i < self.keys@.len() implies #[trigger] self.positions@.contains_key(
                        self.keys@[i]@,
                    ) && self.positions@[self.keys@[i]@] == i by {
                        if i < n {
                            assert(old(self).positions@.contains_key(old(self).keys@[i]@));
                        }
                    }
                }
                assert(self@ =~= old(self)@.insert(key@, pv));
                assert(self.wf());
            },
        }
    }
}

/// The error type of the csv crate, carried through unread.
#[verifier::external_type_specification]
#[verifier::external_body]
pub struct ExCsvError(csv::Error);

/// The records of tab-separated data, each as its fields, as the csv crate reads them.
pub uninterp spec fn tsv_records(data: Seq<u8>, has_headers: bool, flexible: bool) -> Seq<
    Seq<Seq<char>>,
>;

/// Whether the csv crate reads tab-separated data without error.
pub uninterp spec fn tsv_readable(data: Seq<u8>, has_headers: bool, flexible: bool) -> bool;

/// Relies on `csv::ReaderBuilder` with a tab delimiter, and on `Reader::records`: whether it
/// fails and the records it yields depend on the bytes and the two options alone (a first
/// record taken as headers is not yielded; a flexible reader accepts records of differing
/// lengths).
#[verifier::external_body]
pub(crate) fn read_tsv(data: &[u8], has_headers: bool, flexible: bool) -> (r: Result<
    Vec<Vec<String>>,
    csv::Error,
>)
    ensures
        r is Ok <==> tsv_readable(data@, has_headers, flexible),
        r matches Ok(rows) ==> rows_view(rows@) == tsv_records(data@, has_headers, flexible),
{
    let mut reader = csv::ReaderBuilder::new()
        .delimiter(b'\t')
        .has_headers(has_headers)
        .flexible(flexible)
        .from_reader(data);
    let mut rows = Vec::new();
    for record in reader.records() {
        rows.push(record?.iter().map(String::from).collect());
    }
    Ok(rows)
}

/// Column of the SKU in a row of the item report.
pub const ITEM_SKU_COLUMN: usize = 0;

/// Column of the description in a row of the item report.
pub const ITEM_DESC_COLUMN: usize = 1;

/// Column of the list price in a row of the item report.
pub const ITEM_LIST_COLUMN: usize = 6;

/// Column of the cost price in a row of the item report.
pub const ITEM_COST_COLUMN: usize = 8;

/// Column of the comma-separated UPC list in a row of the item report.
pub const ITEM_UPC_COLUMN: usize = 43;

/// Column of the SKU in a row of the posted report.
pub const POSTED_SKU_COLUMN: usize = 0;

/// Column of the stock on hand in a row of the posted report.
pub const POSTED_STOCK_COLUMN: usize = 19;

/// A field of a report row.
#[derive(Debug, Clone, Copy, PartialEq, Eq, Structural)]
pub enum ReportField {
    ItemSku,
    Description,
    UpcList,
    ListPrice,
    CostPrice,
    PostedSku,
    Stock,
}

/// Why the reports could not be turned into products. Rows are counted from 1 within their
/// report.
#[derive(Debug)]
pub enum ReportParseError {
    /// The row has no cell for the field.
    MissingField(usize, ReportField),
    /// The cell of the field holds no number.
    PriceParseError(usize, ReportField),
    /// A row of the posted report names a SKU that the item report does not have.
    UnmatchedPostedSku(usize, String),
    /// The report is no readable tab-separated data.
    Unreadable(csv::Error),
}

/// What is wrong with one report row, as plain values.
pub enum RowFault {
    Missing(ReportField),
    Unparsable(ReportField),
    UnmatchedSku(Seq<char>),
}

/// Whether `e` reports `fault` in row `row`.
pub open spec fn reports_fault(e: ReportParseError, row: int, fault: RowFault) -> bool {
    match (e, fault) {
        (ReportParseError::MissingField(n, a), RowFault::Missing(b)) => n == row && a == b,
        (ReportParseError::PriceParseError(n, a), RowFault::Unparsable(b)) => n == row && a == b,
        (ReportParseError::UnmatchedPostedSku(n, a), RowFault::UnmatchedSku(b)) => n == row && a@
            == b,
        _ => false,
    }
}

/// The rows of a report, as plain text.
pub open spec fn rows_view(rows: Seq<Vec<String>>) -> Seq<Seq<Seq<char>>> {
    rows.map_values(|r: Vec<String>| r@.map_values(|c: String| c@))
}

/// The UPCs kept from the entries of a UPC list: those that normalize.
pub open spec fn kept_upcs(parts: Seq<Seq<char>>) -> Seq<Seq<u8>>
    decreases parts.len(),
{
    if parts.len() == 0 {
        Seq::empty()
    } else {
        match normalized(parts.last()) {
            Some(d) => kept_upcs(parts.drop_last()).push(d),
            None => kept_upcs(parts.drop_last()),
        }
    }
}

/// The UPCs of a comma-separated UPC cell.
pub open spec fn upcs_in_cell(cell: Seq<char>) -> Seq<Seq<u8>> {
    kept_upcs(split_text(cell, ','))
}

/// What is wrong with a row of the item report, if anything.
pub open spec fn item_row_fault(r: Seq<Seq<char>>) -> Option<RowFault> {
    if r.len() <= ITEM_SKU_COLUMN {
        Some(RowFault::Missing(ReportField::ItemSku))
    } else if r.len() <= ITEM_DESC_COLUMN {
        Some(RowFault::Missing(ReportField::Description))
    } else if r.len() <= ITEM_UPC_COLUMN {
        // the price columns come before the UPC column
        Some(RowFault::Missing(ReportField::UpcList))
    } else if price_cents(r[ITEM_LIST_COLUMN as int]) is None {
        Some(RowFault::Unparsable(ReportField::ListPrice))
    } else if price_cents(r[ITEM_COST_COLUMN as int]) is None {
        Some(RowFault::Unparsable(ReportField::CostPrice))
    } else {
        None
    }
}

/// The product a sound row of the item report describes, with no stock yet.
pub open spec fn item_product(r: Seq<Seq<char>>) -> ProductView {
    ProductView {
        sku: r[ITEM_SKU_COLUMN as int],
        desc: r[ITEM_DESC_COLUMN as int],
        upcs: upcs_in_cell(r[ITEM_UPC_COLUMN as int]),
        list: price_cents(r[ITEM_LIST_COLUMN as int])->0,
        cost: price_cents(r[ITEM_COST_COLUMN as int])->0,
        stock: 0,
    }
}

/// The first faulty row of the item report, counted from 1, and its fault.
pub open spec fn first_item_fault(rows: Seq<Seq<Seq<char>>>) -> Option<(int, RowFault)>
    decreases rows.len(),
{
    if rows.len() == 0 {
        None
    } else {
        match first_item_fault(rows.drop_last()) {
            Some(f) => Some(f),
            None => match item_row_fault(rows.last()) {
                Some(f) => Some((rows.len() as int, f)),
                None => None,
            },
        }
    }
}

/// The products of the item report, each under its upper-cased SKU; a later row replaces an
/// earlier one with the same key.
pub open spec fn item_products(rows: Seq<Seq<Seq<char>>>) -> Map<Seq<char>, ProductView>
    decreases rows.len(),
{
    if rows.len() == 0 {
        Map::empty()
    } else {
        item_products(rows.drop_last()).insert(
            upper_of(rows.last()[ITEM_SKU_COLUMN as int]),
            item_product(rows.last()),
        )
    }
}

/// What is wrong with a row of the posted report, if anything, given the keys of the products.
pub open spec fn posted_row_fault(r: Seq<Seq<char>>, keys: Set<Seq<char>>) -> Option<RowFault> {
    if r.len() <= POSTED_SKU_COLUMN {
        Some(RowFault::Missing(ReportField::PostedSku))
    } else if r.len() <= POSTED_STOCK_COLUMN {
        Some(RowFault::Missing(ReportField::Stock))
    } else if quantity_units(r[POSTED_STOCK_COLUMN as int]) is None {
        Some(RowFault::Unparsable(ReportField::Stock))
    } else if !keys.contains(upper_of(r[POSTED_SKU_COLUMN as int])) {
        Some(RowFault::UnmatchedSku(r[POSTED_SKU_COLUMN as int]))
    } else {
        None
    }
}

/// The first faulty row of the posted report, counted from 1, and its fault.
pub open spec fn first_posted_fault(rows: Seq<Seq<Seq<char>>>, keys: Set<Seq<char>>) -> Option<
    (int, RowFault),
>
    decreases rows.len(),
{
    if rows.len() == 0 {
        None
    } else {
        match first_posted_fault(rows.drop_last(), keys) {
            Some(f) => Some(f),
            None => match posted_row_fault(rows.last(), keys) {
                Some(f) => Some((rows.len() as int, f)),
                None => None,
            },
        }
    }
}

/// The products once the stock of each sound posted row is merged in: the product gets the
/// stock, and its SKU in upper case.
pub open spec fn merged_products(m: Map<Seq<char>, ProductView>, rows: Seq<Seq<Seq<char>>>) -> Map<
    Seq<char>,
    ProductView,
>
    decreases rows.len(),
{
    if rows.len() == 0 {
        m
    } else {
        let prev = merged_products(m, rows.drop_last());
        let r = rows.last();
        let k = upper_of(r[POSTED_SKU_COLUMN as int]);
        let p = prev[k];
        prev.insert(
            k,
            ProductView {
                stock: quantity_units(r[POSTED_STOCK_COLUMN as int])->0,
                sku: upper_of(p.sku),
                ..p
            },
        )
    }
}

/// A fault in a prefix of the rows is the first fault of all of them.
proof fn lemma_first_item_fault_prefix(rows: Seq<Seq<Seq<char>>>, n: int)
    requires
        0 <= n <= rows.len(),
        first_item_fault(rows.take(n)) is Some,
    ensures
        first_item_fault(rows) == first_item_fault(rows.take(n)),
    decreases rows.len(),
{
    if n < rows.len() {
        assert(rows.drop_last().take(n) == rows.take(n));
        lemma_first_item_fault_prefix(rows.drop_last(), n);
    } else {
        assert(rows.take(n) == rows);
    }
}

/// A fault in a prefix of the rows is the first fault of all of them.
proof fn lemma_first_posted_fault_prefix(rows: Seq<Seq<Seq<char>>>, keys: Set<Seq<char>>, n: int)
    requires
        0 <= n <= rows.len(),
        first_posted_fault(rows.take(n), keys) is Some,
    ensures
        first_posted_fault(rows, keys) == first_posted_fault(rows.take(n), keys),
    decreases rows.len(),
{
    if n < rows.len() {
        assert(rows.drop_last().take(n) == rows.take(n));
        lemma_first_posted_fault_prefix(rows.drop_last(), keys, n);
    } else {
        assert(rows.take(n) == rows);
    }
}

/// A posted row whose SKU, in upper case, is no product's key stops the merge with that SKU and
/// its row number, once the rows before it are sound: `merge_stock` then fails with
/// `UnmatchedPostedSku`.
pub proof fn lemma_unmatched_posted_sku(rows: Seq<Seq<Seq<char>>>, keys: Set<Seq<char>>, i: int)
    requires
        0 <= i < rows.len(),
        first_posted_fault(rows.take(i), keys) is None,
        rows[i].len() > POSTED_STOCK_COLUMN,
        quantity_units(rows[i][POSTED_STOCK_COLUMN as int]) is Some,
        !keys.contains(upper_of(rows[i][POSTED_SKU_COLUMN as int])),
    ensures
        first_posted_fault(rows, keys) == Some(
            (i + 1, RowFault::UnmatchedSku(rows[i][POSTED_SKU_COLUMN as int])),
        ),
{
    assert(rows.take(i + 1).drop_last() == rows.take(i));
    assert(rows.take(i + 1).last() == rows[i]);
    lemma_first_posted_fault_prefix(rows, keys, i + 1);
}

/// The UPCs of a comma-separated UPC cell that normalize, in order.
pub fn upcs_from_cell(cell: &str) -> (r: Vec<Upc>)
    ensures
        upc_views(r@) == upcs_in_cell(cell@),
{
    let all = Upc::from_abc_upc_list(cell);
    let ghost parts = split_text(cell@, ',');
    let mut out: Vec<Upc> = Vec::new();
    for i in 0..all.len()
        invariant
            all@.len() == parts.len(),
            parts == split_text(cell@, ','),
            forall|j: int|
                0 <= j < all@.len() ==> match #[trigger] all@[j] {
                    Some(u) => normalized(parts[j]) == Some(u@),
                    None => normalized(parts[j]) is None,
                },
            upc_views(out@) == kept_upcs(parts.take(i as int)),
    {
        proof {
            assert(parts.take(i + 1).drop_last() == parts.take(i as int));
        }
        match all[i] {
            Some(u) => {
                out.push(u);
                assert(upc_views(out@) =~= kept_upcs(parts.take(i as int)).push(u@));
            },
            None => {},
        }
    }
    assert(parts.take(parts.len() as int) == parts);
    out
}

/// The view of one row.
proof fn lemma_row_view(rows: Seq<Vec<String>>, i: int, j: int)
    requires
        0 <= i < rows.len(),
        0 <= j < rows[i]@.len(),
    ensures
        rows_view(rows)[i].len() == rows[i]@.len(),
        rows_view(rows)[i][j] == rows[i]@[j]@,
{
}

/// Reads the rows of the item report into products, each under its upper-cased SKU. The first
/// row with a missing cell or a price that cannot be read stops the reading with that error.
pub fn parse_item_rows(rows: &Vec<Vec<String>>) -> (r: Result<ProductSet, ReportParseError>)
    ensures
        match r {
            Ok(set) => {
                &&& first_item_fault(rows_view(rows@)) is None
                &&& set.wf()
                &&& set@ == item_products(rows_view(rows@))
            },
            Err(e) => first_item_fault(rows_view(rows@)) matches Some((n, f)) && reports_fault(
                e,
                n,
                f,
            ),
        },
{
    let ghost rv = rows_view(rows@);
    let mut set = ProductSet::new();
    for i in 0..rows.len()
        invariant
            rv == rows_view(rows@),
            set.wf(),
            first_item_fault(rv.take(i as int)) is None,
            set@ == item_products(rv.take(i as int)),
    {
        let row = &rows[i];
        let ghost r = rv[i as int];
        proof {
            assert(rv.take(i + 1).drop_last() == rv.take(i as int));
            assert(rv.take(i + 1).last() == r);
            assert(r.len() == row@.len());
        }
        let n = row.len();
        if n <= ITEM_SKU_COLUMN || n <= ITEM_DESC_COLUMN || n <= ITEM_UPC_COLUMN {
            let field = if n <= ITEM_SKU_COLUMN {
                ReportField::ItemSku
            } else if n <= ITEM_DESC_COLUMN {
                ReportField::Description
            } else {
                ReportField::UpcList
            };
            proof {
                lemma_first_item_fault_prefix(rv, i + 1);
            }
            return Err(ReportParseError::MissingField(i + 1, field));
        }
        proof {
            lemma_row_view(rows@, i as int, ITEM_LIST_COLUMN as int);
            lemma_row_view(rows@, i as int, ITEM_COST_COLUMN as int);
            lemma_row_view(rows@, i as int, ITEM_UPC_COLUMN as int);
            lemma_row_view(rows@, i as int, ITEM_SKU_COLUMN as int);
            lemma_row_view(rows@, i as int, ITEM_DESC_COLUMN as int);
        }
        let list = match price_from_str(row[ITEM_LIST_COLUMN].as_str()) {
            Some(c) => c,
            None => {
                proof {
                    lemma_first_item_fault_prefix(rv, i + 1);
                }
                return Err(ReportParseError::PriceParseError(i + 1, ReportField::ListPrice));
            },
        };
        let cost = match price_from_str(row[ITEM_COST_COLUMN].as_str()) {
            Some(c) => c,
            None => {
                proof {
                    lemma_first_item_fault_prefix(rv, i + 1);
                }
                return Err(ReportParseError::PriceParseError(i + 1, ReportField::CostPrice));
            },
        };
        let upcs = upcs_from_cell(row[ITEM_UPC_COLUMN].as_str());
        let sku = row[ITEM_SKU_COLUMN].clone();
        let key = to_upper(sku.as_str());
        let product = AbcProduct::new(sku, row[ITEM_DESC_COLUMN].clone(), upcs, list, cost, 0);
        set.insert(key, product);
    }
    assert(rv.take(rows@.len() as int) == rv);
    Ok(set)
}

/// Merges the stock of the posted report into the products: the product whose key is the
/// row's SKU in upper case gets the stock, truncated to whole units, and its SKU in upper case.
/// The first row with a missing cell, a stock that cannot be read, or a SKU that no product
/// has stops the merge with that error.
pub fn merge_stock(products: ProductSet, posted_rows: &Vec<Vec<String>>) -> (r: Result<
    ProductSet,
    ReportParseError,
>)
    requires
        products.wf(),
    ensures
        match r {
            Ok(set) => {
                &&& first_posted_fault(rows_view(posted_rows@), products@.dom()) is None
                &&& set.wf()
                &&& set@ == merged_products(products@, rows_view(posted_rows@))
            },
            Err(e) => first_posted_fault(rows_view(posted_rows@), products@.dom()) matches Some(
                (n, f),
            ) && reports_fault(e, n, f),
        },
{
    let ghost rv = rows_view(posted_rows@);
    let ghost keys = products@.dom();
    let mut set = products;
    for i in 0..posted_rows.len()
        invariant
            rv == rows_view(posted_rows@),
            keys == products@.dom(),
            set.wf(),
            set@.dom() == keys,
            first_posted_fault(rv.take(i as int), keys) is None,
            set@ == merged_products(products@, rv.take(i as int)),
    {
        let row = &posted_rows[i];
        let ghost r = rv[i as int];
        proof {
            assert(rv.take(i + 1).drop_last() == rv.take(i as int));
            assert(rv.take(i + 1).last() == r);
            assert(r.len() == row@.len());
        }
        let n = row.len();
        if n <= POSTED_SKU_COLUMN || n <= POSTED_STOCK_COLUMN {
            let field = if n <= POSTED_SKU_COLUMN {
                ReportField::PostedSku
            } else {
                ReportField::Stock
            };
            proof {
                assert(posted_row_fault(r, keys) == Some(RowFault::Missing(field)));
                assert(first_posted_fault(rv.take(i + 1), keys) == Some(((i + 1) as int, RowFault::Missing(field))));
                lemma_first_posted_fault_prefix(rv, keys, i + 1);
            }
            return Err(ReportParseError::MissingField(i + 1, field));
        }
        proof {
            lemma_row_view(posted_rows@, i as int, POSTED_SKU_COLUMN as int);
            lemma_row_view(posted_rows@, i as int, POSTED_STOCK_COLUMN as int);
        }
        let stock = match parse_quantity(row[POSTED_STOCK_COLUMN].as_str()) {
            Some(q) => q,
            None => {
                proof {
                    lemma_first_posted_fault_prefix(rv, keys, i + 1);
                }
                return Err(ReportParseError::PriceParseError(i + 1, ReportField::Stock));
            },
        };
        let key = to_upper(row[POSTED_SKU_COLUMN].as_str());
        let updated = match set.get(key.as_str()) {
            Some(existing) => {
                let upper = to_upper(existing.sku.as_str());
                existing.with_stock_and_sku(stock, upper)
            },
            None => {
                proof {
                    lemma_first_posted_fault_prefix(rv, keys, i + 1);
                }
                return Err(
                    ReportParseError::UnmatchedPostedSku(i + 1, row[POSTED_SKU_COLUMN].clone()),
                );
            },
        };
        set.insert(key, updated);
        assert(set@.dom() =~= keys);
    }
    assert(rv.take(posted_rows@.len() as int) == rv);
    Ok(set)
}

/// Reads the products of one run from the two tab-separated reports, without headers: the item
/// report gives the products, the posted report their stock. Rows may differ in length; a row
/// too short for a field is reported as that field missing.
pub fn parse_abc_item_files(item_data: &[u8], posted_data: &[u8]) -> (r: Result<
    ProductSet,
    ReportParseError,
>)
    ensures
        ({
            let readable = tsv_readable(item_data@, false, true) && tsv_readable(
                posted_data@,
                false,
                true,
            );
            let items = tsv_records(item_data@, false, true);
            let posted = tsv_records(posted_data@, false, true);
            match r {
                Ok(set) => {
                    &&& readable
                    &&& first_item_fault(items) is None
                    &&& first_posted_fault(posted, item_products(items).dom()) is None
                    &&& set.wf()
                    &&& set@ == merged_products(item_products(items), posted)
                },
                Err(ReportParseError::Unreadable(_)) => !readable,
                Err(e) => readable && match first_item_fault(items) {
                    Some((n, f)) => reports_fault(e, n, f),
                    None => first_posted_fault(posted, item_products(items).dom()) matches Some(
                        (n, f),
                    ) && reports_fault(e, n, f),
                },
            }
        }),
{
    let item_rows = match read_tsv(item_data, false, true) {
        Ok(rows) => rows,
        Err(e) => return Err(ReportParseError::Unreadable(e)),
    };
    let posted_rows = match read_tsv(posted_data, false, true) {
        Ok(rows) => rows,
        Err(e) => return Err(ReportParseError::Unreadable(e)),
    };
    let products = parse_item_rows(&item_rows)?;
    merge_stock(products, &posted_rows)
}

} // verus!
