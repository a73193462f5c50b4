use vstd::hash_map::StringHashMap;
use vstd::prelude::*;

use crate::price::{report_cents, report_price_cents};
use crate::report::{read_tsv, rows_view, tsv_readable, tsv_records};
use crate::text::{blank, is_blank, lines, lines_of, split_on, split_text, to_upper, upper_of};

verus! {

/// Column of the price in a line of the legacy price report.
pub const REPORT_PRICE_COLUMN: usize = 5;

/// Column of the SKU in a row of the bill report.
pub const BILL_SKU_COLUMN: usize = 4;

/// The prices of the legacy price report by upper-cased SKU: each tab-separated line with a
/// readable price in its price column sets the price of the SKU in its first column; a later
/// line replaces an earlier one, and other lines are passed over.
pub open spec fn report_prices(ls: Seq<Seq<char>>) -> Map<Seq<char>, u32>
    decreases ls.len(),
{
    if ls.len() == 0 {
        Map::empty()
    } else {
        let m = report_prices(ls.drop_last());
        let cells = split_text(ls.last(), '\t');
        if cells.len() > REPORT_PRICE_COLUMN && report_cents(cells[REPORT_PRICE_COLUMN as int]) is Some {
            m.insert(upper_of(cells[0]), report_cents(cells[REPORT_PRICE_COLUMN as int])->0 as u32)
        } else {
            m
        }
    }
}

/// Reads the legacy price report: prices in cents by upper-cased SKU.
pub fn parse_report_1_15(taboutput_1_15: &str) -> (r: StringHashMap<u32>)
    ensures
        r@ == report_prices(lines_of(taboutput_1_15@)),
{
    let all = lines(taboutput_1_15);
    let ghost ls = lines_of(taboutput_1_15@);
    let mut prices: StringHashMap<u32> = StringHashMap::new();
    assert(prices@ =~= report_prices(ls.take(0)));
    for i in 0..all.len()
        invariant
            all@.len() == ls.len(),
            forall|j: int| 0 <= j < all@.len() ==> #[trigger] all@[j]@ == ls[j],
            prices@ == report_prices(ls.take(i as int)),
    {
        proof {
            assert(ls.take(i + 1).drop_last() == ls.take(i as int));
            assert(ls.take(i + 1).last() == ls[i as int]);
        }
        let cells = split_on(all[i].as_str(), '\t');
        proof {
            crate::text::lemma_split_text_nonempty(ls[i as int], '\t');
        }
        if cells.len() > REPORT_PRICE_COLUMN {
            match report_price_cents(cells[REPORT_PRICE_COLUMN].as_str()) {
                Some(price) => {
                    let sku = to_upper(cells[0].as_str());
                    prices.insert(sku, price);
                },
                None => {},
            }
        }
    }
    assert(ls.take(ls.len() as int) == ls);
    prices
}

/// The SKUs of the bill report's rows: the cell of the SKU column, for each row that has one
/// that is not blank.
pub open spec fn bill_skus(rows: Seq<Seq<Seq<char>>>) -> Seq<Seq<char>>
    decreases rows.len(),
{
    if rows.len() == 0 {
        Seq::empty()
    } else {
        let r = rows.last();
        if r.len() > BILL_SKU_COLUMN && !blank(r[BILL_SKU_COLUMN as int]) {
            bill_skus(rows.drop_last()).push(r[BILL_SKU_COLUMN as int])
        } else {
            bill_skus(rows.drop_last())
        }
    }
}

/// The SKUs of the rows of the bill report, in order.
pub fn skus_from_rows(rows: &Vec<Vec<String>>) -> (r: Vec<String>)
    ensures
        r@.len() == bill_skus(rows_view(rows@)).len(),
        forall|i: int| 0 <= i < r@.len() ==> #[trigger] r@[i]@ == bill_skus(rows_view(rows@))[i],
{
    let ghost rv = rows_view(rows@);
    let mut out: Vec<String> = Vec::new();
    for i in 0..rows.len()
        invariant
            rv == rows_view(rows@),
            out@.len() == bill_skus(rv.take(i as int)).len(),
            forall|j: int| 0 <= j < out@.len() ==> #[trigger] out@[j]@ == bill_skus(rv.take(i as int))[j],
    {
        proof {
            assert(rv.take(i + 1).drop_last() == rv.take(i as int));
            assert(rv.take(i + 1).last() == rv[i as int]);
        }
        let row = &rows[i];
        assert(rv[i as int].len() == row@.len());
        if row.len() > BILL_SKU_COLUMN {
            assert(rv[i as int][BILL_SKU_COLUMN as int] == row@[BILL_SKU_COLUMN as int]@);
            let cell = &row[BILL_SKU_COLUMN];
            if !is_blank(cell.as_str()) {
                out.push(cell.clone());
            }
        }
    }
    assert(rv.take(rv.len() as int) == rv);
    out
}

/// Reads the SKUs of the bill report: tab-separated data with a header row and rows of
/// differing lengths.
pub fn skus_from_214(taboutput_214: &[u8]) -> (r: Result<Vec<String>, csv::Error>)
    ensures
        r is Ok <==> tsv_readable(taboutput_214@, true, true),
        r matches Ok(skus) ==> skus@.len() == bill_skus(tsv_records(taboutput_214@, true, true)).len()
            && forall|i: int|
            0 <= i < skus@.len() ==> #[trigger] skus@[i]@ == bill_skus(
                tsv_records(taboutput_214@, true, true),
            )[i],
{
    let rows = read_tsv(taboutput_214, true, true)?;
    Ok(skus_from_rows(&rows))
}

/// What the legacy updater does with one SKU.
#[derive(Debug, Clone, Copy, PartialEq, Eq, Structural)]
pub enum PriceAction {
    /// Set the catalog price to this many cents.
    Raise(u32),
    /// The catalog price is higher: leave it and say so.
    KeepGreater,
    /// The prices agree.
    Keep,
}

/// The legacy updater's rule: a catalog price below the report's price is raised to it, and
/// never lowered.
pub fn legacy_price_action(shopify_price: u32, abc_price: u32) -> (r: PriceAction)
    ensures
        shopify_price < abc_price ==> r == PriceAction::Raise(abc_price),
        shopify_price > abc_price ==> r == PriceAction::KeepGreater,
        shopify_price == abc_price ==> r == PriceAction::Keep,
{
    if shopify_price < abc_price {
        PriceAction::Raise(abc_price)
    } else if shopify_price > abc_price {
        PriceAction::KeepGreater
    } else {
        PriceAction::Keep
    }
}

/// How many times to look for the exported bill report before giving up.
pub const TAB_OUTPUT_ATTEMPTS: u32 = 600;

/// What to do next while waiting for the exported bill report.
#[derive(Debug, Clone, Copy, PartialEq, Eq, Structural)]
pub enum PollAction {
    /// The report is there: wait this many milliseconds for it to be complete, then read it.
    Settle(u32),
    /// The report is not there yet: wait this many milliseconds and look again.
    Retry(u32),
    /// Stop waiting.
    GiveUp,
}

/// The next step of waiting for the exported bill report, after `attempt` looks, the last of
/// which found it or not.
pub fn poll_tab_output(attempt: u32, found: bool) -> (r: PollAction)
    ensures
        attempt >= TAB_OUTPUT_ATTEMPTS ==> r == PollAction::GiveUp,
        attempt < TAB_OUTPUT_ATTEMPTS && found ==> r == PollAction::Settle(5000),
        attempt < TAB_OUTPUT_ATTEMPTS && !found ==> r == PollAction::Retry(500),
{
    if attempt >= TAB_OUTPUT_ATTEMPTS {
        PollAction::GiveUp
    } else if found {
        PollAction::Settle(5000)
    } else {
        PollAction::Retry(500)
    }
}

} // verus!
