use vstd::prelude::*;

use crate::price::{price_cents, price_from_str};
use crate::text::{to_upper, upper_of};
use crate::upc::{parsed_strict, Upc};

verus! {

/// The product a remote listing belongs to.
pub struct Product {
    pub id: String,
    pub status: String,
}

/// A remote listing as the catalog sends it.
pub struct Node {
    pub id: String,
    pub sku: Option<String>,
    pub display_name: String,
    pub price: String,
    pub barcode: Option<String>,
    pub available_for_sale: bool,
    pub product: Product,
    pub inventory_item_id: Option<String>,
    pub inventory_quantity: Option<i64>,
}

/// Where a page of listings stands in the whole catalog.
pub struct PageInfo {
    pub has_next_page: bool,
    pub end_cursor: String,
    pub start_cursor: String,
}

/// What a catalog query cost.
pub struct Cost {
    pub requested_query_cost: u32,
    pub actual_query_cost: u32,
    pub throttle_status: ThrottleStatus,
}

/// How much query budget the catalog has left.
pub struct ThrottleStatus {
    pub maximum_available: u32,
    pub currently_available: u32,
    pub restore_rate: u32,
}

/// A well-formed remote listing: its SKU in upper case, its price in cents, and its barcode
/// when that reads as a UPC.
#[derive(Debug)]
pub struct ShopifyProduct {
    pub id: String,
    pub sku: String,
    pub display_name: String,
    pub price: i64,
    pub barcode: Option<Upc>,
    pub available_for_sale: bool,
    pub product_id: String,
    pub is_active: bool,
    pub inventory_item_id: Option<String>,
    pub stock: Option<i64>,
}

/// Why a remote listing is malformed.
#[derive(Debug, Clone, Copy, PartialEq, Eq, Structural)]
pub enum MalformedReason {
    UnparsablePrice,
    MissingSku,
}

/// A remote listing that cannot be reconciled, and why.
#[derive(Debug)]
pub struct MalformedListing {
    pub id: String,
    pub reason: MalformedReason,
}

/// The status of a product that is for sale.
pub open spec fn active_status() -> Seq<char> {
    seq!['A', 'C', 'T', 'I', 'V', 'E']
}

/// The views of an optional text.
pub open spec fn opt_view(s: Option<String>) -> Option<Seq<char>> {
    match s {
        Some(x) => Some(x@),
        None => None,
    }
}

/// Whether `r` is what classifying `node` gives: malformed when its price cannot be read, then
/// when it has no SKU; otherwise the listing with its SKU in upper case, its price in cents,
/// the barcode if it reads strictly as a UPC, and active exactly when its product's status is
/// `ACTIVE`.
pub open spec fn classifies(node: Node, r: Result<ShopifyProduct, MalformedListing>) -> bool {
    match r {
        Err(m) => {
            &&& m.id@ == node.id@
            &&& if price_cents(node.price@) is None {
                m.reason == MalformedReason::UnparsablePrice
            } else {
                node.sku is None && m.reason == MalformedReason::MissingSku
            }
        },
        Ok(p) => {
            &&& price_cents(node.price@) == Some(p.price as int)
            &&& node.sku matches Some(s) && p.sku@ == upper_of(s@)
            &&& p.id@ == node.id@
            &&& p.display_name@ == node.display_name@
            &&& match node.barcode {
                Some(b) => match parsed_strict(b@) {
                    Ok(d) => p.barcode matches Some(u) && u@ == d,
                    Err(_) => p.barcode is None,
                },
                None => p.barcode is None,
            }
            &&& p.available_for_sale == node.available_for_sale
            &&& p.product_id@ == node.product.id@
            &&& p.is_active == (node.product.status@ == active_status())
            &&& opt_view(p.inventory_item_id) == opt_view(node.inventory_item_id)
            &&& p.stock == node.inventory_quantity
        },
    }
}

fn clone_opt(s: &Option<String>) -> (r: Option<String>)
    ensures
        opt_view(r) == opt_view(*s),
{
    match s {
        Some(x) => Some(x.clone()),
        None => None,
    }
}

impl ShopifyProduct {
    /// Classifies a remote listing.
    pub fn try_from(value: &Node) -> (r: Result<ShopifyProduct, MalformedListing>)
        ensures
            classifies(*value, r),
    {
        let barcode = match &value.barcode {
            Some(b) => match Upc::try_from_str_like(b.as_str()) {
                Ok(u) => Some(u),
                Err(_) => None,
            },
            None => None,
        };
        let price = match price_from_str(value.price.as_str()) {
            Some(p) => p,
            None => {
                return Err(
                    MalformedListing { id: value.id.clone(), reason: MalformedReason::UnparsablePrice },
                );
            },
        };
        let sku = match &value.sku {
            Some(s) => to_upper(s.as_str()),
            None => {
                return Err(
                    MalformedListing { id: value.id.clone(), reason: MalformedReason::MissingSku },
                );
            },
        };
        let active = String::from_str("ACTIVE");
        proof {
            reveal_strlit("ACTIVE");
            assert(active@ =~= active_status());
        }
        let is_active = value.product.status == active;
        Ok(ShopifyProduct {
            id: value.id.clone(),
            sku,
            display_name: value.display_name.clone(),
            price,
            barcode,
            available_for_sale: value.available_for_sale,
            product_id: value.product.id.clone(),
            is_active,
            inventory_item_id: clone_opt(&value.inventory_item_id),
            stock: value.inventory_quantity,
        })
    }
}

/// Classifies each listing of a page, in order.
pub fn classify_page(nodes: &Vec<Node>) -> (r: Vec<Result<ShopifyProduct, MalformedListing>>)
    ensures
        r@.len() == nodes@.len(),
        forall|i: int| 0 <= i < r@.len() ==> classifies(nodes@[i], #[trigger] r@[i]),
{
    let mut out: Vec<Result<ShopifyProduct, MalformedListing>> = Vec::new();
    for i in 0..nodes.len()
        invariant
            out@.len() == i,
            forall|j: int| 0 <= j < i ==> classifies(nodes@[j], #[trigger] out@[j]),
    {
        out.push(ShopifyProduct::try_from(&nodes[i]));
    }
    out
}

/// The cursor to ask the next page after, when there is a next page.
pub fn next_cursor(page_info: &PageInfo) -> (r: Option<String>)
    ensures
        page_info.has_next_page ==> (r matches Some(c) && c@ == page_info.end_cursor@),
        !page_info.has_next_page ==> r is None,
{
    if page_info.has_next_page {
        Some(page_info.end_cursor.clone())
    } else {
        None
    }
}

} // verus!
