use vstd::prelude::*;

use crate::index::IdentifierIndex;
use crate::remote::{opt_view, MalformedListing, MalformedReason, ShopifyProduct};
use crate::report::{AbcProduct, ProductSet, ProductView};
use crate::upc::{upc_text, Upc};

verus! {

/// A remote listing set beside the local product it was matched to.
#[derive(Debug)]
pub struct Comparison {
    pub listing_id: String,
    pub remote_sku: String,
    pub local_sku: String,
    pub remote_price: i64,
    pub local_price: i64,
}

/// What reconciling one remote listing came to.
#[derive(Debug)]
pub enum Outcome {
    /// The remote price is below the local list price: it is raised.
    Adjusted(Comparison),
    /// The prices agree.
    Equal(Comparison),
    /// The remote price is above the local list price and is left for a person to decide.
    Greater(Comparison),
    /// No local product has the listing's SKU or barcode.
    NotFound { listing_id: String, sku: String },
    /// The listing's barcode belongs to more than one local product.
    DuplicateUpc { listing_id: String, sku: String, upc: Upc },
    /// The listing could not be read.
    MalformedListing(MalformedListing),
}

/// A change to send to the remote catalog.
#[derive(Debug)]
pub enum UpdateCommand {
    /// Set the price of a listing, in cents.
    SetPrice { listing_id: String, product_id: String, sku: String, price: i64 },
    /// Set the stock of a listing's inventory item, and its unit cost in cents.
    SetInventory {
        listing_id: String,
        inventory_item_id: Option<String>,
        quantity: i64,
        cost: i64,
    },
}

/// A command as plain values.
pub enum CommandView {
    SetPrice { listing_id: Seq<char>, product_id: Seq<char>, sku: Seq<char>, price: int },
    SetInventory {
        listing_id: Seq<char>,
        inventory_item_id: Option<Seq<char>>,
        quantity: int,
        cost: int,
    },
}

impl View for UpdateCommand {
    type V = CommandView;

    open spec fn view(&self) -> CommandView {
        match self {
            UpdateCommand::SetPrice { listing_id, product_id, sku, price } => CommandView::SetPrice {
                listing_id: listing_id@,
                product_id: product_id@,
                sku: sku@,
                price: *price as int,
            },
            UpdateCommand::SetInventory { listing_id, inventory_item_id, quantity, cost } => {
                CommandView::SetInventory {
                    listing_id: listing_id@,
                    inventory_item_id: opt_view(*inventory_item_id),
                    quantity: *quantity as int,
                    cost: *cost as int,
                }
            },
        }
    }
}

/// The views of a run of commands.
pub open spec fn commands_view(s: Seq<UpdateCommand>) -> Seq<CommandView> {
    s.map_values(|c: UpdateCommand| c@)
}

/// The local product a remote listing stands for.
pub enum Resolution {
    Local(ProductView),
    Duplicate(Seq<u8>),
    Missing,
}

/// The local product of a listing: the one whose key is the listing's SKU; failing that, the one
/// the index gives for its barcode, unless that barcode belongs to several products.
pub open spec fn resolve(
    l: ShopifyProduct,
    set: ProductSet,
    index: Map<Seq<char>, (bool, usize)>,
) -> Resolution {
    if set@.contains_key(l.sku@) {
        Resolution::Local(set@[l.sku@])
    } else {
        match l.barcode {
            Some(u) => {
                let t = upc_text(u@);
                if !index.contains_key(t) {
                    Resolution::Missing
                } else if index[t].0 {
                    Resolution::Duplicate(u@)
                } else {
                    Resolution::Local(set.product_at(index[t].1 as int))
                }
            },
            None => Resolution::Missing,
        }
    }
}

/// The local stock to send: never below zero.
pub open spec fn clamped_stock(p: ProductView) -> int {
    if p.stock > 0 {
        p.stock
    } else {
        0
    }
}

/// The commands that bring a listing in line with its local product: the stock when the remote
/// one differs from the local one (an unknown remote stock differs from any), sent as the local
/// stock clamped to zero; then the price when the remote one is lower, set to the larger of
/// the two.
pub open spec fn planned_for(l: ShopifyProduct, p: ProductView) -> Seq<CommandView> {
    let stock = if l.stock == Some(p.stock as i64) {
        Seq::empty()
    } else {
        seq![
            CommandView::SetInventory {
                listing_id: l.id@,
                inventory_item_id: opt_view(l.inventory_item_id),
                quantity: clamped_stock(p),
                cost: p.cost,
            },
        ]
    };
    let price = if l.price < p.list {
        seq![
            CommandView::SetPrice {
                listing_id: l.id@,
                product_id: l.product_id@,
                sku: p.sku,
                price: if l.price > p.list {
                    l.price as int
                } else {
                    p.list
                },
            },
        ]
    } else {
        Seq::empty()
    };
    stock + price
}

/// Whether `c` sets listing `l` beside local product `p`.
pub open spec fn compares(c: Comparison, l: ShopifyProduct, p: ProductView) -> bool {
    &&& c.listing_id@ == l.id@
    &&& c.remote_sku@ == l.sku@
    &&& c.local_sku@ == p.sku
    &&& c.remote_price == l.price
    &&& c.local_price == p.list
}

/// Whether `o` is the outcome of an active listing.
pub open spec fn listing_outcome(
    o: Outcome,
    l: ShopifyProduct,
    set: ProductSet,
    index: Map<Seq<char>, (bool, usize)>,
) -> bool {
    match resolve(l, set, index) {
        Resolution::Missing => o matches Outcome::NotFound { listing_id, sku } && listing_id@
            == l.id@ && sku@ == l.sku@,
        Resolution::Duplicate(d) => o matches Outcome::DuplicateUpc { listing_id, sku, upc }
            && listing_id@ == l.id@ && sku@ == l.sku@ && upc@ == d,
        Resolution::Local(p) => if l.price == p.list {
            o matches Outcome::Equal(c) && compares(c, l, p)
        } else if l.price > p.list {
            o matches Outcome::Greater(c) && compares(c, l, p)
        } else {
            o matches Outcome::Adjusted(c) && compares(c, l, p)
        },
    }
}

/// The commands planned for an active listing.
pub open spec fn listing_commands(
    l: ShopifyProduct,
    set: ProductSet,
    index: Map<Seq<char>, (bool, usize)>,
) -> Seq<CommandView> {
    match resolve(l, set, index) {
        Resolution::Local(p) => planned_for(l, p),
        _ => Seq::empty(),
    }
}

fn comparison(l: &ShopifyProduct, local_sku: &String, local_price: i64) -> (c: Comparison)
    ensures
        c.listing_id@ == l.id@,
        c.remote_sku@ == l.sku@,
        c.local_sku@ == local_sku@,
        c.remote_price == l.price,
        c.local_price == local_price,
{
    Comparison {
        listing_id: l.id.clone(),
        remote_sku: l.sku.clone(),
        local_sku: local_sku.clone(),
        remote_price: l.price,
        local_price,
    }
}

/// Reconciles one listing. An inactive listing is skipped: no outcome and no command.
pub fn reconcile_listing(
    listing: &ShopifyProduct,
    products: &ProductSet,
    index: &IdentifierIndex,
) -> (r: Option<(Outcome, Vec<UpdateCommand>)>)
    requires
        products.wf(),
        crate::index::indexes(index@, *products),
    ensures
        r is None <==> !listing.is_active,
        r matches Some((o, cmds)) ==> listing_outcome(o, *listing, *products, index@)
            && commands_view(cmds@) == listing_commands(*listing, *products, index@),
{
    if !listing.is_active {
        return None;
    }
    let product: &AbcProduct = match products.get(listing.sku.as_str()) {
        Some(p) => p,
        None => {
            let found = match &listing.barcode {
                Some(u) => match index.lookup(u) {
                    Some((dup, position)) => Some((dup, position, *u)),
                    None => None,
                },
                None => None,
            };
            match found {
                Some((true, _, u)) => {
                    let o = Outcome::DuplicateUpc {
                        listing_id: listing.id.clone(),
                        sku: listing.sku.clone(),
                        upc: u,
                    };
                    let cmds: Vec<UpdateCommand> = Vec::new();
                    assert(commands_view(cmds@) =~= Seq::empty());
                    return Some((o, cmds));
                },
                Some((false, position, _)) => {
                    let (_key, p) = products.at(position);
                    p
                },
                None => {
                    let o = Outcome::NotFound { listing_id: listing.id.clone(), sku: listing.sku.clone() };
                    let cmds: Vec<UpdateCommand> = Vec::new();
                    assert(commands_view(cmds@) =~= Seq::empty());
                    return Some((o, cmds));
                },
            }
        },
    };
    let ghost pv = product@;
    let list = product.list();
    let local_sku = product.sku();
    let c = comparison(listing, &local_sku, list);
    let o = if listing.price == list {
        Outcome::Equal(c)
    } else if listing.price > list {
        Outcome::Greater(c)
    } else {
        Outcome::Adjusted(c)
    };
    let mut cmds: Vec<UpdateCommand> = Vec::new();
    let stock = product.stock();
    let quantity: i64 = if stock > 0 { stock } else { 0 };
    let same_stock = match listing.stock {
        Some(s) => s == stock,
        None => false,
    };
    if !same_stock {
        cmds.push(
            UpdateCommand::SetInventory {
                listing_id: listing.id.clone(),
                inventory_item_id: match &listing.inventory_item_id {
                    Some(x) => Some(x.clone()),
                    None => None,
                },
                quantity,
                cost: product.cost(),
            },
        );
    }
    if listing.price < list {
        let price = if listing.price > list { listing.price } else { list };
        cmds.push(
            UpdateCommand::SetPrice {
                listing_id: listing.id.clone(),
                product_id: listing.product_id.clone(),
                sku: product.sku(),
                price,
            },
        );
    }
    assert(commands_view(cmds@) =~= planned_for(*listing, pv));
    Some((o, cmds))
}

/// Whether a classified listing yields an outcome: every malformed one does, and every active
/// one.
pub open spec fn emits(e: Result<ShopifyProduct, MalformedListing>) -> bool {
    match e {
        Ok(l) => l.is_active,
        Err(_) => true,
    }
}

/// The number of outcomes a run over the listings yields.
pub open spec fn emitted_count(ls: Seq<Result<ShopifyProduct, MalformedListing>>) -> nat
    decreases ls.len(),
{
    if ls.len() == 0 {
        0
    } else {
        emitted_count(ls.drop_last()) + if emits(ls.last()) {
            1nat
        } else {
            0nat
        }
    }
}

/// Whether `o` is the outcome of the classified listing `e`.
pub open spec fn entry_outcome(
    o: Outcome,
    e: Result<ShopifyProduct, MalformedListing>,
    set: ProductSet,
    index: Map<Seq<char>, (bool, usize)>,
) -> bool {
    match e {
        Ok(l) => listing_outcome(o, l, set, index),
        Err(m) => o matches Outcome::MalformedListing(x) && x.id@ == m.id@ && x.reason == m.reason,
    }
}

/// The commands a run over the listings plans, listing after listing.
pub open spec fn planned_commands(
    ls: Seq<Result<ShopifyProduct, MalformedListing>>,
    set: ProductSet,
    index: Map<Seq<char>, (bool, usize)>,
) -> Seq<CommandView>
    decreases ls.len(),
{
    if ls.len() == 0 {
        Seq::empty()
    } else {
        planned_commands(ls.drop_last(), set, index) + match ls.last() {
            Ok(l) => if l.is_active {
                listing_commands(l, set, index)
            } else {
                Seq::empty()
            },
            Err(_) => Seq::empty(),
        }
    }
}

/// The outcomes of a run, in the order of the listings, and the commands to send.
#[derive(Debug)]
pub struct Reconciliation {
    pub outcomes: Vec<Outcome>,
    pub commands: Vec<UpdateCommand>,
}

proof fn lemma_emitted_count_monotone(ls: Seq<Result<ShopifyProduct, MalformedListing>>, i: int, j: int)
    requires
        0 <= i <= j <= ls.len(),
    ensures
        emitted_count(ls.take(i)) <= emitted_count(ls.take(j)),
        j < ls.len() ==> emitted_count(ls.take(j + 1)) == emitted_count(ls.take(j)) + if emits(
            ls[j],
        ) {
            1nat
        } else {
            0nat
        },
    decreases j - i,
{
    if j < ls.len() {
        assert(ls.take(j + 1).drop_last() == ls.take(j));
    }
    if i < j {
        lemma_emitted_count_monotone(ls, i, j - 1);
        assert(ls.take(j).drop_last() == ls.take(j - 1));
    }
}

/// Reconciles every classified listing of a run against the local products. Malformed listings
/// and active ones each yield one outcome, in order; inactive ones yield nothing. In a dry run
/// no command is kept; outcomes are the same.
pub fn reconcile(
    listings: &Vec<Result<ShopifyProduct, MalformedListing>>,
    products: &ProductSet,
    index: &IdentifierIndex,
    dry_run: bool,
) -> (r: Reconciliation)
    requires
        products.wf(),
        crate::index::indexes(index@, *products),
    ensures
        r.outcomes@.len() == emitted_count(listings@),
        forall|i: int|
            0 <= i < listings@.len() && emits(#[trigger] listings@[i]) ==> entry_outcome(
                r.outcomes@[emitted_count(listings@.take(i)) as int],
                listings@[i],
                *products,
                index@,
            ),
        dry_run ==> r.commands@.len() == 0,
        !dry_run ==> commands_view(r.commands@) == planned_commands(listings@, *products, index@),
{
    let mut outcomes: Vec<Outcome> = Vec::new();
    let mut commands: Vec<UpdateCommand> = Vec::new();
    let ghost ls = listings@;
    for i in 0..listings.len()
        invariant
            ls == listings@,
            products.wf(),
            crate::index::indexes(index@, *products),
            outcomes@.len() == emitted_count(ls.take(i as int)),
            forall|j: int|
                0 <= j < i && emits(#[trigger] ls[j]) ==> entry_outcome(
                    outcomes@[emitted_count(ls.take(j)) as int],
                    ls[j],
                    *products,
                    index@,
                ),
            dry_run ==> commands@.len() == 0,
            !dry_run ==> commands_view(commands@) == planned_commands(ls.take(i as int), *products, index@),
    {
        proof {
            lemma_emitted_count_monotone(ls, i as int, i as int);
            assert(ls.take(i + 1).drop_last() == ls.take(i as int));
            assert(ls.take(i + 1).last() == ls[i as int]);
        }
        let ghost before = outcomes@;
        match &listings[i] {
            Err(m) => {
                outcomes.push(
                    Outcome::MalformedListing(MalformedListing { id: m.id.clone(), reason: m.reason }),
                );
            },
            Ok(l) => {
                match reconcile_listing(l, products, index) {
                    Some((o, mut cmds)) => {
                        outcomes.push(o);
                        if !dry_run {
                            let ghost prev = commands@;
                            let ghost added = cmds@;
                            commands.append(&mut cmds);
                            assert(commands_view(commands@) =~= commands_view(prev) + commands_view(added));
                        }
                    },
                    None => {},
                }
            },
        }
        proof {
            assert forall|j: int| 0 <= j < i + 1 && emits(#[trigger] ls[j]) implies entry_outcome(
                outcomes@[emitted_count(ls.take(j)) as int],
                ls[j],
                *products,
                index@,
            ) by {
                lemma_emitted_count_monotone(ls, j, i as int);
                if j < i {
                    lemma_emitted_count_monotone(ls, j, j);
                    lemma_emitted_count_monotone(ls, j + 1, i as int);
                    assert(outcomes@[emitted_count(ls.take(j)) as int] == before[emitted_count(ls.take(j)) as int]);
                }
            }
            if !dry_run {
                if !(ls[i as int] matches Ok(l) && l.is_active) {
                    assert(planned_commands(ls.take(i + 1), *products, index@) =~= planned_commands(ls.take(i as int), *products, index@));
                }
            }
        }
    }
    assert(ls.take(ls.len() as int) == ls);
    Reconciliation { outcomes, commands }
}

/// A price command never lowers a price: what it sets is at least the remote price and at least
/// the local list price.
pub proof fn lemma_price_never_lowered(l: ShopifyProduct, p: ProductView, k: int)
    requires
        0 <= k < planned_for(l, p).len(),
        planned_for(l, p)[k] is SetPrice,
    ensures
        planned_for(l, p)[k]->SetPrice_price >= l.price,
        planned_for(l, p)[k]->SetPrice_price >= p.list,
{
}

/// A price command is planned exactly when the remote price is below the local list price, and
/// then it sets the local list price.
pub proof fn lemma_price_command_when_lower(l: ShopifyProduct, p: ProductView)
    ensures
        (exists|k: int| 0 <= k < planned_for(l, p).len() && #[trigger] planned_for(l, p)[k] is SetPrice)
            <==> l.price < p.list,
        forall|k: int| 0 <= k < planned_for(l, p).len() && #[trigger] planned_for(l, p)[k] is SetPrice
            ==> planned_for(l, p)[k]->SetPrice_price == p.list,
{
    let s = planned_for(l, p);
    if l.price < p.list {
        assert(s[s.len() - 1] is SetPrice);
    }
}

/// A listing whose SKU names no local product, and whose barcode two local products with
/// different keys both carry, resolves to a duplicate: it is never matched to either product.
pub proof fn lemma_shared_barcode_is_duplicate(
    l: ShopifyProduct,
    set: ProductSet,
    index: Map<Seq<char>, (bool, usize)>,
    a: Seq<char>,
    b: Seq<char>,
)
    requires
        set.wf(),
        crate::index::indexes(index, set),
        !set@.contains_key(l.sku@),
        l.barcode is Some,
        a != b,
        set@.contains_key(a),
        set@.contains_key(b),
        crate::index::carries(set@[a], upc_text(l.barcode->0@)),
        crate::index::carries(set@[b], upc_text(l.barcode->0@)),
    ensures
        resolve(l, set, index) == Resolution::Duplicate(l.barcode->0@),
        listing_commands(l, set, index).len() == 0,
{
    crate::index::lemma_shared_upc_flagged(set, index, a, b, upc_text(l.barcode->0@));
}

/// An inactive listing adds neither an outcome nor a command to a run.
pub proof fn lemma_inactive_listing_ignored(
    ls: Seq<Result<ShopifyProduct, MalformedListing>>,
    l: ShopifyProduct,
    set: ProductSet,
    index: Map<Seq<char>, (bool, usize)>,
)
    requires
        !l.is_active,
    ensures
        emitted_count(ls.push(Ok(l))) == emitted_count(ls),
        planned_commands(ls.push(Ok(l)), set, index) == planned_commands(ls, set, index),
{
    assert(ls.push(Ok(l)).drop_last() == ls);
    assert(planned_commands(ls.push(Ok(l)), set, index) =~= planned_commands(ls, set, index));
}

} // verus!
