use shopify_price_fixer::config::{Config, Log};
use shopify_price_fixer::index::IdentifierIndex;
use shopify_price_fixer::reconcile::{reconcile, reconcile_listing, Outcome, UpdateCommand};
use shopify_price_fixer::remote::{
    classify_page, next_cursor, MalformedListing, MalformedReason, Node, PageInfo, Product,
    ShopifyProduct,
};
use shopify_price_fixer::report::{merge_stock, parse_item_rows, ProductSet};
use shopify_price_fixer::upc::Upc;

fn item_row(sku: &str, upcs: &str, list: &str) -> Vec<String> {
    let mut row = vec![String::new(); 44];
    row[0] = sku.to_string();
    row[1] = format!("{} description", sku);
    row[6] = list.to_string();
    row[8] = "1.00".to_string();
    row[43] = upcs.to_string();
    row
}

fn posted_row(sku: &str, stock: &str) -> Vec<String> {
    let mut row = vec![String::new(); 20];
    row[0] = sku.to_string();
    row[19] = stock.to_string();
    row
}

fn products(items: Vec<Vec<String>>, posted: Vec<Vec<String>>) -> ProductSet {
    merge_stock(parse_item_rows(&items).unwrap(), &posted).unwrap()
}

fn listing(sku: &str, price: i64, barcode: Option<&str>, active: bool, stock: Option<i64>) -> ShopifyProduct {
    ShopifyProduct {
        id: format!("gid://shopify/ProductVariant/{}", sku),
        sku: sku.to_string(),
        display_name: sku.to_string(),
        price,
        barcode: barcode.map(|b| Upc::try_from_str_like(b).unwrap()),
        available_for_sale: true,
        product_id: "gid://shopify/Product/1".to_string(),
        is_active: active,
        inventory_item_id: Some("gid://shopify/InventoryItem/1".to_string()),
        stock,
    }
}

fn node(sku: Option<&str>, price: &str, barcode: Option<&str>, status: &str) -> Node {
    Node {
        id: "gid://shopify/ProductVariant/9".to_string(),
        sku: sku.map(|s| s.to_string()),
        display_name: "Thing".to_string(),
        price: price.to_string(),
        barcode: barcode.map(|b| b.to_string()),
        available_for_sale: true,
        product: Product { id: "gid://shopify/Product/9".to_string(), status: status.to_string() },
        inventory_item_id: None,
        inventory_quantity: Some(2),
    }
}

#[test]
fn lower_remote_price_is_raised_to_the_local_one() {
    let set = products(vec![item_row("ABC-1", "", "10.00")], vec![posted_row("ABC-1", "3")]);
    let (index, _) = IdentifierIndex::map_upcs(&set);
    let (outcome, commands) =
        reconcile_listing(&listing("ABC-1", 500, None, true, Some(3)), &set, &index).unwrap();
    match outcome {
        Outcome::Adjusted(c) => {
            assert_eq!(c.remote_price, 500);
            assert_eq!(c.local_price, 1000);
        }
        other => panic!("expected Adjusted, got {:?}", other),
    }
    assert_eq!(commands.len(), 1);
    match &commands[0] {
        UpdateCommand::SetPrice { price, sku, .. } => {
            assert_eq!(*price, 1000);
            assert_eq!(sku, "ABC-1");
        }
        other => panic!("expected a price command, got {:?}", other),
    }
}

#[test]
fn higher_remote_price_is_left_alone() {
    let set = products(vec![item_row("ABC-2", "", "10.00")], vec![posted_row("ABC-2", "3")]);
    let (index, _) = IdentifierIndex::map_upcs(&set);
    let (outcome, commands) =
        reconcile_listing(&listing("ABC-2", 1200, None, true, Some(3)), &set, &index).unwrap();
    assert!(matches!(outcome, Outcome::Greater(_)));
    assert!(commands.is_empty());
}

#[test]
fn equal_prices_send_nothing_but_stock_still_syncs() {
    let set = products(vec![item_row("E", "", "10.00")], vec![posted_row("E", "-4")]);
    let (index, _) = IdentifierIndex::map_upcs(&set);
    let (outcome, commands) =
        reconcile_listing(&listing("E", 1000, None, true, Some(3)), &set, &index).unwrap();
    assert!(matches!(outcome, Outcome::Equal(_)));
    assert_eq!(commands.len(), 1);
    match &commands[0] {
        UpdateCommand::SetInventory { quantity, cost, .. } => {
            assert_eq!(*quantity, 0);
            assert_eq!(*cost, 100);
        }
        other => panic!("expected an inventory command, got {:?}", other),
    }
}

#[test]
fn adjusted_listing_with_other_stock_gets_both_commands() {
    let set = products(vec![item_row("S", "", "10.00")], vec![posted_row("S", "8")]);
    let (index, _) = IdentifierIndex::map_upcs(&set);
    let (_, commands) = reconcile_listing(&listing("S", 900, None, true, None), &set, &index).unwrap();
    assert_eq!(commands.len(), 2);
    assert!(matches!(commands[0], UpdateCommand::SetInventory { quantity: 8, .. }));
    assert!(matches!(commands[1], UpdateCommand::SetPrice { price: 1000, .. }));
}

#[test]
fn shared_barcode_is_a_duplicate_not_a_match() {
    let set = products(
        vec![item_row("A", "036000291452", "10.00"), item_row("B", "036000291452", "11.00")],
        vec![],
    );
    let (index, dups) = IdentifierIndex::map_upcs(&set);
    assert_eq!(dups.len(), 1);
    assert_eq!(dups[0].to_string(), "036000291452");
    let (outcome, commands) =
        reconcile_listing(&listing("ZZZ", 500, Some("036000291452"), true, Some(0)), &set, &index)
            .unwrap();
    match outcome {
        Outcome::DuplicateUpc { upc, .. } => assert_eq!(upc.to_string(), "036000291452"),
        other => panic!("expected DuplicateUpc, got {:?}", other),
    }
    assert!(commands.is_empty());
}

#[test]
fn unique_barcode_matches_when_sku_does_not() {
    let set = products(vec![item_row("A", "036000291452", "10.00")], vec![]);
    let (index, _) = IdentifierIndex::map_upcs(&set);
    let (outcome, _) =
        reconcile_listing(&listing("OTHER", 500, Some("036000291452"), true, Some(0)), &set, &index)
            .unwrap();
    match outcome {
        Outcome::Adjusted(c) => assert_eq!(c.local_sku, "A"),
        other => panic!("expected Adjusted, got {:?}", other),
    }
}

#[test]
fn unknown_listing_is_not_found() {
    let set = products(vec![item_row("A", "036000291452", "10.00")], vec![]);
    let (index, _) = IdentifierIndex::map_upcs(&set);
    let (outcome, commands) =
        reconcile_listing(&listing("Q", 500, Some("012345678905"), true, None), &set, &index).unwrap();
    assert!(matches!(outcome, Outcome::NotFound { .. }));
    assert!(commands.is_empty());
    let (outcome, _) = reconcile_listing(&listing("Q", 500, None, true, None), &set, &index).unwrap();
    assert!(matches!(outcome, Outcome::NotFound { .. }));
}

#[test]
fn inactive_listing_yields_no_outcome() {
    let set = products(vec![item_row("A", "", "10.00")], vec![]);
    let (index, _) = IdentifierIndex::map_upcs(&set);
    assert!(reconcile_listing(&listing("A", 1, None, false, None), &set, &index).is_none());
    let run = reconcile(
        &vec![
            Ok(listing("A", 1, None, false, None)),
            Ok(listing("A", 500, None, true, Some(0))),
            Err(MalformedListing { id: "m".to_string(), reason: MalformedReason::MissingSku }),
        ],
        &set,
        &index,
        false,
    );
    assert_eq!(run.outcomes.len(), 2);
    assert!(matches!(run.outcomes[0], Outcome::Adjusted(_)));
    assert!(matches!(run.outcomes[1], Outcome::MalformedListing(_)));
    assert_eq!(run.commands.len(), 1);
}

#[test]
fn dry_run_keeps_outcomes_and_drops_commands() {
    let set = products(vec![item_row("A", "", "10.00")], vec![posted_row("A", "5")]);
    let (index, _) = IdentifierIndex::map_upcs(&set);
    let listings = vec![Ok(listing("A", 500, None, true, Some(1)))];
    let dry = reconcile(&listings, &set, &index, true);
    assert_eq!(dry.outcomes.len(), 1);
    assert!(dry.commands.is_empty());
    let wet = reconcile(&listings, &set, &index, false);
    assert_eq!(wet.commands.len(), 2);
}

#[test]
fn nodes_are_classified() {
    let good = ShopifyProduct::try_from(&node(Some("abc-1"), "$12.34", Some("036000291459"), "ACTIVE"))
        .expect("well formed");
    assert_eq!(good.sku, "ABC-1");
    assert_eq!(good.price, 1234);
    assert_eq!(good.barcode.unwrap().to_string(), "036000291452");
    assert!(good.is_active);
    assert_eq!(good.stock, Some(2));
    let bad_barcode = ShopifyProduct::try_from(&node(Some("x"), "1", Some("12-34"), "DRAFT")).unwrap();
    assert!(bad_barcode.barcode.is_none());
    assert!(!bad_barcode.is_active);
    let no_sku = ShopifyProduct::try_from(&node(None, "1", None, "ACTIVE")).unwrap_err();
    assert_eq!(no_sku.reason, MalformedReason::MissingSku);
    let no_price = ShopifyProduct::try_from(&node(None, "free", None, "ACTIVE")).unwrap_err();
    assert_eq!(no_price.reason, MalformedReason::UnparsablePrice);
    let page = classify_page(&vec![node(Some("a"), "1", None, "ACTIVE"), node(None, "1", None, "ACTIVE")]);
    assert!(page[0].is_ok());
    assert!(page[1].is_err());
}

#[test]
fn paging_follows_the_end_cursor() {
    let more = PageInfo { has_next_page: true, end_cursor: "e".to_string(), start_cursor: "s".to_string() };
    assert_eq!(next_cursor(&more), Some("e".to_string()));
    let last = PageInfo { has_next_page: false, end_cursor: "e".to_string(), start_cursor: "s".to_string() };
    assert_eq!(next_cursor(&last), None);
}

#[test]
fn outcomes_go_to_their_logs() {
    let m = Outcome::MalformedListing(MalformedListing { id: "m".to_string(), reason: MalformedReason::MissingSku });
    assert_eq!(m.log(), Log::Error);
    assert_eq!(m.log().file_name(), "logs/error.txt");
    assert_eq!(Log::DuplicateAbcUpcs.file_name(), "logs/duplicate_abc_upcs.txt");
    let config = Config {
        shopify_access_token: "SECRET-REDACTED".to_string(),
        business_url: "shop.example.com".to_string(),
        storefront_url: "example.com".to_string(),
        api_version: "2024-10".to_string(),
    };
    assert_eq!(config.graphql_url(), "https://shop.example.com/admin/api/2024-10/graphql.json");
}

#[test]
fn stock_is_compared_before_clamping() {
    let set = products(vec![item_row("N", "", "10.00")], vec![posted_row("N", "-3")]);
    let (index, _) = IdentifierIndex::map_upcs(&set);
    let (_, commands) = reconcile_listing(&listing("N", 1000, None, true, Some(-3)), &set, &index).unwrap();
    assert!(commands.is_empty());
    let (_, commands) = reconcile_listing(&listing("N", 1000, None, true, Some(0)), &set, &index).unwrap();
    assert_eq!(commands.len(), 1);
    assert!(matches!(commands[0], UpdateCommand::SetInventory { quantity: 0, .. }));
}
