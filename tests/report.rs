use shopify_price_fixer::index::{carriers, IdentifierIndex};
use shopify_price_fixer::report::{
    merge_stock, parse_abc_item_files, parse_item_rows, AbcProduct, AbcProductBuilder,
    ProductField, ReportField, ReportParseError,
};
use shopify_price_fixer::report_tools::{parse_report_1_15, skus_from_214};
use shopify_price_fixer::upc::Upc;

fn item_row(sku: &str, desc: &str, upcs: &str, list: &str, cost: &str) -> Vec<String> {
    let mut row = vec![String::new(); 44];
    row[0] = sku.to_string();
    row[1] = desc.to_string();
    row[6] = list.to_string();
    row[8] = cost.to_string();
    row[43] = upcs.to_string();
    row
}

fn posted_row(sku: &str, stock: &str) -> Vec<String> {
    let mut row = vec![String::new(); 20];
    row[0] = sku.to_string();
    row[19] = stock.to_string();
    row
}

fn tsv(rows: &[Vec<String>]) -> Vec<u8> {
    let mut out = String::new();
    for r in rows {
        out.push_str(&r.join("\t"));
        out.push('\n');
    }
    out.into_bytes()
}

#[test]
fn item_rows_become_products() {
    let rows = vec![
        item_row("abc-1", "Widget", "036000291452, 0012345678905,bad", "$10.00", "4.255"),
        item_row("ABC-2", "Gadget", "", "12", "6"),
    ];
    let set = parse_item_rows(&rows).expect("rows are sound");
    assert_eq!(set.len(), 2);
    let p = set.get("ABC-1").expect("keyed by upper-case SKU");
    assert_eq!(p.sku(), "abc-1");
    assert_eq!(p.desc(), "Widget");
    assert_eq!(p.list(), 1000);
    assert_eq!(p.cost(), 426);
    assert_eq!(p.stock(), 0);
    let upcs: Vec<String> = p.upcs().iter().map(|u| u.to_string()).collect();
    assert_eq!(upcs, vec!["036000291452", "012345678905"]);
    assert!(set.get("abc-1").is_none());
    assert_eq!(set.get("ABC-2").unwrap().upc_count(), 0);
}

#[test]
fn a_later_item_row_replaces_an_earlier_one() {
    let rows = vec![item_row("a", "first", "", "1", "1"), item_row("A", "second", "", "2", "2")];
    let set = parse_item_rows(&rows).expect("rows are sound");
    assert_eq!(set.len(), 1);
    assert_eq!(set.get("A").unwrap().desc(), "second");
}

#[test]
fn item_row_errors_name_row_and_field() {
    let short = vec![item_row("A", "x", "", "1", "1"), vec!["B".to_string(), "y".to_string()]];
    assert!(matches!(
        parse_item_rows(&short),
        Err(ReportParseError::MissingField(2, ReportField::UpcList))
    ));
    let no_desc = vec![vec!["B".to_string()]];
    assert!(matches!(
        parse_item_rows(&no_desc),
        Err(ReportParseError::MissingField(1, ReportField::Description))
    ));
    let bad_list = vec![item_row("A", "x", "", "n/a", "1")];
    assert!(matches!(
        parse_item_rows(&bad_list),
        Err(ReportParseError::PriceParseError(1, ReportField::ListPrice))
    ));
    let bad_cost = vec![item_row("A", "x", "", "1", "1.2.3")];
    assert!(matches!(
        parse_item_rows(&bad_cost),
        Err(ReportParseError::PriceParseError(1, ReportField::CostPrice))
    ));
    let empty_row: Vec<Vec<String>> = vec![vec![]];
    assert!(matches!(
        parse_item_rows(&empty_row),
        Err(ReportParseError::MissingField(1, ReportField::ItemSku))
    ));
}

#[test]
fn stock_merges_case_insensitively_and_upper_cases_the_sku() {
    let set = parse_item_rows(&vec![
        item_row("abc-1", "Widget", "", "10", "4"),
        item_row("abc-2", "Gadget", "", "10", "4"),
    ])
    .unwrap();
    let merged = merge_stock(set, &vec![posted_row("ABC-1", "7.9")]).expect("SKU is known");
    let p = merged.get("ABC-1").unwrap();
    assert_eq!(p.stock(), 7);
    assert_eq!(p.sku(), "ABC-1");
    let untouched = merged.get("ABC-2").unwrap();
    assert_eq!(untouched.stock(), 0);
    assert_eq!(untouched.sku(), "abc-2");
}

#[test]
fn posted_row_with_unknown_sku_aborts() {
    let set = parse_item_rows(&vec![item_row("A", "x", "", "1", "1")]).unwrap();
    match merge_stock(set, &vec![posted_row("A", "1"), posted_row("X", "3")]) {
        Err(ReportParseError::UnmatchedPostedSku(row, sku)) => {
            assert_eq!(row, 2);
            assert_eq!(sku, "X");
        }
        other => panic!("expected an unmatched SKU, got {:?}", other.err()),
    }
}

#[test]
fn posted_row_errors_name_row_and_field() {
    let set = parse_item_rows(&vec![item_row("A", "x", "", "1", "1")]).unwrap();
    assert!(matches!(
        merge_stock(set, &vec![vec!["A".to_string()]]),
        Err(ReportParseError::MissingField(1, ReportField::Stock))
    ));
    let set = parse_item_rows(&vec![item_row("A", "x", "", "1", "1")]).unwrap();
    assert!(matches!(
        merge_stock(set, &vec![posted_row("A", "lots")]),
        Err(ReportParseError::PriceParseError(1, ReportField::Stock))
    ));
    let set = parse_item_rows(&vec![item_row("A", "x", "", "1", "1")]).unwrap();
    assert!(matches!(
        merge_stock(set, &vec![vec![]]),
        Err(ReportParseError::MissingField(1, ReportField::PostedSku))
    ));
}

#[test]
fn report_files_are_read_as_tab_separated_data() {
    let items = tsv(&[item_row("A", "x", "036000291452", "1.50", "1")]);
    let posted = tsv(&[posted_row("a", "4")]);
    let set = parse_abc_item_files(&items, &posted).expect("reports are sound");
    let p = set.get("A").unwrap();
    assert_eq!(p.list(), 150);
    assert_eq!(p.stock(), 4);
    let unknown = tsv(&[posted_row("X", "4")]);
    assert!(matches!(
        parse_abc_item_files(&items, &unknown),
        Err(ReportParseError::UnmatchedPostedSku(1, _))
    ));
}

#[test]
fn short_report_row_is_a_missing_field() {
    let mut data = tsv(&[item_row("A", "x", "", "1", "1")]);
    data.extend_from_slice(b"B\ty\n");
    assert!(matches!(
        parse_abc_item_files(&data, b""),
        Err(ReportParseError::MissingField(2, ReportField::UpcList))
    ));
    let items = tsv(&[item_row("A", "x", "", "1", "1")]);
    assert!(matches!(
        parse_abc_item_files(&items, b"A\t3\n"),
        Err(ReportParseError::MissingField(1, ReportField::Stock))
    ));
}

#[test]
fn report_that_is_not_text_is_unreadable() {
    assert!(matches!(
        parse_abc_item_files(b"\xff\xfe\tx\n", b""),
        Err(ReportParseError::Unreadable(_))
    ));
    let items = tsv(&[item_row("A", "x", "", "1", "1")]);
    assert!(matches!(
        parse_abc_item_files(&items, b"\xff\n"),
        Err(ReportParseError::Unreadable(_))
    ));
    assert!(skus_from_214(b"h\n\xff\n").is_err());
}

#[test]
fn shared_upc_is_flagged_and_reported_once() {
    let set = parse_item_rows(&vec![
        item_row("A", "x", "036000291452", "1", "1"),
        item_row("B", "y", "036000291452,012345678905", "1", "1"),
        item_row("C", "z", "012345678905,012345678905,111111111117", "1", "1"),
    ])
    .unwrap();
    let (index, dups) = IdentifierIndex::map_upcs(&set);
    let mut dup_text: Vec<String> = dups.iter().map(|u| u.to_string()).collect();
    dup_text.sort();
    assert_eq!(dup_text, vec!["012345678905", "036000291452"]);
    let shared = Upc::try_from_str_like("036000291452").unwrap();
    let (flag, position) = index.lookup(&shared).expect("indexed");
    assert!(flag);
    let (key, _) = set.at(position);
    assert!(key == "A" || key == "B");
    let own = Upc::try_from_str_like("111111111117").unwrap();
    let (flag, position) = index.lookup(&own).expect("indexed");
    assert!(!flag);
    assert_eq!(set.at(position).0, "C");
    let absent = Upc::try_from_str_like("222222222222").unwrap();
    assert!(index.lookup(&absent).is_none());
    let sharing: Vec<String> = carriers(&set, &shared).iter().map(|&i| set.at(i).0.clone()).collect();
    assert_eq!(sharing, vec!["A".to_string(), "B".to_string()]);
    let second = Upc::try_from_str_like("012345678905").unwrap();
    let sharing: Vec<String> = carriers(&set, &second).iter().map(|&i| set.at(i).0.clone()).collect();
    assert_eq!(sharing, vec!["B".to_string(), "C".to_string()]);
    assert!(carriers(&set, &absent).is_empty());
}

#[test]
fn builder_reports_every_missing_field() {
    match AbcProductBuilder::new().with_desc("x").with_cost(5).build() {
        Err(missing) => assert_eq!(missing, vec![ProductField::Sku, ProductField::List]),
        Ok(_) => panic!("fields are missing"),
    }
    let upc = Upc::try_from_str_like("036000291452").unwrap();
    let p: AbcProduct = AbcProductBuilder::new()
        .with_sku("S")
        .with_desc("d")
        .with_list(10)
        .with_cost(5)
        .add_upc(upc)
        .build()
        .expect("all required fields");
    assert_eq!(p.stock(), 0);
    assert_eq!(p.upc_count(), 1);
    let stocked = AbcProductBuilder::new()
        .with_sku("S")
        .with_desc("d")
        .with_list(10)
        .with_cost(5)
        .with_upcs(vec![upc, upc])
        .with_stock(3)
        .build()
        .unwrap();
    assert_eq!(stocked.stock(), 3);
    assert_eq!(stocked.upc_count(), 2);
}

#[test]
fn legacy_price_report_keys_by_upper_case_sku() {
    let text = "abc\tx\tx\tx\tx\t12.50\r\nDEF\tx\tx\tx\tx\tnope\nshort\nabc\tx\tx\tx\tx\t13\n";
    let prices = parse_report_1_15(text);
    assert_eq!(prices.get("ABC"), Some(&1300));
    assert_eq!(prices.get("DEF"), None);
    assert_eq!(prices.get("SHORT"), None);
    assert_eq!(prices.len(), 1);
}

#[test]
fn bill_report_skus_skip_blank_cells() {
    let data = "h0\th1\th2\th3\th4\n1\t2\t3\t4\tSKU-1\n1\t2\n1\t2\t3\t4\t   \n1\t2\t3\t4\t\u{a0}\u{3000}\n1\t2\t3\t4\t SKU-2 \t5\n";
    let skus = skus_from_214(data.as_bytes()).expect("flexible rows");
    assert_eq!(skus, vec!["SKU-1".to_string(), " SKU-2 ".to_string()]);
}
