use shopify_price_fixer::upc::{Upc, UpcError};

fn text(u: &Upc) -> String {
    u.to_string()
}

#[test]
fn normalize_truncates_thirteen_digits_and_recomputes_check_digit() {
    let u = Upc::normalize("0012345678905").expect("13 digits normalize");
    assert_eq!(text(&u), "012345678905");
}

#[test]
fn normalize_replaces_a_wrong_check_digit() {
    let u = Upc::normalize("036000291459").expect("12 digits normalize");
    assert_eq!(text(&u), "036000291452");
}

#[test]
fn normalize_accepts_eleven_digits() {
    let u = Upc::normalize("03600029145").expect("11 digits normalize");
    assert_eq!(text(&u), "036000291452");
}

#[test]
fn strict_refuses_letters_lenient_strips_them() {
    assert_eq!(
        Upc::try_from_str_like("12AB34567890").err(),
        Some(UpcError::NonNumericCharacter)
    );
    // only ten digits remain once the letters are stripped
    assert!(Upc::normalize("12AB34567890").is_none());
    let u = Upc::normalize("12AB345678901").expect("eleven digits remain");
    assert_eq!(text(&u), "123456789012");
}

#[test]
fn strict_reports_short_input() {
    assert_eq!(Upc::try_from_str_like("1234567890").err(), Some(UpcError::InvalidLength));
    assert_eq!(Upc::try_from_str_like("").err(), Some(UpcError::InvalidLength));
    assert!(Upc::normalize("").is_none());
}

#[test]
fn strict_keeps_last_twelve_digits() {
    let u = Upc::try_from_str_like("99036000291452").expect("digits only");
    assert_eq!(text(&u), "036000291452");
}

#[test]
fn normalizing_a_normalized_upc_changes_nothing() {
    for raw in ["0012345678905", "036000291459", "7-12345-67890-0", "abc 8 8 8 8 8 8 8 8 8 8 8 x"] {
        let once = Upc::normalize(raw).expect("enough digits");
        let twice = Upc::normalize(&text(&once)).expect("twelve digits");
        assert_eq!(text(&once), text(&twice));
    }
}

#[test]
fn check_digit_is_a_digit_for_every_prefix_tried() {
    for seed in 0u64..500 {
        let prefix = format!("{:011}", seed * 200_000_003 % 100_000_000_000);
        let u = Upc::normalize(&prefix).expect("eleven digits");
        let t = text(&u);
        assert_eq!(t.len(), 12);
        assert!(t.starts_with(&prefix));
        assert!(t.chars().all(|c| c.is_ascii_digit()));
        let again = Upc::normalize(&t).expect("twelve digits");
        assert_eq!(text(&again), t);
    }
}

#[test]
fn fix_check_digit_needs_eleven_digits() {
    assert!(Upc::fix_check_digit(&[1, 2, 3]).is_none());
    let u = Upc::fix_check_digit(&[0, 3, 6, 0, 0, 0, 2, 9, 1, 4, 5, 7]).expect("twelve digits");
    assert_eq!(text(&u), "036000291452");
    let past = Upc::fix_check_digit(&[0, 3, 6, 0, 0, 0, 2, 9, 1, 4, 5, 200, 17]).expect("eleven digits first");
    assert_eq!(text(&past), "036000291452");
}

#[test]
fn upc_list_reads_each_entry() {
    let list = Upc::from_abc_upc_list("036000291452,junk,0012345678905");
    assert_eq!(list.len(), 3);
    assert_eq!(text(list[0].as_ref().unwrap()), "036000291452");
    assert!(list[1].is_none());
    assert_eq!(text(list[2].as_ref().unwrap()), "012345678905");
    let empty = Upc::from_abc_upc_list("");
    assert_eq!(empty.len(), 1);
    assert!(empty[0].is_none());
}
