use rental_core::availability::{available, is_confirmed, Reservation};
use rental_core::calendar::{current_year_month, day_number, year_month_for_ids};
use rental_core::queries::is_text_before;

fn res(doc_id: i32, start_day: i32, duree: i32, quantite: i32, confirmed: bool) -> Reservation {
    Reservation { doc_id, start_day, duree, quantite, confirmed }
}

#[test]
fn confirmed_marker_is_found_anywhere() {
    assert!(is_confirmed("valide"));
    assert!(is_confirmed("validee"));
    assert!(is_confirmed("devis valide par client"));
    assert!(!is_confirmed("draft"));
    assert!(!is_confirmed("valid"));
    assert!(!is_confirmed(""));
    assert!(!is_confirmed("Valide"));
}

#[test]
fn available_subtracts_overlapping_confirmed() {
    let rs = vec![res(1, 100, 3, 4, true), res(2, 101, 2, 3, true)];
    assert_eq!(available(10, &rs, 0, 101, 1), 3);
}

#[test]
fn available_never_negative() {
    let rs = vec![res(1, 100, 3, 8, true), res(2, 100, 3, 8, true)];
    assert_eq!(available(10, &rs, 0, 100, 1), 0);
    assert_eq!(available(-3, &Vec::new(), 0, 100, 1), 0);
}

#[test]
fn available_ignores_unconfirmed_and_excluded() {
    let rs = vec![res(1, 100, 3, 4, false), res(2, 100, 3, 5, true)];
    assert_eq!(available(10, &rs, 2, 100, 1), 10);
    assert_eq!(available(10, &rs, 1, 100, 1), 5);
}

#[test]
fn overlap_is_half_open() {
    // reservation covers days 100, 101, 102
    let rs = vec![res(1, 100, 3, 4, true)];
    assert_eq!(available(10, &rs, 0, 103, 2), 10);
    assert_eq!(available(10, &rs, 0, 102, 1), 6);
    assert_eq!(available(10, &rs, 0, 98, 2), 10);
    assert_eq!(available(10, &rs, 0, 98, 3), 6);
}

#[test]
fn available_with_no_reservation_is_total() {
    assert_eq!(available(7, &Vec::new(), 0, 5, 5), 7);
}

#[test]
fn day_numbers_of_iso_dates() {
    assert_eq!(day_number("0001-01-01"), Some(1));
    assert_eq!(day_number("2024-01-01"), Some(738886));
    assert_eq!(day_number("2024-06-01"), Some(739038));
    assert_eq!(day_number("2024-06-02"), Some(739039));
}

#[test]
fn malformed_dates_have_no_day_number() {
    assert_eq!(day_number("2024-13-01"), None);
    assert_eq!(day_number("2023-02-29"), None);
    assert_eq!(day_number("hello"), None);
    assert_eq!(day_number(""), None);
}

#[test]
fn current_month_is_a_calendar_month() {
    let (year, month) = current_year_month().unwrap();
    assert!(year >= 2020 && year <= 9999);
    assert!((1..=12).contains(&month));
}

#[test]
fn year_and_month_usable_in_identifiers() {
    assert_eq!(year_month_for_ids(2024, 6), Some((2024, 6)));
    assert_eq!(year_month_for_ids(0, 1), Some((0, 1)));
    assert_eq!(year_month_for_ids(9999, 12), Some((9999, 12)));
    assert_eq!(year_month_for_ids(10000, 1), None);
    assert_eq!(year_month_for_ids(-1, 12), None);
}

#[test]
fn text_order_is_character_order() {
    assert!(is_text_before("2024-05-31", "2024-06-01"));
    assert!(!is_text_before("2024-06-01", "2024-05-31"));
    assert!(!is_text_before("2024-06-01", "2024-06-01"));
    assert!(is_text_before("2024", "2024-06"));
    assert!(!is_text_before("2024-06", "2024"));
    assert!(is_text_before("", "a"));
    assert!(!is_text_before("", ""));
    assert!(is_text_before("Z", "a"));
    assert!(is_text_before("e", "é"));
}

#[test]
fn day_numbers_of_lenient_spellings() {
    assert_eq!(day_number("2024-6-1"), Some(739038));
    assert_eq!(day_number("2024- 06- 01"), Some(739038));
    assert_eq!(day_number("+2024-06-01"), Some(739038));
}
