use caibot::booking::Booking;

#[test]
fn fingerprint_is_stable_and_exact() {
    // The fingerprint of a text is the md5 hex digest of its bytes: the
    // same in every call, never the text handed back unchanged.
    let mut b1 = Booking::default();
    let mut b2 = Booking::default();
    let h1 = b1.book_answer_text("abc");
    let h2 = b2.book_answer_text("abc");
    assert_eq!(h1, h2);
    assert_eq!(h1, "900150983cd24fb0d6963f7d28e17f72");
    assert_ne!(h1, "abc");
    assert_eq!(h1.len(), 32);
}

#[test]
fn claim_suppressed_is_exactly_once() {
    let mut b = Booking::default();
    b.book_stat(String::from("abc"));
    let mut trues = 0;
    let mut falses = 0;
    for _ in 0..10 {
        if b.check_stat("abc") {
            trues += 1;
        } else {
            falses += 1;
        }
    }
    assert_eq!(trues, 1);
    assert_eq!(falses, 9);
}

#[test]
fn book_stat_is_idempotent() {
    let mut b = Booking::default();
    b.book_stat(String::from("k"));
    b.book_stat(String::from("k"));
    assert!(b.check_stat("k"));
    assert!(!b.check_stat("k"));
}

#[test]
fn claim_of_unbooked_fingerprint_is_false() {
    let mut b = Booking::default();
    assert!(!b.check_stat("never-booked"));
}

#[test]
fn lookup_of_unbooked_answer_is_none() {
    let b = Booking::default();
    assert_eq!(b.get_answer("deadbeef"), None);
}

#[test]
fn booked_answer_is_returned() {
    let mut b = Booking::default();
    b.book_answer(String::from("h1"), String::from("a phrase"));
    assert_eq!(b.get_answer("h1"), Some(String::from("a phrase")));
    // A later booking of the same fingerprint wins.
    b.book_answer(String::from("h1"), String::from("another phrase"));
    assert_eq!(b.get_answer("h1"), Some(String::from("another phrase")));
}

#[test]
fn book_answers_books_each_text_under_its_fingerprint() {
    let mut b = Booking::default();
    let texts = vec![String::from("abc"), String::from("xyz")];
    let hs = b.book_answers(&texts);
    assert_eq!(hs.len(), 2);
    assert_eq!(hs[0], "900150983cd24fb0d6963f7d28e17f72");
    assert_eq!(b.get_answer(&hs[0]), Some(String::from("abc")));
    assert_eq!(b.get_answer(&hs[1]), Some(String::from("xyz")));
}

#[test]
fn resolve_chosen_suppressed_is_not_counted() {
    let mut b = Booking::default();
    let h = b.book_stat_text("stats text");
    assert_eq!(b.resolve_chosen(&h), None);
    // The marker is consumed: a duplicate callback now counts the sentinel.
    assert_eq!(b.resolve_chosen(&h), Some(String::from("-1")));
}

#[test]
fn resolve_chosen_answer_yields_its_text() {
    let mut b = Booking::default();
    let h = b.book_answer_text("a phrase");
    assert_eq!(b.resolve_chosen(&h), Some(String::from("a phrase")));
}

#[test]
fn resolve_chosen_unknown_yields_sentinel() {
    let mut b = Booking::default();
    assert_eq!(b.resolve_chosen("no-such-result"), Some(String::from("-1")));
}

#[test]
fn mask_user_is_stable_and_masks() {
    let a = caibot::fingerprint::mask_user(1);
    let b = caibot::fingerprint::mask_user(1);
    let c = caibot::fingerprint::mask_user(2);
    assert_eq!(a, b);
    assert_ne!(a, c);
    // md5 of the decimal writing "1".
    assert_eq!(a, "c4ca4238a0b923820dcc509a6f75849b");
}
