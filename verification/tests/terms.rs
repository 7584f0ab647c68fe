use madhava::range::TermRange;
use madhava::term::{term_at, Term};
use madhava::worker::TermCursor;

#[test]
fn first_terms_of_the_series() {
    assert_eq!(term_at(0), Term { negative: false, denominator: 1 });
    assert_eq!(term_at(1), Term { negative: true, denominator: 3 });
    assert_eq!(term_at(2), Term { negative: false, denominator: 5 });
    assert_eq!(term_at(3), Term { negative: true, denominator: 7 });
}

#[test]
fn sign_follows_the_parity_of_the_index() {
    for k in 0u64..200 {
        let term = term_at(k);
        assert_eq!(term.negative, k % 2 == 1);
        assert_eq!(term.sign(), if k % 2 == 1 { -1 } else { 1 });
        assert_ne!(term.negative, term_at(k + 1).negative);
    }
}

#[test]
fn denominators_are_odd_and_rise_by_two() {
    for k in 0u64..200 {
        let term = term_at(k);
        assert_eq!(term.denominator, 2 * k as u128 + 1);
        assert_eq!(term.denominator % 2, 1);
        assert_eq!(term_at(k + 1).denominator, term.denominator + 2);
    }
}

#[test]
fn denominator_of_the_largest_index_does_not_wrap() {
    let term = term_at(u64::MAX);
    assert_eq!(term.denominator, 36_893_488_147_419_103_231u128);
    assert!(term.negative);
    let term = term_at(u64::MAX / 2 + 1);
    assert_eq!(term.denominator, 18_446_744_073_709_551_617u128);
    assert!(!term.negative);
}

#[test]
fn cursor_hands_out_each_index_once_in_order() {
    let mut cursor = TermCursor::new(TermRange::new(4, 8).unwrap());
    assert_eq!(cursor.position(), 4);
    assert_eq!(cursor.limit(), 8);
    assert_eq!(cursor.remaining(), 4);
    let mut seen = Vec::new();
    while let Some(term) = cursor.next_term() {
        seen.push(term);
    }
    assert_eq!(seen, vec![term_at(4), term_at(5), term_at(6), term_at(7)]);
    assert_eq!(cursor.position(), 8);
    assert_eq!(cursor.remaining(), 0);
}

#[test]
fn cursor_stays_exhausted() {
    let mut cursor = TermCursor::new(TermRange::new(0, 1).unwrap());
    assert_eq!(cursor.next_term(), Some(term_at(0)));
    let done = cursor;
    assert_eq!(cursor.next_term(), None);
    assert_eq!(cursor.next_term(), None);
    assert_eq!(cursor, done);
}

#[test]
fn cursor_over_an_empty_window_hands_out_nothing() {
    let mut cursor = TermCursor::new(TermRange::new(7, 7).unwrap());
    assert_eq!(cursor.remaining(), 0);
    assert_eq!(cursor.next_term(), None);
    assert_eq!(cursor.position(), 7);
}

#[test]
fn cursor_reaches_the_end_of_the_index_type() {
    let mut cursor = TermCursor::new(TermRange::new(u64::MAX - 1, u64::MAX).unwrap());
    assert_eq!(cursor.next_term(), Some(term_at(u64::MAX - 1)));
    assert_eq!(cursor.next_term(), None);
}
