use order_book::book::BookError;
use order_book::book::OrderBook;
use order_book::book::Side;

#[test]
fn new_book_is_empty() {
    let book = OrderBook::new();
    assert!(book.is_empty());
    assert_eq!(book.query_orders(100), None);
    assert_eq!(book.bid_levels(), Vec::new());
    assert_eq!(book.ask_levels(), Vec::new());
}

#[test]
fn add_creates_and_accumulates() {
    let mut book = OrderBook::new();
    book.add_bid(100, 5);
    assert_eq!(book.query_orders(100), Some(5));
    book.add_bid(100, 7);
    assert_eq!(book.query_orders(100), Some(12));
    book.add_ask(200, 3);
    assert_eq!(book.query_orders(200), Some(3));
    assert!(!book.is_empty());
}

#[test]
fn add_zero_amount_is_noop() {
    let mut book = OrderBook::new();
    book.add_bid(100, 0);
    assert_eq!(book.query_orders(100), None);
    assert!(book.is_empty());
    book.add_ask(200, 5);
    book.add_ask(200, 0);
    assert_eq!(book.query_orders(200), Some(5));
}

#[test]
fn add_with_side_selector() {
    let mut book = OrderBook::new();
    book.add(100, 4, Side::Bid);
    book.add(100, 9, Side::Ask);
    assert_eq!(book.bid_levels(), vec![(100, 4)]);
    assert_eq!(book.ask_levels(), vec![(100, 9)]);
}

#[test]
fn query_prefers_bid_side() {
    let mut book = OrderBook::new();
    book.add_bid(100, 7);
    book.add_ask(100, 9);
    assert_eq!(book.query_orders(100), Some(7));
}

#[test]
fn best_bid_is_max_and_best_ask_is_min() {
    let mut book = OrderBook::new();
    book.add_bid(95, 6);
    book.add_bid(99, 1);
    book.add_bid(90, 4);
    book.add_ask(105, 2);
    book.add_ask(100, 5);
    book.add_ask(101, 3);
    assert_eq!(book.best_bid(), Ok((99, 1)));
    assert_eq!(book.best_ask(), Ok((100, 5)));
}

#[test]
fn best_updates_after_full_removal() {
    let mut book = OrderBook::new();
    book.add_ask(100, 5);
    book.add_ask(101, 3);
    book.remove_ask(100, 5).unwrap();
    assert_eq!(book.best_ask(), Ok((101, 3)));
}

#[test]
fn add_then_full_remove_round_trip() {
    let mut book = OrderBook::new();
    book.add_bid(50, 3);
    assert_eq!(book.remove_bid(50, 3), Ok(()));
    assert_eq!(book.query_orders(50), None);
    assert!(book.is_empty());
}

#[test]
fn partial_remove_leaves_remainder() {
    let mut book = OrderBook::new();
    book.add_ask(70, 10);
    assert_eq!(book.remove_ask(70, 4), Ok(()));
    assert_eq!(book.query_orders(70), Some(6));
}

#[test]
fn over_withdrawal_fails_without_clamping() {
    let mut book = OrderBook::new();
    book.add_bid(100, 10);
    assert_eq!(book.remove_bid(100, 11), Err(BookError::InsufficientQuantity));
    assert_eq!(book.query_orders(100), Some(10));
}

#[test]
fn remove_from_absent_price_fails() {
    let mut book = OrderBook::new();
    book.add_bid(100, 10);
    assert_eq!(book.remove_bid(101, 1), Err(BookError::PriceLevelNotFound));
    assert_eq!(book.remove_ask(100, 20), Err(BookError::InsufficientQuantity));
    assert_eq!(book.query_orders(100), Some(10));
}

#[test]
fn remove_bid_at_ask_only_price_fails() {
    let mut book = OrderBook::new();
    book.add_ask(100, 5);
    // The validating query falls back to the ask side, so the withdrawal
    // passes validation and then fails inside the bid ladder.
    assert_eq!(book.remove_bid(100, 3), Err(BookError::PriceLevelNotFound));
    assert_eq!(book.remove_bid(100, 7), Err(BookError::InsufficientQuantity));
    assert_eq!(book.query_orders(100), Some(5));
}

#[test]
fn remove_ask_validated_against_bid_quantity() {
    let mut book = OrderBook::new();
    book.add_bid(100, 10);
    book.add_ask(100, 4);
    // The query reads the bid side first, so validation passes against the
    // bid quantity and the subtraction then fails against the ask quantity.
    assert_eq!(book.remove_ask(100, 6), Err(BookError::InsufficientQuantity));
    assert_eq!(book.remove_ask(100, 11), Err(BookError::InsufficientQuantity));
    assert_eq!(book.remove_ask(100, 4), Ok(()));
    assert_eq!(book.ask_levels(), Vec::new());
    assert_eq!(book.query_orders(100), Some(10));
}

#[test]
fn best_query_on_empty_side_fails() {
    let book = OrderBook::new();
    assert_eq!(book.best_bid(), Err(BookError::EmptySide));
    assert_eq!(book.best_ask(), Err(BookError::EmptySide));
    let mut asks_only = OrderBook::new();
    asks_only.add_ask(100, 5);
    assert_eq!(asks_only.best_bid(), Err(BookError::EmptySide));
    assert_eq!(asks_only.best_ask(), Ok((100, 5)));
}

#[test]
fn low_level_remove_keeps_zero_key() {
    let mut book = OrderBook::new();
    book.add_bid(100, 5);
    assert_eq!(book.remove(100, 2, Side::Bid), Ok(3));
    assert_eq!(book.remove(100, 3, Side::Bid), Ok(0));
    // The key stays until the caller clears it.
    assert_eq!(book.query_orders(100), Some(0));
    assert_eq!(book.clear_key(100, Side::Bid), Ok(()));
    assert_eq!(book.query_orders(100), None);
}

#[test]
fn low_level_remove_error_cases() {
    let mut book = OrderBook::new();
    book.add_ask(100, 5);
    assert_eq!(book.remove(100, 6, Side::Ask), Err(BookError::InsufficientQuantity));
    assert_eq!(book.remove(101, 1, Side::Ask), Err(BookError::PriceLevelNotFound));
    assert_eq!(book.remove(100, 1, Side::Bid), Err(BookError::PriceLevelNotFound));
    assert_eq!(book.query_orders(100), Some(5));
}

#[test]
fn clear_key_error_cases() {
    let mut book = OrderBook::new();
    book.add_ask(100, 5);
    assert_eq!(book.clear_key(100, Side::Ask), Err(BookError::NonZeroKeyClear));
    assert_eq!(book.clear_key(101, Side::Ask), Err(BookError::PriceLevelNotFound));
    assert_eq!(book.clear_key(100, Side::Bid), Err(BookError::PriceLevelNotFound));
    assert_eq!(book.query_orders(100), Some(5));
}

#[test]
fn no_zero_entries_after_each_operation() {
    let mut book = OrderBook::new();
    let prices = [100u32, 101, 102];
    book.add_bid(100, 5);
    book.add_bid(101, 2);
    book.add_ask(102, 4);
    book.remove_bid(101, 2).unwrap();
    book.remove_ask(102, 3).unwrap();
    book.remove_bid(100, 4).unwrap();
    for p in prices {
        // Present implies strictly positive: a fully withdrawn level is gone.
        if let Some(q) = book.query_orders(p) {
            assert!(q > 0);
        }
    }
    assert_eq!(book.query_orders(100), Some(1));
    assert_eq!(book.query_orders(101), None);
    assert_eq!(book.query_orders(102), Some(1));
}

#[test]
fn ladders_are_sorted_ascending() {
    let mut book = OrderBook::new();
    book.add_bid(99, 1);
    book.add_bid(90, 4);
    book.add_bid(95, 6);
    book.add_ask(105, 2);
    book.add_ask(100, 5);
    assert_eq!(book.bid_levels(), vec![(90, 4), (95, 6), (99, 1)]);
    assert_eq!(book.ask_levels(), vec![(100, 5), (105, 2)]);
}

#[test]
fn worked_example() {
    let mut book = OrderBook::new();
    assert!(book.is_empty());
    book.add_ask(8723, 100);
    book.add_ask(8881, 125);
    book.add_ask(9900, 100);
    book.add_bid(8720, 174);
    book.add_bid(8600, 100);
    book.add_bid(8499, 100);
    assert_eq!(book.best_ask(), Ok((8723, 100)));
    assert_eq!(book.best_bid(), Ok((8720, 174)));
    assert_eq!(book.query_orders(8721), None);
    book.remove_ask(8723, 100).unwrap();
    book.remove_bid(8720, 173).unwrap();
    assert_eq!(book.query_orders(8723), None);
    assert_eq!(book.query_orders(8720), Some(1));
    assert_eq!(book.best_ask(), Ok((8881, 125)));
    assert_eq!(book.best_bid(), Ok((8720, 1)));
}
