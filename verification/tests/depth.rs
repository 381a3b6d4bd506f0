use order_book::book::OrderBook;

#[test]
fn total_asks_cumulative() {
    let mut book = OrderBook::new();
    book.add_ask(100, 5);
    book.add_ask(101, 3);
    book.add_ask(105, 2);
    assert_eq!(book.total_asks(), vec![(100, 5), (101, 8), (105, 10)]);
}

#[test]
fn total_bids_cumulative() {
    let mut book = OrderBook::new();
    book.add_bid(90, 4);
    book.add_bid(95, 6);
    book.add_bid(99, 1);
    // The best bid carries only its own size; worse prices accumulate the
    // sizes of every better-or-equal price.
    assert_eq!(book.total_bids(), vec![(90, 11), (95, 7), (99, 1)]);
}

#[test]
fn totals_of_empty_book() {
    let book = OrderBook::new();
    assert_eq!(book.total_asks(), Vec::new());
    assert_eq!(book.total_bids(), Vec::new());
}

#[test]
fn totals_of_single_level() {
    let mut book = OrderBook::new();
    book.add_ask(42, 9);
    book.add_bid(41, 7);
    assert_eq!(book.total_asks(), vec![(42, 9)]);
    assert_eq!(book.total_bids(), vec![(41, 7)]);
}

#[test]
fn totals_insert_order_does_not_matter() {
    let mut book = OrderBook::new();
    book.add_ask(105, 2);
    book.add_ask(100, 5);
    book.add_ask(101, 3);
    assert_eq!(book.total_asks(), vec![(100, 5), (101, 8), (105, 10)]);
}

#[test]
fn totals_follow_withdrawals() {
    let mut book = OrderBook::new();
    book.add_bid(90, 4);
    book.add_bid(95, 6);
    book.add_bid(99, 1);
    book.remove_bid(95, 6).unwrap();
    assert_eq!(book.total_bids(), vec![(90, 5), (99, 1)]);
    book.remove_bid(99, 1).unwrap();
    assert_eq!(book.total_bids(), vec![(90, 4)]);
}
