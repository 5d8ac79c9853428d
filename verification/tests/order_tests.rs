//! Order creation (all-or-nothing), fetching, paging, status updates.

use db_web::errors::DataError;
use db_web::order::{
    generate_order_id, items_total, InsertOrderItem, OrderItem, OrderStatus, OrderStore,
};

fn item(pid: u32, amount: u32, unit_price: u32) -> InsertOrderItem {
    InsertOrderItem { pid, amount, unit_price }
}

#[test]
fn add_order_persists_header_and_all_items() {
    let mut store = OrderStore::new();
    let items = vec![item(10, 2, 300), item(11, 1, 250)];
    let hid = store.add_order(7, "ord-001".to_string(), &items, 1_700_000_000).unwrap();
    assert_eq!(hid, 1);
    assert_eq!(store.orders().len(), 1);
    assert_eq!(store.items().len(), 2);
    let dto = store.get_order(1).expect("order exists");
    assert_eq!(dto.order.order_id, "ord-001");
    assert_eq!(dto.order.cid, 7);
    assert!(matches!(dto.order.status, OrderStatus::Unpaid));
    assert_eq!(dto.order_items.len(), 2);
    assert_eq!(dto.order_items[0].pid, 10);
    assert_eq!(dto.order_items[1].pid, 11);
    // The derived total: 2 * 300 + 1 * 250.
    assert_eq!(dto.total, 850);
}

#[test]
fn add_order_failure_on_last_item_persists_nothing() {
    // Two line items still have id headroom, the third does not: the
    // creation fails on its last insert, and neither the header nor any
    // line item becomes visible.
    let mut store = OrderStore::with_next_ids(1, u32::MAX - 2);
    let items = vec![item(1, 1, 1), item(2, 1, 1), item(3, 1, 1)];
    let err = store.add_order(7, "ord-oops".to_string(), &items, 0).unwrap_err();
    assert_eq!(err, DataError::ConstraintViolation);
    assert_eq!(store.orders().len(), 0);
    assert_eq!(store.items().len(), 0);
    // With one fewer item the same store accepts the order whole.
    let ok_items = vec![item(1, 1, 1), item(2, 1, 1)];
    store.add_order(7, "ord-ok".to_string(), &ok_items, 0).unwrap();
    assert_eq!(store.orders().len(), 1);
    assert_eq!(store.items().len(), 2);
}

#[test]
fn get_order_missing_is_not_found() {
    let store = OrderStore::new();
    assert_eq!(store.get_order(42).unwrap_err(), DataError::RecordNotFound);
}

#[test]
fn items_total_is_exact() {
    let its = vec![
        OrderItem { id: 1, order_id: 1, pid: 1, amount: 3, unit_price: 7 },
        OrderItem { id: 2, order_id: 1, pid: 2, amount: 0, unit_price: 999 },
        OrderItem { id: 3, order_id: 1, pid: 3, amount: 5, unit_price: 100 },
    ];
    assert_eq!(items_total(&its), Some(521));
    assert_eq!(items_total(&Vec::new()), Some(0));
    // The largest single item still fits an exact 64-bit total.
    let big = vec![OrderItem { id: 1, order_id: 1, pid: 1, amount: u32::MAX, unit_price: u32::MAX }];
    assert_eq!(items_total(&big), Some((u32::MAX as u64) * (u32::MAX as u64)));
}

#[test]
fn orders_page_returns_the_cut() {
    let mut store = OrderStore::new();
    // 25 orders for client 7, with noise from client 8 in between.
    for k in 0..25u32 {
        store
            .add_order(7, format!("ord-{}", k), &vec![item(1, 1, k + 1)], 1_000 + k as i64)
            .unwrap();
        store.add_order(8, format!("other-{}", k), &vec![item(2, 1, 1)], 0).unwrap();
    }
    let page = store.orders_page_of_client(7, 3, 10).expect("page exists");
    assert_eq!(page.total, 25);
    assert_eq!(page.total_pages, 3);
    assert_eq!(page.current_page, 3);
    assert_eq!(page.page_size, 10);
    assert_eq!(page.data.len(), 5);
    // The third page holds the 21st through 25th of the client's orders,
    // in storage order, each with its own line items and total.
    assert_eq!(page.data[0].order.order_id, "ord-20");
    assert_eq!(page.data[4].order.order_id, "ord-24");
    assert_eq!(page.data[0].total, 21);
    assert_eq!(page.data[0].order_items.len(), 1);
}

#[test]
fn orders_page_past_the_end_is_empty() {
    let mut store = OrderStore::new();
    store.add_order(7, "ord-0".to_string(), &vec![item(1, 1, 1)], 0).unwrap();
    let page = store.orders_page_of_client(7, 5, 10).expect("page exists");
    assert_eq!(page.total, 1);
    assert_eq!(page.total_pages, 1);
    assert_eq!(page.data.len(), 0);
}

#[test]
fn orders_page_of_unknown_client_is_empty() {
    let store = OrderStore::new();
    let page = store.orders_page_of_client(99, 1, 10).expect("page exists");
    assert_eq!(page.total, 0);
    assert_eq!(page.total_pages, 0);
    assert_eq!(page.data.len(), 0);
}

#[test]
fn update_status_overwrites_unconditionally() {
    let mut store = OrderStore::new();
    store.add_order(7, "ord-0".to_string(), &vec![item(1, 1, 1)], 0).unwrap();
    assert_eq!(store.update_status(1, OrderStatus::Paid), 1);
    assert!(matches!(store.get_order(1).unwrap().order.status, OrderStatus::Paid));
    // Transitions are not validated: any status overwrites any other.
    assert_eq!(store.update_status(1, OrderStatus::Unpaid), 1);
    assert!(matches!(store.get_order(1).unwrap().order.status, OrderStatus::Unpaid));
    // A missing order touches no row.
    assert_eq!(store.update_status(999, OrderStatus::Finished), 0);
}

#[test]
fn order_status_labels_roundtrip() {
    assert_eq!(OrderStatus::from_label("unpaid").label(), "unpaid");
    assert_eq!(OrderStatus::from_label("paid").label(), "paid");
    assert_eq!(OrderStatus::from_label("finished").label(), "finished");
    // Anything unrecognised is the defensive fallback, not an error.
    assert!(matches!(OrderStatus::from_label("shipped"), OrderStatus::Unknown));
    assert_eq!(OrderStatus::Unknown.label(), "unknown");
}

#[test]
fn surrogate_ids_run_consecutively() {
    let mut store = OrderStore::new();
    let first = store.add_order(7, "a".to_string(), &vec![item(1, 1, 1), item(2, 1, 1)], 0).unwrap();
    let second = store.add_order(8, "b".to_string(), &vec![item(3, 1, 1)], 0).unwrap();
    assert_eq!(first, 1);
    assert_eq!(second, 2);
    let items = store.items();
    assert_eq!(items[0].id, 1);
    assert_eq!(items[1].id, 2);
    assert_eq!(items[2].id, 3);
    assert_eq!(items[0].order_id, 1);
    assert_eq!(items[2].order_id, 2);
}

#[test]
fn order_ids_are_long_and_fresh() {
    let a = generate_order_id();
    let b = generate_order_id();
    assert_eq!(a.chars().count(), 72);
    assert_eq!(b.chars().count(), 72);
    assert_ne!(a, b);
}
