//! Orders and their line items.
//!
//! `OrderStore` models the two order tables (headers and line items)
//! together with the transactional creation of an order: a header and its
//! 1..N line items either all become visible or none do. An order's total
//! is derived (sum of quantity times unit price at order time), never stored.

use vstd::prelude::*;
use crate::errors::DataError;
use crate::page::{PageResponse, page_bounds, spec_page_bounds, spec_total_pages, total_pages};
use crate::text::str_eq;

verus! {

/// The lifecycle tag of an order. `Unknown` stands for any persisted label
/// that none of the real states carries: it marks a value that could not be
/// read, not a state of its own.
#[derive(Debug, Clone, Copy, PartialEq, Eq, Structural)]
pub enum OrderStatus {
    Unpaid,
    Paid,
    Finished,
    Unknown,
}

/// The status a persisted label denotes.
pub open spec fn spec_status_of_label(s: Seq<char>) -> OrderStatus {
    if s == "unpaid"@ {
        OrderStatus::Unpaid
    } else if s == "paid"@ {
        OrderStatus::Paid
    } else if s == "finished"@ {
        OrderStatus::Finished
    } else {
        OrderStatus::Unknown
    }
}

impl OrderStatus {
    /// The label this status is persisted under.
    pub open spec fn spec_label(&self) -> Seq<char> {
        match self {
            OrderStatus::Unpaid => "unpaid"@,
            OrderStatus::Paid => "paid"@,
            OrderStatus::Finished => "finished"@,
            OrderStatus::Unknown => "unknown"@,
        }
    }

    /// Reads a status from its persisted label; anything unrecognised is
    /// `Unknown`.
    pub fn from_label(s: &str) -> (r: Self)
        ensures
            r == spec_status_of_label(s@),
    {
        if str_eq(s, "unpaid") {
            OrderStatus::Unpaid
        } else if str_eq(s, "paid") {
            OrderStatus::Paid
        } else if str_eq(s, "finished") {
            OrderStatus::Finished
        } else {
            OrderStatus::Unknown
        }
    }

    /// Writes the status as its label.
    pub fn label(&self) -> (r: String)
        ensures
            r@ == self.spec_label(),
    {
        match self {
            OrderStatus::Unpaid => "unpaid".to_owned(),
            OrderStatus::Paid => "paid".to_owned(),
            OrderStatus::Finished => "finished".to_owned(),
            OrderStatus::Unknown => "unknown".to_owned(),
        }
    }
}

/// An order header. `id` is the surrogate key; `order_id` is the externally
/// visible identifier minted at creation; `order_time` is the creation time
/// as a unix timestamp in seconds.
#[derive(Debug)]
pub struct Order {
    pub id: u32,
    pub order_id: String,
    pub cid: u32,
    pub order_time: i64,
    pub status: OrderStatus,
}

impl Clone for Order {
    /// Cloning keeps every field.
    fn clone(&self) -> (r: Self)
        ensures
            r == self,
    {
        Order {
            id: self.id,
            order_id: self.order_id.clone(),
            cid: self.cid,
            order_time: self.order_time,
            status: self.status,
        }
    }
}

/// One line item of an order: `amount` units of product `pid` at
/// `unit_price` cents, the price at the time the order was placed.
#[derive(Debug, Clone, Copy, PartialEq, Eq, Structural)]
pub struct OrderItem {
    pub id: u32,
    pub order_id: u32,
    pub pid: u32,
    pub amount: u32,
    pub unit_price: u32,
}

/// A line item of an order to create.
#[derive(Debug, Clone, Copy)]
pub struct InsertOrderItem {
    pub pid: u32,
    pub amount: u32,
    pub unit_price: u32,
}

/// A line item as shown to callers.
#[derive(Debug, Clone, Copy, PartialEq, Eq, Structural)]
pub struct OrderItemDTO {
    pub pid: u32,
    pub amount: u32,
    pub unit_price: u32,
}

/// The caller-facing shape of a stored line item.
pub open spec fn spec_item_dto_of(it: OrderItem) -> OrderItemDTO {
    OrderItemDTO { pid: it.pid, amount: it.amount, unit_price: it.unit_price }
}

impl OrderItemDTO {
    /// Strips the ids off a stored line item.
    pub fn from_order_item(it: OrderItem) -> (r: Self)
        ensures
            r == spec_item_dto_of(it),
    {
        OrderItemDTO { pid: it.pid, amount: it.amount, unit_price: it.unit_price }
    }
}

/// An order with its line items and derived total.
#[derive(Debug)]
pub struct OrderDTO {
    pub order: Order,
    pub order_items: Vec<OrderItemDTO>,
    pub total: u64,
}

/// A query for one order by surrogate id.
#[derive(Debug, Clone, Copy)]
pub struct OrderQueryId {
    pub id: u32,
}

/// An order to create: the owning client and at least one line item.
#[derive(Debug, Clone)]
pub struct InsertOrder {
    pub cid: u32,
    pub order_items: Vec<InsertOrderItem>,
}

/// A request to overwrite one order's status. Any status may be written
/// over any other: transitions are deliberately not validated here.
#[derive(Debug, Clone, Copy)]
pub struct UpdateOrder {
    pub id: u32,
    pub status: OrderStatus,
}

/// The derived total of a run of line items: the sum of quantity times
/// unit price.
pub open spec fn spec_items_total(s: Seq<OrderItem>) -> int
    decreases s.len(),
{
    if s.len() == 0 {
        0
    } else {
        spec_items_total(s.drop_last()) + s.last().amount * s.last().unit_price
    }
}


/// Computes the derived total of the given line items exactly; `None` only
/// when the true total exceeds `u64::MAX`.
pub fn items_total(items: &Vec<OrderItem>) -> (r: Option<u64>)
    ensures
        match r {
            Some(t) => t == spec_items_total(items@),
            None => spec_items_total(items@) > u64::MAX,
        },
{
    let ghost p = (u32::MAX as int) * (u32::MAX as int);
    let mut acc: u128 = 0;
    let mut i: usize = 0;
    proof {
        assert(items@.subrange(0, 0) =~= Seq::<OrderItem>::empty());
    }
    while i < items.len()
        invariant
            i <= items@.len(),
            acc == spec_items_total(items@.subrange(0, i as int)),
            acc <= i * p,
            p == (u32::MAX as int) * (u32::MAX as int),
        decreases items@.len() - i,
    {
        let it = items[i];
        proof {
            assert(0 <= (it.amount as int) * (it.unit_price as int) <= p) by (nonlinear_arith)
                requires
                    0 <= it.amount <= u32::MAX,
                    0 <= it.unit_price <= u32::MAX,
                    p == (u32::MAX as int) * (u32::MAX as int),
            ;
            assert(p <= u64::MAX as int);
        }
        let prod: u64 = (it.amount as u64) * (it.unit_price as u64);
        proof {
            assert(acc + p <= (i + 1) * p) by (nonlinear_arith)
                requires
                    acc <= i * p,
                    i >= 0,
                    p >= 0,
            ;
            assert((i + 1) * p <= items@.len() * p) by (nonlinear_arith)
                requires
                    i + 1 <= items@.len(),
                    p >= 0,
            ;
            assert(items@.len() * p < u128::MAX) by (nonlinear_arith)
                requires
                    items@.len() <= usize::MAX,
                    p == (u32::MAX as int) * (u32::MAX as int),
            ;
            let sub = items@.subrange(0, i + 1);
            assert(sub.drop_last() =~= items@.subrange(0, i as int));
            assert(sub.last() == items@[i as int]);
        }
        acc = acc + (prod as u128);
        i += 1;
    }
    proof {
        assert(items@.subrange(0, items@.len() as int) =~= items@);
    }
    if acc > u64::MAX as u128 {
        None
    } else {
        Some(acc as u64)
    }
}

/// The orders belonging to one client, in storage order.
pub open spec fn spec_orders_of_client(s: Seq<Order>, cid: u32) -> Seq<Order> {
    s.filter(|o: Order| o.cid == cid)
}

/// The line items belonging to one order, in storage order.
pub open spec fn spec_items_of_order(s: Seq<OrderItem>, oid: u32) -> Seq<OrderItem> {
    s.filter(|it: OrderItem| it.order_id == oid)
}

/// `dto` shows `o` faithfully: the header itself, exactly its line items
/// out of `all_items` in storage order, and the derived total.
pub open spec fn spec_dto_matches(all_items: Seq<OrderItem>, o: Order, dto: OrderDTO) -> bool {
    &&& dto.order == o
    &&& dto.order_items@ == spec_items_of_order(all_items, o.id).map_values(
        |it: OrderItem| spec_item_dto_of(it),
    )
    &&& dto.total == spec_items_total(spec_items_of_order(all_items, o.id))
}

/// Taking one more record into a prefix extends its filtered view by that
/// record exactly when the record passes the filter.
proof fn lemma_filter_take_step<A>(s: Seq<A>, pred: spec_fn(A) -> bool, i: int)
    requires
        0 <= i < s.len(),
    ensures
        s.subrange(0, i + 1).filter(pred) == (if pred(s[i]) {
            s.subrange(0, i).filter(pred).push(s[i])
        } else {
            s.subrange(0, i).filter(pred)
        }),
{
    reveal(Seq::filter);
    let t = s.subrange(0, i + 1);
    assert(t.drop_last() =~= s.subrange(0, i));
    assert(t.last() == s[i]);
}

/// Mints the externally visible identifier of a new order: two random
/// 128-bit identifiers back to back, so a collision is cryptographically
/// negligible.
///
/// Relies on `uuid::Uuid::new_v4` and its hyphenated text form: two random
/// UUIDs of 36 characters each; nothing else is promised of the text.
#[verifier::external_body]
pub fn generate_order_id() -> (r: String)
    ensures
        r@.len() == 72,
{
    format!("{}{}", uuid::Uuid::new_v4(), uuid::Uuid::new_v4())
}

/// In `s`, each surrogate id addresses at most one header.
pub open spec fn unique_order_ids(s: Seq<Order>) -> bool {
    forall|i: int, j: int| 0 <= i < j < s.len() ==> s[i].id != s[j].id
}

/// Two distinct positions of an id-unique run carry distinct ids.
proof fn lemma_unique_order_ids(s: Seq<Order>, a: int, b: int)
    requires
        unique_order_ids(s),
        0 <= a < s.len(),
        0 <= b < s.len(),
        a != b,
    ensures
        s[a].id != s[b].id,
{
    if a < b {
        assert(s[a].id != s[b].id);
    } else {
        assert(s[b].id != s[a].id);
    }
}

/// The order tables: headers, line items, and the transactional operations
/// against them.
pub struct OrderStore {
    orders: Vec<Order>,
    items: Vec<OrderItem>,
    next_order_id: u32,
    next_item_id: u32,
}

impl OrderStore {
    /// The stored headers, in storage order.
    pub closed spec fn orders_seq(&self) -> Seq<Order> {
        self.orders@
    }

    /// The stored line items, in storage order.
    pub closed spec fn items_seq(&self) -> Seq<OrderItem> {
        self.items@
    }

    /// The surrogate id the next order header will receive.
    pub closed spec fn spec_next_order_id(&self) -> u32 {
        self.next_order_id
    }

    /// The surrogate id the next line item will receive.
    pub closed spec fn spec_next_item_id(&self) -> u32 {
        self.next_item_id
    }

    /// Surrogate ids are unique and below the next free one.
    pub closed spec fn wf(&self) -> bool {
        &&& unique_order_ids(self.orders@)
        &&& forall|i: int| 0 <= i < self.orders@.len() ==> self.orders@[i].id < self.next_order_id
        &&& forall|i: int| 0 <= i < self.items@.len() ==> self.items@[i].id < self.next_item_id
    }

    /// Empty order tables; surrogate ids start at 1.
    pub fn new() -> (r: Self)
        ensures
            r.wf(),
            r.orders_seq() == Seq::<Order>::empty(),
            r.items_seq() == Seq::<OrderItem>::empty(),
            r.spec_next_order_id() == 1,
            r.spec_next_item_id() == 1,
    {
        OrderStore { orders: Vec::new(), items: Vec::new(), next_order_id: 1, next_item_id: 1 }
    }

    /// Empty order tables whose id counters resume at the given values, as
    /// when the model mirrors a store whose earlier rows are out of view.
    pub fn with_next_ids(next_order_id: u32, next_item_id: u32) -> (r: Self)
        ensures
            r.wf(),
            r.orders_seq() == Seq::<Order>::empty(),
            r.items_seq() == Seq::<OrderItem>::empty(),
            r.spec_next_order_id() == next_order_id,
            r.spec_next_item_id() == next_item_id,
    {
        OrderStore { orders: Vec::new(), items: Vec::new(), next_order_id, next_item_id }
    }

    /// Creates an order: one header owning one line item per entry of
    /// `items`, in order. Either the header and all `items.len()` line items
    /// become visible together — the call returns the header's surrogate id —
    /// or nothing changes and the creation's error is surfaced: no order is
    /// ever visible with only part of its line items.
    pub fn add_order(
        &mut self,
        cid: u32,
        order_uuid: String,
        items: &Vec<InsertOrderItem>,
        now: i64,
    ) -> (r: Result<u64, DataError>)
        requires
            old(self).wf(),
            items@.len() >= 1,
        ensures
            final(self).wf(),
            match r {
                Ok(hid) => {
                    &&& old(self).spec_next_order_id() < u32::MAX
                    &&& items@.len() <= u32::MAX - old(self).spec_next_item_id()
                    &&& hid == old(self).spec_next_order_id()
                    &&& final(self).orders_seq() == old(self).orders_seq().push(
                        Order {
                            id: old(self).spec_next_order_id(),
                            order_id: order_uuid,
                            cid,
                            order_time: now,
                            status: OrderStatus::Unpaid,
                        },
                    )
                    &&& final(self).items_seq() == old(self).items_seq() + Seq::new(
                        items@.len(),
                        |i: int| OrderItem {
                            id: (old(self).spec_next_item_id() + i) as u32,
                            order_id: old(self).spec_next_order_id(),
                            pid: items@[i].pid,
                            amount: items@[i].amount,
                            unit_price: items@[i].unit_price,
                        },
                    )
                    &&& final(self).spec_next_order_id() == old(self).spec_next_order_id() + 1
                    &&& final(self).spec_next_item_id() == old(self).spec_next_item_id()
                        + items@.len()
                },
                Err(e) => {
                    &&& e == DataError::ConstraintViolation
                    &&& (old(self).spec_next_order_id() == u32::MAX || items@.len() > u32::MAX
                        - old(self).spec_next_item_id())
                    &&& *final(self) == *old(self)
                },
            },
    {
        if self.next_order_id == u32::MAX {
            return Err(DataError::ConstraintViolation);
        }
        let hid = self.next_order_id;

        // Stage the line items; nothing is visible until every insert
        // has succeeded.
        let mut staged: Vec<OrderItem> = Vec::new();
        let mut i: usize = 0;
        while i < items.len()
            invariant
                i <= items@.len(),
                items@.len() >= 1,
                self == old(self),
                old(self).wf(),
                hid == old(self).spec_next_order_id(),
                hid < u32::MAX,
                i <= u32::MAX - old(self).spec_next_item_id(),
                staged@ == Seq::new(
                    i as nat,
                    |j: int| OrderItem {
                        id: (old(self).spec_next_item_id() + j) as u32,
                        order_id: hid,
                        pid: items@[j].pid,
                        amount: items@[j].amount,
                        unit_price: items@[j].unit_price,
                    },
                ),
            decreases items@.len() - i,
        {
            // The next line-item id must stay in range; a run out of ids
            // fails the whole creation, exactly like any other failed
            // line-item insert.
            if (i as u64) >= (u32::MAX as u64) - (self.next_item_id as u64) {
                return Err(DataError::ConstraintViolation);
            }
            let it = items[i];
            let rec = OrderItem {
                id: self.next_item_id + (i as u32),
                order_id: hid,
                pid: it.pid,
                amount: it.amount,
                unit_price: it.unit_price,
            };
            staged.push(rec);
            proof {
                assert(staged@ =~= Seq::new(
                    (i + 1) as nat,
                    |j: int| OrderItem {
                        id: (old(self).spec_next_item_id() + j) as u32,
                        order_id: hid,
                        pid: items@[j].pid,
                        amount: items@[j].amount,
                        unit_price: items@[j].unit_price,
                    },
                ));
            }
            i += 1;
        }

        // Commit: header and items become visible together.
        let header = Order {
            id: hid,
            order_id: order_uuid,
            cid,
            order_time: now,
            status: OrderStatus::Unpaid,
        };
        let ghost header_g = header;
        self.orders.push(header);
        let mut k: usize = 0;
        let ghost items_before = self.items@;
        while k < staged.len()
            invariant
                k <= staged@.len(),
                self.items@ == items_before + staged@.subrange(0, k as int),
                items_before == old(self).items_seq(),
                self.orders@ == old(self).orders_seq().push(header_g),
                header_g == (Order {
                    id: old(self).spec_next_order_id(),
                    order_id: order_uuid,
                    cid,
                    order_time: now,
                    status: OrderStatus::Unpaid,
                }),
                self.next_order_id == old(self).spec_next_order_id(),
                self.next_item_id == old(self).spec_next_item_id(),
                hid == old(self).spec_next_order_id(),
                hid < u32::MAX,
                items@.len() <= u32::MAX - old(self).spec_next_item_id(),
                staged@ == Seq::new(
                    items@.len(),
                    |j: int| OrderItem {
                        id: (old(self).spec_next_item_id() + j) as u32,
                        order_id: hid,
                        pid: items@[j].pid,
                        amount: items@[j].amount,
                        unit_price: items@[j].unit_price,
                    },
                ),
            decreases staged@.len() - k,
        {
            self.items.push(staged[k]);
            proof {
                assert(items_before + staged@.subrange(0, k + 1 as int) =~= (items_before
                    + staged@.subrange(0, k as int)).push(staged@[k as int]));
            }
            k += 1;
        }
        proof {
            assert(staged@.subrange(0, staged@.len() as int) =~= staged@);
        }
        self.next_order_id = self.next_order_id + 1;
        self.next_item_id = self.next_item_id + (items.len() as u32);
        proof {
            assert(self.items@ =~= items_before + staged@);
        }
        Ok(hid as u64)
    }

    /// The line items of order `oid`, in storage order.
    pub fn items_of_order(&self, oid: u32) -> (r: Vec<OrderItem>)
        ensures
            r@ == spec_items_of_order(self.items_seq(), oid),
    {
        let pred = |it: OrderItem| it.order_id == oid;
        let mut r: Vec<OrderItem> = Vec::new();
        let mut i: usize = 0;
        proof {
            assert(self.items@.subrange(0, 0).filter(|it: OrderItem| it.order_id == oid)
                =~= Seq::<OrderItem>::empty()) by {
                reveal(Seq::filter);
            }
        }
        while i < self.items.len()
            invariant
                i <= self.items@.len(),
                r@ == self.items@.subrange(0, i as int).filter(|it: OrderItem| it.order_id == oid),
            decreases self.items@.len() - i,
        {
            let it = self.items[i];
            proof {
                lemma_filter_take_step(self.items@, |it: OrderItem| it.order_id == oid, i as int);
            }
            if it.order_id == oid {
                r.push(it);
            }
            i += 1;
        }
        proof {
            assert(self.items@.subrange(0, self.items@.len() as int) =~= self.items@);
        }
        r
    }

    /// Fetches one order with its line items and derived total.
    /// `RecordNotFound` exactly when no header carries `id`;
    /// `ConstraintViolation` exactly when the order exists but its derived
    /// total leaves `u64` — so an existing order whose total fits is owed
    /// its DTO.
    pub fn get_order(&self, id: u32) -> (r: Result<OrderDTO, DataError>)
        requires
            self.wf(),
        ensures
            match r {
                Ok(dto) => exists|i: int|
                    0 <= i < self.orders_seq().len() && (#[trigger] self.orders_seq()[i]).id == id
                        && spec_dto_matches(self.items_seq(), self.orders_seq()[i], dto),
                Err(e) => {
                    &&& (e == DataError::RecordNotFound || e == DataError::ConstraintViolation)
                    &&& e == DataError::RecordNotFound <==> !exists|i: int|
                        0 <= i < self.orders_seq().len() && (#[trigger] self.orders_seq()[i]).id
                            == id
                    &&& e == DataError::ConstraintViolation ==> spec_items_total(
                        spec_items_of_order(self.items_seq(), id),
                    ) > u64::MAX
                },
            },
    {
        let mut i: usize = 0;
        while i < self.orders.len()
            invariant
                i <= self.orders@.len(),
                forall|j: int| 0 <= j < i ==> (#[trigger] self.orders@[j]).id != id,
            decreases self.orders@.len() - i,
        {
            if self.orders[i].id == id {
                let order = self.orders[i].clone();
                let its = self.items_of_order(id);
                let total = match items_total(&its) {
                    Some(t) => t,
                    None => {
                        return Err(DataError::ConstraintViolation);
                    },
                };
                let mut dtos: Vec<OrderItemDTO> = Vec::new();
                let mut k: usize = 0;
                while k < its.len()
                    invariant
                        k <= its@.len(),
                        dtos@ == its@.subrange(0, k as int).map_values(
                            |it: OrderItem| spec_item_dto_of(it),
                        ),
                    decreases its@.len() - k,
                {
                    dtos.push(OrderItemDTO::from_order_item(its[k]));
                    proof {
                        assert(dtos@ =~= its@.subrange(0, k + 1 as int).map_values(
                            |it: OrderItem| spec_item_dto_of(it),
                        ));
                    }
                    k += 1;
                }
                proof {
                    assert(its@.subrange(0, its@.len() as int) =~= its@);
                }
                return Ok(OrderDTO { order, order_items: dtos, total });
            }
            i += 1;
        }
        Err(DataError::RecordNotFound)
    }

    /// One page of a client's orders, each with its line items and derived
    /// total. The page is cut out of the client's orders in storage order;
    /// `total_pages` is the ceiling of their count over `page_size`.
    /// `ConstraintViolation` exactly when some order of the selected page
    /// has a derived total that leaves `u64`; otherwise the page is owed.
    pub fn orders_page_of_client(&self, cid: u32, page: u64, page_size: u64) -> (r: Result<
        PageResponse<OrderDTO>,
        DataError,
    >)
        requires
            self.wf(),
            page >= 1,
            page_size >= 1,
            (page - 1) * page_size <= u64::MAX,
        ensures
            match r {
                Ok(resp) => {
                    &&& resp.total == spec_orders_of_client(self.orders_seq(), cid).len()
                    &&& resp.current_page == page
                    &&& resp.page_size == page_size
                    &&& resp.total_pages == spec_total_pages(
                        spec_orders_of_client(self.orders_seq(), cid).len() as int,
                        page_size as int,
                    )
                    &&& {
                        let bounds = spec_page_bounds(
                            spec_orders_of_client(self.orders_seq(), cid).len() as int,
                            page as int,
                            page_size as int,
                        );
                        &&& resp.data@.len() == bounds.1 - bounds.0
                        &&& forall|i: int|
                            0 <= i < resp.data@.len() ==> spec_dto_matches(
                                self.items_seq(),
                                spec_orders_of_client(self.orders_seq(), cid)[bounds.0 + i],
                                #[trigger] resp.data@[i],
                            )
                    }
                },
                Err(e) => {
                    &&& e == DataError::ConstraintViolation
                    &&& {
                        let mine = spec_orders_of_client(self.orders_seq(), cid);
                        let bounds = spec_page_bounds(
                            mine.len() as int,
                            page as int,
                            page_size as int,
                        );
                        exists|i: int|
                            bounds.0 <= i < bounds.1 && spec_items_total(
                                spec_items_of_order(self.items_seq(), (#[trigger] mine[i]).id),
                            ) > u64::MAX
                    }
                },
            },
    {
        // Collect the client's orders in storage order.
        let mut mine: Vec<Order> = Vec::new();
        let mut i: usize = 0;
        proof {
            assert(self.orders@.subrange(0, 0).filter(|o: Order| o.cid == cid)
                =~= Seq::<Order>::empty()) by {
                reveal(Seq::filter);
            }
        }
        while i < self.orders.len()
            invariant
                i <= self.orders@.len(),
                mine@ == self.orders@.subrange(0, i as int).filter(|o: Order| o.cid == cid),
            decreases self.orders@.len() - i,
        {
            proof {
                lemma_filter_take_step(self.orders@, |o: Order| o.cid == cid, i as int);
            }
            if self.orders[i].cid == cid {
                mine.push(self.orders[i].clone());
            }
            i += 1;
        }
        proof {
            assert(self.orders@.subrange(0, self.orders@.len() as int) =~= self.orders@);
        }

        let total = mine.len() as u64;
        let pages = total_pages(total, page_size);
        let (start, end) = page_bounds(mine.len(), page, page_size);

        let mut data: Vec<OrderDTO> = Vec::new();
        let mut k: usize = start;
        while k < end
            invariant
                start <= k <= end <= mine@.len(),
                mine@ == spec_orders_of_client(self.orders_seq(), cid),
                (start as int, end as int) == spec_page_bounds(
                    mine@.len() as int,
                    page as int,
                    page_size as int,
                ),
                self.wf(),
                data@.len() == k - start,
                forall|j: int|
                    0 <= j < data@.len() ==> spec_dto_matches(
                        self.items_seq(),
                        mine@[start + j],
                        #[trigger] data@[j],
                    ),
            decreases end - k,
        {
            let order = mine[k].clone();
            let its = self.items_of_order(order.id);
            let total_of_order = match items_total(&its) {
                Some(t) => t,
                None => {
                    proof {
                        // This order of the selected page is the witness:
                        // its derived total does not fit.
                        assert(spec_items_total(
                            spec_items_of_order(self.items_seq(), (mine@[k as int]).id),
                        ) > u64::MAX);
                    }
                    return Err(DataError::ConstraintViolation);
                },
            };
            let mut dtos: Vec<OrderItemDTO> = Vec::new();
            let mut m: usize = 0;
            while m < its.len()
                invariant
                    m <= its@.len(),
                    dtos@ == its@.subrange(0, m as int).map_values(
                        |it: OrderItem| spec_item_dto_of(it),
                    ),
                decreases its@.len() - m,
            {
                dtos.push(OrderItemDTO::from_order_item(its[m]));
                proof {
                    assert(dtos@ =~= its@.subrange(0, m + 1 as int).map_values(
                        |it: OrderItem| spec_item_dto_of(it),
                    ));
                }
                m += 1;
            }
            proof {
                assert(its@.subrange(0, its@.len() as int) =~= its@);
            }
            data.push(OrderDTO { order, order_items: dtos, total: total_of_order });
            k += 1;
        }

        Ok(PageResponse {
            data,
            total,
            current_page: page,
            page_size,
            total_pages: pages,
        })
    }

    /// Overwrites the status of order `id` and reports how many headers
    /// that touched: one when the order exists, none otherwise. Any status
    /// may be written over any other; transitions are deliberately not
    /// validated, matching the permissive store write.
    pub fn update_status(&mut self, id: u32, status: OrderStatus) -> (r: u64)
        requires
            old(self).wf(),
        ensures
            final(self).wf(),
            final(self).items_seq() == old(self).items_seq(),
            final(self).spec_next_order_id() == old(self).spec_next_order_id(),
            final(self).spec_next_item_id() == old(self).spec_next_item_id(),
            if exists|i: int|
                0 <= i < old(self).orders_seq().len() && (#[trigger] old(self).orders_seq()[i]).id
                    == id {
                let i = choose|i: int|
                    0 <= i < old(self).orders_seq().len() && (#[trigger] old(
                        self,
                    ).orders_seq()[i]).id == id;
                &&& r == 1
                &&& final(self).orders_seq() == old(self).orders_seq().update(
                    i,
                    Order {
                        id: old(self).orders_seq()[i].id,
                        order_id: old(self).orders_seq()[i].order_id,
                        cid: old(self).orders_seq()[i].cid,
                        order_time: old(self).orders_seq()[i].order_time,
                        status,
                    },
                )
            } else {
                r == 0 && final(self).orders_seq() == old(self).orders_seq()
            },
    {
        let mut i: usize = 0;
        while i < self.orders.len()
            invariant
                i <= self.orders@.len(),
                forall|j: int| 0 <= j < i ==> (#[trigger] self.orders@[j]).id != id,
                self == old(self),
                old(self).wf(),
            decreases self.orders@.len() - i,
        {
            if self.orders[i].id == id {
                let updated = Order {
                    id: self.orders[i].id,
                    order_id: self.orders[i].order_id.clone(),
                    cid: self.orders[i].cid,
                    order_time: self.orders[i].order_time,
                    status,
                };
                proof {
                    assert(old(self).orders_seq()[i as int].id == id);
                    let w = choose|w: int|
                        0 <= w < old(self).orders_seq().len() && (#[trigger] old(
                            self,
                        ).orders_seq()[w]).id == id;
                    // Surrogate ids are unique, so the witness is this index.
                    if w != i as int {
                        lemma_unique_order_ids(old(self).orders_seq(), w, i as int);
                        assert(false);
                    }
                }
                self.orders.set(i, updated);
                proof {
                    assert(forall|j: int|
                        0 <= j < self.orders@.len() ==> (#[trigger] self.orders@[j]).id == old(
                            self,
                        ).orders_seq()[j].id);
                    assert forall|a: int, b: int|
                        0 <= a < b < self.orders@.len() implies self.orders@[a].id
                        != self.orders@[b].id by {
                        lemma_unique_order_ids(old(self).orders_seq(), a, b);
                    }
                }
                return 1;
            }
            i += 1;
        }
        0
    }

    /// The stored headers, for listings.
    pub fn orders(&self) -> (r: &Vec<Order>)
        ensures
            r@ == self.orders_seq(),
    {
        &self.orders
    }

    /// The stored line items, for listings.
    pub fn items(&self) -> (r: &Vec<OrderItem>)
        ensures
            r@ == self.items_seq(),
    {
        &self.items
    }
}

} // verus!
