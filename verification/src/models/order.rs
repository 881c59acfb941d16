//! Orders: what a customer bought, when, and what it cost, in cents.

use vstd::prelude::*;
use crate::calendar::{day_in_range, format_stamp, minute_stamp, stamp_day, stamp_text};
use crate::ids::{is_uuid_v4_text, new_id};
use crate::models::item::Item;
use crate::rows::{row_view, table_view};
use crate::text::{int_text, int_to_text};

verus! {

/// The largest sum of item prices, in cents, that an order takes: a bound
/// that keeps the tax and the total within `i64`.
pub const MAX_ORDER_CENTS: i64 = 1_000_000_000_000_000;

#[derive(Debug)]
pub struct Order {
    pub id: String,
    pub customer_id: String,
    pub store_id: String,
    /// Minutes since the start of day 0 (see `calendar::minute_stamp`).
    pub ordered_at: i64,
    pub items: Vec<Item>,
    pub subtotal_cents: i64,
    pub tax_paid_cents: i64,
    pub order_total_cents: i64,
}

/// The sum of the prices of the items, in cents.
pub open spec fn items_cents(s: Seq<Item>) -> int
    decreases s.len(),
{
    if s.len() == 0 {
        0
    } else {
        items_cents(s.drop_last()) + s.last().price_cents
    }
}

/// No item has a negative price.
pub open spec fn prices_nonnegative(s: Seq<Item>) -> bool {
    forall|i: int| 0 <= i < s.len() ==> 0 <= #[trigger] s[i].price_cents
}

/// Every running sum of the prices, in cents, lies within what an order
/// takes.
pub open spec fn sums_fit(s: Seq<Item>) -> bool {
    forall|k: int|
        0 <= k <= s.len() ==> -MAX_ORDER_CENTS <= #[trigger] items_cents(s.take(k)) <= MAX_ORDER_CENTS
}

/// The tax on a subtotal at a rate in millionths, rounded to the nearest
/// cent, halves away from zero.
pub open spec fn tax_cents(rate_ppm: int, subtotal: int) -> int {
    if subtotal >= 0 {
        (rate_ppm * subtotal + 500_000) / 1_000_000
    } else {
        -((rate_ppm * -subtotal + 500_000) / 1_000_000)
    }
}

/// The minute of the day that an order placed `minutes` after midnight is
/// stamped with: the hour held at 23 at most, the minute at 59 at most.
pub open spec fn clock_minute(minutes: int) -> int {
    let hours = minutes / 60;
    let mins = minutes % 60;
    (if hours > 23 {
        23
    } else {
        hours
    }) * 60 + (if mins > 59 {
        59
    } else {
        mins
    })
}

proof fn lemma_items_cents_prefix(s: Seq<Item>, i: int)
    requires
        0 <= i <= s.len(),
        prices_nonnegative(s),
    ensures
        0 <= items_cents(s.take(i)) <= items_cents(s),
    decreases s.len() - i,
{
    if i < s.len() {
        lemma_items_cents_prefix(s, i + 1);
        assert(s.take(i + 1).drop_last() =~= s.take(i));
        assert(prices_nonnegative(s.take(i)));
        lemma_items_cents_nonnegative(s.take(i));
        assert(0 <= s[i].price_cents);
    } else {
        assert(s.take(i) =~= s);
        lemma_items_cents_nonnegative(s);
    }
}

proof fn lemma_items_cents_nonnegative(s: Seq<Item>)
    requires
        prices_nonnegative(s),
    ensures
        0 <= items_cents(s),
    decreases s.len(),
{
    if s.len() > 0 {
        lemma_items_cents_nonnegative(s.drop_last());
    }
}

/// Prices that are none of them negative, summing to what an order takes,
/// have running sums that fit.
pub proof fn lemma_nonnegative_sums_fit(s: Seq<Item>)
    requires
        prices_nonnegative(s),
        items_cents(s) <= MAX_ORDER_CENTS,
    ensures
        sums_fit(s),
{
    assert forall|k: int| 0 <= k <= s.len() implies -MAX_ORDER_CENTS <= #[trigger] items_cents(s.take(k))
        <= MAX_ORDER_CENTS by {
        lemma_items_cents_prefix(s, k);
    }
}

/// The sum of the prices of the items, in cents.
pub fn sum_item_cents(items: &Vec<Item>) -> (r: i64)
    requires
        sums_fit(items@),
    ensures
        r == items_cents(items@),
{
    let mut total: i64 = 0;
    for i in 0..items.len()
        invariant
            sums_fit(items@),
            total == items_cents(items@.take(i as int)),
    {
        proof {
            assert(items@.take(i + 1).drop_last() =~= items@.take(i as int));
            assert(-MAX_ORDER_CENTS <= items_cents(items@.take(i + 1)) <= MAX_ORDER_CENTS);
        }
        total = total + items[i].price_cents;
    }
    assert(items@.take(items.len() as int) =~= items@);
    total
}

impl Order {
    /// A new order of `items` on the date `date`, at `minutes` after
    /// midnight, with tax at `tax_rate_ppm` millionths.
    pub fn new(
        customer_id: &str,
        store_id: &str,
        date: i32,
        minutes: u32,
        items: Vec<Item>,
        tax_rate_ppm: u32,
    ) -> (r: Order)
        requires
            day_in_range(date as int),
            sums_fit(items@),
        ensures
            is_uuid_v4_text(r.id@),
            r.customer_id@ == customer_id@,
            r.store_id@ == store_id@,
            r.ordered_at == minute_stamp(date as int, clock_minute(minutes as int)),
            r.items@ == items@,
            r.subtotal_cents == items_cents(items@),
            r.tax_paid_cents == tax_cents(tax_rate_ppm as int, items_cents(items@)),
            r.order_total_cents == r.subtotal_cents + r.tax_paid_cents,
    {
        let hours = minutes / 60;
        let mins = minutes % 60;
        let hour: i64 = if hours > 23 {
            23
        } else {
            hours as i64
        };
        let minute: i64 = if mins > 59 {
            59
        } else {
            mins as i64
        };
        let ordered_at = date as i64 * 1440 + hour * 60 + minute;
        let subtotal = sum_item_cents(&items);
        proof {
            assert(items@.take(items@.len() as int) =~= items@);
            assert(-MAX_ORDER_CENTS <= items_cents(items@.take(items@.len() as int)) <= MAX_ORDER_CENTS);
        }
        let magnitude: i128 = if subtotal >= 0 {
            subtotal as i128
        } else {
            -(subtotal as i128)
        };
        proof {
            assert(tax_rate_ppm as int * magnitude as int <= 4_294_967_295 * 1_000_000_000_000_000)
                by (nonlinear_arith)
                requires
                    0 <= magnitude <= 1_000_000_000_000_000,
                    0 <= tax_rate_ppm <= 4_294_967_295,
            ;
            assert(0 <= tax_rate_ppm as int * magnitude as int) by (nonlinear_arith)
                requires
                    0 <= magnitude,
                    0 <= tax_rate_ppm,
            ;
        }
        let rounded: i128 = (tax_rate_ppm as i128 * magnitude + 500_000) / 1_000_000;
        let tax: i64 = if subtotal >= 0 {
            rounded as i64
        } else {
            -(rounded as i64)
        };
        Order {
            id: new_id(),
            customer_id: String::from_str(customer_id),
            store_id: String::from_str(store_id),
            ordered_at,
            items,
            subtotal_cents: subtotal,
            tax_paid_cents: tax,
            order_total_cents: subtotal + tax,
        }
    }

    pub fn subtotal_cents(&self) -> (r: i64)
        ensures
            r == self.subtotal_cents,
    {
        self.subtotal_cents
    }

    pub fn tax_paid_cents(&self) -> (r: i64)
        ensures
            r == self.tax_paid_cents,
    {
        self.tax_paid_cents
    }

    pub fn order_total_cents(&self) -> (r: i64)
        ensures
            r == self.order_total_cents,
    {
        self.order_total_cents
    }

    /// The row of the orders file: id, customer, time, store, subtotal, tax
    /// and total in cents.
    pub fn to_csv_row(&self) -> (r: Vec<String>)
        requires
            day_in_range(stamp_day(self.ordered_at as int)),
        ensures
            row_view(r@) == seq![
                self.id@,
                self.customer_id@,
                stamp_text(self.ordered_at as int),
                self.store_id@,
                int_text(self.subtotal_cents as int),
                int_text(self.tax_paid_cents as int),
                int_text(self.order_total_cents as int),
            ],
    {
        let mut row: Vec<String> = Vec::new();
        row.push(self.id.clone());
        row.push(self.customer_id.clone());
        row.push(format_stamp(self.ordered_at));
        row.push(self.store_id.clone());
        row.push(int_to_text(self.subtotal_cents()));
        row.push(int_to_text(self.tax_paid_cents()));
        row.push(int_to_text(self.order_total_cents()));
        assert(row_view(row@) =~= seq![
            self.id@,
            self.customer_id@,
            stamp_text(self.ordered_at as int),
            self.store_id@,
            int_text(self.subtotal_cents as int),
            int_text(self.tax_paid_cents as int),
            int_text(self.order_total_cents as int),
        ]);
        row
    }

    /// The rows of the items file for this order: the order id and the sku
    /// of each item.
    pub fn items_csv_rows(&self) -> (r: Vec<Vec<String>>)
        ensures
            table_view(r@) == Seq::new(
                self.items@.len(),
                |i: int| seq![self.id@, self.items@[i].sku@],
            ),
    {
        let mut rows: Vec<Vec<String>> = Vec::new();
        for i in 0..self.items.len()
            invariant
                rows@.len() == i,
                forall|j: int|
                    0 <= j < i ==> #[trigger] row_view(rows@[j]@) == seq![self.id@, self.items@[j].sku@],
        {
            let mut row: Vec<String> = Vec::new();
            row.push(self.id.clone());
            row.push(self.items[i].sku.clone());
            assert(row_view(row@) =~= seq![self.id@, self.items@[i as int].sku@]);
            rows.push(row);
        }
        assert(table_view(rows@) =~= Seq::new(
            self.items@.len(),
            |i: int| seq![self.id@, self.items@[i].sku@],
        ));
        rows
    }
}

} // verus!
