//! The CSV tables that a simulation's results are saved as: their file
//! names, headers and rows.

use vstd::prelude::*;
use crate::calendar::{date_text, day_in_range, day_of_stamp, stamp_day, stamp_text, FIRST_DAY, LAST_DAY};
use crate::models::customer::Customer;
use crate::models::item::{all_items, is_beverage_menu, is_jaffle_menu, item_type_text, Item};
use crate::models::order::Order;
use crate::models::store::Store;
use crate::models::supply::{all_supplies, is_supply_catalog, supply_rows, Supply};
use crate::models::tweet::Tweet;
use crate::rows::{row_view, table_view};
use crate::simulation::sim::{SimConfig, SimResult};
use crate::text::{int_text, millionths_text};

verus! {

/// A table of a CSV file: its file name, header and rows.
pub struct CsvTable {
    pub file_name: String,
    pub headers: Vec<String>,
    pub rows: Vec<Vec<String>>,
}

/// This table has this file name, header and rows.
pub open spec fn table_is(
    t: CsvTable,
    name: Seq<char>,
    headers: Seq<Seq<char>>,
    rows: Seq<Seq<Seq<char>>>,
) -> bool {
    &&& t.file_name@ == name
    &&& row_view(t.headers@) == headers
    &&& table_view(t.rows@) == rows
}

/// `str::to_uppercase` of a text; the result is named, as Unicode's case
/// mapping takes pages to state.
pub uninterp spec fn uppercase_text(s: Seq<char>) -> Seq<char>;

/// `str::to_uppercase`; the text it gives is named `uppercase_text`.
#[verifier::external_body]
pub(crate) fn uppercase(s: &str) -> (r: String)
    ensures
        r@ == uppercase_text(s@),
{
    s.to_uppercase()
}

pub open spec fn customer_row(c: Customer) -> Seq<Seq<char>> {
    seq![c.id@, c.name@]
}

pub open spec fn order_row(o: Order) -> Seq<Seq<char>> {
    seq![
        o.id@,
        o.customer_id@,
        stamp_text(o.ordered_at as int),
        o.store_id@,
        int_text(o.subtotal_cents as int),
        int_text(o.tax_paid_cents as int),
        int_text(o.order_total_cents as int),
    ]
}

/// The rows of the items file: for each order, in order, a row for each
/// of its items with the order id and the sku.
pub open spec fn order_item_rows(orders: Seq<Order>) -> Seq<Seq<Seq<char>>>
    decreases orders.len(),
{
    if orders.len() == 0 {
        Seq::empty()
    } else {
        let o = orders.last();
        order_item_rows(orders.drop_last()) + Seq::new(
            o.items@.len(),
            |j: int| seq![o.id@, o.items@[j].sku@],
        )
    }
}

pub open spec fn store_row(s: Store, start: int) -> Seq<Seq<char>> {
    seq![s.id@, s.name@, date_text(start + s.opened_day), millionths_text(s.tax_rate_ppm as nat)]
}

pub open spec fn item_row(i: Item) -> Seq<Seq<char>> {
    seq![i.sku@, i.name@, item_type_text(i.item_type), int_text(i.price_cents as int), i.description@]
}

/// The rows of the products file.
pub open spec fn product_rows(items: Seq<Item>) -> Seq<Seq<Seq<char>>> {
    items.map_values(|i: Item| item_row(i))
}

/// The rows of the supplies file: each supply's rows, in order.
pub open spec fn supplies_rows(supplies: Seq<Supply>) -> Seq<Seq<Seq<char>>>
    decreases supplies.len(),
{
    if supplies.len() == 0 {
        Seq::empty()
    } else {
        supplies_rows(supplies.drop_last()) + supply_rows(supplies.last())
    }
}

pub open spec fn tweet_row(t: Tweet) -> Seq<Seq<char>> {
    seq![t.id@, t.user_id@, stamp_text(t.tweeted_at as int), t.content@]
}

/// The stores span several countries: two or more distinct ones.
pub open spec fn spans_countries(stores: Seq<Store>) -> bool {
    countries_of(stores).len() >= 2
}

/// The countries of the stores, each once, in order of first appearance.
pub open spec fn countries_of(stores: Seq<Store>) -> Seq<Seq<char>>
    decreases stores.len(),
{
    if stores.len() == 0 {
        Seq::empty()
    } else {
        let rest = countries_of(stores.drop_last());
        if rest.contains(stores.last().country@) {
            rest
        } else {
            rest.push(stores.last().country@)
        }
    }
}

/// The stores of a country, in order.
pub open spec fn stores_of_country(stores: Seq<Store>, country: Seq<char>) -> Seq<Store>
    decreases stores.len(),
{
    if stores.len() == 0 {
        Seq::empty()
    } else {
        let rest = stores_of_country(stores.drop_last(), country);
        if stores.last().country@ == country {
            rest.push(stores.last())
        } else {
            rest
        }
    }
}

/// The header of each file.
pub open spec fn customers_header() -> Seq<Seq<char>> {
    seq!["id"@, "name"@]
}

pub open spec fn orders_header() -> Seq<Seq<char>> {
    seq!["id"@, "customer"@, "ordered_at"@, "store_id"@, "subtotal"@, "tax_paid"@, "order_total"@]
}

pub open spec fn items_header() -> Seq<Seq<char>> {
    seq!["order_id"@, "sku"@]
}

pub open spec fn stores_header() -> Seq<Seq<char>> {
    seq!["id"@, "name"@, "opened_at"@, "tax_rate"@]
}

pub open spec fn products_header() -> Seq<Seq<char>> {
    seq!["sku"@, "name"@, "type"@, "price"@, "description"@]
}

pub open spec fn supplies_header() -> Seq<Seq<char>> {
    seq!["id"@, "name"@, "cost"@, "perishable"@, "sku"@]
}

pub open spec fn tweets_header() -> Seq<Seq<char>> {
    seq!["id"@, "user_id"@, "tweeted_at"@, "content"@]
}

/// `v` with the text `w` appended.
fn with_text(v: Vec<String>, w: &str) -> (r: Vec<String>)
    ensures
        row_view(r@) == row_view(v@).push(w@),
{
    let ghost before = v@;
    let mut v = v;
    v.push(String::from_str(w));
    assert(row_view(v@) =~= row_view(before).push(w@));
    v
}

fn no_texts() -> (r: Vec<String>)
    ensures
        row_view(r@) == Seq::<Seq<char>>::empty(),
{
    let v: Vec<String> = Vec::new();
    assert(row_view(v@) =~= Seq::<Seq<char>>::empty());
    v
}

/// `prefix` followed by `suffix`.
fn joined(prefix: &str, suffix: &str) -> (r: String)
    ensures
        r@ == prefix@ + suffix@,
{
    let mut s = String::from_str(prefix);
    s.append(suffix);
    s
}

/// The customers file.
pub fn customers_table(prefix: &str, customers: &Vec<Customer>) -> (r: CsvTable)
    ensures
        table_is(
            r,
            prefix@ + "_customers.csv"@,
            customers_header(),
            Seq::new(customers@.len(), |i: int| customer_row(customers@[i])),
        ),
{
    let mut rows: Vec<Vec<String>> = Vec::new();
    for i in 0..customers.len()
        invariant
            rows@.len() == i,
            forall|j: int| 0 <= j < i ==> #[trigger] row_view(rows@[j]@) == customer_row(customers@[j]),
    {
        rows.push(customers[i].to_csv_row());
    }
    let headers = with_text(with_text(no_texts(), "id"), "name");
    assert(row_view(headers@) =~= customers_header());
    assert(table_view(rows@) =~= Seq::new(customers@.len(), |i: int| customer_row(customers@[i])));
    CsvTable { file_name: joined(prefix, "_customers.csv"), headers, rows }
}

/// The orders file.
pub fn orders_table(prefix: &str, orders: &Vec<Order>) -> (r: CsvTable)
    requires
        forall|i: int| 0 <= i < orders@.len() ==> day_in_range(stamp_day((#[trigger] orders@[i]).ordered_at as int)),
    ensures
        table_is(
            r,
            prefix@ + "_orders.csv"@,
            orders_header(),
            Seq::new(orders@.len(), |i: int| order_row(orders@[i])),
        ),
{
    let mut rows: Vec<Vec<String>> = Vec::new();
    for i in 0..orders.len()
        invariant
            forall|q: int| 0 <= q < orders@.len() ==> day_in_range(stamp_day((#[trigger] orders@[q]).ordered_at as int)),
            rows@.len() == i,
            forall|j: int| 0 <= j < i ==> #[trigger] row_view(rows@[j]@) == order_row(orders@[j]),
    {
        rows.push(orders[i].to_csv_row());
    }
    let headers = with_text(
        with_text(
            with_text(
                with_text(with_text(with_text(with_text(no_texts(), "id"), "customer"), "ordered_at"), "store_id"),
                "subtotal",
            ),
            "tax_paid",
        ),
        "order_total",
    );
    assert(row_view(headers@) =~= orders_header());
    assert(table_view(rows@) =~= Seq::new(orders@.len(), |i: int| order_row(orders@[i])));
    CsvTable { file_name: joined(prefix, "_orders.csv"), headers, rows }
}

/// The items file.
pub fn items_table(prefix: &str, orders: &Vec<Order>) -> (r: CsvTable)
    ensures
        table_is(r, prefix@ + "_items.csv"@, items_header(), order_item_rows(orders@)),
{
    let mut rows: Vec<Vec<String>> = Vec::new();
    for i in 0..orders.len()
        invariant
            table_view(rows@) == order_item_rows(orders@.take(i as int)),
    {
        let mut more = orders[i].items_csv_rows();
        let ghost before = rows@;
        let ghost added = more@;
        rows.append(&mut more);
        proof {
            assert(orders@.take(i + 1).drop_last() =~= orders@.take(i as int));
            assert(orders@.take(i + 1).last() == orders@[i as int]);
            assert(rows@ =~= before + added);
            assert(table_view(rows@) =~= table_view(before) + table_view(added));
        }
    }
    assert(orders@.take(orders@.len() as int) =~= orders@);
    let headers = with_text(with_text(no_texts(), "order_id"), "sku");
    assert(row_view(headers@) =~= items_header());
    CsvTable { file_name: joined(prefix, "_items.csv"), headers, rows }
}

/// A stores file with the given name and stores.
fn stores_table(name: String, stores: &Vec<Store>, start: i32) -> (r: CsvTable)
    requires
        forall|i: int| 0 <= i < stores@.len() ==> day_in_range(start + (#[trigger] stores@[i]).opened_day),
    ensures
        table_is(
            r,
            name@,
            stores_header(),
            Seq::new(stores@.len(), |i: int| store_row(stores@[i], start as int)),
        ),
{
    let mut rows: Vec<Vec<String>> = Vec::new();
    for i in 0..stores.len()
        invariant
            forall|q: int| 0 <= q < stores@.len() ==> day_in_range(start + (#[trigger] stores@[q]).opened_day),
            rows@.len() == i,
            forall|j: int| 0 <= j < i ==> #[trigger] row_view(rows@[j]@) == store_row(stores@[j], start as int),
    {
        rows.push(stores[i].to_csv_row(start));
    }
    let headers = with_text(with_text(with_text(with_text(no_texts(), "id"), "name"), "opened_at"), "tax_rate");
    assert(row_view(headers@) =~= stores_header());
    assert(table_view(rows@) =~= Seq::new(stores@.len(), |i: int| store_row(stores@[i], start as int)));
    CsvTable { file_name: name, headers, rows }
}

/// The products file.
pub fn products_table(prefix: &str) -> (r: CsvTable)
    ensures
        exists|items: Seq<Item>|
            items.len() == 10 && is_jaffle_menu(items.take(5)) && is_beverage_menu(items.skip(5))
                && table_is(r, prefix@ + "_products.csv"@, products_header(), #[trigger] product_rows(items)),
{
    let items = all_items();
    let mut rows: Vec<Vec<String>> = Vec::new();
    for i in 0..items.len()
        invariant
            rows@.len() == i,
            forall|j: int| 0 <= j < i ==> #[trigger] row_view(rows@[j]@) == item_row(items@[j]),
    {
        rows.push(items[i].to_csv_row());
    }
    let headers = with_text(
        with_text(with_text(with_text(with_text(no_texts(), "sku"), "name"), "type"), "price"),
        "description",
    );
    assert(row_view(headers@) =~= products_header());
    assert(table_view(rows@) =~= product_rows(items@));
    let r = CsvTable { file_name: joined(prefix, "_products.csv"), headers, rows };
    assert(table_is(r, prefix@ + "_products.csv"@, products_header(), product_rows(items@)));
    r
}

/// The supplies file.
pub fn supplies_table(prefix: &str) -> (r: CsvTable)
    ensures
        exists|supplies: Seq<Supply>|
            is_supply_catalog(supplies) && table_is(
                r,
                prefix@ + "_supplies.csv"@,
                supplies_header(),
                #[trigger] supplies_rows(supplies),
            ),
{
    let supplies = all_supplies();
    let mut rows: Vec<Vec<String>> = Vec::new();
    for i in 0..supplies.len()
        invariant
            table_view(rows@) == supplies_rows(supplies@.take(i as int)),
    {
        let mut more = supplies[i].to_csv_rows();
        let ghost before = rows@;
        let ghost added = more@;
        rows.append(&mut more);
        proof {
            assert(supplies@.take(i + 1).drop_last() =~= supplies@.take(i as int));
            assert(supplies@.take(i + 1).last() == supplies@[i as int]);
            assert(rows@ =~= before + added);
            assert(table_view(rows@) =~= table_view(before) + table_view(added));
        }
    }
    assert(supplies@.take(supplies@.len() as int) =~= supplies@);
    let headers = with_text(
        with_text(with_text(with_text(with_text(no_texts(), "id"), "name"), "cost"), "perishable"),
        "sku",
    );
    assert(row_view(headers@) =~= supplies_header());
    let r = CsvTable { file_name: joined(prefix, "_supplies.csv"), headers, rows };
    assert(table_is(r, prefix@ + "_supplies.csv"@, supplies_header(), supplies_rows(supplies@)));
    r
}

/// The tweets file.
pub fn tweets_table(prefix: &str, tweets: &Vec<Tweet>) -> (r: CsvTable)
    requires
        forall|i: int| 0 <= i < tweets@.len() ==> day_in_range(stamp_day((#[trigger] tweets@[i]).tweeted_at as int)),
    ensures
        table_is(
            r,
            prefix@ + "_tweets.csv"@,
            tweets_header(),
            Seq::new(tweets@.len(), |i: int| tweet_row(tweets@[i])),
        ),
{
    let mut rows: Vec<Vec<String>> = Vec::new();
    for i in 0..tweets.len()
        invariant
            forall|q: int| 0 <= q < tweets@.len() ==> day_in_range(stamp_day((#[trigger] tweets@[q]).tweeted_at as int)),
            rows@.len() == i,
            forall|j: int| 0 <= j < i ==> #[trigger] row_view(rows@[j]@) == tweet_row(tweets@[j]),
    {
        rows.push(tweets[i].to_csv_row());
    }
    let headers = with_text(with_text(with_text(with_text(no_texts(), "id"), "user_id"), "tweeted_at"), "content");
    assert(row_view(headers@) =~= tweets_header());
    assert(table_view(rows@) =~= Seq::new(tweets@.len(), |i: int| tweet_row(tweets@[i])));
    CsvTable { file_name: joined(prefix, "_tweets.csv"), headers, rows }
}

/// Whether the stores span several countries.
pub fn spans_several_countries(stores: &Vec<Store>) -> (r: bool)
    ensures
        r == spans_countries(stores@),
{
    let countries = store_countries(stores);
    countries.len() >= 2
}

/// The countries of the stores, each once, in order of first appearance.
pub fn store_countries(stores: &Vec<Store>) -> (r: Vec<String>)
    ensures
        row_view(r@) == countries_of(stores@),
{
    let mut countries: Vec<String> = Vec::new();
    for i in 0..stores.len()
        invariant
            row_view(countries@) == countries_of(stores@.take(i as int)),
    {
        proof {
            assert(stores@.take(i + 1).drop_last() =~= stores@.take(i as int));
            assert(stores@.take(i + 1).last() == stores@[i as int]);
        }
        let mut seen = false;
        for j in 0..countries.len()
            invariant
                i < stores@.len(),
                seen == exists|q: int| 0 <= q < j && (#[trigger] countries@[q])@ == stores@[i as int].country@,
        {
            if countries[j] == stores[i].country {
                seen = true;
            }
        }
        let ghost before = countries@;
        proof {
            if seen {
                let q = choose|q: int| 0 <= q < countries@.len() && (#[trigger] countries@[q])@ == stores@[i as int].country@;
                assert(row_view(before)[q] == stores@[i as int].country@);
            } else {
                assert forall|q: int| 0 <= q < row_view(before).len() implies row_view(before)[q] != stores@[i as int].country@ by {
                    assert(row_view(before)[q] == before[q]@);
                }
            }
        }
        if !seen {
            countries.push(stores[i].country.clone());
            assert(row_view(countries@) =~= row_view(before).push(stores@[i as int].country@));
        }
    }
    assert(stores@.take(stores@.len() as int) =~= stores@);
    countries
}

fn clone_store_list(stores: &Vec<Store>) -> (r: Vec<Store>)
    ensures
        r@ == stores@,
{
    let mut out: Vec<Store> = Vec::new();
    for i in 0..stores.len()
        invariant
            out@ == stores@.take(i as int),
    {
        out.push(stores[i].clone());
        assert(out@ =~= stores@.take(i + 1));
    }
    assert(stores@.take(stores@.len() as int) =~= stores@);
    out
}

/// The stores of a country, in order.
pub fn stores_in_country(stores: &Vec<Store>, country: &String) -> (r: Vec<Store>)
    ensures
        r@ == stores_of_country(stores@, country@),
{
    let mut out: Vec<Store> = Vec::new();
    for i in 0..stores.len()
        invariant
            out@ == stores_of_country(stores@.take(i as int), country@),
    {
        proof {
            assert(stores@.take(i + 1).drop_last() =~= stores@.take(i as int));
            assert(stores@.take(i + 1).last() == stores@[i as int]);
        }
        if stores[i].country == *country {
            out.push(stores[i].clone());
        }
    }
    assert(stores@.take(stores@.len() as int) =~= stores@);
    out
}

proof fn lemma_stores_of_country_member(stores: Seq<Store>, country: Seq<char>, j: int)
    requires
        0 <= j < stores_of_country(stores, country).len(),
    ensures
        stores.contains(stores_of_country(stores, country)[j]),
    decreases stores.len(),
{
    if stores.len() > 0 {
        let rest = stores_of_country(stores.drop_last(), country);
        if j < rest.len() {
            lemma_stores_of_country_member(stores.drop_last(), country, j);
            let q = choose|q: int| 0 <= q < stores.drop_last().len() && stores.drop_last()[q] == rest[j];
            assert(stores[q] == stores.drop_last()[q]);
        } else {
            assert(stores[stores.len() - 1] == stores_of_country(stores, country)[j]);
        }
    }
}

/// The rows of a stores file.
pub open spec fn store_rows(stores: Seq<Store>, start: int) -> Seq<Seq<Seq<char>>> {
    stores.map_values(|s: Store| store_row(s, start))
}

/// The stores files: one for all stores when they are all in one country;
/// otherwise one for each country, named with the country in upper case.
pub fn store_tables(prefix: &str, stores: &Vec<Store>, start: i32) -> (r: Vec<CsvTable>)
    requires
        forall|i: int| 0 <= i < stores@.len() ==> day_in_range(start + (#[trigger] stores@[i]).opened_day),
    ensures
        !spans_countries(stores@) ==> r@.len() == 1 && table_is(
            r@[0],
            prefix@ + "_stores.csv"@,
            stores_header(),
            store_rows(stores@, start as int),
        ),
        spans_countries(stores@) ==> r@.len() == countries_of(stores@).len() && forall|g: int|
            0 <= g < r@.len() ==> #[trigger] table_is(
                r@[g],
                prefix@ + "_stores_"@ + uppercase_text(countries_of(stores@)[g]) + ".csv"@,
                stores_header(),
                store_rows(stores_of_country(stores@, countries_of(stores@)[g]), start as int),
            ),
{
    let mut tables: Vec<CsvTable> = Vec::new();
    if spans_several_countries(stores) {
        let countries = store_countries(stores);
        for g in 0..countries.len()
            invariant
                forall|i: int| 0 <= i < stores@.len() ==> day_in_range(start + (#[trigger] stores@[i]).opened_day),
                row_view(countries@) == countries_of(stores@),
                tables@.len() == g,
                forall|h: int|
                    0 <= h < g ==> #[trigger] table_is(
                        tables@[h],
                        prefix@ + "_stores_"@ + uppercase_text(countries_of(stores@)[h]) + ".csv"@,
                        stores_header(),
                        store_rows(stores_of_country(stores@, countries_of(stores@)[h]), start as int),
                    ),
        {
            assert(row_view(countries@)[g as int] == countries@[g as int]@);
            let in_country = stores_in_country(stores, &countries[g]);
            proof {
                assert forall|i: int| 0 <= i < in_country@.len() implies day_in_range(start + (#[trigger] in_country@[i]).opened_day) by {
                    lemma_stores_of_country_member(stores@, countries@[g as int]@, i);
                    let q = choose|q: int| 0 <= q < stores@.len() && stores@[q] == in_country@[i];
                }
            }
            let mut name = String::from_str(prefix);
            name.append("_stores_");
            let upper = uppercase(countries[g].as_str());
            name.append(upper.as_str());
            name.append(".csv");
            let table = stores_table(name, &in_country, start);
            assert(store_rows(in_country@, start as int) =~= Seq::new(in_country@.len(), |i: int| store_row(in_country@[i], start as int)));
            tables.push(table);
        }
    } else {
        let all = clone_store_list(stores);
        let mut name = String::from_str(prefix);
        name.append("_stores.csv");
        let table = stores_table(name, &all, start);
        assert(store_rows(stores@, start as int) =~= Seq::new(stores@.len(), |i: int| store_row(stores@[i], start as int)));
        tables.push(table);
    }
    tables
}

/// The number of stores files.
pub open spec fn store_table_count(stores: Seq<Store>) -> int {
    if spans_countries(stores) {
        countries_of(stores).len() as int
    } else {
        1
    }
}

/// The dates of the results are ones that chrono holds.
pub open spec fn exportable(config: SimConfig, result: SimResult) -> bool {
    &&& forall|i: int|
        0 <= i < result.orders@.len() ==> day_in_range(stamp_day((#[trigger] result.orders@[i]).ordered_at as int))
    &&& forall|i: int|
        0 <= i < result.tweets@.len() ==> day_in_range(stamp_day((#[trigger] result.tweets@[i]).tweeted_at as int))
    &&& forall|i: int|
        0 <= i < result.stores@.len() ==> day_in_range(config.start_date + (#[trigger] result.stores@[i]).opened_day)
}

/// The day number lies in chrono's range.
fn in_range(day: i64) -> (r: bool)
    ensures
        r == day_in_range(day as int),
{
    FIRST_DAY as i64 <= day && day <= LAST_DAY as i64
}

/// Whether the dates of the results are ones that chrono holds, so that
/// they can be saved.
pub fn can_export(config: &SimConfig, result: &SimResult) -> (r: bool)
    ensures
        r == exportable(*config, *result),
{
    for i in 0..result.orders.len()
        invariant
            forall|j: int|
                0 <= j < i ==> day_in_range(stamp_day((#[trigger] result.orders@[j]).ordered_at as int)),
    {
        if !in_range(day_of_stamp(result.orders[i].ordered_at)) {
            return false;
        }
    }
    for i in 0..result.tweets.len()
        invariant
            forall|j: int|
                0 <= j < result.orders@.len() ==> day_in_range(stamp_day((#[trigger] result.orders@[j]).ordered_at as int)),
            forall|j: int|
                0 <= j < i ==> day_in_range(stamp_day((#[trigger] result.tweets@[j]).tweeted_at as int)),
    {
        if !in_range(day_of_stamp(result.tweets[i].tweeted_at)) {
            return false;
        }
    }
    for i in 0..result.stores.len()
        invariant
            forall|j: int|
                0 <= j < result.orders@.len() ==> day_in_range(stamp_day((#[trigger] result.orders@[j]).ordered_at as int)),
            forall|j: int|
                0 <= j < result.tweets@.len() ==> day_in_range(stamp_day((#[trigger] result.tweets@[j]).tweeted_at as int)),
            forall|j: int|
                0 <= j < i ==> day_in_range(config.start_date + (#[trigger] result.stores@[j]).opened_day),
    {
        let opened_at = config.start_date as i128 + result.stores[i].opened_day as i128;
        if opened_at < FIRST_DAY as i128 || opened_at > LAST_DAY as i128 {
            return false;
        }
    }
    true
}

/// The tables that the results are saved as, in order: customers, orders,
/// order items, the stores file or files, products, supplies and tweets,
/// each file named with the configured prefix.
pub fn result_tables(config: &SimConfig, result: &SimResult) -> (r: Vec<CsvTable>)
    requires
        exportable(*config, *result),
    ensures
        r@.len() == 6 + store_table_count(result.stores@),
        table_is(
            r@[0],
            config.prefix@ + "_customers.csv"@,
            customers_header(),
            Seq::new(result.customers@.len(), |i: int| customer_row(result.customers@[i])),
        ),
        table_is(
            r@[1],
            config.prefix@ + "_orders.csv"@,
            orders_header(),
            Seq::new(result.orders@.len(), |i: int| order_row(result.orders@[i])),
        ),
        table_is(r@[2], config.prefix@ + "_items.csv"@, items_header(), order_item_rows(result.orders@)),
        !spans_countries(result.stores@) ==> table_is(
            r@[3],
            config.prefix@ + "_stores.csv"@,
            stores_header(),
            store_rows(result.stores@, config.start_date as int),
        ),
        spans_countries(result.stores@) ==> forall|g: int|
            0 <= g < countries_of(result.stores@).len() ==> #[trigger] table_is(
                r@[3 + g],
                config.prefix@ + "_stores_"@ + uppercase_text(countries_of(result.stores@)[g]) + ".csv"@,
                stores_header(),
                store_rows(
                    stores_of_country(result.stores@, countries_of(result.stores@)[g]),
                    config.start_date as int,
                ),
            ),
        exists|items: Seq<Item>|
            items.len() == 10 && is_jaffle_menu(items.take(5)) && is_beverage_menu(items.skip(5))
                && table_is(
                r@[3 + store_table_count(result.stores@)],
                config.prefix@ + "_products.csv"@,
                products_header(),
                #[trigger] product_rows(items),
            ),
        exists|supplies: Seq<Supply>|
            is_supply_catalog(supplies) && table_is(
                r@[4 + store_table_count(result.stores@)],
                config.prefix@ + "_supplies.csv"@,
                supplies_header(),
                #[trigger] supplies_rows(supplies),
            ),
        table_is(
            r@[5 + store_table_count(result.stores@)],
            config.prefix@ + "_tweets.csv"@,
            tweets_header(),
            Seq::new(result.tweets@.len(), |i: int| tweet_row(result.tweets@[i])),
        ),
{
    let prefix = config.prefix.as_str();
    let mut tables: Vec<CsvTable> = Vec::new();
    tables.push(customers_table(prefix, &result.customers));
    tables.push(orders_table(prefix, &result.orders));
    tables.push(items_table(prefix, &result.orders));
    let mut stores = store_tables(prefix, &result.stores, config.start_date);
    let ghost store_part = stores@;
    tables.append(&mut stores);
    tables.push(products_table(prefix));
    tables.push(supplies_table(prefix));
    tables.push(tweets_table(prefix, &result.tweets));
    proof {
        let k = store_table_count(result.stores@);
        assert(store_part.len() == k);
        assert forall|g: int| 0 <= g < k implies tables@[3 + g] == store_part[g] by {
        }
        if spans_countries(result.stores@) {
            assert forall|g: int| 0 <= g < countries_of(result.stores@).len() implies #[trigger] table_is(
                tables@[3 + g],
                config.prefix@ + "_stores_"@ + uppercase_text(countries_of(result.stores@)[g]) + ".csv"@,
                stores_header(),
                store_rows(
                    stores_of_country(result.stores@, countries_of(result.stores@)[g]),
                    config.start_date as int,
                ),
            ) by {
                assert(tables@[3 + g] == store_part[g]);
            }
        }
    }
    tables
}

} // verus!
