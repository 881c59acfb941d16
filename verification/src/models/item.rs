//! The products: jaffles and beverages, with their prices in cents.

use vstd::prelude::*;
use crate::rows::row_view;
use crate::text::{int_text, int_to_text};

verus! {

#[derive(Debug, Clone, Copy, PartialEq, Eq, Structural)]
pub enum ItemType {
    Jaffle,
    Beverage,
}

/// The name of an item type in the products file.
pub open spec fn item_type_text(t: ItemType) -> Seq<char> {
    match t {
        ItemType::Jaffle => "jaffle"@,
        ItemType::Beverage => "beverage"@,
    }
}

impl ItemType {
    /// The name of the item type: "jaffle" or "beverage".
    pub fn to_string(&self) -> (r: String)
        ensures
            r@ == item_type_text(*self),
    {
        match self {
            ItemType::Jaffle => String::from_str("jaffle"),
            ItemType::Beverage => String::from_str("beverage"),
        }
    }
}

/// A product; its price is held in cents.
#[derive(Debug)]
pub struct Item {
    pub sku: String,
    pub name: String,
    pub description: String,
    pub item_type: ItemType,
    pub price_cents: i64,
}

impl Clone for Item {
    fn clone(&self) -> (r: Self)
        ensures
            r == *self,
    {
        Item {
            sku: self.sku.clone(),
            name: self.name.clone(),
            description: self.description.clone(),
            item_type: self.item_type,
            price_cents: self.price_cents,
        }
    }
}

impl Item {
    /// This item has these fields.
    pub open spec fn is(
        self,
        sku: Seq<char>,
        name: Seq<char>,
        description: Seq<char>,
        item_type: ItemType,
        price_cents: int,
    ) -> bool {
        &&& self.sku@ == sku
        &&& self.name@ == name
        &&& self.description@ == description
        &&& self.item_type == item_type
        &&& self.price_cents == price_cents
    }

    /// The price in cents.
    pub fn price_cents(&self) -> (r: i64)
        ensures
            r == self.price_cents,
    {
        self.price_cents
    }

    /// The row of the products file: sku, name, type, price in cents,
    /// description.
    pub fn to_csv_row(&self) -> (r: Vec<String>)
        ensures
            row_view(r@) == seq![
                self.sku@,
                self.name@,
                item_type_text(self.item_type),
                int_text(self.price_cents as int),
                self.description@,
            ],
    {
        let mut row: Vec<String> = Vec::new();
        row.push(self.sku.clone());
        row.push(self.name.clone());
        row.push(self.item_type.to_string());
        row.push(int_to_text(self.price_cents()));
        row.push(self.description.clone());
        assert(row_view(row@) =~= seq![
            self.sku@,
            self.name@,
            item_type_text(self.item_type),
            int_text(self.price_cents as int),
            self.description@,
        ]);
        row
    }
}

fn new_item(sku: &str, name: &str, description: &str, item_type: ItemType, price_cents: i64) -> (r:
    Item)
    ensures
        r.is(sku@, name@, description@, item_type, price_cents as int),
{
    Item {
        sku: String::from_str(sku),
        name: String::from_str(name),
        description: String::from_str(description),
        item_type,
        price_cents,
    }
}

/// The jaffle at place `i` of the menu.
pub open spec fn is_jaffle_at(i: int, x: Item) -> bool {
    if i == 0 {
        x.is("JAF-001"@, "nutellaphone who dis?"@, "nutella & banana"@, ItemType::Jaffle, 1100)
    } else if i == 1 {
        x.is("JAF-002"@, "doctor stew"@, "beef stew"@, ItemType::Jaffle, 1100)
    } else if i == 2 {
        x.is("JAF-003"@, "the krautback"@, "bratwurst, sauerkraut, mustard"@, ItemType::Jaffle, 1200)
    } else if i == 3 {
        x.is(
            "JAF-004"@,
            "flame impala"@,
            "pulled pork, pineapple, ghost pepper"@,
            ItemType::Jaffle,
            1400,
        )
    } else if i == 4 {
        x.is("JAF-005"@, "mel-bun"@, "melon, minced beef"@, ItemType::Jaffle, 1200)
    } else {
        false
    }
}

/// The beverage at place `i` of the menu.
pub open spec fn is_beverage_at(i: int, x: Item) -> bool {
    if i == 0 {
        x.is("BEV-001"@, "tangaroo"@, "mango, tangerine smoothie"@, ItemType::Beverage, 600)
    } else if i == 1 {
        x.is("BEV-002"@, "chai and mighty"@, "oatmilk chai with protein"@, ItemType::Beverage, 500)
    } else if i == 2 {
        x.is("BEV-003"@, "vanilla ice"@, "iced coffee with vanilla syrup"@, ItemType::Beverage, 600)
    } else if i == 3 {
        x.is("BEV-004"@, "for richer or pourover"@, "hot pourover coffee"@, ItemType::Beverage, 700)
    } else if i == 4 {
        x.is("BEV-005"@, "adele-ade"@, "kiwi, lime agua fresca"@, ItemType::Beverage, 400)
    } else {
        false
    }
}

/// The five jaffles of the menu, in order.
pub open spec fn is_jaffle_menu(s: Seq<Item>) -> bool {
    &&& s.len() == 5
    &&& forall|i: int| 0 <= i < 5 ==> #[trigger] is_jaffle_at(i, s[i])
}

/// The five beverages of the menu, in order.
pub open spec fn is_beverage_menu(s: Seq<Item>) -> bool {
    &&& s.len() == 5
    &&& forall|i: int| 0 <= i < 5 ==> #[trigger] is_beverage_at(i, s[i])
}

/// A jaffle of the menu.
pub open spec fn is_menu_jaffle(x: Item) -> bool {
    exists|i: int| 0 <= i < 5 && #[trigger] is_jaffle_at(i, x)
}

/// A beverage of the menu.
pub open spec fn is_menu_beverage(x: Item) -> bool {
    exists|i: int| 0 <= i < 5 && #[trigger] is_beverage_at(i, x)
}

/// Every item is a jaffle of the menu.
pub open spec fn all_menu_jaffles(s: Seq<Item>) -> bool {
    forall|i: int| 0 <= i < s.len() ==> #[trigger] is_menu_jaffle(s[i])
}

/// Every item is a beverage of the menu.
pub open spec fn all_menu_beverages(s: Seq<Item>) -> bool {
    forall|i: int| 0 <= i < s.len() ==> #[trigger] is_menu_beverage(s[i])
}

pub fn all_jaffles() -> (r: Vec<Item>)
    ensures
        is_jaffle_menu(r@),
{
    let mut v: Vec<Item> = Vec::new();
    v.push(new_item("JAF-001", "nutellaphone who dis?", "nutella & banana", ItemType::Jaffle, 1100));
    v.push(new_item("JAF-002", "doctor stew", "beef stew", ItemType::Jaffle, 1100));
    v.push(
        new_item("JAF-003", "the krautback", "bratwurst, sauerkraut, mustard", ItemType::Jaffle, 1200),
    );
    v.push(
        new_item(
            "JAF-004",
            "flame impala",
            "pulled pork, pineapple, ghost pepper",
            ItemType::Jaffle,
            1400,
        ),
    );
    v.push(new_item("JAF-005", "mel-bun", "melon, minced beef", ItemType::Jaffle, 1200));
    assert(is_jaffle_at(0, v@[0]) && is_jaffle_at(1, v@[1]) && is_jaffle_at(2, v@[2]));
    assert(is_jaffle_at(3, v@[3]) && is_jaffle_at(4, v@[4]));
    v
}

pub fn all_beverages() -> (r: Vec<Item>)
    ensures
        is_beverage_menu(r@),
{
    let mut v: Vec<Item> = Vec::new();
    v.push(new_item("BEV-001", "tangaroo", "mango, tangerine smoothie", ItemType::Beverage, 600));
    v.push(new_item("BEV-002", "chai and mighty", "oatmilk chai with protein", ItemType::Beverage, 500));
    v.push(
        new_item("BEV-003", "vanilla ice", "iced coffee with vanilla syrup", ItemType::Beverage, 600),
    );
    v.push(
        new_item("BEV-004", "for richer or pourover", "hot pourover coffee", ItemType::Beverage, 700),
    );
    v.push(new_item("BEV-005", "adele-ade", "kiwi, lime agua fresca", ItemType::Beverage, 400));
    assert(is_beverage_at(0, v@[0]) && is_beverage_at(1, v@[1]) && is_beverage_at(2, v@[2]));
    assert(is_beverage_at(3, v@[3]) && is_beverage_at(4, v@[4]));
    v
}

/// The whole menu: the jaffles, then the beverages.
pub fn all_items() -> (r: Vec<Item>)
    ensures
        r@.len() == 10,
        is_jaffle_menu(r@.take(5)),
        is_beverage_menu(r@.skip(5)),
{
    let mut items = all_jaffles();
    let mut beverages = all_beverages();
    items.append(&mut beverages);
    assert(items@.take(5) =~= items@.subrange(0, 5));
    items
}

} // verus!
