//! Tweets that customers post after an order.

use vstd::prelude::*;
use rand::rngs::StdRng;
use crate::calendar::{day_in_range, format_stamp, stamp_day, stamp_text};
use crate::ids::{is_uuid_v4_text, new_id};
use crate::models::item::Item;
use crate::random::random_in_range;
use crate::rows::row_view;

verus! {

#[derive(Debug)]
pub struct Tweet {
    pub id: String,
    pub user_id: String,
    /// Minutes since the start of day 0 (see `calendar::minute_stamp`).
    pub tweeted_at: i64,
    pub content: String,
}

impl Clone for Tweet {
    fn clone(&self) -> (r: Self)
        ensures
            r == *self,
    {
        Tweet {
            id: self.id.clone(),
            user_id: self.user_id.clone(),
            tweeted_at: self.tweeted_at,
            content: self.content.clone(),
        }
    }
}

/// The names of the items.
pub open spec fn item_names(items: Seq<Item>) -> Seq<Seq<char>> {
    items.map_values(|i: Item| i.name@)
}

/// "a x, a y, a z": each name after "a ", joined by ", ".
pub open spec fn listed_with_articles(names: Seq<Seq<char>>) -> Seq<char>
    decreases names.len(),
{
    if names.len() == 0 {
        Seq::empty()
    } else if names.len() == 1 {
        "a "@ + names[0]
    } else {
        listed_with_articles(names.drop_last()) + ", a "@ + names.last()
    }
}

/// The sentence that lists what was ordered.
pub open spec fn ordered_sentence(names: Seq<Seq<char>>) -> Seq<char> {
    if names.len() == 1 {
        "Ordered a "@ + names[0]
    } else if names.len() == 2 {
        "Ordered a "@ + names[0] + " and a "@ + names[1]
    } else {
        "Ordered "@ + listed_with_articles(names.drop_last()) + ", and a "@ + names.last()
    }
}

/// The place of a fan level in a list of `n` adjectives: the fan level taken
/// as a 64-bit `usize`, as the cast wraps a negative level, modulo `n`.
pub open spec fn adjective_index(fan_level: int, n: int) -> int {
    if fan_level >= 0 {
        fan_level % n
    } else {
        (fan_level + 18_446_744_073_709_551_616) % n
    }
}

pub open spec fn positive_adjective(i: int) -> Seq<char> {
    if i == 0 {
        "awesome"@
    } else if i == 1 {
        "delicious"@
    } else if i == 2 {
        "amazing"@
    } else if i == 3 {
        "fantastic"@
    } else if i == 4 {
        "sooo gooood"@
    } else if i == 5 {
        "my favorite"@
    } else {
        "the best"@
    }
}

pub open spec fn negative_adjective(i: int) -> Seq<char> {
    if i == 0 {
        "terrible"@
    } else if i == 1 {
        "the worst"@
    } else if i == 2 {
        "awful"@
    } else if i == 3 {
        "disgusting"@
    } else if i == 4 {
        "gross"@
    } else if i == 5 {
        "inedible"@
    } else {
        "my least favorite"@
    }
}

pub open spec fn neutral_adjective(i: int) -> Seq<char> {
    if i == 0 {
        "okay"@
    } else if i == 1 {
        "fine"@
    } else if i == 2 {
        "alright"@
    } else if i == 3 {
        "average"@
    } else if i == 4 {
        "pretty decent"@
    } else if i == 5 {
        "solid"@
    } else if i == 6 {
        "not bad"@
    } else {
        "just meh"@
    }
}

/// The text of a tweet about an order: empty for an order without items;
/// praise above fan level 3, a complaint below it, a shrug at it.
pub open spec fn tweet_text(names: Seq<Seq<char>>, fan_level: int) -> Seq<char> {
    if names.len() == 0 {
        Seq::empty()
    } else if fan_level > 3 {
        "Jaffles from the Jaffle Shop are "@ + positive_adjective(adjective_index(fan_level, 7))
            + "! "@ + ordered_sentence(names)
    } else if fan_level < 3 {
        "Jaffle Shop again. "@ + ordered_sentence(names) + ". This place is "@
            + negative_adjective(adjective_index(fan_level, 7)) + "."@
    } else {
        "Jaffle shop is "@ + neutral_adjective(adjective_index(fan_level, 8)) + ". "@
            + ordered_sentence(names) + "."@
    }
}

fn positive_adjective_str(i: u64) -> (r: &'static str)
    ensures
        r@ == positive_adjective(i as int),
{
    if i == 0 {
        "awesome"
    } else if i == 1 {
        "delicious"
    } else if i == 2 {
        "amazing"
    } else if i == 3 {
        "fantastic"
    } else if i == 4 {
        "sooo gooood"
    } else if i == 5 {
        "my favorite"
    } else {
        "the best"
    }
}

fn negative_adjective_str(i: u64) -> (r: &'static str)
    ensures
        r@ == negative_adjective(i as int),
{
    if i == 0 {
        "terrible"
    } else if i == 1 {
        "the worst"
    } else if i == 2 {
        "awful"
    } else if i == 3 {
        "disgusting"
    } else if i == 4 {
        "gross"
    } else if i == 5 {
        "inedible"
    } else {
        "my least favorite"
    }
}

fn neutral_adjective_str(i: u64) -> (r: &'static str)
    ensures
        r@ == neutral_adjective(i as int),
{
    if i == 0 {
        "okay"
    } else if i == 1 {
        "fine"
    } else if i == 2 {
        "alright"
    } else if i == 3 {
        "average"
    } else if i == 4 {
        "pretty decent"
    } else if i == 5 {
        "solid"
    } else if i == 6 {
        "not bad"
    } else {
        "just meh"
    }
}

fn adjective_index_of(fan_level: i32, n: u64) -> (r: u64)
    requires
        n > 0,
    ensures
        r == adjective_index(fan_level as int, n as int),
{
    if fan_level >= 0 {
        fan_level as u64 % n
    } else {
        ((fan_level as i128 + 18_446_744_073_709_551_616i128) % (n as i128)) as u64
    }
}

/// The sentence that lists what was ordered, for at least one item.
fn items_sentence(items: &Vec<Item>) -> (r: String)
    requires
        items@.len() > 0,
    ensures
        r@ == ordered_sentence(item_names(items@)),
{
    let ghost names = item_names(items@);
    let n = items.len();
    let mut s = String::new();
    if n == 1 {
        s.append("Ordered a ");
        s.append(items[0].name.as_str());
        assert(s@ =~= ordered_sentence(names));
    } else if n == 2 {
        s.append("Ordered a ");
        s.append(items[0].name.as_str());
        s.append(" and a ");
        s.append(items[1].name.as_str());
        assert(s@ =~= ordered_sentence(names));
    } else {
        s.append("Ordered ");
        for i in 0..n - 1
            invariant
                n == items@.len(),
                n >= 3,
                names == item_names(items@),
                s@ == "Ordered "@ + listed_with_articles(names.take(i as int)),
        {
            let ghost before = s@;
            if i > 0 {
                s.append(", a ");
            } else {
                s.append("a ");
            }
            s.append(items[i].name.as_str());
            assert(names.take(i + 1).drop_last() =~= names.take(i as int));
            assert(s@ =~= "Ordered "@ + listed_with_articles(names.take(i + 1)));
        }
        s.append(", and a ");
        s.append(items[n - 1].name.as_str());
        assert(names.take(n - 1) =~= names.drop_last());
        assert(s@ =~= ordered_sentence(names));
    }
    s
}

/// The text of a tweet about an order of `items` by a customer of
/// `fan_level`.
pub fn construct_tweet(items: &Vec<Item>, fan_level: i32) -> (r: String)
    ensures
        r@ == tweet_text(item_names(items@), fan_level as int),
{
    if items.len() == 0 {
        return String::new();
    }
    let sentence = items_sentence(items);
    let mut s = String::new();
    if fan_level > 3 {
        let adj = positive_adjective_str(adjective_index_of(fan_level, 7));
        s.append("Jaffles from the Jaffle Shop are ");
        s.append(adj);
        s.append("! ");
        s.append(sentence.as_str());
    } else if fan_level < 3 {
        let adj = negative_adjective_str(adjective_index_of(fan_level, 7));
        s.append("Jaffle Shop again. ");
        s.append(sentence.as_str());
        s.append(". This place is ");
        s.append(adj);
        s.append(".");
    } else {
        let adj = neutral_adjective_str(adjective_index_of(fan_level, 8));
        s.append("Jaffle shop is ");
        s.append(adj);
        s.append(". ");
        s.append(sentence.as_str());
        s.append(".");
    }
    assert(s@ =~= tweet_text(item_names(items@), fan_level as int));
    s
}

impl Tweet {
    /// A tweet by `user_id` about an order placed at `ordered_at`, posted 0
    /// to 20 minutes later.
    pub fn new(
        user_id: &str,
        ordered_at: i64,
        items: &Vec<Item>,
        fan_level: i32,
        rng: &mut StdRng,
    ) -> (r: Tweet)
        requires
            ordered_at <= i64::MAX - 20,
        ensures
            is_uuid_v4_text(r.id@),
            r.user_id@ == user_id@,
            ordered_at <= r.tweeted_at <= ordered_at + 20,
            r.content@ == tweet_text(item_names(items@), fan_level as int),
    {
        let offset = random_in_range(rng, 0, 21) as i64;
        let tweeted_at = ordered_at + offset;
        let content = construct_tweet(items, fan_level);
        Tweet { id: new_id(), user_id: String::from_str(user_id), tweeted_at, content }
    }

    /// The row of the tweets file: id, user, time and text.
    pub fn to_csv_row(&self) -> (r: Vec<String>)
        requires
            day_in_range(stamp_day(self.tweeted_at as int)),
        ensures
            row_view(r@) == seq![
                self.id@,
                self.user_id@,
                stamp_text(self.tweeted_at as int),
                self.content@,
            ],
    {
        let mut row: Vec<String> = Vec::new();
        row.push(self.id.clone());
        row.push(self.user_id.clone());
        row.push(format_stamp(self.tweeted_at));
        row.push(self.content.clone());
        assert(row_view(row@) =~= seq![
            self.id@,
            self.user_id@,
            stamp_text(self.tweeted_at as int),
            self.content@,
        ]);
        row
    }
}

} // verus!
