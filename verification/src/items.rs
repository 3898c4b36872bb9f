//! Items: craftable catalogue entries, with their artefact, the resources
//! their recipe consumes (a JSON text) and market prices per city.
use vstd::prelude::*;
use vstd::string::*;
use std::collections::VecDeque;
use crate::json::{empty_json_array, json_document, json_text, parse_json, write_json};
use vstd::utf8::*;
use crate::listing::{key_le, listing_key, sorted_by_listing, Listed};
use crate::naming::tier_of;
use crate::text::lex_lt;

pub use crate::artefacts::Artefact;

verus! {

/// One resource of a recipe and how many of it the recipe takes.
pub struct RecipeResource {
    pub item_id: String,
    pub count: String,
}

impl RecipeResource {
    /// A copy of the resource.
    pub fn duplicate(&self) -> (r: RecipeResource)
        ensures
            r == *self,
    {
        RecipeResource { item_id: self.item_id.clone(), count: self.count.clone() }
    }
}

/// An item record as stored in the `items` table; `resources` is the JSON
/// text of its recipe's resources.
pub struct Item {
    pub label: String,
    pub item_id: String,
    pub craft_price: String,
    pub enchantment_price: String,
    pub artefact_id: String,
    pub sell_price_fort_sterling: String,
    pub sell_price_martlock: String,
    pub sell_price_thetford: String,
    pub sell_price_brecilien: String,
    pub buy_price_fort_sterling: String,
    pub buy_price_martlock: String,
    pub buy_price_thetford: String,
    pub buy_price_brecilien: String,
    pub orders_thetford: String,
    pub orders_fort_sterling: String,
    pub orders_martlock: String,
    pub orders_brecilien: String,
    pub created_at: String,
    pub updated_at: String,
    pub artefact: Option<Artefact>,
    pub resources: String,
    pub source: String,
    pub comment: String,
    pub popularity: String,
}

/// An item record without its artefact.
pub struct ItemWithoutArtefact {
    pub label: String,
    pub item_id: String,
    pub craft_price: String,
    pub enchantment_price: String,
    pub artefact_id: String,
    pub sell_price_fort_sterling: String,
    pub sell_price_martlock: String,
    pub sell_price_thetford: String,
    pub sell_price_brecilien: String,
    pub buy_price_fort_sterling: String,
    pub buy_price_martlock: String,
    pub buy_price_thetford: String,
    pub buy_price_brecilien: String,
    pub orders_thetford: String,
    pub orders_fort_sterling: String,
    pub orders_martlock: String,
    pub orders_brecilien: String,
    pub created_at: String,
    pub updated_at: String,
    pub resources: String,
    pub source: String,
    pub comment: String,
    pub popularity: String,
}

/// The fields a client sends to update an item; `resources` is a JSON
/// document.
pub struct ItemUpdate {
    pub label: String,
    pub item_id: String,
    pub craft_price: String,
    pub enchantment_price: String,
    pub artefact_id: String,
    pub sell_price_fort_sterling: String,
    pub sell_price_martlock: String,
    pub sell_price_thetford: String,
    pub sell_price_brecilien: String,
    pub buy_price_fort_sterling: String,
    pub buy_price_martlock: String,
    pub buy_price_thetford: String,
    pub buy_price_brecilien: String,
    pub orders_thetford: String,
    pub orders_fort_sterling: String,
    pub orders_martlock: String,
    pub orders_brecilien: String,
    pub created_at: String,
    pub updated_at: String,
    pub resources: serde_json::Value,
    pub source: String,
    pub comment: String,
    pub popularity: String,
}

/// An item as answered to clients: `resources` is the JSON document read
/// from the stored text.
pub struct ItemResponse {
    pub label: String,
    pub item_id: String,
    pub craft_price: String,
    pub enchantment_price: String,
    pub artefact_id: String,
    pub sell_price_fort_sterling: String,
    pub sell_price_martlock: String,
    pub sell_price_thetford: String,
    pub sell_price_brecilien: String,
    pub buy_price_fort_sterling: String,
    pub buy_price_martlock: String,
    pub buy_price_thetford: String,
    pub buy_price_brecilien: String,
    pub orders_thetford: String,
    pub orders_fort_sterling: String,
    pub orders_martlock: String,
    pub orders_brecilien: String,
    pub created_at: String,
    pub updated_at: String,
    pub artefact: Option<Artefact>,
    pub resources: serde_json::Value,
    pub source: String,
    pub comment: String,
    pub popularity: String,
}

/// The resources document of a stored item: the JSON its text holds, or an
/// empty array when the text is not JSON.
pub open spec fn resources_document(text: Seq<char>) -> serde_json::Value {
    match json_document(text) {
        Some(v) => v,
        None => empty_document(),
    }
}

/// The answer for a stored item with a given resources document: every
/// field as stored.
pub open spec fn response_with(item: Item, resources: serde_json::Value) -> ItemResponse {
    ItemResponse {
        label: item.label,
        item_id: item.item_id,
        craft_price: item.craft_price,
        enchantment_price: item.enchantment_price,
        artefact_id: item.artefact_id,
        sell_price_fort_sterling: item.sell_price_fort_sterling,
        sell_price_martlock: item.sell_price_martlock,
        sell_price_thetford: item.sell_price_thetford,
        sell_price_brecilien: item.sell_price_brecilien,
        buy_price_fort_sterling: item.buy_price_fort_sterling,
        buy_price_martlock: item.buy_price_martlock,
        buy_price_thetford: item.buy_price_thetford,
        buy_price_brecilien: item.buy_price_brecilien,
        orders_thetford: item.orders_thetford,
        orders_fort_sterling: item.orders_fort_sterling,
        orders_martlock: item.orders_martlock,
        orders_brecilien: item.orders_brecilien,
        created_at: item.created_at,
        updated_at: item.updated_at,
        artefact: item.artefact,
        resources,
        source: item.source,
        comment: item.comment,
        popularity: item.popularity,
    }
}

/// The document of an empty list: what `[]` reads as.
pub open spec fn empty_document() -> serde_json::Value {
    json_document("[]"@)->0
}

/// The answer for a stored item: every field as stored, and the resources
/// text read as a JSON document.
pub open spec fn response_of(item: Item) -> ItemResponse {
    response_with(item, resources_document(item.resources@))
}

impl ItemResponse {
    /// Turns a stored item into the answer for clients.
    pub fn from_item(item: Item) -> (r: ItemResponse)
        ensures
            r == response_of(item),
    {
        let parsed = match parse_json(item.resources.as_str()) {
            Ok(v) => Some(v),
            Err(_) => None,
        };
        ItemResponse::from_parsed(item, parsed)
    }

    /// The answer for a stored item whose resources text was read as
    /// `parsed` (`None` when it is not JSON): an empty array stands in for
    /// an unreadable text.
    pub fn from_parsed(item: Item, parsed: Option<serde_json::Value>) -> (r: ItemResponse)
        ensures
            r == response_with(
                item,
                match parsed {
                    Some(v) => v,
                    None => empty_document(),
                },
            ),
    {
        let resources = match parsed {
            Some(v) => v,
            None => empty_json_array(),
        };
        ItemResponse {
            label: item.label,
            item_id: item.item_id,
            craft_price: item.craft_price,
            enchantment_price: item.enchantment_price,
            artefact_id: item.artefact_id,
            sell_price_fort_sterling: item.sell_price_fort_sterling,
            sell_price_martlock: item.sell_price_martlock,
            sell_price_thetford: item.sell_price_thetford,
            sell_price_brecilien: item.sell_price_brecilien,
            buy_price_fort_sterling: item.buy_price_fort_sterling,
            buy_price_martlock: item.buy_price_martlock,
            buy_price_thetford: item.buy_price_thetford,
            buy_price_brecilien: item.buy_price_brecilien,
            orders_thetford: item.orders_thetford,
            orders_fort_sterling: item.orders_fort_sterling,
            orders_martlock: item.orders_martlock,
            orders_brecilien: item.orders_brecilien,
            created_at: item.created_at,
            updated_at: item.updated_at,
            artefact: item.artefact,
            resources,
            source: item.source,
            comment: item.comment,
            popularity: item.popularity,
        }
    }
}

/// Law: the answer for a stored item repeats each of the item's fields
/// under the same name, and carries the given resources document.
pub proof fn lemma_response_copies_item(item: Item, resources: serde_json::Value)
    ensures
        ({
            let r = response_with(item, resources);
            &&& r.label == item.label
            &&& r.item_id == item.item_id
            &&& r.craft_price == item.craft_price
            &&& r.enchantment_price == item.enchantment_price
            &&& r.artefact_id == item.artefact_id
            &&& r.sell_price_fort_sterling == item.sell_price_fort_sterling
            &&& r.sell_price_martlock == item.sell_price_martlock
            &&& r.sell_price_thetford == item.sell_price_thetford
            &&& r.sell_price_brecilien == item.sell_price_brecilien
            &&& r.buy_price_fort_sterling == item.buy_price_fort_sterling
            &&& r.buy_price_martlock == item.buy_price_martlock
            &&& r.buy_price_thetford == item.buy_price_thetford
            &&& r.buy_price_brecilien == item.buy_price_brecilien
            &&& r.orders_thetford == item.orders_thetford
            &&& r.orders_fort_sterling == item.orders_fort_sterling
            &&& r.orders_martlock == item.orders_martlock
            &&& r.orders_brecilien == item.orders_brecilien
            &&& r.created_at == item.created_at
            &&& r.updated_at == item.updated_at
            &&& r.artefact == item.artefact
            &&& r.resources == resources
            &&& r.source == item.source
            &&& r.comment == item.comment
            &&& r.popularity == item.popularity
        }),
{
}

/// Law: the answer for a stored item repeats each of its fields, and its
/// resources are the document its stored text reads as (an empty array
/// where the text is not JSON).
pub proof fn lemma_item_response_fields(item: Item)
    ensures
        ({
            let r = response_of(item);
            &&& r.label == item.label
            &&& r.item_id == item.item_id
            &&& r.craft_price == item.craft_price
            &&& r.enchantment_price == item.enchantment_price
            &&& r.artefact_id == item.artefact_id
            &&& r.sell_price_fort_sterling == item.sell_price_fort_sterling
            &&& r.sell_price_martlock == item.sell_price_martlock
            &&& r.sell_price_thetford == item.sell_price_thetford
            &&& r.sell_price_brecilien == item.sell_price_brecilien
            &&& r.buy_price_fort_sterling == item.buy_price_fort_sterling
            &&& r.buy_price_martlock == item.buy_price_martlock
            &&& r.buy_price_thetford == item.buy_price_thetford
            &&& r.buy_price_brecilien == item.buy_price_brecilien
            &&& r.orders_thetford == item.orders_thetford
            &&& r.orders_fort_sterling == item.orders_fort_sterling
            &&& r.orders_martlock == item.orders_martlock
            &&& r.orders_brecilien == item.orders_brecilien
            &&& r.created_at == item.created_at
            &&& r.updated_at == item.updated_at
            &&& r.artefact == item.artefact
            &&& (json_document(item.resources@) matches Some(v) ==> r.resources == v)
            &&& (json_document(item.resources@) is None ==> r.resources == json_document("[]"@)->0)
            &&& r.source == item.source
            &&& r.comment == item.comment
            &&& r.popularity == item.popularity
        }),
{
    lemma_response_copies_item(item, resources_document(item.resources@));
}

/// Answers for a list of stored items, in the same order.
pub fn responses(items: Vec<Item>) -> (r: Vec<ItemResponse>)
    ensures
        r@.len() == items@.len(),
        forall|i: int| 0 <= i < items@.len() ==> #[trigger] r@[i] == response_of(items@[i]),
{
    let ghost all = items@;
    let mut rest = items;
    let mut answered: VecDeque<ItemResponse> = VecDeque::new();
    while rest.len() > 0
        invariant
            rest@.len() <= all.len(),
            rest@ == all.take(rest@.len() as int),
            answered@.len() == all.len() - rest@.len(),
            forall|i: int|
                0 <= i < answered@.len() ==> #[trigger] answered@[i] == response_of(
                    all[rest@.len() + i],
                ),
        decreases rest@.len(),
    {
        let ghost n = rest@.len();
        let item = rest.pop().unwrap();
        proof {
            assert(item == all[n - 1]);
            assert(rest@ =~= all.take(n - 1));
        }
        answered.push_front(ItemResponse::from_item(item));
    }
    let mut r: Vec<ItemResponse> = Vec::new();
    let ghost answers = answered@;
    while answered.len() > 0
        invariant
            r@ + answered@ == answers,
        decreases answered@.len(),
    {
        let a = answered.pop_front().unwrap();
        r.push(a);
        assert(r@ + answered@ =~= answers);
    }
    assert(r@ =~= answers);
    r
}

/// The text stored for a resources document: its JSON text, or `[]` when
/// it cannot be written.
pub open spec fn resources_text_of(v: serde_json::Value) -> Seq<char> {
    match json_text(v) {
        Some(t) => t,
        None => "[]"@,
    }
}

/// The text stored for a resources document written as `written` (`None`
/// when it could not be written): `[]` stands in for a failed write.
pub fn text_or_empty(written: Option<String>) -> (r: String)
    ensures
        r@ == match written {
            Some(s) => s@,
            None => "[]"@,
        },
{
    match written {
        Some(s) => s,
        None => String::from_str("[]"),
    }
}

impl ItemUpdate {
    /// The text an update stores for its resources document.
    pub fn resources_text(&self) -> (r: String)
        ensures
            r@ == resources_text_of(self.resources),
    {
        let written = match write_json(&self.resources) {
            Ok(s) => Some(s),
            Err(_) => None,
        };
        text_or_empty(written)
    }

    /// The record an update of the item `item_id` writes: the sent fields,
    /// the item id kept, the resources as text, and `manual` as source.
    pub fn stored_record(self, item_id: String) -> (r: ItemWithoutArtefact)
        ensures
            r.label == self.label,
            r.item_id == item_id,
            r.craft_price == self.craft_price,
            r.enchantment_price == self.enchantment_price,
            r.artefact_id == self.artefact_id,
            r.sell_price_fort_sterling == self.sell_price_fort_sterling,
            r.sell_price_martlock == self.sell_price_martlock,
            r.sell_price_thetford == self.sell_price_thetford,
            r.sell_price_brecilien == self.sell_price_brecilien,
            r.buy_price_fort_sterling == self.buy_price_fort_sterling,
            r.buy_price_martlock == self.buy_price_martlock,
            r.buy_price_thetford == self.buy_price_thetford,
            r.buy_price_brecilien == self.buy_price_brecilien,
            r.orders_thetford == self.orders_thetford,
            r.orders_fort_sterling == self.orders_fort_sterling,
            r.orders_martlock == self.orders_martlock,
            r.orders_brecilien == self.orders_brecilien,
            r.created_at == self.created_at,
            r.updated_at == self.updated_at,
            r.resources@ == resources_text_of(self.resources),
            r.source@ == "manual"@,
            r.comment == self.comment,
            r.popularity == self.popularity,
    {
        let resources = self.resources_text();
        ItemWithoutArtefact {
            label: self.label,
            item_id,
            craft_price: self.craft_price,
            enchantment_price: self.enchantment_price,
            artefact_id: self.artefact_id,
            sell_price_fort_sterling: self.sell_price_fort_sterling,
            sell_price_martlock: self.sell_price_martlock,
            sell_price_thetford: self.sell_price_thetford,
            sell_price_brecilien: self.sell_price_brecilien,
            buy_price_fort_sterling: self.buy_price_fort_sterling,
            buy_price_martlock: self.buy_price_martlock,
            buy_price_thetford: self.buy_price_thetford,
            buy_price_brecilien: self.buy_price_brecilien,
            orders_thetford: self.orders_thetford,
            orders_fort_sterling: self.orders_fort_sterling,
            orders_martlock: self.orders_martlock,
            orders_brecilien: self.orders_brecilien,
            created_at: self.created_at,
            updated_at: self.updated_at,
            resources,
            source: String::from_str("manual"),
            comment: self.comment,
            popularity: self.popularity,
        }
    }
}

impl Listed for Item {
    open spec fn label_view(&self) -> Seq<char> {
        self.label@
    }

    open spec fn item_id_view(&self) -> Seq<char> {
        self.item_id@
    }

    fn label_text(&self) -> (r: &str) {
        self.label.as_str()
    }

    fn item_id_text(&self) -> (r: &str) {
        self.item_id.as_str()
    }
}

/// Law: an item is listed by its stored label, then by the tier of its
/// item id.
pub proof fn lemma_item_listing_key(e: Item)
    ensures
        listing_key(e) == (encode_utf8(e.label@), tier_of(encode_utf8(e.item_id@))),
{
}

/// Law: in a sorted listing of items, the label bytes of an item never
/// come after those of a later one, and among equal labels the tiers of
/// the item ids do not decrease.
pub proof fn lemma_items_listed_by_label(s: Seq<Item>)
    requires
        sorted_by_listing(s),
    ensures
        forall|i: int, j: int|
            0 <= i < j < s.len() ==> !lex_lt(
                encode_utf8((#[trigger] s[j]).label@),
                encode_utf8((#[trigger] s[i]).label@),
            ) && (encode_utf8(s[i].label@) == encode_utf8(s[j].label@) ==> tier_of(
                encode_utf8(s[i].item_id@),
            ) <= tier_of(encode_utf8(s[j].item_id@))),
{
    assert forall|i: int, j: int| 0 <= i < j < s.len() implies !lex_lt(
        encode_utf8((#[trigger] s[j]).label@),
        encode_utf8((#[trigger] s[i]).label@),
    ) && (encode_utf8(s[i].label@) == encode_utf8(s[j].label@) ==> tier_of(
        encode_utf8(s[i].item_id@),
    ) <= tier_of(encode_utf8(s[j].item_id@))) by {
        assert(key_le(listing_key(s[i]), listing_key(s[j])));
    }
}

/// The columns read from the `items` table, with the two timestamps read
/// as strings.
pub const ITEM_COLUMNS: &'static str = "label, item_id, craft_price, enchantment_price, artefact_id, sell_price_fort_sterling, sell_price_martlock, sell_price_thetford, sell_price_brecilien, buy_price_fort_sterling, buy_price_martlock, buy_price_thetford, buy_price_brecilien, orders_thetford, orders_fort_sterling, orders_martlock, orders_brecilien, <string>created_at AS created_at, <string>updated_at AS updated_at, resources, source, comment, popularity";

/// The query that reads every item, column by column.
pub open spec fn list_items_text() -> Seq<char> {
    "SELECT "@ + ITEM_COLUMNS@ + " FROM items"@
}

/// The query that reads the items with the id bound as `$id`.
pub open spec fn read_item_text() -> Seq<char> {
    list_items_text() + " WHERE item_id = $id"@
}

/// Builds the query that reads every item.
pub fn list_items_query() -> (q: String)
    ensures
        q@ == list_items_text(),
{
    let mut q = String::from_str("SELECT ");
    q.append(ITEM_COLUMNS);
    q.append(" FROM items");
    q
}

/// Builds the query that reads the items with the id bound as `$id`.
pub fn read_item_query() -> (q: String)
    ensures
        q@ == read_item_text(),
{
    let mut q = list_items_query();
    q.append(" WHERE item_id = $id");
    q
}

} // verus!
