use albion_market::error::ServiceError;
use albion_market::items::{list_items_query, read_item_query, responses, text_or_empty, Item, ItemResponse, ItemUpdate};
use albion_market::person::{select_person_query, update_person_query};
use serde_json::Value;

fn item(label: &str, item_id: &str, resources: &str) -> Item {
    Item {
        label: label.to_string(),
        item_id: item_id.to_string(),
        craft_price: "10".to_string(),
        enchantment_price: "20".to_string(),
        artefact_id: "ART".to_string(),
        sell_price_fort_sterling: "1".to_string(),
        sell_price_martlock: "2".to_string(),
        sell_price_thetford: "3".to_string(),
        sell_price_brecilien: "4".to_string(),
        buy_price_fort_sterling: "5".to_string(),
        buy_price_martlock: "6".to_string(),
        buy_price_thetford: "7".to_string(),
        buy_price_brecilien: "8".to_string(),
        orders_thetford: "9".to_string(),
        orders_fort_sterling: "10".to_string(),
        orders_martlock: "11".to_string(),
        orders_brecilien: "12".to_string(),
        created_at: "100".to_string(),
        updated_at: "200".to_string(),
        artefact: None,
        resources: resources.to_string(),
        source: "api".to_string(),
        comment: "note".to_string(),
        popularity: "3".to_string(),
    }
}

fn update(resources: Value) -> ItemUpdate {
    ItemUpdate {
        label: "Bag".to_string(),
        item_id: "IGNORED".to_string(),
        craft_price: "10".to_string(),
        enchantment_price: "20".to_string(),
        artefact_id: "ART".to_string(),
        sell_price_fort_sterling: "1".to_string(),
        sell_price_martlock: "2".to_string(),
        sell_price_thetford: "3".to_string(),
        sell_price_brecilien: "4".to_string(),
        buy_price_fort_sterling: "5".to_string(),
        buy_price_martlock: "6".to_string(),
        buy_price_thetford: "7".to_string(),
        buy_price_brecilien: "8".to_string(),
        orders_thetford: "9".to_string(),
        orders_fort_sterling: "10".to_string(),
        orders_martlock: "11".to_string(),
        orders_brecilien: "12".to_string(),
        created_at: "100".to_string(),
        updated_at: "200".to_string(),
        resources,
        source: "api".to_string(),
        comment: "note".to_string(),
        popularity: "3".to_string(),
    }
}

#[test]
fn response_reads_resources_json() {
    let r = ItemResponse::from_item(item(
        "Bag",
        "T4_BAG",
        r#"[{"item_id":"T4_LEATHER","count":"8"}]"#,
    ));
    let expected: Value = serde_json::from_str(r#"[{"item_id":"T4_LEATHER","count":"8"}]"#).unwrap();
    assert_eq!(r.resources, expected);
    assert_eq!(r.label, "Bag");
    assert_eq!(r.item_id, "T4_BAG");
    assert_eq!(r.orders_brecilien, "12");
    assert_eq!(r.popularity, "3");
    assert!(r.artefact.is_none());
}

#[test]
fn response_of_unreadable_resources_is_empty_array() {
    let r = ItemResponse::from_item(item("Bag", "T4_BAG", "not json"));
    assert_eq!(r.resources, Value::Array(vec![]));
    let r = ItemResponse::from_item(item("Bag", "T4_BAG", ""));
    assert_eq!(r.resources, Value::Array(vec![]));
}

#[test]
fn responses_keep_order() {
    let r = responses(vec![item("A", "T4_A", "[]"), item("B", "T5_B", "{}")]);
    assert_eq!(r.len(), 2);
    assert_eq!(r[0].label, "A");
    assert_eq!(r[1].label, "B");
    assert_eq!(r[1].resources, Value::Object(serde_json::Map::new()));
}

#[test]
fn update_stores_resources_as_text_and_manual_source() {
    let doc: Value = serde_json::from_str(r#"[{"count":"2","item_id":"T4_ORE"}]"#).unwrap();
    let u = update(doc.clone());
    assert_eq!(u.resources_text(), serde_json::to_string(&doc).unwrap());
    let row = update(doc).stored_record("T4_BAG".to_string());
    assert_eq!(row.item_id, "T4_BAG");
    assert_eq!(row.source, "manual");
    assert_eq!(row.label, "Bag");
    assert_eq!(row.comment, "note");
    assert_eq!(row.resources, r#"[{"count":"2","item_id":"T4_ORE"}]"#);
}

#[test]
fn update_of_null_resources_stores_null() {
    let u = update(Value::Null);
    assert_eq!(u.resources_text(), "null");
}

#[test]
fn error_messages() {
    assert_eq!(ServiceError::Db.message(), "database error");
    assert_eq!(ServiceError::Request.message(), "request error");
}

#[test]
fn person_queries_quote_the_name() {
    assert_eq!(select_person_query("Ann"), "SELECT * FROM person WHERE name = 'Ann'");
    assert_eq!(update_person_query("Ann"), "UPDATE person CONTENT $content WHERE name = 'Ann'");
}

#[test]
fn response_from_parsed_document() {
    let r = ItemResponse::from_parsed(item("Bag", "T4_BAG", "ignored"), Some(Value::Bool(true)));
    assert_eq!(r.resources, Value::Bool(true));
    assert_eq!(r.item_id, "T4_BAG");
    let r = ItemResponse::from_parsed(item("Bag", "T4_BAG", "ignored"), None);
    assert_eq!(r.resources, Value::Array(vec![]));
}

#[test]
fn stored_text_of_written_document() {
    assert_eq!(text_or_empty(Some("{\"a\":1}".to_string())), "{\"a\":1}");
    assert_eq!(text_or_empty(None), "[]");
}

#[test]
fn item_read_queries() {
    let columns = "label, item_id, craft_price, enchantment_price, artefact_id, sell_price_fort_sterling, sell_price_martlock, sell_price_thetford, sell_price_brecilien, buy_price_fort_sterling, buy_price_martlock, buy_price_thetford, buy_price_brecilien, orders_thetford, orders_fort_sterling, orders_martlock, orders_brecilien, <string>created_at AS created_at, <string>updated_at AS updated_at, resources, source, comment, popularity";
    assert_eq!(list_items_query(), format!("SELECT {} FROM items", columns));
    assert_eq!(read_item_query(), format!("SELECT {} FROM items WHERE item_id = $id", columns));
}
