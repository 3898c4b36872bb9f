use albion_market::listing::{listing_lt, sort_listing};
use albion_market::resources::Resource;

fn resource(label: &str, item_id: &str, price: &str) -> Resource {
    Resource {
        label: label.to_string(),
        item_id: item_id.to_string(),
        craft_price: price.to_string(),
        sell_price_fort_sterling: String::new(),
        sell_price_martlock: String::new(),
        sell_price_thetford: String::new(),
        sell_price_brecilien: String::new(),
        buy_price_fort_sterling: String::new(),
        buy_price_martlock: String::new(),
        buy_price_thetford: String::new(),
        buy_price_brecilien: String::new(),
        orders_thetford: String::new(),
        orders_fort_sterling: String::new(),
        orders_martlock: String::new(),
        orders_brecilien: String::new(),
        created_at: String::new(),
        updated_at: String::new(),
    }
}

fn keys(v: &[Resource]) -> Vec<(String, String, String)> {
    v.iter().map(|r| (r.label.clone(), r.item_id.clone(), r.craft_price.clone())).collect()
}

#[test]
fn sorts_by_label_then_tier() {
    let mut v = vec![
        resource("Leather", "T6_LEATHER", "a"),
        resource("Cloth", "T4_CLOTH", "b"),
        resource("Leather", "T4_LEATHER", "c"),
        resource("Bar", "T8_METALBAR", "d"),
    ];
    sort_listing(&mut v);
    assert_eq!(
        keys(&v),
        vec![
            ("Bar".to_string(), "T8_METALBAR".to_string(), "d".to_string()),
            ("Cloth".to_string(), "T4_CLOTH".to_string(), "b".to_string()),
            ("Leather".to_string(), "T4_LEATHER".to_string(), "c".to_string()),
            ("Leather".to_string(), "T6_LEATHER".to_string(), "a".to_string()),
        ]
    );
}

#[test]
fn sort_is_stable_for_equal_keys() {
    let mut v = vec![
        resource("Ore", "T4_ORE", "first"),
        resource("Ore", "T4_ORE@1", "second"),
        resource("Ore", "T3_ORE", "third"),
        resource("Ore", "T4_ORE@2", "fourth"),
    ];
    sort_listing(&mut v);
    let prices: Vec<String> = v.iter().map(|r| r.craft_price.clone()).collect();
    assert_eq!(prices, vec!["third", "first", "second", "fourth"]);
}

#[test]
fn sort_matches_std_stable_sort() {
    let labels = ["b", "a", "Ж", "a", "", "ab", "B", "b"];
    let ids = ["T5", "T2", "T1", "T9", "XX", "T3", "T4", "T1"];
    let mut v: Vec<Resource> = labels
        .iter()
        .zip(ids.iter())
        .enumerate()
        .map(|(i, (l, id))| resource(l, id, &i.to_string()))
        .collect();
    let mut expected = keys(&v);
    expected.sort_by(|a, b| {
        a.0.cmp(&b.0).then_with(|| {
            let ta = albion_market::naming::tier(&a.1);
            let tb = albion_market::naming::tier(&b.1);
            ta.cmp(&tb)
        })
    });
    sort_listing(&mut v);
    assert_eq!(keys(&v), expected);
}

#[test]
fn sort_of_sorted_listing_changes_nothing() {
    let mut v = vec![resource("A", "T2_A", "1"), resource("A", "T3_A", "2"), resource("B", "T2_B", "3")];
    let before = keys(&v);
    sort_listing(&mut v);
    assert_eq!(keys(&v), before);
    let mut empty: Vec<Resource> = Vec::new();
    sort_listing(&mut empty);
    assert!(empty.is_empty());
}

#[test]
fn listing_order_compares_label_then_tier() {
    assert!(listing_lt(&resource("A", "T9", ""), &resource("B", "T1", "")));
    assert!(listing_lt(&resource("A", "T1", ""), &resource("A", "T2", "")));
    assert!(!listing_lt(&resource("A", "T2", ""), &resource("A", "T2@1", "")));
    assert!(!listing_lt(&resource("B", "T1", ""), &resource("A", "T9", "")));
}
