use albion_market::items::RecipeResource;
use albion_market::seeding::{
    create_artefact_query, create_item_query, create_resource_query, find_local_name, first_new_indices,
    label_for, merge_resources, parse_local_names, plan_backfill, plan_relabels, plan_seed, relabel_query,
    LocalName, Recipe, BACKFILL_QUERY, MISSING_RESOURCES_QUERY,
};

fn res(id: &str, count: &str) -> RecipeResource {
    RecipeResource { item_id: id.to_string(), count: count.to_string() }
}

fn recipe(item_id: &str, artefact_id: &str, resources: Vec<RecipeResource>) -> Recipe {
    Recipe { item_id: item_id.to_string(), artefact_id: artefact_id.to_string(), resources }
}

fn name(id: &str, n: &str) -> LocalName {
    LocalName { item_id: id.to_string(), name: n.to_string() }
}

fn strings(v: &[&str]) -> Vec<String> {
    v.iter().map(|s| s.to_string()).collect()
}

fn pairs(v: &[RecipeResource]) -> Vec<(String, String)> {
    v.iter().map(|r| (r.item_id.clone(), r.count.clone())).collect()
}

fn recipes() -> Vec<Recipe> {
    vec![
        recipe("T4_SWORD", "T4_ART_SWORD", vec![res("T4_METALBAR", "16"), res("T4_LEATHER", "8")]),
        recipe("T4_SWORD@1", "T4_ART_SWORD", vec![res("T4_METALBAR_LEVEL1@1", "16")]),
        recipe("T5_BOW", "T5_ART_BOW", vec![res("T5_PLANKS", "32"), res("T4_LEATHER", "4")]),
        recipe("T4_SWORD@2", "T4_ART_SWORD2", vec![res("T4_METALBAR", "20")]),
    ]
}

#[test]
fn seed_plan_creates_each_new_entry_once() {
    let names = vec![name("T5_BOW", "Лук"), name("T4_LEATHER", "Кожа")];
    let plan = plan_seed(&recipes(), &names, &strings(&[]), &strings(&["T5_ART_BOW"]), &strings(&["T5_PLANKS"]))
        .unwrap();
    let items: Vec<(String, String, String)> = plan
        .items
        .iter()
        .map(|s| (s.item_id.clone(), s.label.clone(), s.artefact_id.clone()))
        .collect();
    assert_eq!(
        items,
        vec![
            ("T4_SWORD".to_string(), "T4 SWORD".to_string(), "T4_ART_SWORD".to_string()),
            ("T5_BOW".to_string(), "Лук".to_string(), "T5_ART_BOW".to_string()),
        ]
    );
    assert_eq!(
        pairs(&plan.items[0].resources),
        vec![("T4_METALBAR".to_string(), "16".to_string()), ("T4_LEATHER".to_string(), "8".to_string())]
    );
    let artefacts: Vec<(String, String, String)> = plan
        .artefacts
        .iter()
        .map(|s| (s.item_id.clone(), s.label.clone(), s.crafted_item_id.clone()))
        .collect();
    assert_eq!(
        artefacts,
        vec![
            ("T4_ART_SWORD".to_string(), "T4 ART SWORD".to_string(), "T4_SWORD".to_string()),
            ("T4_ART_SWORD2".to_string(), "T4 ART SWORD2".to_string(), "T4_SWORD".to_string()),
        ]
    );
    let resources: Vec<(String, String)> =
        plan.resources.iter().map(|s| (s.item_id.clone(), s.label.clone())).collect();
    assert_eq!(
        resources,
        vec![
            ("T4_METALBAR".to_string(), "T4 METALBAR".to_string()),
            ("T4_LEATHER".to_string(), "Кожа".to_string()),
            ("T4_METALBAR_LEVEL1@1".to_string(), "T4 METALBAR LEVEL1@1".to_string()),
        ]
    );
}

#[test]
fn seed_plan_skips_stored_entries() {
    let plan = plan_seed(
        &recipes(),
        &vec![],
        &strings(&["T4_SWORD", "T5_BOW"]),
        &strings(&["T4_ART_SWORD", "T4_ART_SWORD2", "T5_ART_BOW"]),
        &strings(&["T4_METALBAR", "T4_LEATHER", "T4_METALBAR_LEVEL1@1", "T5_PLANKS"]),
    )
    .unwrap();
    assert!(plan.items.is_empty());
    assert!(plan.artefacts.is_empty());
    assert!(plan.resources.is_empty());
}

#[test]
fn seed_plan_needs_labels() {
    let short = vec![recipe("AB", "T4_ART", vec![])];
    assert!(plan_seed(&short, &vec![], &strings(&[]), &strings(&[]), &strings(&[])).is_none());
    assert!(plan_seed(&short, &vec![name("AB", "Аб")], &strings(&[]), &strings(&[]), &strings(&[])).is_some());
    assert!(plan_seed(&short, &vec![], &strings(&["AB"]), &strings(&[]), &strings(&[])).is_some());
    assert!(plan_seed(&vec![], &vec![], &strings(&[]), &strings(&[]), &strings(&[])).is_some());
}

#[test]
fn labels_prefer_local_names() {
    let names = vec![name("T4_BAG", "Сумка"), name("T4_BAG", "Другая")];
    assert_eq!(find_local_name(&names, "T4_BAG"), Some("Сумка".to_string()));
    assert_eq!(find_local_name(&names, "T5_BAG"), None);
    assert_eq!(label_for(&names, "T4_BAG"), Some("Сумка".to_string()));
    assert_eq!(label_for(&names, "T5_BAG"), Some("T5 BAG".to_string()));
    assert_eq!(label_for(&names, "T5"), None);
    assert_eq!(label_for(&names, "ЖX"), Some("T? ".to_string()));
    assert_eq!(label_for(&names, "ЖЖ"), None);
}

#[test]
fn first_new_indices_keep_first_occurrences() {
    let keys = strings(&["a", "b", "a", "c", "b", "d"]);
    assert_eq!(first_new_indices(&keys, &strings(&[])), vec![0, 1, 3, 5]);
    assert_eq!(first_new_indices(&keys, &strings(&["b", "d"])), vec![0, 3]);
}

#[test]
fn merged_resources_unique_by_id() {
    let merged = merge_resources(&recipes(), "T4_SWORD");
    assert_eq!(
        pairs(&merged),
        vec![
            ("T4_METALBAR".to_string(), "16".to_string()),
            ("T4_LEATHER".to_string(), "8".to_string()),
            ("T4_METALBAR_LEVEL1@1".to_string(), "16".to_string()),
        ]
    );
    assert!(merge_resources(&recipes(), "T9_NOTHING").is_empty());
}

#[test]
fn backfill_for_stored_items_with_recipes() {
    let stored = vec![Some("T5_BOW".to_string()), None, Some("T9_X".to_string()), Some("T4_SWORD".to_string())];
    let fills = plan_backfill(&recipes(), &stored);
    assert_eq!(fills.len(), 2);
    assert_eq!(fills[0].item_id, "T5_BOW");
    assert_eq!(
        pairs(&fills[0].resources),
        vec![("T5_PLANKS".to_string(), "32".to_string()), ("T4_LEATHER".to_string(), "4".to_string())]
    );
    assert_eq!(fills[1].item_id, "T4_SWORD");
    assert_eq!(fills[1].resources.len(), 3);
}

#[test]
fn relabels_rows_with_local_names() {
    let names = vec![name("T4_BAG", "Сумка"), name("T5_CAPE", "Плащ")];
    let rows = vec![Some("T5_CAPE".to_string()), None, Some("T6_BAG".to_string()), Some("T4_BAG".to_string())];
    let plan: Vec<(String, String)> =
        plan_relabels(&names, &rows).into_iter().map(|r| (r.item_id, r.label)).collect();
    assert_eq!(
        plan,
        vec![("T5_CAPE".to_string(), "Плащ".to_string()), ("T4_BAG".to_string(), "Сумка".to_string())]
    );
    assert_eq!(relabel_query("items"), "UPDATE items SET label = $label WHERE item_id = $id");
}

#[test]
fn seeding_twice_creates_nothing_the_second_time() {
    let names = vec![name("T5_BOW", "Лук")];
    let mut items = strings(&["T5_BOW"]);
    let mut artefacts = strings(&[]);
    let mut resources = strings(&["T4_LEATHER"]);
    let first = plan_seed(&recipes(), &names, &items, &artefacts, &resources).unwrap();
    assert_eq!(first.items.len(), 1);
    assert_eq!(first.artefacts.len(), 3);
    assert_eq!(first.resources.len(), 3);
    items.extend(first.items.iter().map(|s| s.item_id.clone()));
    artefacts.extend(first.artefacts.iter().map(|s| s.item_id.clone()));
    resources.extend(first.resources.iter().map(|s| s.item_id.clone()));
    let second = plan_seed(&recipes(), &names, &items, &artefacts, &resources).unwrap();
    assert!(second.items.is_empty());
    assert!(second.artefacts.is_empty());
    assert!(second.resources.is_empty());
}

#[test]
fn local_names_parse_from_a_json_object() {
    let mut names = parse_local_names(r#"{"T4_BAG": "Сумка", "T5_BOW": "Лук"}"#).unwrap();
    names.sort_by(|a, b| a.item_id.cmp(&b.item_id));
    let entries: Vec<(String, String)> = names.iter().map(|n| (n.item_id.clone(), n.name.clone())).collect();
    assert_eq!(
        entries,
        vec![("T4_BAG".to_string(), "Сумка".to_string()), ("T5_BOW".to_string(), "Лук".to_string())]
    );
    assert_eq!(find_local_name(&names, "T5_BOW"), Some("Лук".to_string()));
    assert_eq!(find_local_name(&names, "T6_AXE"), None);
}

#[test]
fn local_names_keep_the_last_of_a_repeated_id() {
    let names = parse_local_names(r#"{"T4_BAG": "Сумка", "T4_BAG": "Мешок"}"#).unwrap();
    assert_eq!(names.len(), 1);
    assert_eq!(find_local_name(&names, "T4_BAG"), Some("Мешок".to_string()));
}

#[test]
fn local_names_refuse_other_texts() {
    assert!(parse_local_names("").is_none());
    assert!(parse_local_names("[]").is_none());
    assert!(parse_local_names(r#"{"T4_BAG": 3}"#).is_none());
    assert!(parse_local_names("{").is_none());
    assert_eq!(parse_local_names("{}").unwrap().len(), 0);
}

#[test]
fn seeded_rows_start_with_zero_prices() {
    assert_eq!(
        create_item_query(),
        "CREATE items SET label=$label, item_id=$item_id, craft_price='0', enchantment_price='0', artefact_id=$artefact_id, sell_price_fort_sterling='0', sell_price_martlock='0', sell_price_thetford='0', sell_price_brecilien='0', buy_price_fort_sterling='0', buy_price_martlock='0', buy_price_thetford='0', buy_price_brecilien='0', orders_thetford='0', orders_fort_sterling='0', orders_martlock='0', orders_brecilien='0', created_at=$now, updated_at=$now, resources=$resources, comment='', popularity='0', source='api'"
    );
    assert_eq!(
        create_artefact_query(),
        "CREATE artefacts SET label=$label, item_id=$item_id, crafted_item_id=$crafted_item_id, sell_price_fort_sterling='0', sell_price_martlock='0', sell_price_thetford='0', sell_price_brecilien='0', buy_price_fort_sterling='0', buy_price_martlock='0', buy_price_thetford='0', buy_price_brecilien='0', orders_thetford='0', orders_fort_sterling='0', orders_martlock='0', orders_brecilien='0', created_at=$now, updated_at=$now, comment='', popularity='0', source='api'"
    );
    assert_eq!(
        create_resource_query(),
        "CREATE resources SET label=$label, item_id=$item_id, craft_price='0', sell_price_fort_sterling='0', sell_price_martlock='0', sell_price_thetford='0', sell_price_brecilien='0', buy_price_fort_sterling='0', buy_price_martlock='0', buy_price_thetford='0', buy_price_brecilien='0', orders_thetford='0', orders_fort_sterling='0', orders_martlock='0', orders_brecilien='0', created_at=$now, updated_at=$now, comment='', popularity='0', source='api'"
    );
}

#[test]
fn backfill_queries() {
    assert_eq!(MISSING_RESOURCES_QUERY, "SELECT item_id, resources FROM items WHERE resources IS NONE LIMIT 1");
    assert_eq!(
        BACKFILL_QUERY,
        "UPDATE items SET resources = $resources WHERE item_id = $id AND resources IS NONE"
    );
}
