use albion_market::naming::{base_item_id, make_label, replace_underscores, tier, tier_label};

#[test]
fn tier_reads_digit_after_t() {
    assert_eq!(tier("T4_2H_CLEAVER_HELL"), 4);
    assert_eq!(tier("T8_BAG"), 8);
    assert_eq!(tier("T0_X"), 0);
    assert_eq!(tier("T9"), 9);
}

#[test]
fn tier_without_digit_is_zero() {
    assert_eq!(tier("TX_ITEM"), 0);
    assert_eq!(tier("T"), 0);
    assert_eq!(tier(""), 0);
    // byte 1 of a multi-byte first character is a continuation byte
    assert_eq!(tier("Ж4"), 0);
}

#[test]
fn tier_label_covers_tiers_two_to_eight() {
    assert_eq!(tier_label("T2_BAG"), "T2");
    assert_eq!(tier_label("T3_BAG"), "T3");
    assert_eq!(tier_label("T4_BAG"), "T4");
    assert_eq!(tier_label("T5_BAG"), "T5");
    assert_eq!(tier_label("T6_BAG"), "T6");
    assert_eq!(tier_label("T7_BAG"), "T7");
    assert_eq!(tier_label("T8_BAG"), "T8");
}

#[test]
fn tier_label_unknown_tier() {
    assert_eq!(tier_label("T1_BAG"), "T?");
    assert_eq!(tier_label("T9_BAG"), "T?");
    assert_eq!(tier_label("UNIQUE_X"), "T?");
    assert_eq!(tier_label("T0"), "T?");
}

#[test]
fn make_label_replaces_underscores() {
    assert_eq!(make_label("T4_2H_CLEAVER_HELL"), "T4 2H CLEAVER HELL");
    assert_eq!(make_label("T6_BAG"), "T6 BAG");
    assert_eq!(make_label("T4_"), "T4 ");
    assert_eq!(make_label("Q9_A__B_"), "T? A  B ");
}

#[test]
fn make_label_keeps_non_ascii_tail() {
    assert_eq!(make_label("T5_МЕЧ_ОГНЯ"), "T5 МЕЧ ОГНЯ");
}

#[test]
fn replace_underscores_only_touches_underscores() {
    assert_eq!(replace_underscores("a_b_c"), "a b c");
    assert_eq!(replace_underscores("abc"), "abc");
    assert_eq!(replace_underscores(""), "");
    assert_eq!(replace_underscores("__"), "  ");
}

#[test]
fn base_item_id_drops_enchantment() {
    assert_eq!(base_item_id("T4_2H_CLEAVER_HELL@2"), "T4_2H_CLEAVER_HELL");
    assert_eq!(base_item_id("T4_BAG"), "T4_BAG");
    assert_eq!(base_item_id("@1"), "");
    assert_eq!(base_item_id("A@B@C"), "A");
    assert_eq!(base_item_id(""), "");
}

#[test]
fn tier_label_names_the_tier() {
    for id in ["T2_A", "T5_B", "T8_C", "T0_D", "T9_E", "TX_F", "AB"] {
        let t = tier(id);
        let expected = if (2..=8).contains(&t) { format!("T{}", t) } else { "T?".to_string() };
        assert_eq!(tier_label(id), expected);
    }
}
