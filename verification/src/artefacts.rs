//! Artefacts: the parts that crafting an artefact item needs, with their
//! market prices per city.
use vstd::prelude::*;
use vstd::utf8::*;
use crate::listing::{key_le, listing_key, sorted_by_listing, Listed};
use crate::naming::tier_of;
use crate::text::lex_lt;

verus! {

/// An artefact record as stored in the `artefacts` table.
pub struct Artefact {
    pub label: String,
    pub item_id: String,
    pub crafted_item_id: String,
    pub sell_price_fort_sterling: String,
    pub sell_price_martlock: String,
    pub sell_price_thetford: String,
    pub sell_price_brecilien: String,
    pub buy_price_fort_sterling: String,
    pub buy_price_martlock: String,
    pub buy_price_thetford: String,
    pub buy_price_brecilien: String,
    pub orders_thetford: String,
    pub orders_fort_sterling: String,
    pub orders_martlock: String,
    pub orders_brecilien: String,
    pub created_at: String,
    pub updated_at: String,
    pub source: String,
}

impl Listed for Artefact {
    open spec fn label_view(&self) -> Seq<char> {
        self.label@
    }

    open spec fn item_id_view(&self) -> Seq<char> {
        self.item_id@
    }

    fn label_text(&self) -> (r: &str) {
        self.label.as_str()
    }

    fn item_id_text(&self) -> (r: &str) {
        self.item_id.as_str()
    }
}

/// Law: a artefact is listed by its stored label, then by the tier of its
/// item id.
pub proof fn lemma_artefact_listing_key(e: Artefact)
    ensures
        listing_key(e) == (encode_utf8(e.label@), tier_of(encode_utf8(e.item_id@))),
{
}

/// Law: in a sorted listing of artefacts, the label bytes of a artefact never
/// come after those of a later one, and among equal labels the tiers of
/// the item ids do not decrease.
pub proof fn lemma_artefacts_listed_by_label(s: Seq<Artefact>)
    requires
        sorted_by_listing(s),
    ensures
        forall|i: int, j: int|
            0 <= i < j < s.len() ==> !lex_lt(
                encode_utf8((#[trigger] s[j]).label@),
                encode_utf8((#[trigger] s[i]).label@),
            ) && (encode_utf8(s[i].label@) == encode_utf8(s[j].label@) ==> tier_of(
                encode_utf8(s[i].item_id@),
            ) <= tier_of(encode_utf8(s[j].item_id@))),
{
    assert forall|i: int, j: int| 0 <= i < j < s.len() implies !lex_lt(
        encode_utf8((#[trigger] s[j]).label@),
        encode_utf8((#[trigger] s[i]).label@),
    ) && (encode_utf8(s[i].label@) == encode_utf8(s[j].label@) ==> tier_of(
        encode_utf8(s[i].item_id@),
    ) <= tier_of(encode_utf8(s[j].item_id@))) by {
        assert(key_le(listing_key(s[i]), listing_key(s[j])));
    }
}

} // verus!
