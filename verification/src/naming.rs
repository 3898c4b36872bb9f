//! Naming of catalogue entries from their Albion item ids, such as
//! `T4_2H_CLEAVER_HELL@2`: the tier digit at byte 1, a readable label,
//! and the base id before the enchantment suffix.
use vstd::prelude::*;
use vstd::string::*;
use vstd::utf8::*;

verus! {

/// Whether a byte is an ASCII decimal digit.
pub open spec fn is_digit_byte(b: u8) -> bool {
    48 <= b <= 57
}

/// The tier of an item id: the digit at byte 1 of its UTF-8 encoding, or 0
/// when there is no such byte or it is not a digit.
pub open spec fn tier_of(bytes: Seq<u8>) -> u8 {
    if bytes.len() > 1 && is_digit_byte(bytes[1]) {
        (bytes[1] - 48) as u8
    } else {
        0
    }
}

/// Reads the tier of an item id.
pub fn tier(item_id: &str) -> (t: u8)
    ensures
        t == tier_of(item_id.spec_bytes()),
        t <= 9,
{
    let bytes = item_id.as_bytes();
    if bytes.len() > 1 {
        let b = bytes[1];
        if b >= 48 && b <= 57 {
            return b - 48;
        }
    }
    0
}

/// The tier label: `T` and the byte at index 1 when that byte is one of the
/// digits `2` to `8`, else `T?`.
pub open spec fn tier_label_text(bytes: Seq<u8>) -> Seq<char> {
    if 50 <= bytes[1] <= 56 {
        seq!['T', bytes[1] as char]
    } else {
        seq!['T', '?']
    }
}

/// Labels the tier of an item id (`T2` to `T8`, or `T?`).
pub fn tier_label(item_id: &str) -> (label: String)
    requires
        item_id.spec_bytes().len() >= 2,
    ensures
        label@ == tier_label_text(item_id.spec_bytes()),
{
    let b = item_id.as_bytes()[1];
    proof {
        reveal_strlit("T2");
        reveal_strlit("T3");
        reveal_strlit("T4");
        reveal_strlit("T5");
        reveal_strlit("T6");
        reveal_strlit("T7");
        reveal_strlit("T8");
        reveal_strlit("T?");
    }
    if b == 50 {
        String::from_str("T2")
    } else if b == 51 {
        String::from_str("T3")
    } else if b == 52 {
        String::from_str("T4")
    } else if b == 53 {
        String::from_str("T5")
    } else if b == 54 {
        String::from_str("T6")
    } else if b == 55 {
        String::from_str("T7")
    } else if b == 56 {
        String::from_str("T8")
    } else {
        String::from_str("T?")
    }
}

/// Law: the tier label names the tier that `tier` reads: `T` and the tier's
/// digit for tiers 2 to 8, and `T?` for any other byte at index 1.
pub proof fn lemma_tier_label_names_tier(bytes: Seq<u8>)
    requires
        bytes.len() >= 2,
    ensures
        2 <= tier_of(bytes) <= 8 ==> tier_label_text(bytes) == seq!['T', (48 + tier_of(bytes)) as char],
        !(2 <= tier_of(bytes) <= 8) ==> tier_label_text(bytes) == seq!['T', '?'],
{
}

/// Every underscore replaced by a space.
pub open spec fn underscores_to_spaces(s: Seq<char>) -> Seq<char> {
    s.map_values(|c: char| if c == '_' { ' ' } else { c })
}

/// Replaces every underscore of a text by a space.
pub fn replace_underscores(s: &str) -> (r: String)
    ensures
        r@ == underscores_to_spaces(s@),
{
    let n = s.unicode_len();
    let mut r = String::new();
    let mut i: usize = 0;
    while i < n
        invariant
            n == s@.len(),
            i <= n,
            r@ == underscores_to_spaces(s@.take(i as int)),
        decreases n - i,
    {
        let c = s.get_char(i);
        let ghost before = r@;
        if c == '_' {
            proof {
                reveal_strlit(" ");
            }
            r.append(" ");
            assert(r@ =~= before.push(' '));
        } else {
            let piece = s.substring_char(i, i + 1);
            assert(piece@ =~= seq![c]);
            r.append(piece);
            assert(r@ =~= before.push(c));
        }
        assert(s@.take(i + 1) =~= s@.take(i as int).push(c));
        assert(underscores_to_spaces(s@.take(i + 1)) =~= underscores_to_spaces(
            s@.take(i as int),
        ).push(if c == '_' { ' ' } else { c }));
        i = i + 1;
    }
    assert(s@.take(n as int) =~= s@);
    r
}

/// The readable label of an item id: its tier label, a space, and the text
/// after its first three bytes with underscores shown as spaces.
pub open spec fn readable_label(bytes: Seq<u8>) -> Seq<char> {
    tier_label_text(bytes) + seq![' '] + underscores_to_spaces(
        decode_utf8(bytes.subrange(3, bytes.len() as int)),
    )
}

/// Whether an item id can be given a readable label: byte 3 must start a
/// character (or end the text).
pub open spec fn labelable(item_id: Seq<char>) -> bool {
    is_char_boundary(encode_utf8(item_id), 3)
}

/// Makes a readable label for an item id, as `T4 2H CLEAVER HELL` for
/// `T4_2H_CLEAVER_HELL`.
pub fn make_label(item_id: &str) -> (label: String)
    requires
        labelable(item_id@),
    ensures
        label@ == readable_label(item_id.spec_bytes()),
{
    broadcast use encode_utf8_valid_utf8, encode_utf8_decode_utf8;

    let tier = tier_label(item_id);
    let (_, name_part) = item_id.split_at(3);
    assert(name_part@ == decode_utf8(name_part.spec_bytes()));
    let readable = replace_underscores(name_part);
    let mut label = tier;
    proof {
        reveal_strlit(" ");
    }
    label.append(" ");
    label.append(readable.as_str());
    label
}

/// The number of characters before the first `@`, or the whole length.
pub open spec fn at_sign_index(s: Seq<char>) -> nat
    decreases s.len(),
{
    if s.len() == 0 {
        0
    } else if s[0] == '@' {
        0
    } else {
        1 + at_sign_index(s.drop_first())
    }
}

/// The base id of an item id: the text before its first `@`.
pub open spec fn base_id_of(s: Seq<char>) -> Seq<char> {
    s.take(at_sign_index(s) as int)
}

proof fn lemma_at_sign_index(s: Seq<char>)
    ensures
        at_sign_index(s) <= s.len(),
        at_sign_index(s) < s.len() ==> s[at_sign_index(s) as int] == '@',
        forall|j: int| 0 <= j < at_sign_index(s) ==> s[j] != '@',
    decreases s.len(),
{
    if s.len() > 0 && s[0] != '@' {
        lemma_at_sign_index(s.drop_first());
        assert forall|j: int| 0 <= j < at_sign_index(s) implies s[j] != '@' by {
            if j > 0 {
                assert(s[j] == s.drop_first()[j - 1]);
            }
        }
    }
}

/// The index is the first `@`, or the length when there is none.
pub proof fn lemma_at_sign_index_first(s: Seq<char>, k: int)
    requires
        0 <= k <= s.len(),
        k < s.len() ==> s[k] == '@',
        forall|j: int| 0 <= j < k ==> s[j] != '@',
    ensures
        at_sign_index(s) == k,
{
    lemma_at_sign_index(s);
}

/// Law: the base id of an item id is the part of it before its first `@`:
/// a prefix holding no `@`, followed in the id by `@` or by nothing.
pub proof fn lemma_base_id_before_first_at(s: Seq<char>)
    ensures
        base_id_of(s).len() <= s.len(),
        base_id_of(s) == s.take(base_id_of(s).len() as int),
        forall|j: int| 0 <= j < base_id_of(s).len() ==> #[trigger] base_id_of(s)[j] != '@',
        base_id_of(s).len() < s.len() ==> s[base_id_of(s).len() as int] == '@',
        !s.contains('@') ==> base_id_of(s) == s,
{
    lemma_at_sign_index(s);
    if !s.contains('@') && at_sign_index(s) < s.len() {
        assert(s[at_sign_index(s) as int] == '@');
    }
    assert(!s.contains('@') ==> base_id_of(s) =~= s);
}

/// The base id of an item id, dropping any `@` enchantment suffix.
pub fn base_item_id(item_id: &str) -> (base: String)
    ensures
        base@ == base_id_of(item_id@),
{
    let n = item_id.unicode_len();
    let mut k: usize = 0;
    while k < n
        invariant
            n == item_id@.len(),
            k <= n,
            forall|j: int| 0 <= j < k ==> item_id@[j] != '@',
        ensures
            k <= n,
            k < n ==> item_id@[k as int] == '@',
            forall|j: int| 0 <= j < k ==> item_id@[j] != '@',
        decreases n - k,
    {
        if item_id.get_char(k) == '@' {
            break;
        }
        k = k + 1;
    }
    proof {
        lemma_at_sign_index_first(item_id@, k as int);
    }
    String::from_str(item_id.substring_char(0, k))
}

} // verus!
