//! Seeding the catalogue from crafting recipes: which items, artefacts and
//! resources to create (those not stored yet, each once, in the order the
//! recipes first name them), with which labels; and which stored labels to
//! replace by localised names.
use vstd::prelude::*;
use vstd::string::*;
use vstd::utf8::*;
use crate::items::RecipeResource;
use crate::naming::{base_id_of, base_item_id, labelable, make_label, readable_label};
use crate::text::{text_eq, texts};

verus! {

/// A crafting recipe: the crafted item (possibly with an `@` enchantment
/// suffix), the artefact it needs, and the resources it consumes.
pub struct Recipe {
    pub item_id: String,
    pub artefact_id: String,
    pub resources: Vec<RecipeResource>,
}

/// A localised name for an item id.
pub struct LocalName {
    pub item_id: String,
    pub name: String,
}

/// The localised name of an id: that of the first entry for it.
pub open spec fn local_name(names: Seq<LocalName>, id: Seq<char>) -> Option<Seq<char>>
    decreases names.len(),
{
    if names.len() == 0 {
        None
    } else if names[0].item_id@ == id {
        Some(names[0].name@)
    } else {
        local_name(names.drop_first(), id)
    }
}

/// The label of an id: its localised name, else its readable label; `None`
/// when it has neither.
pub open spec fn label_of(names: Seq<LocalName>, id: Seq<char>) -> Option<Seq<char>> {
    match local_name(names, id) {
        Some(n) => Some(n),
        None => if labelable(id) {
            Some(readable_label(encode_utf8(id)))
        } else {
            None
        },
    }
}

/// The object of strings that `serde_json::from_str` reads from a text into
/// a `HashMap<String, String>`, or `None` where it reports an error.
pub uninterp spec fn json_string_map(text: Seq<char>) -> Option<Map<Seq<char>, Seq<char>>>;

/// Whether a list of localised names holds exactly the entries of a map,
/// each id once.
pub open spec fn names_of_map(names: Seq<LocalName>, m: Map<Seq<char>, Seq<char>>) -> bool {
    &&& forall|i: int, j: int|
        0 <= i < j < names.len() ==> (#[trigger] names[i]).item_id@ != (#[trigger] names[j]).item_id@
    &&& forall|i: int|
        0 <= i < names.len() ==> m.dom().contains((#[trigger] names[i]).item_id@) && m[names[i].item_id@]
            == names[i].name@
    &&& forall|k: Seq<char>| #[trigger]
        m.dom().contains(k) ==> exists|i: int| 0 <= i < names.len() && (#[trigger] names[i]).item_id@ == k
}

/// Reads the localised names file: calls `serde_json::from_str` into a
/// `HashMap<String, String>` and lists its entries, in the map's own order.
/// It succeeds exactly when the text is such an object, and the list holds
/// exactly that object's entries, each id once.
#[verifier::external_body]
pub fn parse_local_names(text: &str) -> (r: Option<Vec<LocalName>>)
    ensures
        r is Some <==> json_string_map(text@) is Some,
        r matches Some(v) ==> names_of_map(v@, json_string_map(text@)->0),
{
    serde_json::from_str::<std::collections::HashMap<String, String>>(text).ok().map(
        |m| m.into_iter().map(|(item_id, name)| LocalName { item_id, name }).collect(),
    )
}

/// Law: in a list holding exactly a map's entries, looking up an id gives
/// the map's value for it, whatever the order of the list.
pub proof fn lemma_names_of_map_lookup(names: Seq<LocalName>, m: Map<Seq<char>, Seq<char>>, id: Seq<char>)
    requires
        names_of_map(names, m),
    ensures
        local_name(names, id) == (if m.dom().contains(id) {
            Some(m[id])
        } else {
            None
        }),
    decreases names.len(),
{
    if names.len() > 0 {
        let rest = names.drop_first();
        if names[0].item_id@ != id {
            let m2 = m.remove(names[0].item_id@);
            assert forall|i: int, j: int| 0 <= i < j < rest.len() implies (#[trigger] rest[i]).item_id@
                != (#[trigger] rest[j]).item_id@ by {
                assert(rest[i] == names[i + 1] && rest[j] == names[j + 1]);
            }
            assert forall|i: int| 0 <= i < rest.len() implies m2.dom().contains(
                (#[trigger] rest[i]).item_id@,
            ) && m2[rest[i].item_id@] == rest[i].name@ by {
                assert(rest[i] == names[i + 1]);
                assert(names[0].item_id@ != names[i + 1].item_id@);
            }
            assert forall|k: Seq<char>| #[trigger] m2.dom().contains(k) implies exists|i: int|
                0 <= i < rest.len() && (#[trigger] rest[i]).item_id@ == k by {
                let i = choose|i: int| 0 <= i < names.len() && (#[trigger] names[i]).item_id@ == k;
                assert(i != 0);
                assert(rest[i - 1] == names[i]);
            }
            lemma_names_of_map_lookup(rest, m2, id);
        } else {
            assert(names[0].item_id@ == names[0].item_id@);
        }
    } else {
        if m.dom().contains(id) {
            let i = choose|i: int| 0 <= i < names.len() && (#[trigger] names[i]).item_id@ == id;
        }
    }
}

/// Looks up the localised name of an id.
pub fn find_local_name(names: &Vec<LocalName>, id: &str) -> (r: Option<String>)
    ensures
        r matches Some(n) ==> local_name(names@, id@) == Some(n@),
        r is None ==> local_name(names@, id@) is None,
{
    let mut i: usize = 0;
    assert(names@.skip(0) =~= names@);
    while i < names.len()
        invariant
            i <= names.len(),
            local_name(names@, id@) == local_name(names@.skip(i as int), id@),
        decreases names.len() - i,
    {
        assert(names@.skip(i as int).drop_first() =~= names@.skip(i + 1));
        if text_eq(names[i].item_id.as_str(), id) {
            return Some(names[i].name.clone());
        }
        i = i + 1;
    }
    None
}

/// The label of an id, if it has one.
pub fn label_for(names: &Vec<LocalName>, id: &str) -> (r: Option<String>)
    ensures
        r matches Some(l) ==> label_of(names@, id@) == Some(l@),
        r is None ==> label_of(names@, id@) is None,
{
    match find_local_name(names, id) {
        Some(n) => Some(n),
        None => {
            if id.is_char_boundary(3) {
                Some(make_label(id))
            } else {
                None
            }
        },
    }
}

/// Whether `keys[i]` is the first occurrence of its key.
pub open spec fn is_first(keys: Seq<Seq<char>>, i: int) -> bool {
    !keys.take(i).contains(keys[i])
}

/// The positions `0, 1, ..., n - 1`.
pub open spec fn index_range(n: nat) -> Seq<int> {
    Seq::new(n, |i: int| i)
}

/// The positions of the keys met for the first time and not stored yet,
/// in increasing order.
pub open spec fn first_new_positions(keys: Seq<Seq<char>>, stored: Seq<Seq<char>>) -> Seq<int> {
    index_range(keys.len()).filter(
        |i: int| is_first(keys, i) && !stored.contains(keys[i]),
    )
}

/// The positions as integers.
pub open spec fn positions(v: Seq<usize>) -> Seq<int> {
    v.map_values(|u: usize| u as int)
}

/// Whether a text is one of some strings.
pub fn contains_text(v: &Vec<String>, x: &str) -> (r: bool)
    ensures
        r == texts(v@).contains(x@),
{
    let mut i: usize = 0;
    while i < v.len()
        invariant
            i <= v.len(),
            forall|j: int| 0 <= j < i ==> v@[j]@ != x@,
        decreases v.len() - i,
    {
        if text_eq(v[i].as_str(), x) {
            assert(texts(v@)[i as int] == x@);
            return true;
        }
        i = i + 1;
    }
    assert forall|j: int| 0 <= j < texts(v@).len() implies texts(v@)[j] != x@ by {
        assert(texts(v@)[j] == v@[j]@);
    }
    false
}

/// Finds the positions of the keys met for the first time that are not
/// stored yet.
pub fn first_new_indices(keys: &Vec<String>, stored: &Vec<String>) -> (r: Vec<usize>)
    ensures
        positions(r@) == first_new_positions(texts(keys@), texts(stored@)),
        forall|j: int| 0 <= j < r@.len() ==> #[trigger] r@[j] < keys@.len(),
{
    let ghost k = texts(keys@);
    let ghost st = texts(stored@);
    let ghost pred = |i: int| is_first(k, i) && !st.contains(k[i]);
    let mut r: Vec<usize> = Vec::new();
    let mut seen: Vec<String> = Vec::new();
    let mut i: usize = 0;
    proof {
        assert(index_range(0).filter(pred) =~= Seq::<int>::empty()) by {
            reveal(Seq::filter);
        }
        assert(positions(r@) =~= Seq::<int>::empty());
    }
    while i < keys.len()
        invariant
            i <= keys.len(),
            k == texts(keys@),
            st == texts(stored@),
            pred == (|i: int| is_first(k, i) && !st.contains(k[i])),
            positions(r@) == index_range(i as nat).filter(pred),
            forall|j: int| 0 <= j < r@.len() ==> #[trigger] r@[j] < i,
            forall|x: Seq<char>| texts(seen@).contains(x) <==> k.take(i as int).contains(x),
        decreases keys.len() - i,
    {
        let key = keys[i].as_str();
        let met = contains_text(&seen, key);
        let ghost before = r@;
        let ghost seen_before = seen@;
        proof {
            assert(k[i as int] == key@);
            assert(index_range((i + 1) as nat) =~= index_range(i as nat).push(
                i as int,
            ));
            index_range(i as nat).lemma_filter_push(i as int, pred);
            assert(met == !is_first(k, i as int));
        }
        if !met {
            let stored_already = contains_text(stored, key);
            if !stored_already {
                r.push(i);
                assert(positions(r@) =~= positions(before).push(i as int));
            }
            seen.push(keys[i].clone());
        }
        proof {
            assert(k.take(i + 1) =~= k.take(i as int).push(k[i as int]));
            lemma_push_contains(k.take(i as int), k[i as int]);
            if !met {
                assert(texts(seen@) =~= texts(seen_before).push(key@));
                lemma_push_contains(texts(seen_before), key@);
            } else {
                assert(texts(seen@) =~= texts(seen_before));
            }
        }
        i = i + 1;
    }
    assert(index_range(keys.len() as nat) =~= index_range(k.len()));
    r
}

proof fn lemma_filter_range(n: nat, pred: spec_fn(int) -> bool)
    ensures
        forall|j: int|
            0 <= j < index_range(n).filter(pred).len() ==> {
                let p = #[trigger] index_range(n).filter(pred)[j];
                0 <= p < n && pred(p)
            },
        forall|a: int, b: int|
            0 <= a < b < index_range(n).filter(pred).len() ==> #[trigger] index_range(n).filter(pred)[a] < #[trigger] index_range(n).filter(pred)[b],
        forall|i: int|
            0 <= i < n && pred(i) ==> #[trigger] index_range(n).filter(pred).contains(i),
    decreases n,
{
    reveal(Seq::filter);
    if n > 0 {
        let m = (n - 1) as nat;
        lemma_filter_range(m, pred);
        let prev = index_range(m);
        assert(index_range(n) =~= prev.push(m as int));
        prev.lemma_filter_push(m as int, pred);
        lemma_push_contains(prev.filter(pred), m as int);
    }
}

/// Law: the keys planned for creation are each met once, none of them is
/// stored yet, and every key that is not stored is planned.
pub proof fn lemma_first_new_positions(keys: Seq<Seq<char>>, stored: Seq<Seq<char>>)
    ensures
        forall|j: int|
            0 <= j < first_new_positions(keys, stored).len() ==> 0 <= #[trigger] first_new_positions(
                keys,
                stored,
            )[j] < keys.len() && !stored.contains(keys[first_new_positions(keys, stored)[j]]),
        forall|a: int, b: int|
            0 <= a < b < first_new_positions(keys, stored).len() ==> keys[#[trigger] first_new_positions(
                keys,
                stored,
            )[a]] != keys[#[trigger] first_new_positions(keys, stored)[b]],
        forall|i: int|
            0 <= i < keys.len() && !stored.contains(keys[i]) ==> exists|j: int|
                0 <= j < first_new_positions(keys, stored).len() && keys[#[trigger] first_new_positions(
                    keys,
                    stored,
                )[j]] == keys[i],
{
    let pred = |i: int| is_first(keys, i) && !stored.contains(keys[i]);
    let f = first_new_positions(keys, stored);
    lemma_filter_range(keys.len(), pred);
    assert forall|a: int, b: int| 0 <= a < b < f.len() implies keys[#[trigger] f[a]] != keys[#[trigger] f[b]] by {
        assert(f[a] < f[b]);
        assert(is_first(keys, f[b]));
        if keys[f[a]] == keys[f[b]] {
            assert(keys.take(f[b])[f[a]] == keys[f[b]]);
        }
    }
    assert forall|i: int| 0 <= i < keys.len() && !stored.contains(keys[i]) implies exists|j: int|
        0 <= j < f.len() && keys[#[trigger] f[j]] == keys[i] by {
        let i0 = lemma_first_occurrence(keys, i);
        assert(pred(i0));
        assert(f.contains(i0));
        let j = choose|j: int| 0 <= j < f.len() && f[j] == i0;
        assert(keys[f[j]] == keys[i]);
    }
}

/// The first position holding the same key as position `i`.
proof fn lemma_first_occurrence(keys: Seq<Seq<char>>, i: int) -> (i0: int)
    requires
        0 <= i < keys.len(),
    ensures
        0 <= i0 <= i,
        keys[i0] == keys[i],
        is_first(keys, i0),
    decreases i,
{
    if is_first(keys, i) {
        i
    } else {
        let j = choose|j: int| 0 <= j < keys.take(i).len() && keys.take(i)[j] == keys[i];
        assert(keys[j] == keys[i]);
        lemma_first_occurrence(keys, j)
    }
}

/// What a sequence with one more element at its end contains.
pub proof fn lemma_push_contains<A>(s: Seq<A>, e: A)
    ensures
        forall|x: A| #[trigger] s.push(e).contains(x) <==> s.contains(x) || x == e,
{
    assert forall|x: A| #[trigger] s.push(e).contains(x) <==> s.contains(x) || x == e by {
        if s.push(e).contains(x) {
            let j = choose|j: int| 0 <= j < s.len() + 1 && #[trigger] s.push(e)[j] == x;
            if j < s.len() {
                assert(s[j] == x);
            }
        }
        if s.contains(x) {
            let j = choose|j: int| 0 <= j < s.len() && #[trigger] s[j] == x;
            assert(s.push(e)[j] == x);
        }
        if x == e {
            assert(s.push(e)[s.len() as int] == x);
        }
    }
}

/// The label given to a created entry (empty where none can be made).
pub open spec fn label_text(names: Seq<LocalName>, id: Seq<char>) -> Seq<char> {
    match label_of(names, id) {
        Some(l) => l,
        None => seq![],
    }
}

/// Whether every key to create at the given positions has a label.
pub open spec fn all_labelled(names: Seq<LocalName>, keys: Seq<Seq<char>>, pos: Seq<int>) -> bool {
    forall|j: int| 0 <= j < pos.len() ==> (#[trigger] label_of(names, keys[pos[j]])) is Some
}

/// Labels the keys at the given positions; `None` when one has no label.
fn labels_at(names: &Vec<LocalName>, keys: &Vec<String>, idx: &Vec<usize>) -> (r: Option<Vec<String>>)
    requires
        forall|j: int| 0 <= j < idx@.len() ==> #[trigger] idx@[j] < keys@.len(),
    ensures
        r is Some <==> all_labelled(names@, texts(keys@), positions(idx@)),
        r matches Some(v) ==> v@.len() == idx@.len() && forall|j: int|
            0 <= j < idx@.len() ==> (#[trigger] v@[j])@ == label_text(
                names@,
                keys@[idx@[j] as int]@,
            ),
{
    let mut v: Vec<String> = Vec::new();
    let mut j: usize = 0;
    while j < idx.len()
        invariant
            j <= idx.len(),
            v@.len() == j,
            forall|j: int| 0 <= j < idx@.len() ==> #[trigger] idx@[j] < keys@.len(),
            forall|q: int|
                0 <= q < j ==> (#[trigger] label_of(names@, keys@[idx@[q] as int]@)) is Some,
            forall|q: int|
                0 <= q < j ==> (#[trigger] v@[q])@ == label_text(names@, keys@[idx@[q] as int]@),
        decreases idx.len() - j,
    {
        let i = idx[j];
        match label_for(names, keys[i].as_str()) {
            Some(l) => {
                v.push(l);
            },
            None => {
                proof {
                    assert(texts(keys@)[positions(idx@)[j as int]] == keys@[idx@[j as int] as int]@);
                    assert(!(label_of(names@, texts(keys@)[positions(idx@)[j as int]]) is Some));
                }
                return None;
            },
        }
        j = j + 1;
    }
    proof {
        assert forall|q: int| 0 <= q < positions(idx@).len() implies (#[trigger] label_of(
            names@,
            texts(keys@)[positions(idx@)[q]],
        )) is Some by {
            assert(texts(keys@)[positions(idx@)[q]] == keys@[idx@[q] as int]@);
        }
    }
    Some(v)
}

/// The base ids of the recipes' items.
pub open spec fn recipe_bases(recipes: Seq<Recipe>) -> Seq<Seq<char>> {
    recipes.map_values(|r: Recipe| base_id_of(r.item_id@))
}

/// The artefact ids of the recipes.
pub open spec fn recipe_artefacts(recipes: Seq<Recipe>) -> Seq<Seq<char>> {
    recipes.map_values(|r: Recipe| r.artefact_id@)
}

/// The ids of the resources of one recipe.
pub open spec fn resource_ids(r: Recipe) -> Seq<Seq<char>> {
    r.resources@.map_values(|x: RecipeResource| x.item_id@)
}

/// The resource ids of all recipes, recipe after recipe.
pub open spec fn recipe_resources(recipes: Seq<Recipe>) -> Seq<Seq<char>> {
    recipes.flat_map(|r: Recipe| resource_ids(r))
}

fn base_ids(recipes: &Vec<Recipe>) -> (r: Vec<String>)
    ensures
        texts(r@) == recipe_bases(recipes@),
{
    let mut r: Vec<String> = Vec::new();
    let mut i: usize = 0;
    while i < recipes.len()
        invariant
            i <= recipes.len(),
            texts(r@) == recipe_bases(recipes@.take(i as int)),
        decreases recipes.len() - i,
    {
        let ghost before = r@;
        r.push(base_item_id(recipes[i].item_id.as_str()));
        proof {
            let next = recipes@.take(i + 1);
            assert(next =~= recipes@.take(i as int).push(recipes@[i as int]));
            assert(recipe_bases(next) =~= recipe_bases(recipes@.take(i as int)).push(
                base_id_of(recipes@[i as int].item_id@),
            ));
            assert(texts(r@) =~= texts(before).push(r@[i as int]@));
        }
        i = i + 1;
    }
    assert(recipes@.take(recipes.len() as int) =~= recipes@);
    r
}

fn artefact_ids(recipes: &Vec<Recipe>) -> (r: Vec<String>)
    ensures
        texts(r@) == recipe_artefacts(recipes@),
{
    let mut r: Vec<String> = Vec::new();
    let mut i: usize = 0;
    while i < recipes.len()
        invariant
            i <= recipes.len(),
            texts(r@) == recipe_artefacts(recipes@.take(i as int)),
        decreases recipes.len() - i,
    {
        let ghost before = r@;
        r.push(recipes[i].artefact_id.clone());
        proof {
            let next = recipes@.take(i + 1);
            assert(next =~= recipes@.take(i as int).push(recipes@[i as int]));
            assert(recipe_artefacts(next) =~= recipe_artefacts(recipes@.take(i as int)).push(
                recipes@[i as int].artefact_id@,
            ));
            assert(texts(r@) =~= texts(before).push(r@[i as int]@));
        }
        i = i + 1;
    }
    assert(recipes@.take(recipes.len() as int) =~= recipes@);
    r
}

fn all_resource_ids(recipes: &Vec<Recipe>) -> (r: Vec<String>)
    ensures
        texts(r@) == recipe_resources(recipes@),
{
    let mut r: Vec<String> = Vec::new();
    let mut i: usize = 0;
    proof {
        assert(recipes@.take(0).flat_map(|r: Recipe| resource_ids(r)) =~= Seq::<Seq<char>>::empty());
    }
    while i < recipes.len()
        invariant
            i <= recipes.len(),
            texts(r@) == recipe_resources(recipes@.take(i as int)),
        decreases recipes.len() - i,
    {
        let res = &recipes[i].resources;
        let ghost before = texts(r@);
        let mut j: usize = 0;
        while j < res.len()
            invariant
                j <= res.len(),
                i < recipes.len(),
                res@ == recipes@[i as int].resources@,
                texts(r@) == before + resource_ids(recipes@[i as int]).take(j as int),
            decreases res.len() - j,
        {
            let ghost prev = r@;
            r.push(res[j].item_id.clone());
            proof {
                let ids = resource_ids(recipes@[i as int]);
                assert(ids.take(j + 1) =~= ids.take(j as int).push(res@[j as int].item_id@));
                assert(texts(r@) =~= texts(prev).push(res@[j as int].item_id@));
                assert(texts(r@) =~= before + ids.take(j + 1));
            }
            j = j + 1;
        }
        proof {
            assert(resource_ids(recipes@[i as int]).take(res.len() as int) =~= resource_ids(
                recipes@[i as int],
            ));
            assert(recipes@.take(i + 1) =~= recipes@.take(i as int).push(recipes@[i as int]));
            recipes@.take(i as int).lemma_flat_map_push(|r: Recipe| resource_ids(r), recipes@[i as int]);
        }
        i = i + 1;
    }
    assert(recipes@.take(recipes.len() as int) =~= recipes@);
    r
}

/// Copies a list of recipe resources.
pub fn copy_resources(v: &Vec<RecipeResource>) -> (r: Vec<RecipeResource>)
    ensures
        r@ == v@,
{
    let mut r: Vec<RecipeResource> = Vec::new();
    let mut i: usize = 0;
    while i < v.len()
        invariant
            i <= v.len(),
            r@ == v@.take(i as int),
        decreases v.len() - i,
    {
        r.push(v[i].duplicate());
        assert(r@ =~= v@.take(i + 1));
        i = i + 1;
    }
    assert(v@.take(v.len() as int) =~= v@);
    r
}

/// An item to create: its base id, label, artefact and recipe resources.
pub struct ItemSeed {
    pub item_id: String,
    pub label: String,
    pub artefact_id: String,
    pub resources: Vec<RecipeResource>,
}

/// An artefact to create: its id, label and the base id of the item it is
/// crafted into.
pub struct ArtefactSeed {
    pub item_id: String,
    pub label: String,
    pub crafted_item_id: String,
}

/// A resource to create: its id and label.
pub struct ResourceSeed {
    pub item_id: String,
    pub label: String,
}

/// The texts of an item to create.
pub struct ItemSeedView {
    pub item_id: Seq<char>,
    pub label: Seq<char>,
    pub artefact_id: Seq<char>,
    pub resources: Seq<RecipeResource>,
}

/// The texts of an artefact to create.
pub struct ArtefactSeedView {
    pub item_id: Seq<char>,
    pub label: Seq<char>,
    pub crafted_item_id: Seq<char>,
}

/// The texts of a resource to create.
pub struct ResourceSeedView {
    pub item_id: Seq<char>,
    pub label: Seq<char>,
}

impl View for ItemSeed {
    type V = ItemSeedView;

    open spec fn view(&self) -> ItemSeedView {
        ItemSeedView {
            item_id: self.item_id@,
            label: self.label@,
            artefact_id: self.artefact_id@,
            resources: self.resources@,
        }
    }
}

impl View for ArtefactSeed {
    type V = ArtefactSeedView;

    open spec fn view(&self) -> ArtefactSeedView {
        ArtefactSeedView {
            item_id: self.item_id@,
            label: self.label@,
            crafted_item_id: self.crafted_item_id@,
        }
    }
}

impl View for ResourceSeed {
    type V = ResourceSeedView;

    open spec fn view(&self) -> ResourceSeedView {
        ResourceSeedView { item_id: self.item_id@, label: self.label@ }
    }
}

/// The items to create: one per base id not stored yet, taken from the
/// first recipe that crafts it, in recipe order.
pub open spec fn planned_items(
    recipes: Seq<Recipe>,
    names: Seq<LocalName>,
    stored: Seq<Seq<char>>,
) -> Seq<ItemSeedView> {
    let bases = recipe_bases(recipes);
    first_new_positions(bases, stored).map_values(
        |i: int|
            ItemSeedView {
                item_id: bases[i],
                label: label_text(names, bases[i]),
                artefact_id: recipes[i].artefact_id@,
                resources: recipes[i].resources@,
            },
    )
}

/// The artefacts to create: one per artefact id not stored yet, crafted
/// into the base item of the first recipe that needs it, in recipe order.
pub open spec fn planned_artefacts(
    recipes: Seq<Recipe>,
    names: Seq<LocalName>,
    stored: Seq<Seq<char>>,
) -> Seq<ArtefactSeedView> {
    let arts = recipe_artefacts(recipes);
    first_new_positions(arts, stored).map_values(
        |i: int|
            ArtefactSeedView {
                item_id: arts[i],
                label: label_text(names, arts[i]),
                crafted_item_id: base_id_of(recipes[i].item_id@),
            },
    )
}

/// The resources to create: one per resource id not stored yet, in the
/// order the recipes first name them.
pub open spec fn planned_resources(
    recipes: Seq<Recipe>,
    names: Seq<LocalName>,
    stored: Seq<Seq<char>>,
) -> Seq<ResourceSeedView> {
    let res = recipe_resources(recipes);
    first_new_positions(res, stored).map_values(
        |i: int| ResourceSeedView { item_id: res[i], label: label_text(names, res[i]) },
    )
}

/// Law: each entry seeding creates is labelled with the localised name of
/// its own id where it has one, and otherwise with the readable label made
/// from that id.
pub proof fn lemma_seed_labels(
    recipes: Seq<Recipe>,
    names: Seq<LocalName>,
    stored_items: Seq<Seq<char>>,
    stored_artefacts: Seq<Seq<char>>,
    stored_resources: Seq<Seq<char>>,
)
    ensures
        forall|j: int|
            0 <= j < planned_items(recipes, names, stored_items).len() ==> {
                let x = #[trigger] planned_items(recipes, names, stored_items)[j];
                &&& (local_name(names, x.item_id) matches Some(n) ==> x.label == n)
                &&& (local_name(names, x.item_id) is None && labelable(x.item_id) ==> x.label
                    == readable_label(encode_utf8(x.item_id)))
            },
        forall|j: int|
            0 <= j < planned_artefacts(recipes, names, stored_artefacts).len() ==> {
                let x = #[trigger] planned_artefacts(recipes, names, stored_artefacts)[j];
                &&& (local_name(names, x.item_id) matches Some(n) ==> x.label == n)
                &&& (local_name(names, x.item_id) is None && labelable(x.item_id) ==> x.label
                    == readable_label(encode_utf8(x.item_id)))
            },
        forall|j: int|
            0 <= j < planned_resources(recipes, names, stored_resources).len() ==> {
                let x = #[trigger] planned_resources(recipes, names, stored_resources)[j];
                &&& (local_name(names, x.item_id) matches Some(n) ==> x.label == n)
                &&& (local_name(names, x.item_id) is None && labelable(x.item_id) ==> x.label
                    == readable_label(encode_utf8(x.item_id)))
            },
{
}

/// Whether an item to create takes its artefact and resources from recipe
/// `i`, the first recipe crafting its base id.
pub open spec fn item_from_first_recipe(recipes: Seq<Recipe>, x: ItemSeedView, i: int) -> bool {
    &&& 0 <= i < recipes.len()
    &&& base_id_of(recipes[i].item_id@) == x.item_id
    &&& x.artefact_id == recipes[i].artefact_id@
    &&& x.resources == recipes[i].resources@
    &&& forall|k: int| 0 <= k < i ==> base_id_of((#[trigger] recipes[k]).item_id@) != x.item_id
}

/// Whether an artefact to create is crafted into the base item of recipe
/// `i`, the first recipe needing it.
pub open spec fn artefact_from_first_recipe(recipes: Seq<Recipe>, a: ArtefactSeedView, i: int) -> bool {
    &&& 0 <= i < recipes.len()
    &&& recipes[i].artefact_id@ == a.item_id
    &&& a.crafted_item_id == base_id_of(recipes[i].item_id@)
    &&& forall|k: int| 0 <= k < i ==> (#[trigger] recipes[k]).artefact_id@ != a.item_id
}

/// Whether some recipe is the first crafting an item's base id and gives it
/// its artefact and resources.
pub open spec fn item_has_first_recipe(recipes: Seq<Recipe>, x: ItemSeedView) -> bool {
    exists|i: int| item_from_first_recipe(recipes, x, i)
}

/// Whether some recipe is the first needing an artefact and crafts the
/// item it is created for.
pub open spec fn artefact_has_first_recipe(recipes: Seq<Recipe>, a: ArtefactSeedView) -> bool {
    exists|i: int| artefact_from_first_recipe(recipes, a, i)
}

/// Law: each item seeding creates takes its artefact and resources from the
/// first recipe crafting its base id, and each artefact it creates is
/// crafted into the base item of the first recipe needing it.
pub proof fn lemma_seeds_from_first_recipe(
    recipes: Seq<Recipe>,
    names: Seq<LocalName>,
    stored_items: Seq<Seq<char>>,
    stored_artefacts: Seq<Seq<char>>,
)
    ensures
        forall|j: int|
            0 <= j < planned_items(recipes, names, stored_items).len() ==> item_has_first_recipe(
                recipes,
                #[trigger] planned_items(recipes, names, stored_items)[j],
            ),
        forall|j: int|
            0 <= j < planned_artefacts(recipes, names, stored_artefacts).len() ==> artefact_has_first_recipe(
                recipes,
                #[trigger] planned_artefacts(recipes, names, stored_artefacts)[j],
            ),
{
    let kb = recipe_bases(recipes);
    let fb = first_new_positions(kb, stored_items);
    let pi = planned_items(recipes, names, stored_items);
    lemma_filter_range(kb.len(), |i: int| is_first(kb, i) && !stored_items.contains(kb[i]));
    assert forall|j: int| 0 <= j < pi.len() implies item_has_first_recipe(recipes, #[trigger] pi[j]) by {
        let i = fb[j];
        assert(is_first(kb, i));
        assert forall|k: int| 0 <= k < i implies base_id_of((#[trigger] recipes[k]).item_id@) != kb[i] by {
            assert(kb[k] == base_id_of(recipes[k].item_id@));
            if kb[k] == kb[i] {
                assert(kb.take(i)[k] == kb[i]);
            }
        }
        assert(item_from_first_recipe(recipes, pi[j], i));
    }
    let ka = recipe_artefacts(recipes);
    let fa = first_new_positions(ka, stored_artefacts);
    let pa = planned_artefacts(recipes, names, stored_artefacts);
    lemma_filter_range(ka.len(), |i: int| is_first(ka, i) && !stored_artefacts.contains(ka[i]));
    assert forall|j: int| 0 <= j < pa.len() implies artefact_has_first_recipe(recipes, #[trigger] pa[j]) by {
        let i = fa[j];
        assert(is_first(ka, i));
        assert forall|k: int| 0 <= k < i implies (#[trigger] recipes[k]).artefact_id@ != ka[i] by {
            assert(ka[k] == recipes[k].artefact_id@);
            if ka[k] == ka[i] {
                assert(ka.take(i)[k] == ka[i]);
            }
        }
        assert(artefact_from_first_recipe(recipes, pa[j], i));
    }
}

/// Whether every entry to create can be labelled: each id needs a
/// localised name or must be labelable.
pub open spec fn seed_labels_available(
    recipes: Seq<Recipe>,
    names: Seq<LocalName>,
    stored_items: Seq<Seq<char>>,
    stored_artefacts: Seq<Seq<char>>,
    stored_resources: Seq<Seq<char>>,
) -> bool {
    &&& all_labelled(
        names,
        recipe_bases(recipes),
        first_new_positions(recipe_bases(recipes), stored_items),
    )
    &&& all_labelled(
        names,
        recipe_artefacts(recipes),
        first_new_positions(recipe_artefacts(recipes), stored_artefacts),
    )
    &&& all_labelled(
        names,
        recipe_resources(recipes),
        first_new_positions(recipe_resources(recipes), stored_resources),
    )
}

/// Law: seeding creates each item once, never one already stored, and
/// creates every base item that a recipe crafts and that is not stored.
pub proof fn lemma_seeded_items_new_and_complete(
    recipes: Seq<Recipe>,
    names: Seq<LocalName>,
    stored: Seq<Seq<char>>,
)
    ensures
        forall|a: int, b: int|
            0 <= a < b < planned_items(recipes, names, stored).len() ==> (#[trigger] planned_items(
                recipes,
                names,
                stored,
            )[a]).item_id != (#[trigger] planned_items(recipes, names, stored)[b]).item_id,
        forall|j: int|
            0 <= j < planned_items(recipes, names, stored).len() ==> !stored.contains(
                (#[trigger] planned_items(recipes, names, stored)[j]).item_id,
            ),
        forall|i: int|
            0 <= i < recipes.len() && !stored.contains(base_id_of(recipes[i].item_id@)) ==> exists|j: int|
                0 <= j < planned_items(recipes, names, stored).len() && (#[trigger] planned_items(
                    recipes,
                    names,
                    stored,
                )[j]).item_id == base_id_of(recipes[i].item_id@),
{
    let keys = recipe_bases(recipes);
    let f = first_new_positions(keys, stored);
    let p = planned_items(recipes, names, stored);
    lemma_first_new_positions(keys, stored);
    assert forall|a: int, b: int| 0 <= a < b < p.len() implies (#[trigger] p[a]).item_id != (
    #[trigger] p[b]).item_id by {
        assert(p[a].item_id == keys[f[a]] && p[b].item_id == keys[f[b]]);
    }
    assert forall|j: int| 0 <= j < p.len() implies !stored.contains((#[trigger] p[j]).item_id) by {
        assert(p[j].item_id == keys[f[j]]);
    }
    assert forall|i: int| 0 <= i < recipes.len() && !stored.contains(
        base_id_of(recipes[i].item_id@),
    ) implies exists|j: int| 0 <= j < p.len() && (#[trigger] p[j]).item_id == base_id_of(
        recipes[i].item_id@,
    ) by {
        assert(keys[i] == base_id_of(recipes[i].item_id@));
        let j = choose|j: int| 0 <= j < f.len() && keys[#[trigger] f[j]] == keys[i];
        assert(p[j].item_id == keys[f[j]]);
    }
}

/// Law: seeding creates each artefact once, never one already stored, and
/// creates every artefact that a recipe needs and that is not stored.
pub proof fn lemma_seeded_artefacts_new_and_complete(
    recipes: Seq<Recipe>,
    names: Seq<LocalName>,
    stored: Seq<Seq<char>>,
)
    ensures
        forall|a: int, b: int|
            0 <= a < b < planned_artefacts(recipes, names, stored).len() ==> (
            #[trigger] planned_artefacts(recipes, names, stored)[a]).item_id != (
            #[trigger] planned_artefacts(recipes, names, stored)[b]).item_id,
        forall|j: int|
            0 <= j < planned_artefacts(recipes, names, stored).len() ==> !stored.contains(
                (#[trigger] planned_artefacts(recipes, names, stored)[j]).item_id,
            ),
        forall|i: int|
            0 <= i < recipes.len() && !stored.contains(recipes[i].artefact_id@) ==> exists|j: int|
                0 <= j < planned_artefacts(recipes, names, stored).len() && (
                #[trigger] planned_artefacts(recipes, names, stored)[j]).item_id
                    == recipes[i].artefact_id@,
{
    let keys = recipe_artefacts(recipes);
    let f = first_new_positions(keys, stored);
    let p = planned_artefacts(recipes, names, stored);
    lemma_first_new_positions(keys, stored);
    assert forall|a: int, b: int| 0 <= a < b < p.len() implies (#[trigger] p[a]).item_id != (
    #[trigger] p[b]).item_id by {
        assert(p[a].item_id == keys[f[a]] && p[b].item_id == keys[f[b]]);
    }
    assert forall|j: int| 0 <= j < p.len() implies !stored.contains((#[trigger] p[j]).item_id) by {
        assert(p[j].item_id == keys[f[j]]);
    }
    assert forall|i: int| 0 <= i < recipes.len() && !stored.contains(
        recipes[i].artefact_id@,
    ) implies exists|j: int| 0 <= j < p.len() && (#[trigger] p[j]).item_id
        == recipes[i].artefact_id@ by {
        assert(keys[i] == recipes[i].artefact_id@);
        let j = choose|j: int| 0 <= j < f.len() && keys[#[trigger] f[j]] == keys[i];
        assert(p[j].item_id == keys[f[j]]);
    }
}

/// Law: seeding creates each resource once, never one already stored, and
/// creates every resource that a recipe consumes and that is not stored.
pub proof fn lemma_seeded_resources_new_and_complete(
    recipes: Seq<Recipe>,
    names: Seq<LocalName>,
    stored: Seq<Seq<char>>,
)
    ensures
        forall|a: int, b: int|
            0 <= a < b < planned_resources(recipes, names, stored).len() ==> (
            #[trigger] planned_resources(recipes, names, stored)[a]).item_id != (
            #[trigger] planned_resources(recipes, names, stored)[b]).item_id,
        forall|j: int|
            0 <= j < planned_resources(recipes, names, stored).len() ==> !stored.contains(
                (#[trigger] planned_resources(recipes, names, stored)[j]).item_id,
            ),
        forall|i: int|
            0 <= i < recipe_resources(recipes).len() && !stored.contains(
                recipe_resources(recipes)[i],
            ) ==> exists|j: int|
                0 <= j < planned_resources(recipes, names, stored).len() && (
                #[trigger] planned_resources(recipes, names, stored)[j]).item_id
                    == recipe_resources(recipes)[i],
{
    let keys = recipe_resources(recipes);
    let f = first_new_positions(keys, stored);
    let p = planned_resources(recipes, names, stored);
    lemma_first_new_positions(keys, stored);
    assert forall|a: int, b: int| 0 <= a < b < p.len() implies (#[trigger] p[a]).item_id != (
    #[trigger] p[b]).item_id by {
        assert(p[a].item_id == keys[f[a]] && p[b].item_id == keys[f[b]]);
    }
    assert forall|j: int| 0 <= j < p.len() implies !stored.contains((#[trigger] p[j]).item_id) by {
        assert(p[j].item_id == keys[f[j]]);
    }
    assert forall|i: int| 0 <= i < keys.len() && !stored.contains(keys[i]) implies exists|j: int|
        0 <= j < p.len() && (#[trigger] p[j]).item_id == keys[i] by {
        let j = choose|j: int| 0 <= j < f.len() && keys[#[trigger] f[j]] == keys[i];
        assert(p[j].item_id == keys[f[j]]);
    }
}

/// Once every key is stored, nothing is new.
proof fn lemma_nothing_new_when_all_stored(keys: Seq<Seq<char>>, stored: Seq<Seq<char>>)
    requires
        forall|i: int| 0 <= i < keys.len() ==> stored.contains(#[trigger] keys[i]),
    ensures
        first_new_positions(keys, stored).len() == 0,
{
    lemma_first_new_positions(keys, stored);
    let f = first_new_positions(keys, stored);
    if f.len() > 0 {
        assert(stored.contains(keys[f[0]]));
    }
}

/// Law: seeding is idempotent. After the planned items, artefacts and
/// resources are stored beside those stored before, planning again from the
/// same recipes creates nothing.
pub proof fn lemma_seeding_idempotent(
    recipes: Seq<Recipe>,
    names: Seq<LocalName>,
    stored_items: Seq<Seq<char>>,
    stored_artefacts: Seq<Seq<char>>,
    stored_resources: Seq<Seq<char>>,
)
    ensures
        ({
            let items = stored_items + planned_items(recipes, names, stored_items).map_values(
                |s: ItemSeedView| s.item_id,
            );
            let artefacts = stored_artefacts + planned_artefacts(
                recipes,
                names,
                stored_artefacts,
            ).map_values(|s: ArtefactSeedView| s.item_id);
            let resources = stored_resources + planned_resources(
                recipes,
                names,
                stored_resources,
            ).map_values(|s: ResourceSeedView| s.item_id);
            &&& planned_items(recipes, names, items).len() == 0
            &&& planned_artefacts(recipes, names, artefacts).len() == 0
            &&& planned_resources(recipes, names, resources).len() == 0
        }),
{
    let pi = planned_items(recipes, names, stored_items);
    let pa = planned_artefacts(recipes, names, stored_artefacts);
    let pr = planned_resources(recipes, names, stored_resources);
    let items = stored_items + pi.map_values(|s: ItemSeedView| s.item_id);
    let artefacts = stored_artefacts + pa.map_values(|s: ArtefactSeedView| s.item_id);
    let resources = stored_resources + pr.map_values(|s: ResourceSeedView| s.item_id);
    lemma_seeded_items_new_and_complete(recipes, names, stored_items);
    lemma_seeded_artefacts_new_and_complete(recipes, names, stored_artefacts);
    lemma_seeded_resources_new_and_complete(recipes, names, stored_resources);
    let kb = recipe_bases(recipes);
    assert forall|i: int| 0 <= i < kb.len() implies items.contains(#[trigger] kb[i]) by {
        assert(kb[i] == base_id_of(recipes[i].item_id@));
        if stored_items.contains(kb[i]) {
            let j = choose|j: int| 0 <= j < stored_items.len() && stored_items[j] == kb[i];
            assert(items[j] == kb[i]);
        } else {
            let j = choose|j: int| 0 <= j < pi.len() && (#[trigger] pi[j]).item_id == kb[i];
            assert(items[stored_items.len() + j] == kb[i]);
        }
    }
    lemma_nothing_new_when_all_stored(kb, items);
    let ka = recipe_artefacts(recipes);
    assert forall|i: int| 0 <= i < ka.len() implies artefacts.contains(#[trigger] ka[i]) by {
        assert(ka[i] == recipes[i].artefact_id@);
        if stored_artefacts.contains(ka[i]) {
            let j = choose|j: int| 0 <= j < stored_artefacts.len() && stored_artefacts[j] == ka[i];
            assert(artefacts[j] == ka[i]);
        } else {
            let j = choose|j: int| 0 <= j < pa.len() && (#[trigger] pa[j]).item_id == ka[i];
            assert(artefacts[stored_artefacts.len() + j] == ka[i]);
        }
    }
    lemma_nothing_new_when_all_stored(ka, artefacts);
    let kr = recipe_resources(recipes);
    assert forall|i: int| 0 <= i < kr.len() implies resources.contains(#[trigger] kr[i]) by {
        if stored_resources.contains(kr[i]) {
            let j = choose|j: int| 0 <= j < stored_resources.len() && stored_resources[j] == kr[i];
            assert(resources[j] == kr[i]);
        } else {
            let j = choose|j: int| 0 <= j < pr.len() && (#[trigger] pr[j]).item_id == kr[i];
            assert(resources[stored_resources.len() + j] == kr[i]);
        }
    }
    lemma_nothing_new_when_all_stored(kr, resources);
}

/// What seeding creates.
pub struct SeedPlan {
    pub items: Vec<ItemSeed>,
    pub artefacts: Vec<ArtefactSeed>,
    pub resources: Vec<ResourceSeed>,
}

fn item_seeds(recipes: &Vec<Recipe>, bases: &Vec<String>, idx: &Vec<usize>, labels: Vec<String>) -> (r:
    Vec<ItemSeed>)
    requires
        bases@.len() == recipes@.len(),
        labels@.len() == idx@.len(),
        forall|j: int| 0 <= j < idx@.len() ==> #[trigger] idx@[j] < recipes@.len(),
    ensures
        r@.len() == idx@.len(),
        forall|j: int|
            0 <= j < idx@.len() ==> (#[trigger] r@[j])@ == (ItemSeedView {
                item_id: bases@[idx@[j] as int]@,
                label: labels@[j]@,
                artefact_id: recipes@[idx@[j] as int].artefact_id@,
                resources: recipes@[idx@[j] as int].resources@,
            }),
{
    let mut r: Vec<ItemSeed> = Vec::new();
    let mut j: usize = 0;
    while j < idx.len()
        invariant
            j <= idx.len(),
            r@.len() == j,
            bases@.len() == recipes@.len(),
            labels@.len() == idx@.len(),
            forall|j: int| 0 <= j < idx@.len() ==> #[trigger] idx@[j] < recipes@.len(),
            forall|q: int|
                0 <= q < j ==> (#[trigger] r@[q])@ == (ItemSeedView {
                    item_id: bases@[idx@[q] as int]@,
                    label: labels@[q]@,
                    artefact_id: recipes@[idx@[q] as int].artefact_id@,
                    resources: recipes@[idx@[q] as int].resources@,
                }),
        decreases idx.len() - j,
    {
        let i = idx[j];
        let recipe = &recipes[i];
        r.push(
            ItemSeed {
                item_id: bases[i].clone(),
                label: labels[j].clone(),
                artefact_id: recipe.artefact_id.clone(),
                resources: copy_resources(&recipe.resources),
            },
        );
        j = j + 1;
    }
    r
}

fn artefact_seeds(recipes: &Vec<Recipe>, arts: &Vec<String>, idx: &Vec<usize>, labels: Vec<String>) -> (r:
    Vec<ArtefactSeed>)
    requires
        arts@.len() == recipes@.len(),
        labels@.len() == idx@.len(),
        forall|j: int| 0 <= j < idx@.len() ==> #[trigger] idx@[j] < recipes@.len(),
    ensures
        r@.len() == idx@.len(),
        forall|j: int|
            0 <= j < idx@.len() ==> (#[trigger] r@[j])@ == (ArtefactSeedView {
                item_id: arts@[idx@[j] as int]@,
                label: labels@[j]@,
                crafted_item_id: base_id_of(recipes@[idx@[j] as int].item_id@),
            }),
{
    let mut r: Vec<ArtefactSeed> = Vec::new();
    let mut j: usize = 0;
    while j < idx.len()
        invariant
            j <= idx.len(),
            r@.len() == j,
            arts@.len() == recipes@.len(),
            labels@.len() == idx@.len(),
            forall|j: int| 0 <= j < idx@.len() ==> #[trigger] idx@[j] < recipes@.len(),
            forall|q: int|
                0 <= q < j ==> (#[trigger] r@[q])@ == (ArtefactSeedView {
                    item_id: arts@[idx@[q] as int]@,
                    label: labels@[q]@,
                    crafted_item_id: base_id_of(recipes@[idx@[q] as int].item_id@),
                }),
        decreases idx.len() - j,
    {
        let i = idx[j];
        r.push(
            ArtefactSeed {
                item_id: arts[i].clone(),
                label: labels[j].clone(),
                crafted_item_id: base_item_id(recipes[i].item_id.as_str()),
            },
        );
        j = j + 1;
    }
    r
}

fn resource_seeds(res: &Vec<String>, idx: &Vec<usize>, labels: Vec<String>) -> (r: Vec<ResourceSeed>)
    requires
        labels@.len() == idx@.len(),
        forall|j: int| 0 <= j < idx@.len() ==> #[trigger] idx@[j] < res@.len(),
    ensures
        r@.len() == idx@.len(),
        forall|j: int|
            0 <= j < idx@.len() ==> (#[trigger] r@[j])@ == (ResourceSeedView {
                item_id: res@[idx@[j] as int]@,
                label: labels@[j]@,
            }),
{
    let mut r: Vec<ResourceSeed> = Vec::new();
    let mut j: usize = 0;
    while j < idx.len()
        invariant
            j <= idx.len(),
            r@.len() == j,
            labels@.len() == idx@.len(),
            forall|j: int| 0 <= j < idx@.len() ==> #[trigger] idx@[j] < res@.len(),
            forall|q: int|
                0 <= q < j ==> (#[trigger] r@[q])@ == (ResourceSeedView {
                    item_id: res@[idx@[q] as int]@,
                    label: labels@[q]@,
                }),
        decreases idx.len() - j,
    {
        let i = idx[j];
        r.push(ResourceSeed { item_id: res[i].clone(), label: labels[j].clone() });
        j = j + 1;
    }
    r
}

/// Plans the seeding of the catalogue from recipes, given the localised
/// names and the ids already stored in each table. There is no plan when
/// an entry to create can be given no label.
pub fn plan_seed(
    recipes: &Vec<Recipe>,
    names: &Vec<LocalName>,
    stored_items: &Vec<String>,
    stored_artefacts: &Vec<String>,
    stored_resources: &Vec<String>,
) -> (plan: Option<SeedPlan>)
    ensures
        plan is Some <==> seed_labels_available(
            recipes@,
            names@,
            texts(stored_items@),
            texts(stored_artefacts@),
            texts(stored_resources@),
        ),
        plan matches Some(p) ==> {
            &&& p.items@.map_values(|s: ItemSeed| s@) == planned_items(
                recipes@,
                names@,
                texts(stored_items@),
            )
            &&& p.artefacts@.map_values(|s: ArtefactSeed| s@) == planned_artefacts(
                recipes@,
                names@,
                texts(stored_artefacts@),
            )
            &&& p.resources@.map_values(|s: ResourceSeed| s@) == planned_resources(
                recipes@,
                names@,
                texts(stored_resources@),
            )
        },
{
    let bases = base_ids(recipes);
    let item_idx = first_new_indices(&bases, stored_items);
    let item_labels = labels_at(names, &bases, &item_idx);
    let arts = artefact_ids(recipes);
    let art_idx = first_new_indices(&arts, stored_artefacts);
    let art_labels = labels_at(names, &arts, &art_idx);
    let res = all_resource_ids(recipes);
    let res_idx = first_new_indices(&res, stored_resources);
    let res_labels = labels_at(names, &res, &res_idx);
    match (item_labels, art_labels, res_labels) {
        (Some(il), Some(al), Some(rl)) => {
            let items = item_seeds(recipes, &bases, &item_idx, il);
            let artefacts = artefact_seeds(recipes, &arts, &art_idx, al);
            let resources = resource_seeds(&res, &res_idx, rl);
            proof {
                assert(items@.map_values(|s: ItemSeed| s@) =~= planned_items(
                    recipes@,
                    names@,
                    texts(stored_items@),
                ));
                assert(artefacts@.map_values(|s: ArtefactSeed| s@) =~= planned_artefacts(
                    recipes@,
                    names@,
                    texts(stored_artefacts@),
                ));
                assert(resources@.map_values(|s: ResourceSeed| s@) =~= planned_resources(
                    recipes@,
                    names@,
                    texts(stored_resources@),
                ));
            }
            Some(SeedPlan { items, artefacts, resources })
        },
        _ => None,
    }
}

/// Whether a recipe crafts an item of the given base id.
pub open spec fn crafts(base: Seq<char>) -> spec_fn(Recipe) -> bool {
    |r: Recipe| base_id_of(r.item_id@) == base
}

/// The resources of all recipes that craft a base id, recipe after recipe.
pub open spec fn resources_crafting(recipes: Seq<Recipe>, base: Seq<char>) -> Seq<RecipeResource> {
    recipes.filter(crafts(base)).flat_map(|r: Recipe| r.resources@)
}

/// The ids of a list of resources.
pub open spec fn ids_of(s: Seq<RecipeResource>) -> Seq<Seq<char>> {
    s.map_values(|x: RecipeResource| x.item_id@)
}

/// The resources of a base id merged over its recipes: each resource id
/// once, with the count of its first mention.
pub open spec fn merged_resources(recipes: Seq<Recipe>, base: Seq<char>) -> Seq<RecipeResource> {
    let c = resources_crafting(recipes, base);
    first_new_positions(ids_of(c), seq![]).map_values(|i: int| c[i])
}

fn resources_of_base(recipes: &Vec<Recipe>, bases: &Vec<String>, base: &str) -> (r: Vec<
    RecipeResource,
>)
    requires
        texts(bases@) == recipe_bases(recipes@),
    ensures
        r@ == resources_crafting(recipes@, base@),
{
    let mut r: Vec<RecipeResource> = Vec::new();
    let mut i: usize = 0;
    proof {
        assert(recipes@.take(0).filter(crafts(base@)) =~= Seq::<Recipe>::empty()) by {
            reveal(Seq::filter);
        }
        assert(resources_crafting(recipes@.take(0), base@) =~= Seq::<RecipeResource>::empty());
        assert(texts(bases@).len() == recipe_bases(recipes@).len());
        assert(texts(bases@).len() == bases@.len());
        assert(recipe_bases(recipes@).len() == recipes@.len());
    }
    while i < recipes.len()
        invariant
            i <= recipes.len(),
            bases@.len() == recipes@.len(),
            texts(bases@) == recipe_bases(recipes@),
            r@ == resources_crafting(recipes@.take(i as int), base@),
        decreases recipes.len() - i,
    {
        let ghost prev = r@;
        let ghost rec = recipes@[i as int];
        proof {
            assert(texts(bases@)[i as int] == bases@[i as int]@);
            assert(recipes@.take(i + 1) =~= recipes@.take(i as int).push(rec));
            recipes@.take(i as int).lemma_filter_push(rec, crafts(base@));
        }
        if text_eq(bases[i].as_str(), base) {
            let more = copy_resources(&recipes[i].resources);
            let mut more = more;
            r.append(&mut more);
            proof {
                recipes@.take(i as int).filter(crafts(base@)).lemma_flat_map_push(
                    |r: Recipe| r.resources@,
                    rec,
                );
            }
        }
        i = i + 1;
    }
    assert(recipes@.take(recipes.len() as int) =~= recipes@);
    r
}

fn resource_id_list(v: &Vec<RecipeResource>) -> (r: Vec<String>)
    ensures
        texts(r@) == ids_of(v@),
{
    let mut r: Vec<String> = Vec::new();
    let mut i: usize = 0;
    while i < v.len()
        invariant
            i <= v.len(),
            texts(r@) == ids_of(v@.take(i as int)),
        decreases v.len() - i,
    {
        let ghost prev = r@;
        r.push(v[i].item_id.clone());
        proof {
            assert(v@.take(i + 1) =~= v@.take(i as int).push(v@[i as int]));
            assert(ids_of(v@.take(i + 1)) =~= ids_of(v@.take(i as int)).push(v@[i as int].item_id@));
            assert(texts(r@) =~= texts(prev).push(v@[i as int].item_id@));
        }
        i = i + 1;
    }
    assert(v@.take(v.len() as int) =~= v@);
    r
}

/// Merges the resources of all recipes that craft a base id.
pub fn merge_resources(recipes: &Vec<Recipe>, base: &str) -> (r: Vec<RecipeResource>)
    ensures
        r@ == merged_resources(recipes@, base@),
{
    let bases = base_ids(recipes);
    merge_resources_of(recipes, &bases, base)
}

fn merge_resources_of(recipes: &Vec<Recipe>, bases: &Vec<String>, base: &str) -> (r: Vec<
    RecipeResource,
>)
    requires
        texts(bases@) == recipe_bases(recipes@),
    ensures
        r@ == merged_resources(recipes@, base@),
{
    let all = resources_of_base(recipes, bases, base);
    let ids = resource_id_list(&all);
    let none: Vec<String> = Vec::new();
    let idx = first_new_indices(&ids, &none);
    let mut r: Vec<RecipeResource> = Vec::new();
    let mut j: usize = 0;
    assert(texts(none@) =~= Seq::<Seq<char>>::empty());
    while j < idx.len()
        invariant
            j <= idx.len(),
            ids@.len() == all@.len(),
            forall|q: int| 0 <= q < idx@.len() ==> #[trigger] idx@[q] < ids@.len(),
            r@ == positions(idx@).take(j as int).map_values(|i: int| all@[i]),
        decreases idx.len() - j,
    {
        r.push(all[idx[j]].duplicate());
        assert(r@ =~= positions(idx@).take(j + 1).map_values(|i: int| all@[i]));
        j = j + 1;
    }
    assert(positions(idx@).take(idx.len() as int) =~= positions(idx@));
    r
}

/// Law: the merged resources of a base id name each resource id once, and
/// name every resource id that a recipe of that base consumes.
pub proof fn lemma_merged_resources_unique(recipes: Seq<Recipe>, base: Seq<char>)
    ensures
        forall|a: int, b: int|
            0 <= a < b < merged_resources(recipes, base).len() ==> (#[trigger] merged_resources(
                recipes,
                base,
            )[a]).item_id@ != (#[trigger] merged_resources(recipes, base)[b]).item_id@,
        forall|i: int|
            0 <= i < resources_crafting(recipes, base).len() ==> ids_of(
                merged_resources(recipes, base),
            ).contains((#[trigger] resources_crafting(recipes, base)[i]).item_id@),
{
    let c = resources_crafting(recipes, base);
    let keys = ids_of(c);
    let f = first_new_positions(keys, seq![]);
    let m = merged_resources(recipes, base);
    lemma_first_new_positions(keys, seq![]);
    assert forall|a: int, b: int| 0 <= a < b < m.len() implies (#[trigger] m[a]).item_id@ != (
    #[trigger] m[b]).item_id@ by {
        assert(m[a] == c[f[a]] && m[b] == c[f[b]]);
        assert(keys[f[a]] == c[f[a]].item_id@ && keys[f[b]] == c[f[b]].item_id@);
    }
    assert forall|i: int| 0 <= i < c.len() implies ids_of(m).contains((#[trigger] c[i]).item_id@) by {
        assert(keys[i] == c[i].item_id@);
        assert(!Seq::<Seq<char>>::empty().contains(keys[i]));
        let j = choose|j: int| 0 <= j < f.len() && keys[#[trigger] f[j]] == keys[i];
        assert(0 <= f[j] < keys.len());
        assert(m[j] == c[f[j]]);
        assert(keys[f[j]] == c[f[j]].item_id@);
        assert(ids_of(m)[j] == c[i].item_id@);
    }
}

/// Whether entry `i` of a list of resources is the first mention of its id
/// and equals `x`.
pub open spec fn first_mention(c: Seq<RecipeResource>, x: RecipeResource, i: int) -> bool {
    &&& 0 <= i < c.len()
    &&& c[i] == x
    &&& forall|k: int| 0 <= k < i ==> (#[trigger] c[k]).item_id@ != x.item_id@
}

/// Whether a resource is the first mention of its id in a list.
pub open spec fn is_first_mention(c: Seq<RecipeResource>, x: RecipeResource) -> bool {
    exists|i: int| first_mention(c, x, i)
}

/// Law: each merged resource of a base id is, count included, the first
/// mention of its id among the resources of the recipes crafting that base,
/// and the merged resources come in the order of those first mentions.
pub proof fn lemma_merged_resources_first_mentions(recipes: Seq<Recipe>, base: Seq<char>)
    ensures
        forall|j: int|
            0 <= j < merged_resources(recipes, base).len() ==> is_first_mention(
                resources_crafting(recipes, base),
                #[trigger] merged_resources(recipes, base)[j],
            ),
{
    let c = resources_crafting(recipes, base);
    let keys = ids_of(c);
    let f = first_new_positions(keys, seq![]);
    let m = merged_resources(recipes, base);
    lemma_filter_range(keys.len(), |i: int| is_first(keys, i) && !Seq::<Seq<char>>::empty().contains(keys[i]));
    assert forall|j: int| 0 <= j < m.len() implies is_first_mention(c, #[trigger] m[j]) by {
        let i = f[j];
        assert(is_first(keys, i));
        assert forall|k: int| 0 <= k < i implies (#[trigger] c[k]).item_id@ != c[i].item_id@ by {
            assert(keys[k] == c[k].item_id@ && keys[i] == c[i].item_id@);
            if keys[k] == keys[i] {
                assert(keys.take(i)[k] == keys[i]);
            }
        }
        assert(first_mention(c, m[j], i));
    }
}

/// The resources to fill in for a stored item: its id and merged resources.
pub struct ResourceBackfill {
    pub item_id: String,
    pub resources: Vec<RecipeResource>,
}

/// The fill-ins for stored items (`None` for a row without an id): one for
/// each stored id that some recipe crafts, in row order.
pub open spec fn planned_backfills(recipes: Seq<Recipe>, stored: Seq<Option<String>>) -> Seq<
    (Seq<char>, Seq<RecipeResource>),
> {
    stored.filter_map(
        |o: Option<String>|
            match o {
                Some(id) => if recipe_bases(recipes).contains(id@) {
                    Some((id@, merged_resources(recipes, id@)))
                } else {
                    None
                },
                None => None,
            },
    )
}

/// Law: a planned fill-in gives a stored row's id, which some recipe
/// crafts, the merged resources of that id; and every stored row whose id
/// some recipe crafts gets one.
pub proof fn lemma_backfills_exact(recipes: Seq<Recipe>, stored: Seq<Option<String>>)
    ensures
        forall|k: int|
            0 <= k < planned_backfills(recipes, stored).len() ==> {
                let (id, res) = #[trigger] planned_backfills(recipes, stored)[k];
                &&& recipe_bases(recipes).contains(id)
                &&& res == merged_resources(recipes, id)
                &&& exists|i: int| 0 <= i < stored.len() && (#[trigger] stored[i]) is Some && stored[i]->0@ == id
            },
        forall|i: int|
            0 <= i < stored.len() && (#[trigger] stored[i]) is Some && recipe_bases(recipes).contains(
                stored[i]->0@,
            ) ==> planned_backfills(recipes, stored).contains(
                (stored[i]->0@, merged_resources(recipes, stored[i]->0@)),
            ),
    decreases stored.len(),
{
    if stored.len() > 0 {
        let rest = stored.drop_last();
        let row = stored.last();
        lemma_backfills_exact(recipes, rest);
        let a = planned_backfills(recipes, rest);
        let all = planned_backfills(recipes, stored);
        let e: Seq<(Seq<char>, Seq<RecipeResource>)> = match row {
            Some(id) => if recipe_bases(recipes).contains(id@) {
                seq![(id@, merged_resources(recipes, id@))]
            } else {
                seq![]
            },
            None => seq![],
        };
        assert(all =~= a + e);
        assert forall|k: int| 0 <= k < all.len() implies {
            let (id, res) = #[trigger] all[k];
            &&& recipe_bases(recipes).contains(id)
            &&& res == merged_resources(recipes, id)
            &&& exists|i: int| 0 <= i < stored.len() && (#[trigger] stored[i]) is Some && stored[i]->0@ == id
        } by {
            if k < a.len() {
                assert(all[k] == a[k]);
                let (id, res) = a[k];
                let i = choose|i: int| 0 <= i < rest.len() && (#[trigger] rest[i]) is Some && rest[i]->0@ == id;
                assert(stored[i] == rest[i]);
            } else {
                assert(all[k] == e[k - a.len()]);
                assert(stored[stored.len() - 1] == row);
            }
        }
        assert forall|i: int|
            0 <= i < stored.len() && (#[trigger] stored[i]) is Some && recipe_bases(recipes).contains(
                stored[i]->0@,
            ) implies all.contains((stored[i]->0@, merged_resources(recipes, stored[i]->0@))) by {
            let pair = (stored[i]->0@, merged_resources(recipes, stored[i]->0@));
            if i < rest.len() {
                assert(rest[i] == stored[i]);
                let k = choose|k: int| 0 <= k < a.len() && a[k] == pair;
                assert(all[k] == pair);
            } else {
                assert(row == stored[i]);
                assert(e[0] == pair);
                assert(all[a.len() as int] == pair);
            }
        }
    }
}

/// Plans which stored items get their recipe resources filled in.
pub fn plan_backfill(recipes: &Vec<Recipe>, stored: &Vec<Option<String>>) -> (r: Vec<
    ResourceBackfill,
>)
    ensures
        r@.map_values(|b: ResourceBackfill| (b.item_id@, b.resources@)) == planned_backfills(
            recipes@,
            stored@,
        ),
{
    let bases = base_ids(recipes);
    let mut r: Vec<ResourceBackfill> = Vec::new();
    let mut i: usize = 0;
    while i < stored.len()
        invariant
            i <= stored.len(),
            texts(bases@) == recipe_bases(recipes@),
            r@.map_values(|b: ResourceBackfill| (b.item_id@, b.resources@)) == planned_backfills(
                recipes@,
                stored@.take(i as int),
            ),
        decreases stored.len() - i,
    {
        let ghost prev = r@;
        proof {
            assert(stored@.take(i + 1).drop_last() =~= stored@.take(i as int));
        }
        match &stored[i] {
            Some(id) => {
                if contains_text(&bases, id.as_str()) {
                    let resources = merge_resources_of(recipes, &bases, id.as_str());
                    r.push(ResourceBackfill { item_id: id.clone(), resources });
                    assert(r@.map_values(|b: ResourceBackfill| (b.item_id@, b.resources@))
                        =~= prev.map_values(|b: ResourceBackfill| (b.item_id@, b.resources@)).push(
                        (id@, merged_resources(recipes@, id@)),
                    ));
                }
            },
            None => {},
        }
        i = i + 1;
    }
    assert(stored@.take(stored.len() as int) =~= stored@);
    r
}

/// A label to replace: the item id and its localised name.
pub struct Relabel {
    pub item_id: String,
    pub label: String,
}

/// The labels to replace in a table's rows (`None` for a row without an
/// id): each row whose id has a localised name, in row order.
pub open spec fn planned_relabels(names: Seq<LocalName>, rows: Seq<Option<String>>) -> Seq<
    (Seq<char>, Seq<char>),
> {
    rows.filter_map(
        |o: Option<String>|
            match o {
                Some(id) => match local_name(names, id@) {
                    Some(n) => Some((id@, n)),
                    None => None,
                },
                None => None,
            },
    )
}

/// The relabelling a row asks for: the row's own id with the localised
/// name of exactly that id.
pub open spec fn row_relabel(names: Seq<LocalName>, row: Option<String>) -> Seq<(Seq<char>, Seq<char>)> {
    match row {
        Some(id) => match local_name(names, id@) {
            Some(n) => seq![(id@, n)],
            None => seq![],
        },
        None => seq![],
    }
}

/// Law: rows are relabelled one after another: no rows ask for nothing,
/// and one row more adds, at the end, its id with the localised name of
/// that exact id, if it has one.
pub proof fn lemma_relabels_by_row(names: Seq<LocalName>, rows: Seq<Option<String>>, row: Option<String>)
    ensures
        planned_relabels(names, Seq::<Option<String>>::empty()) == Seq::<(Seq<char>, Seq<char>)>::empty(),
        planned_relabels(names, rows.push(row)) == planned_relabels(names, rows) + row_relabel(names, row),
{
    assert(rows.push(row).drop_last() =~= rows);
    assert(rows.push(row).last() == row);
    assert(planned_relabels(names, rows.push(row)) =~= planned_relabels(names, rows) + row_relabel(
        names,
        row,
    ));
}

/// Law: a planned relabelling gives a row's id the localised name of
/// exactly that id; and every row whose id has a localised name is
/// relabelled with it.
pub proof fn lemma_relabels_exact(names: Seq<LocalName>, rows: Seq<Option<String>>)
    ensures
        forall|k: int|
            0 <= k < planned_relabels(names, rows).len() ==> {
                let (id, n) = #[trigger] planned_relabels(names, rows)[k];
                &&& local_name(names, id) == Some(n)
                &&& exists|i: int| 0 <= i < rows.len() && (#[trigger] rows[i]) is Some && rows[i]->0@ == id
            },
        forall|i: int|
            0 <= i < rows.len() && (#[trigger] rows[i]) is Some && local_name(names, rows[i]->0@) is Some
                ==> planned_relabels(names, rows).contains((rows[i]->0@, local_name(names, rows[i]->0@)->0)),
    decreases rows.len(),
{
    if rows.len() > 0 {
        let rest = rows.drop_last();
        let row = rows.last();
        assert(rest.push(row) =~= rows);
        lemma_relabels_by_row(names, rest, row);
        lemma_relabels_exact(names, rest);
        let a = planned_relabels(names, rest);
        let e = row_relabel(names, row);
        let all = planned_relabels(names, rows);
        assert(all == a + e);
        assert forall|k: int| 0 <= k < all.len() implies {
            let (id, n) = #[trigger] all[k];
            &&& local_name(names, id) == Some(n)
            &&& exists|i: int| 0 <= i < rows.len() && (#[trigger] rows[i]) is Some && rows[i]->0@ == id
        } by {
            if k < a.len() {
                assert(all[k] == a[k]);
                let (id, n) = a[k];
                let i = choose|i: int| 0 <= i < rest.len() && (#[trigger] rest[i]) is Some && rest[i]->0@ == id;
                assert(rows[i] == rest[i]);
            } else {
                assert(all[k] == e[k - a.len()]);
                assert(rows[rows.len() - 1] == row);
            }
        }
        assert forall|i: int|
            0 <= i < rows.len() && (#[trigger] rows[i]) is Some && local_name(names, rows[i]->0@) is Some implies
            all.contains((rows[i]->0@, local_name(names, rows[i]->0@)->0)) by {
            let pair = (rows[i]->0@, local_name(names, rows[i]->0@)->0);
            if i < rest.len() {
                assert(rest[i] == rows[i]);
                let k = choose|k: int| 0 <= k < a.len() && a[k] == pair;
                assert(all[k] == pair);
            } else {
                assert(row == rows[i]);
                assert(e[0] == pair);
                assert(all[a.len() as int] == pair);
            }
        }
    }
}

/// Plans the replacement of labels by localised names in a table.
pub fn plan_relabels(names: &Vec<LocalName>, rows: &Vec<Option<String>>) -> (r: Vec<Relabel>)
    ensures
        r@.map_values(|x: Relabel| (x.item_id@, x.label@)) == planned_relabels(names@, rows@),
{
    let mut r: Vec<Relabel> = Vec::new();
    let mut i: usize = 0;
    while i < rows.len()
        invariant
            i <= rows.len(),
            r@.map_values(|x: Relabel| (x.item_id@, x.label@)) == planned_relabels(
                names@,
                rows@.take(i as int),
            ),
        decreases rows.len() - i,
    {
        let ghost prev = r@;
        proof {
            assert(rows@.take(i + 1).drop_last() =~= rows@.take(i as int));
        }
        match &rows[i] {
            Some(id) => {
                match find_local_name(names, id.as_str()) {
                    Some(n) => {
                        r.push(Relabel { item_id: id.clone(), label: n });
                        assert(r@.map_values(|x: Relabel| (x.item_id@, x.label@)) =~= prev.map_values(
                            |x: Relabel| (x.item_id@, x.label@),
                        ).push((id@, local_name(names@, id@)->0)));
                    },
                    None => {},
                }
            },
            None => {},
        }
        i = i + 1;
    }
    assert(rows@.take(rows.len() as int) =~= rows@);
    r
}

/// The query that sets the label of the rows of a table with a given id.
pub open spec fn relabel_text(table: Seq<char>) -> Seq<char> {
    "UPDATE "@ + table + " SET label = $label WHERE item_id = $id"@
}

/// Builds the query that sets the label of a table's rows with an id.
pub fn relabel_query(table: &str) -> (q: String)
    ensures
        q@ == relabel_text(table@),
{
    let mut q = String::from_str("UPDATE ");
    q.append(table);
    q.append(" SET label = $label WHERE item_id = $id");
    q
}

/// The market columns of a new row, each set to `'0'`, followed by the two
/// timestamps, set to the time bound as `$now`.
pub const NEW_MARKET_COLUMNS: &'static str = "sell_price_fort_sterling='0', sell_price_martlock='0', sell_price_thetford='0', sell_price_brecilien='0', buy_price_fort_sterling='0', buy_price_martlock='0', buy_price_thetford='0', buy_price_brecilien='0', orders_thetford='0', orders_fort_sterling='0', orders_martlock='0', orders_brecilien='0', created_at=$now, updated_at=$now";

/// The columns that end a seeded row: no comment, no popularity, and the
/// data service as its source.
pub const SEEDED_ROW_END: &'static str = "comment='', popularity='0', source='api'";

/// The query that creates a seeded item: label, id, artefact and resources
/// bound, prices at `'0'`.
pub open spec fn create_item_text() -> Seq<char> {
    "CREATE items SET label=$label, item_id=$item_id, craft_price='0', enchantment_price='0', artefact_id=$artefact_id, "@
        + NEW_MARKET_COLUMNS@ + ", resources=$resources, "@ + SEEDED_ROW_END@
}

/// The query that creates a seeded artefact: label, id and crafted item
/// bound, prices at `'0'`.
pub open spec fn create_artefact_text() -> Seq<char> {
    "CREATE artefacts SET label=$label, item_id=$item_id, crafted_item_id=$crafted_item_id, "@
        + NEW_MARKET_COLUMNS@ + ", "@ + SEEDED_ROW_END@
}

/// The query that creates a seeded resource: label and id bound, prices at
/// `'0'`.
pub open spec fn create_resource_text() -> Seq<char> {
    "CREATE resources SET label=$label, item_id=$item_id, craft_price='0', "@ + NEW_MARKET_COLUMNS@
        + ", "@ + SEEDED_ROW_END@
}

/// Builds the query that creates a seeded item.
pub fn create_item_query() -> (q: String)
    ensures
        q@ == create_item_text(),
{
    let mut q = String::from_str(
        "CREATE items SET label=$label, item_id=$item_id, craft_price='0', enchantment_price='0', artefact_id=$artefact_id, ",
    );
    q.append(NEW_MARKET_COLUMNS);
    q.append(", resources=$resources, ");
    q.append(SEEDED_ROW_END);
    q
}

/// Builds the query that creates a seeded artefact.
pub fn create_artefact_query() -> (q: String)
    ensures
        q@ == create_artefact_text(),
{
    let mut q = String::from_str(
        "CREATE artefacts SET label=$label, item_id=$item_id, crafted_item_id=$crafted_item_id, ",
    );
    q.append(NEW_MARKET_COLUMNS);
    q.append(", ");
    q.append(SEEDED_ROW_END);
    q
}

/// Builds the query that creates a seeded resource.
pub fn create_resource_query() -> (q: String)
    ensures
        q@ == create_resource_text(),
{
    let mut q = String::from_str("CREATE resources SET label=$label, item_id=$item_id, craft_price='0', ");
    q.append(NEW_MARKET_COLUMNS);
    q.append(", ");
    q.append(SEEDED_ROW_END);
    q
}

/// The query that finds whether some stored item lacks its resources.
pub const MISSING_RESOURCES_QUERY: &'static str = "SELECT item_id, resources FROM items WHERE resources IS NONE LIMIT 1";

/// The query that fills in the resources, bound as `$resources`, of the
/// item with the id bound as `$id`, where it has none.
pub const BACKFILL_QUERY: &'static str = "UPDATE items SET resources = $resources WHERE item_id = $id AND resources IS NONE";

} // verus!
