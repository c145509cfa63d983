//! Conversion of a tree to the owned `serde_json::Value`, which has no tie to
//! the buffer that the tree borrows from.
//!
//! Whatever is said here of `serde_json` is taken on trust from its source,
//! built with its `preserve_order` feature: an owned object walks its entries
//! in the order in which their keys were first inserted.
use crate::number::Number;
use crate::number::NumberView;
use crate::equality::lemma_equal_reflexive;
use crate::index::lemma_first_key_from;
use crate::text::as_slice;
use crate::value::first_key_from;
use crate::value::lemma_array_view;
use crate::value::lemma_object_view;
use crate::value::Value;
use crate::value::ValueView;
use serde_json::Map as JsonMap;
use serde_json::Value as Json;
use vstd::pervasive::unreached;
use vstd::prelude::*;
use vstd::std_specs::vec::axiom_vec_index_decreases;

verus! {

/// `serde_json::Value`, the owned value: carried through as it is, and seen
/// only through `json_content`.
#[verifier::external_type_specification]
#[verifier::external_body]
pub struct ExJson(Json);

/// `serde_json::Map`, the map of an owned object: carried through as it is,
/// and seen only through `map_content`.
#[verifier::external_type_specification]
#[verifier::external_body]
#[verifier::reject_recursive_types(K)]
#[verifier::reject_recursive_types(V)]
pub struct ExJsonMap<K, V>(JsonMap<K, V>);

/// The content of an owned value, as a tree. The pairs of an object are the
/// entries of its map in the order in which the map walks them.
pub uninterp spec fn json_content(value: Json) -> ValueView;

/// The entries of an owned map in the order in which the map walks them.
pub uninterp spec fn map_content(map: JsonMap<String, Json>) -> Seq<(Seq<char>, ValueView)>;

/// What inserting an entry does to the entries of an owned map: where the key
/// is present its entry keeps its place and takes the new value, else the
/// entry is added after all others.
pub open spec fn insert_entry(
    entries: Seq<(Seq<char>, ValueView)>,
    key: Seq<char>,
    value: ValueView,
) -> Seq<(Seq<char>, ValueView)> {
    let at = first_key_from(entries, key, 0);
    if at < entries.len() {
        entries.update(at, (key, value))
    } else {
        entries.push((key, value))
    }
}

/// The entries of the map that results from inserting, in order, the first
/// `count` keys of `pairs`, each with the value of `values` at its position.
pub open spec fn collect_entries(
    pairs: Seq<(Seq<char>, ValueView)>,
    values: Seq<ValueView>,
    count: nat,
) -> Seq<(Seq<char>, ValueView)>
    decreases count,
{
    if count == 0 || count > pairs.len() || count > values.len() {
        Seq::empty()
    } else {
        insert_entry(
            collect_entries(pairs, values, (count - 1) as nat),
            pairs[count - 1].0,
            values[count - 1],
        )
    }
}

/// The owned form of an integral number: a non-negative integer has the
/// non-negative shape, whichever shape it came in.
pub open spec fn owned_integer(n: NumberView) -> NumberView {
    match n {
        NumberView::NegInt(v) if v >= 0 => NumberView::PosInt(v as u64),
        _ => n,
    }
}

/// `image` is the content of an owned value that `float` may return for the
/// float with pattern `bits`.
pub open spec fn is_float_image<F: Fn(u64) -> Json>(float: &F, bits: u64, image: ValueView) -> bool {
    exists|leaf: Json| call_ensures(float, (bits,), leaf) && json_content(leaf) == image
}

/// `image` is the content of an owned form of `tree`: the same tree, kind by
/// kind and position by position, with each float replaced by what `float`
/// returns for it and the pairs of each object collected into a map.
pub open spec fn is_owned_image<F: Fn(u64) -> Json>(
    tree: ValueView,
    float: &F,
    image: ValueView,
) -> bool
    decreases tree,
{
    match tree {
        ValueView::Null => image == ValueView::Null,
        ValueView::Bool(b) => image == ValueView::Bool(b),
        ValueView::Number(NumberView::Float(bits)) => is_float_image(float, bits, image),
        ValueView::Number(n) => image == ValueView::Number(owned_integer(n)),
        ValueView::Str(text) => image == ValueView::Str(text),
        ValueView::Array(items) => {
            &&& image matches ValueView::Array(images)
            &&& images.len() == items.len()
            &&& forall|i: int|
                0 <= i < items.len() ==> is_owned_image(#[trigger] items[i], float, images[i])
        },
        ValueView::Object(pairs) => exists|values: Seq<ValueView>|
            {
                &&& values.len() == pairs.len()
                &&& forall|i: int|
                    0 <= i < pairs.len() ==> is_owned_image(
                        (#[trigger] pairs[i]).1,
                        float,
                        values[i],
                    )
                &&& image == ValueView::Object(collect_entries(pairs, values, pairs.len()))
            },
    }
}

/// `serde_json::Value::Null`, the owned null.
#[verifier::external_body]
fn json_null() -> (owned: Json)
    ensures
        json_content(owned) == ValueView::Null,
{
    Json::Null
}

/// `serde_json::Value::from(bool)`, the owned boolean.
#[verifier::external_body]
fn json_bool(b: bool) -> (owned: Json)
    ensures
        json_content(owned) == ValueView::Bool(b),
{
    Json::from(b)
}

/// `serde_json::Value::from(u64)`: the owned number of the non-negative
/// shape with that value.
#[verifier::external_body]
fn json_unsigned(n: u64) -> (owned: Json)
    ensures
        json_content(owned) == ValueView::Number(NumberView::PosInt(n)),
{
    Json::from(n)
}

/// `serde_json::Value::from(i64)`: the owned number with that value, of the
/// negative shape where the value is below zero and else of the non-negative
/// shape.
#[verifier::external_body]
fn json_signed(n: i64) -> (owned: Json)
    ensures
        json_content(owned) == ValueView::Number(owned_integer(NumberView::NegInt(n))),
{
    Json::from(n)
}

/// `serde_json::Value::from(String)`: the owned string with those characters.
#[verifier::external_body]
fn json_string(text: String) -> (owned: Json)
    ensures
        json_content(owned) == ValueView::Str(text@),
{
    Json::from(text)
}

/// `serde_json::Value::Array`: the owned array of the given elements in the
/// given order.
#[verifier::external_body]
fn json_array(items: Vec<Json>) -> (owned: Json)
    ensures
        json_content(owned) == ValueView::Array(items@.map_values(|item: Json| json_content(item))),
{
    Json::Array(items)
}

/// `serde_json::Map::new`: a map without entries.
#[verifier::external_body]
fn map_new() -> (map: JsonMap<String, Json>)
    ensures
        map_content(map) == Seq::<(Seq<char>, ValueView)>::empty(),
{
    JsonMap::new()
}

/// `serde_json::Map::insert`: where the key is present its entry keeps its
/// place and takes the new value, else the entry is added last.
#[verifier::external_body]
fn map_insert(map: &mut JsonMap<String, Json>, key: String, value: Json)
    ensures
        map_content(*final(map)) == insert_entry(map_content(*old(map)), key@, json_content(value)),
{
    map.insert(key, value);
}

/// `serde_json::Value::from(Map)`: the owned object with the entries of the
/// map.
#[verifier::external_body]
fn json_object(map: JsonMap<String, Json>) -> (owned: Json)
    ensures
        json_content(owned) == ValueView::Object(map_content(map)),
{
    Json::from(map)
}

/// `float` may be called on the pattern of every float in the tree.
pub open spec fn takes_floats_of<F: Fn(u64) -> Json>(float: &F, tree: ValueView) -> bool {
    forall|bits: u64| #[trigger]
        tree.has_node(ValueView::Number(NumberView::Float(bits))) ==> call_requires(float, (bits,))
}

/// The owned form of a number: an integer directly, a float through `float`,
/// which is handed the float's bit pattern.
pub fn number_to_owned<F: Fn(u64) -> Json>(number: &Number, float: &F) -> (owned: Json)
    requires
        takes_floats_of(float, ValueView::Number(number@)),
    ensures
        is_owned_image(ValueView::Number(number@), float, json_content(owned)),
{
    match (number.as_u64(), number.float_bits(), number.as_i64()) {
        (Some(unsigned), _, _) => json_unsigned(unsigned),
        (None, Some(bits), _) => {
            assert(ValueView::Number(number@).has_node(ValueView::Number(NumberView::Float(bits))));
            float(bits)
        },
        (None, None, Some(signed)) => json_signed(signed),
        (None, None, None) => unreached(),
    }
}

impl<'ctx> Value<'ctx> {
    /// Converts the tree to an owned `serde_json::Value` of the same
    /// structure: null to null, a boolean to the same boolean, an integer to
    /// the same integer, a string to an owned copy of its characters, an array
    /// to the array of its converted elements in order, an object to the map
    /// that results from inserting its converted pairs in order, with owned
    /// copies of the keys.
    ///
    /// A float is converted by `float`, which is handed the float's bit
    /// pattern: this crate holds floats as bit patterns only. `float` has to
    /// accept the pattern of every float in the tree. For a pattern that is
    /// not finite no owned number exists, and `float` is to fail rather than
    /// substitute a value.
    pub fn to_owned_json<F: Fn(u64) -> Json>(&self, float: &F) -> (owned: Json)
        requires
            takes_floats_of(float, self@),
        ensures
            is_owned_image(self@, float, json_content(owned)),
        decreases self,
    {
        match self {
            Value::Null => json_null(),
            Value::Bool(b) => json_bool(*b),
            Value::Number(number) => number_to_owned(number, float),
            Value::Str(text) => json_string(as_slice(text).to_owned()),
            Value::Array(items) => {
                proof {
                    lemma_array_view(*items);
                }
                let mut converted: Vec<Json> = Vec::new();
                let mut i: usize = 0;
                while i < items.len()
                    invariant
                        *self == Value::Array(*items),
                        self@ is Array,
                        self@->Array_0.len() == items.len(),
                        forall|j: int|
                            0 <= j < items.len() ==> (#[trigger] self@->Array_0[j]) == items[j]@,
                        takes_floats_of(float, self@),
                        i <= items.len(),
                        converted.len() == i,
                        forall|j: int|
                            0 <= j < i ==> is_owned_image(
                                #[trigger] items[j]@,
                                float,
                                json_content(converted[j]),
                            ),
                    decreases items.len() - i,
                {
                    proof {
                        axiom_vec_index_decreases(*items, i as int);
                        assert(decreases_to!(self => self->Array_0));
                        assert forall|bits: u64| #[trigger]
                            items[i as int]@.has_node(
                                ValueView::Number(NumberView::Float(bits)),
                            ) implies call_requires(float, (bits,)) by {
                            assert(self@->Array_0[i as int].has_node(
                                ValueView::Number(NumberView::Float(bits)),
                            ));
                            assert(self@.has_node(ValueView::Number(NumberView::Float(bits))));
                        }
                    }
                    let element = items[i].to_owned_json(float);
                    converted.push(element);
                    i += 1;
                }
                let owned = json_array(converted);
                proof {
                    let images = converted@.map_values(|item: Json| json_content(item));
                    assert(json_content(owned) == ValueView::Array(images));
                    assert forall|j: int| 0 <= j < items.len() implies is_owned_image(
                        #[trigger] self@->Array_0[j],
                        float,
                        images[j],
                    ) by {
                        assert(is_owned_image(items[j]@, float, json_content(converted[j])));
                    }
                }
                owned
            },
            Value::Object(pairs) => {
                proof {
                    lemma_object_view(*pairs);
                }
                let mut map = map_new();
                let ghost mut values: Seq<ValueView> = Seq::empty();
                let mut i: usize = 0;
                while i < pairs.len()
                    invariant
                        *self == Value::Object(*pairs),
                        self@ is Object,
                        self@->Object_0.len() == pairs.len(),
                        forall|j: int|
                            0 <= j < pairs.len() ==> (#[trigger] self@->Object_0[j]) == (
                                pairs[j].0@,
                                pairs[j].1@,
                            ),
                        takes_floats_of(float, self@),
                        i <= pairs.len(),
                        values.len() == i,
                        forall|j: int|
                            0 <= j < i ==> is_owned_image(
                                (#[trigger] self@->Object_0[j]).1,
                                float,
                                values[j],
                            ),
                        map_content(map) == collect_entries(self@->Object_0, values, i as nat),
                    decreases pairs.len() - i,
                {
                    proof {
                        axiom_vec_index_decreases(*pairs, i as int);
                        assert(decreases_to!(self => self->Object_0));
                        assert(decreases_to!(pairs[i as int] => pairs[i as int].1));
                        assert forall|bits: u64| #[trigger]
                            pairs[i as int].1@.has_node(
                                ValueView::Number(NumberView::Float(bits)),
                            ) implies call_requires(float, (bits,)) by {
                            assert(self@->Object_0[i as int].1.has_node(
                                ValueView::Number(NumberView::Float(bits)),
                            ));
                            assert(self@.has_node(ValueView::Number(NumberView::Float(bits))));
                        }
                    }
                    let element = pairs[i].1.to_owned_json(float);
                    let key = pairs[i].0.to_owned();
                    proof {
                        let before = values;
                        values = values.push(json_content(element));
                        lemma_collect_prefix(self@->Object_0, before, values, i as nat);
                    }
                    map_insert(&mut map, key, element);
                    i += 1;
                }
                json_object(map)
            },
        }
    }
}

/// The first `count` insertions depend only on the first `count` values.
proof fn lemma_collect_prefix(
    pairs: Seq<(Seq<char>, ValueView)>,
    a: Seq<ValueView>,
    b: Seq<ValueView>,
    count: nat,
)
    requires
        count <= pairs.len(),
        count <= a.len(),
        count <= b.len(),
        forall|i: int| 0 <= i < count ==> a[i] == b[i],
    ensures
        collect_entries(pairs, a, count) == collect_entries(pairs, b, count),
    decreases count,
{
    if count > 0 {
        lemma_collect_prefix(pairs, a, b, (count - 1) as nat);
    }
}

impl ValueView {
    /// No object in the tree has two pairs with the same key.
    pub open spec fn keys_distinct(self) -> bool
        decreases self,
    {
        match self {
            ValueView::Array(items) => forall|i: int|
                0 <= i < items.len() ==> (#[trigger] items[i]).keys_distinct(),
            ValueView::Object(pairs) => {
                &&& forall|i: int, j: int|
                    0 <= i < j < pairs.len() ==> (#[trigger] pairs[i]).0 != (#[trigger] pairs[j]).0
                &&& forall|i: int| 0 <= i < pairs.len() ==> (#[trigger] pairs[i]).1.keys_distinct()
            },
            _ => true,
        }
    }
}

/// Whatever `float` returns for a bit pattern is the owned float with that
/// pattern.
pub open spec fn builds_floats<F: Fn(u64) -> Json>(float: &F) -> bool {
    forall|bits: u64, leaf: Json| #[trigger]
        call_ensures(float, (bits,), leaf) ==> json_content(leaf) == ValueView::Number(
            NumberView::Float(bits),
        )
}

/// Pairs with distinct keys are collected into the same pairs in the same
/// order.
proof fn lemma_collect_distinct(
    pairs: Seq<(Seq<char>, ValueView)>,
    values: Seq<ValueView>,
    count: nat,
)
    requires
        count <= pairs.len(),
        values.len() == pairs.len(),
        forall|i: int| 0 <= i < pairs.len() ==> values[i] == (#[trigger] pairs[i]).1,
        forall|i: int, j: int|
            0 <= i < j < pairs.len() ==> (#[trigger] pairs[i]).0 != (#[trigger] pairs[j]).0,
    ensures
        collect_entries(pairs, values, count) == pairs.subrange(0, count as int),
    decreases count,
{
    if count > 0 {
        let before = collect_entries(pairs, values, (count - 1) as nat);
        lemma_collect_distinct(pairs, values, (count - 1) as nat);
        let key = pairs[count - 1].0;
        lemma_first_key_from(before, key, 0);
        let at = first_key_from(before, key, 0);
        if at < before.len() {
            assert(before[at] == pairs[at]);
            assert(pairs[at].0 != pairs[count - 1].0);
        }
        assert(pairs[count - 1] == (key, values[count - 1]));
        assert(before.push(pairs[count - 1]) =~= pairs.subrange(0, count as int));
    }
}

/// Converting a tree to its owned form and reading the result back as a tree
/// gives an equal tree, and indeed the same content, where the numbers of the
/// tree meet the number invariant, no object of the tree has a key twice, and
/// `float` builds the owned float of each bit pattern.
pub proof fn lemma_owned_round_trip<F: Fn(u64) -> Json>(tree: ValueView, float: &F, image: ValueView)
    requires
        tree.wf(),
        tree.keys_distinct(),
        builds_floats(float),
        is_owned_image(tree, float, image),
    ensures
        image == tree,
        tree.equal(image),
    decreases tree,
{
    match tree {
        ValueView::Array(items) => {
            let images = image->Array_0;
            assert forall|i: int| 0 <= i < items.len() implies images[i] == items[i] by {
                assert(is_owned_image(items[i], float, images[i]));
                lemma_owned_round_trip(items[i], float, images[i]);
            }
            assert(images =~= items);
        },
        ValueView::Object(pairs) => {
            let values = choose|values: Seq<ValueView>|
                {
                    &&& values.len() == pairs.len()
                    &&& forall|i: int|
                        0 <= i < pairs.len() ==> is_owned_image(
                            (#[trigger] pairs[i]).1,
                            float,
                            values[i],
                        )
                    &&& image == ValueView::Object(collect_entries(pairs, values, pairs.len()))
                };
            assert forall|i: int| 0 <= i < pairs.len() implies values[i] == (#[trigger] pairs[i]).1 by {
                assert(is_owned_image(pairs[i].1, float, values[i]));
                lemma_owned_round_trip(pairs[i].1, float, values[i]);
            }
            lemma_collect_distinct(pairs, values, pairs.len());
            assert(pairs.subrange(0, pairs.len() as int) =~= pairs);
        },
        _ => {},
    }
    lemma_equal_reflexive(tree);
}

} // verus!
