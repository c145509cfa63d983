//! The value tree: its mathematical content, its type predicates and its
//! typed accessors.
use crate::index::Index;
use crate::number::Number;
use crate::number::NumberView;
use crate::text::as_slice;
use std::borrow::Cow;
use std::slice::Iter;
use vstd::prelude::*;
use vstd::std_specs::iter::IteratorSpec;
use vstd::std_specs::vec::axiom_vec_index_decreases;

verus! {

/// The mathematical content of a [`Value`]: the tree with every string taken
/// as its sequence of characters, whether it was borrowed or owned.
pub enum ValueView {
    Null,
    Bool(bool),
    Number(NumberView),
    Str(Seq<char>),
    /// The elements in storage order.
    Array(Seq<ValueView>),
    /// The `(key, value)` pairs in storage order; a key may occur twice.
    Object(Seq<(Seq<char>, ValueView)>),
}

impl ValueView {
    /// Every number in the tree meets the number invariant.
    pub open spec fn wf(self) -> bool
        decreases self,
    {
        match self {
            ValueView::Number(n) => n.wf(),
            ValueView::Array(items) => forall|i: int|
                0 <= i < items.len() ==> (#[trigger] items[i]).wf(),
            ValueView::Object(pairs) => forall|i: int|
                0 <= i < pairs.len() ==> (#[trigger] pairs[i]).1.wf(),
            _ => true,
        }
    }

    /// Structural, variant-exact equality. Arrays are equal when they have the
    /// same length and equal elements at every position; objects when they
    /// have the same length and, at every position, the same key and equal
    /// values. Two objects with the same pairs in different orders differ.
    pub open spec fn equal(self, other: ValueView) -> bool
        decreases self,
    {
        match (self, other) {
            (ValueView::Null, ValueView::Null) => true,
            (ValueView::Bool(a), ValueView::Bool(b)) => a == b,
            (ValueView::Number(a), ValueView::Number(b)) => a.equal(b),
            (ValueView::Str(a), ValueView::Str(b)) => a == b,
            (ValueView::Array(a), ValueView::Array(b)) => {
                &&& a.len() == b.len()
                &&& forall|i: int| 0 <= i < a.len() ==> (#[trigger] a[i]).equal(b[i])
            },
            (ValueView::Object(a), ValueView::Object(b)) => {
                &&& a.len() == b.len()
                &&& forall|i: int|
                    0 <= i < a.len() ==> (#[trigger] a[i]).0 == b[i].0 && a[i].1.equal(b[i].1)
            },
            _ => false,
        }
    }

    /// The element at `position` of an array; `None` for a position outside
    /// the array and for every other kind of value.
    pub open spec fn at_position(self, position: int) -> Option<ValueView> {
        match self {
            ValueView::Array(items) => if 0 <= position < items.len() {
                Some(items[position])
            } else {
                None
            },
            _ => None,
        }
    }

    /// The value of the first pair of an object, in storage order, whose key
    /// is `key`; `None` where no pair has that key and for every other kind of
    /// value.
    pub open spec fn at_key(self, key: Seq<char>) -> Option<ValueView> {
        match self {
            ValueView::Object(pairs) => {
                let first = first_key_from(pairs, key, 0);
                if first < pairs.len() {
                    Some(pairs[first].1)
                } else {
                    None
                }
            },
            _ => None,
        }
    }

    /// The selected child, or `Null` where nothing is selected.
    pub open spec fn or_null(selected: Option<ValueView>) -> ValueView {
        match selected {
            Some(found) => found,
            None => ValueView::Null,
        }
    }
}

/// The least index at or after `from` of a pair whose key is `key`, or the
/// number of pairs where there is none.
pub open spec fn first_key_from(pairs: Seq<(Seq<char>, ValueView)>, key: Seq<char>, from: int) -> int
    decreases pairs.len() - from,
{
    if from < 0 || from >= pairs.len() {
        pairs.len() as int
    } else if pairs[from].0 == key {
        from
    } else {
        first_key_from(pairs, key, from + 1)
    }
}

/// Represents any valid JSON value.
///
/// Strings either borrow from the buffer that the tree was parsed from or own
/// their bytes; object keys always borrow. An object is a list of pairs in
/// insertion order, not a map: a key may occur more than once.
pub enum Value<'ctx> {
    /// Represents a JSON null value.
    Null,
    /// Represents a JSON boolean.
    Bool(bool),
    /// Represents a JSON number, whether integer or floating point.
    Number(Number),
    /// Represents a JSON string.
    Str(Cow<'ctx, str>),
    /// Represents a JSON array.
    Array(Vec<Value<'ctx>>),
    /// Represents a JSON object, backed by a `Vec` of pairs.
    Object(Vec<(&'ctx str, Value<'ctx>)>),
}

/// The content of a tree.
pub open spec fn tree_view(tree: Value<'_>) -> ValueView
    decreases tree, 0nat,
{
    match tree {
        Value::Null => ValueView::Null,
        Value::Bool(b) => ValueView::Bool(b),
        Value::Number(n) => ValueView::Number(n@),
        Value::Str(text) => ValueView::Str(text@),
        Value::Array(items) => ValueView::Array(elements_view(items@, items@.len())),
        Value::Object(pairs) => ValueView::Object(pairs_view(pairs@, pairs@.len())),
    }
}

/// The contents of the first `count` elements, in order.
pub open spec fn elements_view(items: Seq<Value<'_>>, count: nat) -> Seq<ValueView>
    decreases items, count,
{
    if count == 0 || count > items.len() {
        Seq::empty()
    } else {
        elements_view(items, (count - 1) as nat).push(tree_view(items[count - 1]))
    }
}

/// The first `count` pairs, in order, each with the characters of its key and
/// the content of its value.
pub open spec fn pairs_view(pairs: Seq<(&str, Value<'_>)>, count: nat) -> Seq<
    (Seq<char>, ValueView),
>
    decreases pairs, count,
{
    if count == 0 || count > pairs.len() {
        Seq::empty()
    } else {
        pairs_view(pairs, (count - 1) as nat).push(
            (pairs[count - 1].0@, tree_view(pairs[count - 1].1)),
        )
    }
}

/// The one shared null that `get` returns for every miss.
fn null_sentinel<'ctx>() -> (null: &'ctx Value<'ctx>)
    ensures
        null@ == ValueView::Null,
{
    &Value::Null
}

impl<'ctx> View for Value<'ctx> {
    type V = ValueView;

    open spec fn view(&self) -> ValueView {
        tree_view(*self)
    }
}

impl<'ctx> Clone for Value<'ctx> {
    /// A copy with the same content: borrowed strings borrow the same data,
    /// owned strings are copied.
    fn clone(&self) -> (copy: Self)
        ensures
            copy@ == self@,
        decreases self,
    {
        match self {
            Value::Null => Value::Null,
            Value::Bool(b) => Value::Bool(*b),
            Value::Number(n) => Value::Number(*n),
            Value::Str(text) => Value::Str(
                match text {
                    Cow::Borrowed(borrowed) => Cow::Borrowed(*borrowed),
                    Cow::Owned(owned) => Cow::Owned(owned.clone()),
                },
            ),
            Value::Array(items) => {
                let mut copies: Vec<Value<'ctx>> = Vec::new();
                let mut i: usize = 0;
                while i < items.len()
                    invariant
                        *self == Value::Array(*items),
                        i <= items.len(),
                        copies.len() == i,
                        forall|j: int| 0 <= j < i ==> copies[j]@ == items[j]@,
                    decreases items.len() - i,
                {
                    proof {
                        axiom_vec_index_decreases(*items, i as int);
                        assert(decreases_to!(self => self->Array_0));
                    }
                    copies.push(items[i].clone());
                    i += 1;
                }
                proof {
                    lemma_array_view(*items);
                    lemma_array_view(copies);
                }
                let copy = Value::Array(copies);
                assert(copy@->Array_0 =~= self@->Array_0);
                copy
            },
            Value::Object(pairs) => {
                let mut copies: Vec<(&'ctx str, Value<'ctx>)> = Vec::new();
                let mut i: usize = 0;
                while i < pairs.len()
                    invariant
                        *self == Value::Object(*pairs),
                        i <= pairs.len(),
                        copies.len() == i,
                        forall|j: int|
                            0 <= j < i ==> copies[j].0@ == pairs[j].0@ && copies[j].1@
                                == pairs[j].1@,
                    decreases pairs.len() - i,
                {
                    proof {
                        axiom_vec_index_decreases(*pairs, i as int);
                        assert(decreases_to!(self => self->Object_0));
                        assert(decreases_to!(pairs[i as int] => pairs[i as int].1));
                    }
                    copies.push((pairs[i].0, pairs[i].1.clone()));
                    i += 1;
                }
                proof {
                    lemma_object_view(*pairs);
                    lemma_object_view(copies);
                }
                let copy = Value::Object(copies);
                assert(copy@->Object_0 =~= self@->Object_0);
                copy
            },
        }
    }
}

impl<'ctx> Value<'ctx> {
    /// Every number in the tree meets the number invariant.
    pub open spec fn wf(&self) -> bool {
        self@.wf()
    }

    /// Goes one level into the tree by a position (`value.get(0)`) or by a key
    /// (`value.get("k")`).
    ///
    /// A position selects the element of an array at that position; a key
    /// selects the value of the first pair of an object with that key.
    /// Returns `Value::Null` where the kind of `self` does not match the kind
    /// of the index, where the position is outside the array and where no pair
    /// has the key. A key that is absent and a key whose value is null cannot
    /// be told apart through this call.
    #[inline]
    pub fn get<I: Index<'ctx>>(&'ctx self, index: I) -> (child: &'ctx Value<'ctx>)
        ensures
            child@ == ValueView::or_null(index.select(self@)),
    {
        match index.index_into(self) {
            Some(found) => found,
            None => null_sentinel(),
        }
    }

    /// Returns true if the `Value` is an integer between `i64::MIN` and
    /// `i64::MAX`. For any `Value` on which `is_i64` returns true, `as_i64`
    /// returns the integer.
    pub fn is_i64(&self) -> (b: bool)
        ensures
            b == (self@ matches ValueView::Number(n) && n.is_i64()),
    {
        match self {
            Value::Number(n) => n.is_i64(),
            _ => false,
        }
    }

    /// Returns true if the `Value` is an integer between zero and `u64::MAX`.
    /// For any `Value` on which `is_u64` returns true, `as_u64` returns the
    /// integer.
    pub fn is_u64(&self) -> (b: bool)
        ensures
            b == (self@ matches ValueView::Number(n) && n is PosInt),
    {
        match self {
            Value::Number(n) => n.is_u64(),
            _ => false,
        }
    }

    /// Returns true if the `Value` is a floating-point number.
    pub fn is_f64(&self) -> (b: bool)
        ensures
            b == (self@ matches ValueView::Number(n) && n is Float),
    {
        match self {
            Value::Number(n) => n.is_f64(),
            _ => false,
        }
    }

    /// If the `Value` is an array, returns an iterator over its elements in
    /// storage order. Each call gives a fresh iterator.
    pub fn iter_array(&self) -> (elements: Option<Iter<'_, Value<'ctx>>>)
        ensures
            elements is Some == self@ is Array,
            elements matches Some(iter) ==> {
                &&& iter.remaining().len() == self@->Array_0.len()
                &&& forall|i: int|
                    0 <= i < iter.remaining().len() ==> (#[trigger] iter.remaining()[i])@
                        == self@->Array_0[i]
            },
    {
        match self {
            Value::Array(arr) => {
                proof {
                    lemma_array_view(*arr);
                }
                Some(arr.iter())
            },
            _ => None,
        }
    }

    /// If the `Value` is an object, returns an iterator over its pairs in
    /// storage order. Each call gives a fresh iterator.
    pub fn iter_object(&self) -> (pairs: Option<Iter<'_, (&'ctx str, Value<'ctx>)>>)
        ensures
            pairs is Some == self@ is Object,
            pairs matches Some(iter) ==> {
                &&& iter.remaining().len() == self@->Object_0.len()
                &&& forall|i: int|
                    0 <= i < iter.remaining().len() ==> ((#[trigger] iter.remaining()[i]).0@, iter.remaining()[i].1@)
                        == self@->Object_0[i]
            },
    {
        match self {
            Value::Object(arr) => {
                proof {
                    lemma_object_view(*arr);
                }
                Some(arr.iter())
            },
            _ => None,
        }
    }

    /// If the `Value` is a boolean, returns it.
    pub fn as_bool(&self) -> (value: Option<bool>)
        ensures
            value == match self@ {
                ValueView::Bool(b) => Some(b),
                _ => None::<bool>,
            },
    {
        match self {
            Value::Bool(b) => Some(*b),
            _ => None,
        }
    }

    /// If the `Value` is a string, returns its characters.
    pub fn as_str(&self) -> (value: Option<&str>)
        ensures
            match self@ {
                ValueView::Str(text) => value matches Some(slice) && slice@ == text,
                _ => value is None,
            },
    {
        match self {
            Value::Str(text) => Some(as_slice(text)),
            _ => None,
        }
    }

    /// If the `Value` is an integer that fits a signed 64-bit integer,
    /// returns it.
    pub fn as_i64(&self) -> (value: Option<i64>)
        ensures
            value == match self@ {
                ValueView::Number(n) => n.as_i64(),
                _ => None::<i64>,
            },
    {
        match self {
            Value::Number(n) => n.as_i64(),
            _ => None,
        }
    }

    /// If the `Value` is a non-negative integer, returns it.
    pub fn as_u64(&self) -> (value: Option<u64>)
        ensures
            value == match self@ {
                ValueView::Number(n) => n.as_u64(),
                _ => None::<u64>,
            },
    {
        match self {
            Value::Number(n) => n.as_u64(),
            _ => None,
        }
    }

    /// If the `Value` is a number, represents it as a floating-point value,
    /// given as its binary64 bit pattern.
    pub fn as_f64(&self) -> (value: Option<u64>)
        ensures
            value == match self@ {
                ValueView::Number(n) => Some(n.as_f64()),
                _ => None::<u64>,
            },
    {
        match self {
            Value::Number(n) => n.as_f64(),
            _ => None,
        }
    }

    /// Returns true if `Value` is Value::Null.
    pub fn is_null(&self) -> (b: bool)
        ensures
            b == (self@ is Null),
    {
        matches!(self, Value::Null)
    }

    /// Returns true if `Value` is Value::Array.
    pub fn is_array(&self) -> (b: bool)
        ensures
            b == (self@ is Array),
    {
        matches!(self, Value::Array(_))
    }

    /// Returns true if `Value` is Value::Object.
    pub fn is_object(&self) -> (b: bool)
        ensures
            b == (self@ is Object),
    {
        matches!(self, Value::Object(_))
    }

    /// Returns true if `Value` is Value::Bool.
    pub fn is_bool(&self) -> (b: bool)
        ensures
            b == (self@ is Bool),
    {
        matches!(self, Value::Bool(_))
    }

    /// Returns true if `Value` is Value::Number.
    pub fn is_number(&self) -> (b: bool)
        ensures
            b == (self@ is Number),
    {
        matches!(self, Value::Number(_))
    }

    /// Returns true if `Value` is Value::Str.
    pub fn is_string(&self) -> (b: bool)
        ensures
            b == (self@ is Str),
    {
        matches!(self, Value::Str(_))
    }
}

proof fn lemma_elements_view(items: Seq<Value<'_>>, count: nat)
    requires
        count <= items.len(),
    ensures
        elements_view(items, count).len() == count,
        forall|i: int| 0 <= i < count ==> (#[trigger] elements_view(items, count)[i]) == items[i]@,
    decreases count,
{
    if count > 0 {
        lemma_elements_view(items, (count - 1) as nat);
    }
}

proof fn lemma_pairs_view(pairs: Seq<(&str, Value<'_>)>, count: nat)
    requires
        count <= pairs.len(),
    ensures
        pairs_view(pairs, count).len() == count,
        forall|i: int|
            0 <= i < count ==> (#[trigger] pairs_view(pairs, count)[i]) == (
                pairs[i].0@,
                pairs[i].1@,
            ),
    decreases count,
{
    if count > 0 {
        lemma_pairs_view(pairs, (count - 1) as nat);
    }
}

/// The content of an array is the contents of its elements, in order.
pub proof fn lemma_array_view(items: Vec<Value<'_>>)
    ensures
        Value::Array(items)@ is Array,
        Value::Array(items)@->Array_0.len() == items.len(),
        forall|i: int|
            0 <= i < items.len() ==> (#[trigger] Value::Array(items)@->Array_0[i]) == items[i]@,
{
    lemma_elements_view(items@, items@.len());
}

/// The content of an object is its pairs, in order, each with the characters
/// of its key and the content of its value.
pub proof fn lemma_object_view(pairs: Vec<(&str, Value<'_>)>)
    ensures
        Value::Object(pairs)@ is Object,
        Value::Object(pairs)@->Object_0.len() == pairs.len(),
        forall|i: int|
            0 <= i < pairs.len() ==> (#[trigger] Value::Object(pairs)@->Object_0[i]) == (
                pairs[i].0@,
                pairs[i].1@,
            ),
{
    lemma_pairs_view(pairs@, pairs@.len());
}

} // verus!
