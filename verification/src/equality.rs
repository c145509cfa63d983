//! Structural equality of value trees.
use crate::number::lemma_equal_equivalence;
use crate::text::as_slice;
use crate::text::same_text;
use crate::value::lemma_array_view;
use crate::value::lemma_object_view;
use crate::value::Value;
use crate::value::ValueView;
use vstd::prelude::*;
use vstd::std_specs::cmp::PartialEqSpecImpl;
use vstd::std_specs::vec::axiom_vec_index_decreases;

verus! {

/// Whether two trees are structurally equal: of the same kind, with equal
/// scalars, the same characters in strings and keys, and equal children at
/// every position. Whether a string is borrowed or owned plays no part.
pub fn same_value(a: &Value<'_>, b: &Value<'_>) -> (equal: bool)
    ensures
        equal == a@.equal(b@),
    decreases a,
{
    match (a, b) {
        (Value::Null, Value::Null) => true,
        (Value::Bool(x), Value::Bool(y)) => *x == *y,
        (Value::Number(x), Value::Number(y)) => x == y,
        (Value::Str(x), Value::Str(y)) => same_text(as_slice(x), as_slice(y)),
        (Value::Array(x), Value::Array(y)) => {
            proof {
                lemma_array_view(*x);
                lemma_array_view(*y);
            }
            if x.len() != y.len() {
                return false;
            }
            let mut i: usize = 0;
            while i < x.len()
                invariant
                    *a == Value::Array(*x),
                    a@ is Array,
                    b@ is Array,
                    i <= x.len(),
                    x.len() == y.len(),
                    a@->Array_0.len() == x.len(),
                    b@->Array_0.len() == y.len(),
                    forall|j: int| 0 <= j < x.len() ==> (#[trigger] a@->Array_0[j]) == x[j]@,
                    forall|j: int| 0 <= j < y.len() ==> (#[trigger] b@->Array_0[j]) == y[j]@,
                    forall|j: int| 0 <= j < i ==> (#[trigger] a@->Array_0[j]).equal(b@->Array_0[j]),
                decreases x.len() - i,
            {
                proof {
                    axiom_vec_index_decreases(*x, i as int);
                    assert(decreases_to!(a => a->Array_0));
                }
                if !same_value(&x[i], &y[i]) {
                    assert(!a@->Array_0[i as int].equal(b@->Array_0[i as int]));
                    return false;
                }
                i += 1;
            }
            true
        },
        (Value::Object(x), Value::Object(y)) => {
            proof {
                lemma_object_view(*x);
                lemma_object_view(*y);
            }
            if x.len() != y.len() {
                return false;
            }
            let mut i: usize = 0;
            while i < x.len()
                invariant
                    *a == Value::Object(*x),
                    a@ is Object,
                    b@ is Object,
                    i <= x.len(),
                    x.len() == y.len(),
                    a@->Object_0.len() == x.len(),
                    b@->Object_0.len() == y.len(),
                    forall|j: int|
                        0 <= j < x.len() ==> (#[trigger] a@->Object_0[j]) == (x[j].0@, x[j].1@),
                    forall|j: int|
                        0 <= j < y.len() ==> (#[trigger] b@->Object_0[j]) == (y[j].0@, y[j].1@),
                    forall|j: int|
                        0 <= j < i ==> (#[trigger] a@->Object_0[j]).0 == b@->Object_0[j].0
                            && a@->Object_0[j].1.equal(b@->Object_0[j].1),
                decreases x.len() - i,
            {
                proof {
                    axiom_vec_index_decreases(*x, i as int);
                    assert(decreases_to!(a => a->Object_0));
                    assert(decreases_to!(x[i as int] => x[i as int].1));
                }
                if !same_text(x[i].0, y[i].0) || !same_value(&x[i].1, &y[i].1) {
                    assert(!(a@->Object_0[i as int].0 == b@->Object_0[i as int].0
                        && a@->Object_0[i as int].1.equal(b@->Object_0[i as int].1)));
                    return false;
                }
                i += 1;
            }
            true
        },
        _ => false,
    }
}

impl<'ctx> PartialEq for Value<'ctx> {
    fn eq(&self, other: &Value<'ctx>) -> (equal: bool) {
        same_value(self, other)
    }
}

impl<'ctx> PartialEqSpecImpl for Value<'ctx> {
    open spec fn obeys_eq_spec() -> bool {
        true
    }

    open spec fn eq_spec(&self, other: &Value<'ctx>) -> bool {
        self@.equal(other@)
    }
}

// Sound because well-formed trees hold no NaN.
impl<'ctx> Eq for Value<'ctx> {

}

/// A tree whose numbers meet the number invariant equals itself.
pub proof fn lemma_equal_reflexive(tree: ValueView)
    requires
        tree.wf(),
    ensures
        tree.equal(tree),
    decreases tree,
{
    match tree {
        ValueView::Number(n) => {
            lemma_equal_equivalence(n, n, n);
        },
        ValueView::Array(items) => {
            assert forall|i: int| 0 <= i < items.len() implies (#[trigger] items[i]).equal(
                items[i],
            ) by {
                lemma_equal_reflexive(items[i]);
            }
        },
        ValueView::Object(pairs) => {
            assert forall|i: int| 0 <= i < pairs.len() implies (#[trigger] pairs[i]).0
                == pairs[i].0 && pairs[i].1.equal(pairs[i].1) by {
                lemma_equal_reflexive(pairs[i].1);
            }
        },
        _ => {},
    }
}

/// Equality of trees is symmetric.
pub proof fn lemma_equal_symmetric(a: ValueView, b: ValueView)
    requires
        a.equal(b),
    ensures
        b.equal(a),
    decreases a,
{
    match (a, b) {
        (ValueView::Array(x), ValueView::Array(y)) => {
            assert forall|i: int| 0 <= i < y.len() implies (#[trigger] y[i]).equal(x[i]) by {
                assert(x[i].equal(y[i]));
                lemma_equal_symmetric(x[i], y[i]);
            }
        },
        (ValueView::Object(x), ValueView::Object(y)) => {
            assert forall|i: int| 0 <= i < y.len() implies (#[trigger] y[i]).0 == x[i].0
                && y[i].1.equal(x[i].1) by {
                assert(x[i].0 == y[i].0 && x[i].1.equal(y[i].1));
                lemma_equal_symmetric(x[i].1, y[i].1);
            }
        },
        _ => {},
    }
}

} // verus!
