//! Path components: what `Value::get` accepts to go one level into a tree.
use crate::text::same_text;
use crate::value::first_key_from;
use crate::value::lemma_array_view;
use crate::value::lemma_object_view;
use crate::value::Value;
use crate::value::ValueView;
use vstd::prelude::*;

verus! {

/// A component of a path into a tree: a position in an array or a key of an
/// object.
pub trait Index<'v>: Sized {
    /// What the component selects in a tree, if anything.
    spec fn select(self, tree: ValueView) -> Option<ValueView>;

    /// Goes one level into `v`: the selected child, or `None` where `v` is not
    /// of the kind that the component indexes or holds no such child.
    fn index_into(self, v: &'v Value<'v>) -> (child: Option<&'v Value<'v>>)
        ensures
            match child {
                Some(found) => self.select(v@) == Some(found@),
                None => self.select(v@) is None,
            },
    ;
}

impl<'v> Index<'v> for usize {
    open spec fn select(self, tree: ValueView) -> Option<ValueView> {
        tree.at_position(self as int)
    }

    fn index_into(self, v: &'v Value<'v>) -> (child: Option<&'v Value<'v>>) {
        match v {
            Value::Array(items) => {
                proof {
                    lemma_array_view(*items);
                }
                if self < items.len() {
                    Some(&items[self])
                } else {
                    None
                }
            },
            _ => None,
        }
    }
}

impl<'v, 'a> Index<'v> for &'a str {
    open spec fn select(self, tree: ValueView) -> Option<ValueView> {
        tree.at_key(self@)
    }

    fn index_into(self, v: &'v Value<'v>) -> (child: Option<&'v Value<'v>>) {
        match v {
            Value::Object(pairs) => {
                proof {
                    lemma_object_view(*pairs);
                }
                let mut i: usize = 0;
                while i < pairs.len()
                    invariant
                        i <= pairs.len(),
                        v@ is Object,
                        v@->Object_0.len() == pairs.len(),
                        forall|j: int|
                            0 <= j < pairs.len() ==> (#[trigger] v@->Object_0[j]) == (
                                pairs[j].0@,
                                pairs[j].1@,
                            ),
                        first_key_from(v@->Object_0, self@, 0) == first_key_from(
                            v@->Object_0,
                            self@,
                            i as int,
                        ),
                    decreases pairs.len() - i,
                {
                    if same_text(pairs[i].0, self) {
                        return Some(&pairs[i].1);
                    }
                    i += 1;
                }
                None
            },
            _ => None,
        }
    }
}

/// One component of a path, as a plain value.
pub enum Step {
    /// A position in an array.
    Position(usize),
    /// A key of an object.
    Key(Seq<char>),
}

impl ValueView {
    /// What one `get` with the given component returns.
    pub open spec fn step(self, component: Step) -> ValueView {
        match component {
            Step::Position(position) => ValueView::or_null(self.at_position(position as int)),
            Step::Key(key) => ValueView::or_null(self.at_key(key)),
        }
    }

    /// What a chain of `get` calls returns, one for each component of `path`
    /// in order.
    pub open spec fn follow(self, path: Seq<Step>) -> ValueView
        decreases path.len(),
    {
        if path.len() == 0 {
            self
        } else {
            self.step(path[0]).follow(path.skip(1))
        }
    }

    /// `node` is this tree or one of the trees below it.
    pub open spec fn has_node(self, node: ValueView) -> bool
        decreases self,
    {
        self == node || match self {
            ValueView::Array(items) => exists|i: int|
                0 <= i < items.len() && (#[trigger] items[i]).has_node(node),
            ValueView::Object(pairs) => exists|i: int|
                0 <= i < pairs.len() && (#[trigger] pairs[i]).1.has_node(node),
            _ => false,
        }
    }
}

/// A position at or beyond the length of an array selects nothing, so `get`
/// returns null; a position within the array selects exactly the element at
/// that position. On anything but an array a position selects nothing.
pub proof fn lemma_position(tree: ValueView, position: usize)
    ensures
        tree matches ValueView::Array(items) ==> {
            &&& position < items.len() ==> tree.step(Step::Position(position))
                == items[position as int]
            &&& position >= items.len() ==> tree.at_position(position as int) is None
                && tree.step(Step::Position(position)) == ValueView::Null
        },
        !(tree is Array) ==> tree.step(Step::Position(position)) == ValueView::Null,
{
}

/// What `first_key_from` finds: the least index at or after `from` whose pair
/// has the key, or the length where no pair at or after `from` has it.
pub proof fn lemma_first_key_from(pairs: Seq<(Seq<char>, ValueView)>, key: Seq<char>, from: int)
    requires
        0 <= from <= pairs.len(),
    ensures
        from <= first_key_from(pairs, key, from) <= pairs.len(),
        first_key_from(pairs, key, from) < pairs.len() ==> pairs[first_key_from(
            pairs,
            key,
            from,
        )].0 == key,
        forall|j: int| from <= j < first_key_from(pairs, key, from) ==> (#[trigger] pairs[j]).0 != key,
    decreases pairs.len() - from,
{
    if from < pairs.len() && pairs[from].0 != key {
        lemma_first_key_from(pairs, key, from + 1);
    }
}

/// A key that some pair of an object has selects the value of the first such
/// pair in storage order; a key that no pair has selects nothing, so `get`
/// returns null, as it does for a key whose first pair holds null. On
/// anything but an object a key selects nothing.
pub proof fn lemma_key(tree: ValueView, key: Seq<char>)
    ensures
        tree matches ValueView::Object(pairs) ==> {
            let first = first_key_from(pairs, key, 0);
            &&& 0 <= first <= pairs.len()
            &&& forall|j: int| 0 <= j < first ==> (#[trigger] pairs[j]).0 != key
            &&& first < pairs.len() ==> pairs[first].0 == key && tree.step(Step::Key(key))
                == pairs[first].1
            &&& first == pairs.len() ==> tree.at_key(key) is None && tree.step(Step::Key(key))
                == ValueView::Null
            &&& first < pairs.len() && pairs[first].1 == ValueView::Null ==> tree.step(
                Step::Key(key),
            ) == ValueView::Null
        },
        !(tree is Object) ==> tree.step(Step::Key(key)) == ValueView::Null,
{
    if let ValueView::Object(pairs) = tree {
        lemma_first_key_from(pairs, key, 0);
    }
}

/// One step from a tree gives null or a child of the tree.
pub proof fn lemma_step_node(tree: ValueView, component: Step)
    ensures
        tree.step(component) == ValueView::Null || tree.has_node(tree.step(component)),
{
    let child = tree.step(component);
    match component {
        Step::Position(position) => {
            if let ValueView::Array(items) = tree {
                if position < items.len() {
                    assert(items[position as int].has_node(child));
                }
            }
        },
        Step::Key(key) => {
            if let ValueView::Object(pairs) = tree {
                lemma_first_key_from(pairs, key, 0);
                let first = first_key_from(pairs, key, 0);
                if first < pairs.len() {
                    assert(pairs[first].1.has_node(child));
                }
            }
        },
    }
}

/// A node of a node of a tree is a node of the tree.
pub proof fn lemma_has_node_transitive(tree: ValueView, middle: ValueView, node: ValueView)
    requires
        tree.has_node(middle),
        middle.has_node(node),
    ensures
        tree.has_node(node),
    decreases tree,
{
    if tree != middle {
        match tree {
            ValueView::Array(items) => {
                let i = choose|i: int| 0 <= i < items.len() && (#[trigger] items[i]).has_node(middle);
                lemma_has_node_transitive(items[i], middle, node);
            },
            ValueView::Object(pairs) => {
                let i = choose|i: int|
                    0 <= i < pairs.len() && (#[trigger] pairs[i]).1.has_node(middle);
                lemma_has_node_transitive(pairs[i].1, middle, node);
            },
            _ => {},
        }
    }
}

/// A chain of `get` calls always yields a value: a node of the tree it
/// started from, or null. Once a step has missed, every later step yields
/// null again.
pub proof fn lemma_follow(tree: ValueView, path: Seq<Step>)
    ensures
        tree.follow(path) == ValueView::Null || tree.has_node(tree.follow(path)),
        ValueView::Null.follow(path) == ValueView::Null,
    decreases path.len(),
{
    if path.len() > 0 {
        let child = tree.step(path[0]);
        lemma_step_node(tree, path[0]);
        lemma_follow(child, path.skip(1));
        lemma_follow(ValueView::Null, path.skip(1));
        if child != ValueView::Null && child.follow(path.skip(1)) != ValueView::Null {
            lemma_has_node_transitive(tree, child, child.follow(path.skip(1)));
        }
    }
}

} // verus!
