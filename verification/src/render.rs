//! The structural rendering of a tree, for inspection.
//!
//! The rendering is text with holes: a float is left in it as its bit pattern,
//! for the caller to print, because this crate does no floating-point work.
use crate::number::Number;
use crate::number::NumberView;
use crate::text::as_slice;
use crate::value::lemma_array_view;
use crate::value::lemma_object_view;
use crate::value::Value;
use crate::value::ValueView;
use vstd::pervasive::unreached;
use vstd::prelude::*;
use vstd::std_specs::vec::axiom_vec_index_decreases;
use vstd::string::StringExecFns;

verus! {

/// One position of a rendering: a character, or a float still to be printed.
pub enum Piece {
    Char(char),
    /// The float with this binary64 bit pattern.
    Float(u64),
}

/// A run of a rendering, as it is handed out.
pub enum Fragment {
    /// Literal text.
    Text(String),
    /// The float with this binary64 bit pattern, to be printed in its place.
    Float(u64),
}

/// The characters of a text as pieces.
pub open spec fn text_pieces(text: Seq<char>) -> Seq<Piece> {
    Seq::new(text.len(), |i: int| Piece::Char(text[i]))
}

impl Fragment {
    /// The pieces that the fragment stands for.
    pub open spec fn pieces(self) -> Seq<Piece> {
        match self {
            Fragment::Text(text) => text_pieces(text@),
            Fragment::Float(bits) => seq![Piece::Float(bits)],
        }
    }
}

/// The pieces of the first `count` fragments, one after the other.
pub open spec fn pieces_of(fragments: Seq<Fragment>, count: nat) -> Seq<Piece>
    decreases count,
{
    if count == 0 || count > fragments.len() {
        Seq::empty()
    } else {
        pieces_of(fragments, (count - 1) as nat) + fragments[count - 1].pieces()
    }
}

/// The character of a decimal digit.
pub open spec fn digit_char(digit: int) -> char {
    if digit == 0 {
        '0'
    } else if digit == 1 {
        '1'
    } else if digit == 2 {
        '2'
    } else if digit == 3 {
        '3'
    } else if digit == 4 {
        '4'
    } else if digit == 5 {
        '5'
    } else if digit == 6 {
        '6'
    } else if digit == 7 {
        '7'
    } else if digit == 8 {
        '8'
    } else {
        '9'
    }
}

/// A natural number in decimal, without leading zeros.
pub open spec fn decimal(n: nat) -> Seq<char>
    decreases n,
{
    if n < 10 {
        seq![digit_char(n as int)]
    } else {
        decimal(n / 10).push(digit_char((n % 10) as int))
    }
}

/// An integer in decimal, with a minus sign where it is negative.
pub open spec fn signed_decimal(i: int) -> Seq<char> {
    if i < 0 {
        seq!['-'] + decimal((-i) as nat)
    } else {
        decimal(i as nat)
    }
}

/// What `{:?}` prints for a string slice: the text in double quotes with its
/// special characters escaped.
pub uninterp spec fn quoted_text(text: Seq<char>) -> Seq<char>;

impl NumberView {
    /// The rendering of a number: an integer in decimal, which shows a
    /// negative one by its sign, and a float as a hole for its bit pattern,
    /// whose printed form always has a fraction or an exponent.
    pub open spec fn rendering(self) -> Seq<Piece> {
        text_pieces("Number("@) + match self {
            NumberView::PosInt(v) => text_pieces(decimal(v as nat)),
            NumberView::NegInt(v) => text_pieces(signed_decimal(v as int)),
            NumberView::Float(bits) => seq![Piece::Float(bits)],
        } + text_pieces(")"@)
    }
}

impl ValueView {
    /// The rendering of a tree. An array is `Array [` and `]` around the
    /// renderings of its elements in storage order; an object is `Object [`
    /// and `]` around its pairs in storage order, each as `(key, value)` with
    /// the key quoted. Elements and pairs are separated by a comma and a
    /// space.
    pub open spec fn rendering(self) -> Seq<Piece>
        decreases self, 0nat,
    {
        match self {
            ValueView::Null => text_pieces("Null"@),
            ValueView::Bool(b) => text_pieces(
                if b {
                    "Bool(true)"@
                } else {
                    "Bool(false)"@
                },
            ),
            ValueView::Number(n) => n.rendering(),
            ValueView::Str(text) => text_pieces("Str("@) + text_pieces(quoted_text(text))
                + text_pieces(")"@),
            ValueView::Array(items) => text_pieces("Array ["@) + elements_rendering(
                items,
                items.len(),
            ) + text_pieces("]"@),
            ValueView::Object(pairs) => text_pieces("Object ["@) + pairs_rendering(
                pairs,
                pairs.len(),
            ) + text_pieces("]"@),
        }
    }
}

/// The renderings of the first `count` elements, in order, with a comma and a
/// space between one and the next.
pub open spec fn elements_rendering(items: Seq<ValueView>, count: nat) -> Seq<Piece>
    decreases items, count,
{
    if count == 0 || count > items.len() {
        Seq::empty()
    } else if count == 1 {
        items[0].rendering()
    } else {
        elements_rendering(items, (count - 1) as nat) + text_pieces(", "@) + items[count
            - 1].rendering()
    }
}

/// The rendering of one pair of an object.
pub open spec fn pair_rendering(key: Seq<char>, value: Seq<Piece>) -> Seq<Piece> {
    text_pieces("("@) + text_pieces(quoted_text(key)) + text_pieces(", "@) + value + text_pieces(
        ")"@,
    )
}

/// The renderings of the first `count` pairs, in order, with a comma and a
/// space between one and the next.
pub open spec fn pairs_rendering(pairs: Seq<(Seq<char>, ValueView)>, count: nat) -> Seq<Piece>
    decreases pairs, count,
{
    if count == 0 || count > pairs.len() {
        Seq::empty()
    } else if count == 1 {
        pair_rendering(pairs[0].0, pairs[0].1.rendering())
    } else {
        pairs_rendering(pairs, (count - 1) as nat) + text_pieces(", "@) + pair_rendering(
            pairs[count - 1].0,
            pairs[count - 1].1.rendering(),
        )
    }
}

/// `String::push` appends the character to the end of the string.
pub assume_specification[ String::push ](text: &mut String, ch: char)
    ensures
        final(text)@ == old(text)@.push(ch),
;

/// What `{:?}` prints for a string slice, through `format!`.
#[verifier::external_body]
fn quote(text: &str) -> (quoted: String)
    ensures
        quoted@ == quoted_text(text@),
{
    format!("{:?}", text)
}

/// The character of a decimal digit.
fn digit(d: u64) -> (ch: char)
    requires
        d < 10,
    ensures
        ch == digit_char(d as int),
{
    if d == 0 {
        '0'
    } else if d == 1 {
        '1'
    } else if d == 2 {
        '2'
    } else if d == 3 {
        '3'
    } else if d == 4 {
        '4'
    } else if d == 5 {
        '5'
    } else if d == 6 {
        '6'
    } else if d == 7 {
        '7'
    } else if d == 8 {
        '8'
    } else {
        '9'
    }
}

/// Appends a natural number in decimal to a text.
pub fn push_decimal(n: u64, text: &mut String)
    ensures
        final(text)@ == old(text)@ + decimal(n as nat),
    decreases n,
{
    if n >= 10 {
        push_decimal(n / 10, text);
    }
    text.push(digit(n % 10));
}

/// Appends a signed integer in decimal to a text.
pub fn push_signed_decimal(i: i64, text: &mut String)
    ensures
        final(text)@ == old(text)@ + signed_decimal(i as int),
{
    if i < 0 {
        text.push('-');
        let magnitude: u64 = ((-(i + 1)) as u64) + 1;
        push_decimal(magnitude, text);
    } else {
        push_decimal(i as u64, text);
    }
}

/// Appends a literal text to a rendering.
fn push_text(out: &mut Vec<Fragment>, text: &str)
    ensures
        final(out)@.len() == old(out)@.len() + 1,
        pieces_of(final(out)@, final(out)@.len()) == pieces_of(old(out)@, old(out)@.len())
            + text_pieces(text@),
{
    let ghost before = out@;
    out.push(Fragment::Text(String::from_str(text)));
    proof {
        lemma_pieces_prefix(before, out@, before.len());
    }
}

/// Appends an owned text to a rendering.
fn push_string(out: &mut Vec<Fragment>, text: String)
    ensures
        final(out)@.len() == old(out)@.len() + 1,
        pieces_of(final(out)@, final(out)@.len()) == pieces_of(old(out)@, old(out)@.len())
            + text_pieces(text@),
{
    let ghost before = out@;
    out.push(Fragment::Text(text));
    proof {
        lemma_pieces_prefix(before, out@, before.len());
    }
}

/// Appends a float to a rendering.
fn push_float(out: &mut Vec<Fragment>, bits: u64)
    ensures
        final(out)@.len() == old(out)@.len() + 1,
        pieces_of(final(out)@, final(out)@.len()) == pieces_of(old(out)@, old(out)@.len())
            + seq![Piece::Float(bits)],
{
    let ghost before = out@;
    out.push(Fragment::Float(bits));
    proof {
        lemma_pieces_prefix(before, out@, before.len());
    }
}

/// The pieces of the first `count` fragments depend on those fragments only.
proof fn lemma_pieces_prefix(a: Seq<Fragment>, b: Seq<Fragment>, count: nat)
    requires
        count <= a.len(),
        count <= b.len(),
        forall|i: int| 0 <= i < count ==> a[i] == b[i],
    ensures
        pieces_of(a, count) == pieces_of(b, count),
    decreases count,
{
    if count > 0 {
        lemma_pieces_prefix(a, b, (count - 1) as nat);
    }
}

/// Appends the rendering of a number to a rendering.
fn render_number(number: &Number, out: &mut Vec<Fragment>)
    ensures
        pieces_of(final(out)@, final(out)@.len()) == pieces_of(old(out)@, old(out)@.len())
            + number@.rendering(),
{
    push_text(out, "Number(");
    match (number.as_u64(), number.float_bits(), number.as_i64()) {
        (Some(unsigned), _, _) => {
            let mut digits = String::new();
            push_decimal(unsigned, &mut digits);
            assert(digits@ =~= decimal(unsigned as nat));
            push_string(out, digits);
        },
        (None, Some(bits), _) => {
            push_float(out, bits);
        },
        (None, None, Some(signed)) => {
            let mut digits = String::new();
            push_signed_decimal(signed, &mut digits);
            assert(digits@ =~= signed_decimal(signed as int));
            push_string(out, digits);
        },
        (None, None, None) => unreached(),
    }
    push_text(out, ")");
}

impl<'ctx> Value<'ctx> {
    /// Appends the rendering of the tree to a rendering.
    pub fn render_into(&self, out: &mut Vec<Fragment>)
        ensures
            pieces_of(final(out)@, final(out)@.len()) == pieces_of(old(out)@, old(out)@.len())
                + self@.rendering(),
        decreases self,
    {
        match self {
            Value::Null => push_text(out, "Null"),
            Value::Bool(b) => {
                if *b {
                    push_text(out, "Bool(true)")
                } else {
                    push_text(out, "Bool(false)")
                }
            },
            Value::Number(number) => render_number(number, out),
            Value::Str(text) => {
                push_text(out, "Str(");
                push_string(out, quote(as_slice(text)));
                push_text(out, ")");
            },
            Value::Array(items) => {
                proof {
                    lemma_array_view(*items);
                }
                let ghost start = pieces_of(out@, out@.len());
                push_text(out, "Array [");
                let mut i: usize = 0;
                while i < items.len()
                    invariant
                        *self == Value::Array(*items),
                        self@ is Array,
                        self@->Array_0.len() == items.len(),
                        forall|j: int|
                            0 <= j < items.len() ==> (#[trigger] self@->Array_0[j]) == items[j]@,
                        i <= items.len(),
                        pieces_of(out@, out@.len()) == start + text_pieces("Array ["@)
                            + elements_rendering(self@->Array_0, i as nat),
                    decreases items.len() - i,
                {
                    proof {
                        axiom_vec_index_decreases(*items, i as int);
                        assert(decreases_to!(self => self->Array_0));
                    }
                    if i > 0 {
                        push_text(out, ", ");
                    }
                    items[i].render_into(out);
                    i += 1;
                }
                push_text(out, "]");
            },
            Value::Object(pairs) => {
                proof {
                    lemma_object_view(*pairs);
                }
                let ghost start = pieces_of(out@, out@.len());
                push_text(out, "Object [");
                let mut i: usize = 0;
                while i < pairs.len()
                    invariant
                        *self == Value::Object(*pairs),
                        self@ is Object,
                        self@->Object_0.len() == pairs.len(),
                        forall|j: int|
                            0 <= j < pairs.len() ==> (#[trigger] self@->Object_0[j]) == (
                                pairs[j].0@,
                                pairs[j].1@,
                            ),
                        i <= pairs.len(),
                        pieces_of(out@, out@.len()) == start + text_pieces("Object ["@)
                            + pairs_rendering(self@->Object_0, i as nat),
                    decreases pairs.len() - i,
                {
                    proof {
                        axiom_vec_index_decreases(*pairs, i as int);
                        assert(decreases_to!(self => self->Object_0));
                        assert(decreases_to!(pairs[i as int] => pairs[i as int].1));
                    }
                    if i > 0 {
                        push_text(out, ", ");
                    }
                    push_text(out, "(");
                    push_string(out, quote(pairs[i].0));
                    push_text(out, ", ");
                    pairs[i].1.render_into(out);
                    push_text(out, ")");
                    i += 1;
                }
                push_text(out, "]");
            },
        }
    }

    /// The rendering of the tree, as fragments: printing the text fragments as
    /// they are and each float fragment as the float of its bit pattern, one
    /// after the other, gives the rendering as text.
    pub fn debug_fragments(&self) -> (fragments: Vec<Fragment>)
        ensures
            pieces_of(fragments@, fragments@.len()) == self@.rendering(),
    {
        let mut fragments: Vec<Fragment> = Vec::new();
        self.render_into(&mut fragments);
        fragments
    }
}

/// The rendering keeps storage order: the rendering of the first elements of
/// an array is the beginning of the rendering of more of them, and each
/// element's own rendering ends the rendering of the elements up to it.
pub proof fn lemma_elements_in_order(items: Seq<ValueView>, fewer: nat, more: nat)
    requires
        fewer <= more <= items.len(),
    ensures
        elements_rendering(items, fewer).is_prefix_of(elements_rendering(items, more)),
        more > 0 ==> items[more - 1].rendering().is_suffix_of(elements_rendering(items, more)),
    decreases more - fewer,
{
    if fewer < more {
        lemma_elements_in_order(items, fewer, (more - 1) as nat);
        let shorter = elements_rendering(items, (more - 1) as nat);
        let longer = elements_rendering(items, more);
        assert(shorter.is_prefix_of(longer)) by {
            if more > 1 {
                assert(longer == shorter + (text_pieces(", "@) + items[more - 1].rendering()));
            }
        }
    }
    if more > 0 {
        let last = items[more - 1].rendering();
        let whole = elements_rendering(items, more);
        if more > 1 {
            let front = elements_rendering(items, (more - 1) as nat) + text_pieces(", "@);
            assert(whole == front + last);
            assert(whole.subrange(whole.len() - last.len(), whole.len() as int) =~= last);
        } else {
            assert(whole.subrange(0, whole.len() as int) =~= last);
        }
    }
}

/// The rendering keeps storage order: the rendering of the first pairs of an
/// object is the beginning of the rendering of more of them, and each pair's
/// own rendering ends the rendering of the pairs up to it.
pub proof fn lemma_pairs_in_order(pairs: Seq<(Seq<char>, ValueView)>, fewer: nat, more: nat)
    requires
        fewer <= more <= pairs.len(),
    ensures
        pairs_rendering(pairs, fewer).is_prefix_of(pairs_rendering(pairs, more)),
        more > 0 ==> pair_rendering(
            pairs[more - 1].0,
            pairs[more - 1].1.rendering(),
        ).is_suffix_of(pairs_rendering(pairs, more)),
    decreases more - fewer,
{
    if fewer < more {
        lemma_pairs_in_order(pairs, fewer, (more - 1) as nat);
        let shorter = pairs_rendering(pairs, (more - 1) as nat);
        let longer = pairs_rendering(pairs, more);
        assert(shorter.is_prefix_of(longer)) by {
            if more > 1 {
                assert(longer == shorter + (text_pieces(", "@) + pair_rendering(
                    pairs[more - 1].0,
                    pairs[more - 1].1.rendering(),
                )));
            }
        }
    }
    if more > 0 {
        let last = pair_rendering(pairs[more - 1].0, pairs[more - 1].1.rendering());
        let whole = pairs_rendering(pairs, more);
        if more > 1 {
            let front = pairs_rendering(pairs, (more - 1) as nat) + text_pieces(", "@);
            assert(whole == front + last);
            assert(whole.subrange(whole.len() - last.len(), whole.len() as int) =~= last);
        } else {
            assert(whole.subrange(0, whole.len() as int) =~= last);
        }
    }
}

} // verus!
