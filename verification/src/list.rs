//! The cons list and its rendering.

use vstd::prelude::*;
use vstd::string::StringExecFns;
use crate::decimal::{
    append_signed, is_digit, signed_decimal, signed_decimal_is_one_to_one, signed_decimal_shape,
};

verus! {

/// A list of `i32` values: either nothing, or one value in front of another
/// list that this node owns.
#[derive(Debug)]
pub enum List {
    Empty,
    Element(i32, Box<List>),
}

impl List {
    /// The values held, outermost first.
    pub open spec fn items(&self) -> Seq<int>
        decreases self,
    {
        match self {
            List::Empty => Seq::empty(),
            List::Element(value, tail) => seq![*value as int] + tail.items(),
        }
    }
}

impl View for List {
    type V = Seq<int>;

    /// The values held, outermost first.
    open spec fn view(&self) -> Seq<int> {
        self.items()
    }
}

/// The text of a list holding `items`: the bare word `Empty` for no items,
/// otherwise `Element(`, the first item in signed decimal, `, `, the text of
/// the remaining items, and `)`.
pub open spec fn rendering(items: Seq<int>) -> Seq<char>
    decreases items.len(),
{
    if items.len() == 0 {
        "Empty"@
    } else {
        "Element("@ + signed_decimal(items.first()) + ", "@ + rendering(items.drop_first()) + ")"@
    }
}

/// No list is its own tail: an element holds exactly one item more than the
/// list it owns.
pub proof fn tail_is_shorter(list: List)
    requires
        list is Element,
    ensures
        list@.len() == list->1@.len() + 1,
        *list->1 != list,
{
}

/// The text depends on the items alone: two lists that hold the same values
/// in the same order have the same text, whenever and wherever it is made.
pub proof fn equal_items_give_equal_text(a: List, b: List)
    requires
        a@ == b@,
    ensures
        rendering(a@) == rendering(b@),
{
}

/// The items are all there is to a list: two lists that hold the same items
/// are the same list.
pub proof fn items_determine_list(a: List, b: List)
    requires
        a@ == b@,
    ensures
        a == b,
    decreases a,
{
    match (a, b) {
        (List::Element(value_a, tail_a), List::Element(value_b, tail_b)) => {
            assert(a@.first() == value_a as int);
            assert(b@.first() == value_b as int);
            assert(tail_a@ =~= a@.drop_first());
            assert(tail_b@ =~= b@.drop_first());
            items_determine_list(*tail_a, *tail_b);
        },
        (List::Empty, List::Empty) => {},
        _ => {
            assert(a@.len() != b@.len());
        },
    }
}

/// The text follows the structure of the list. The empty list is the bare
/// word `Empty`, with nothing after it. An element is its own name and value
/// around the text of the list it owns: the outer value comes first, the
/// nested list after it, inside the outer brackets.
pub proof fn rendering_follows_structure(list: List)
    ensures
        match list {
            List::Empty => rendering(list@) == "Empty"@,
            List::Element(value, tail) => rendering(list@) == "Element("@ + signed_decimal(
                value as int,
            ) + ", "@ + rendering(tail@) + ")"@,
        },
{
    match list {
        List::Empty => {},
        List::Element(value, tail) => {
            assert(list@.first() == value as int);
            assert(list@.drop_first() =~= tail@);
        },
    }
}

/// If two texts agree, and each is a run without `mark`, then `mark`, then a
/// remainder, the runs agree and the remainders agree.
proof fn lemma_split_at_mark(
    run_a: Seq<char>,
    rest_a: Seq<char>,
    run_b: Seq<char>,
    rest_b: Seq<char>,
    mark: char,
)
    requires
        forall|i: int| 0 <= i < run_a.len() ==> run_a[i] != mark,
        forall|i: int| 0 <= i < run_b.len() ==> run_b[i] != mark,
        run_a.push(mark) + rest_a == run_b.push(mark) + rest_b,
    ensures
        run_a == run_b,
        rest_a == rest_b,
{
    let text_a = run_a.push(mark) + rest_a;
    let text_b = run_b.push(mark) + rest_b;
    if run_a.len() < run_b.len() {
        assert(text_a[run_a.len() as int] == mark);
        assert(text_b[run_a.len() as int] == run_b[run_a.len() as int]);
    } else if run_b.len() < run_a.len() {
        assert(text_b[run_b.len() as int] == mark);
        assert(text_a[run_b.len() as int] == run_a[run_b.len() as int]);
    }
    let n = run_a.len() as int;
    assert(run_a =~= text_a.take(n));
    assert(run_b =~= text_b.take(n));
    assert(rest_a =~= text_a.skip(n + 1));
    assert(rest_b =~= text_b.skip(n + 1));
}

/// The text of a run with at least one item, cut behind its first value:
/// after the eight characters of `Element(` come the value, a comma, and a
/// remainder that is a blank, the text of the other items and a bracket.
proof fn lemma_element_text(items: Seq<int>)
    requires
        items.len() > 0,
    ensures
        rendering(items).len() >= 8,
        rendering(items)[1] == 'l',
        rendering(items).skip(8) == signed_decimal(items.first()).push(',') + (seq![' ']
            + rendering(items.drop_first()) + seq![')']),
{
    reveal_strlit("Element(");
    reveal_strlit(", ");
    reveal_strlit(")");
    let value = signed_decimal(items.first());
    let nested = rendering(items.drop_first());
    let text = "Element("@ + value + ", "@ + nested + ")"@;
    assert(rendering(items) == text);
    assert(text.skip(8) =~= value.push(',') + (seq![' '] + nested + seq![')']));
}

/// A signed decimal notation holds no comma.
proof fn lemma_no_comma(i: int)
    ensures
        forall|k: int| 0 <= k < signed_decimal(i).len() ==> signed_decimal(i)[k] != ',',
{
    signed_decimal_shape(i);
    assert forall|k: int| 0 <= k < signed_decimal(i).len() implies signed_decimal(i)[k]
        != ',' by {
        assert(is_digit(signed_decimal(i)[k]) || signed_decimal(i)[k] == '-');
    }
}

/// The rendering tells lists apart: two runs of items with the same text are
/// the same run.
pub proof fn rendering_is_one_to_one(a: Seq<int>, b: Seq<int>)
    requires
        rendering(a) == rendering(b),
    ensures
        a == b,
    decreases a.len(),
{
    if a.len() == 0 || b.len() == 0 {
        assert(a.len() == 0 && b.len() == 0) by {
            reveal_strlit("Empty");
            if a.len() > 0 {
                lemma_element_text(a);
            }
            if b.len() > 0 {
                lemma_element_text(b);
            }
        }
        assert(a =~= b);
    } else {
        let rest_a = seq![' '] + rendering(a.drop_first()) + seq![')'];
        let rest_b = seq![' '] + rendering(b.drop_first()) + seq![')'];
        lemma_element_text(a);
        lemma_element_text(b);
        lemma_no_comma(a.first());
        lemma_no_comma(b.first());
        lemma_split_at_mark(
            signed_decimal(a.first()),
            rest_a,
            signed_decimal(b.first()),
            rest_b,
            ',',
        );
        signed_decimal_is_one_to_one(a.first(), b.first());
        assert(rendering(a.drop_first()) =~= rest_a.skip(1).drop_last());
        assert(rendering(b.drop_first()) =~= rest_b.skip(1).drop_last());
        rendering_is_one_to_one(a.drop_first(), b.drop_first());
        assert(a =~= seq![a.first()] + a.drop_first());
        assert(b =~= seq![b.first()] + b.drop_first());
    }
}

/// Two lists with the same text are the same list.
pub proof fn render_tells_lists_apart(a: List, b: List)
    requires
        rendering(a@) == rendering(b@),
    ensures
        a == b,
{
    rendering_is_one_to_one(a@, b@);
    items_determine_list(a, b);
}

impl List {
    /// The text of this list, on one line.
    pub fn render(&self) -> (text: String)
        ensures
            text@ == rendering(self@),
    {
        let mut text = String::new();
        self.render_into(&mut text);
        text
    }

    /// Appends the text of this list to `out`.
    fn render_into(&self, out: &mut String)
        ensures
            final(out)@ == old(out)@ + rendering(self@),
        decreases self,
    {
        match self {
            List::Empty => {
                out.append("Empty");
            },
            List::Element(value, tail) => {
                out.append("Element(");
                append_signed(out, *value);
                out.append(", ");
                tail.render_into(out);
                out.append(")");
                proof {
                    rendering_follows_structure(*self);
                }
            },
        }
    }
}

} // verus!
