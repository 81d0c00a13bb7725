use crate::strings::{decimal, digit, joined};
use crate::syntax::{
    param_text, rendered, rendered_all, signature, ExpressionView, ParamView, Span,
};
use vstd::prelude::*;

verus! {

/// The digits of a number in decimal notation give the number back, and none but the number zero
/// begins with a zero.
pub proof fn law_decimal_digits_give_the_number_back(n: nat)
    ensures
        decimal(n).fold_left(0int, |value: int, c: char| 10 * value + (c as int - '0' as int)) == n,
        decimal(n).len() > 0,
        forall|i: int| 0 <= i < decimal(n).len() ==> '0' <= #[trigger] decimal(n)[i] <= '9',
        decimal(n)[0] == '0' ==> n == 0 && decimal(n).len() == 1,
    decreases n,
{
    let value = |value: int, c: char| 10 * value + (c as int - '0' as int);
    if n < 10 {
        let one = seq![digit(n)];
        assert(one.drop_last() =~= Seq::empty());
        assert(one.drop_last().fold_left(0int, value) == 0);
        assert(one.fold_left(0int, value) == value(0, one.last()));
    } else {
        law_decimal_digits_give_the_number_back(n / 10);
        let high = decimal(n / 10);
        let all = high.push(digit(n % 10));
        assert(all.drop_last() =~= high);
        assert(all.fold_left(0int, value) == value(high.fold_left(0int, value), all.last()));
        assert(all[0] == high[0]);
        assert forall|i: int| 0 <= i < all.len() implies '0' <= #[trigger] all[i] <= '9' by {
            if i < high.len() {
                assert(all[i] == high[i]);
            }
        }
    }
}

/// Joined items stand one after the other, with the separator between two of them and nowhere
/// else.
pub proof fn law_joined_items_are_separated(
    items: Seq<Seq<char>>,
    item: Seq<char>,
    separator: Seq<char>,
)
    ensures
        joined(Seq::empty(), separator) == Seq::<char>::empty(),
        joined(seq![item], separator) == item,
        items.len() > 0 ==> joined(items.push(item), separator) == joined(items, separator)
            + separator + item,
{
    assert(items.push(item).drop_last() =~= items);
}

/// A name is shown as it is, an attribute behind its value and a dot, and a subscript behind its
/// value in brackets, whatever stands in them.
pub proof fn law_names_attributes_and_subscripts_are_shown_in_full(
    id: Seq<char>,
    span: Span,
    value: ExpressionView,
    attr: Seq<char>,
    slice: ExpressionView,
)
    ensures
        rendered(ExpressionView::Name { id, span }) == id,
        rendered(ExpressionView::Attribute { value: Box::new(value), attr }) == rendered(value)
            + "."@ + attr,
        rendered(
            ExpressionView::Subscript { value: Box::new(value), slice: Box::new(slice) },
        ) == rendered(value) + "["@ + rendered(slice) + "]"@,
{
}

/// A tuple is shown by its elements with commas between them, and any other expression by its
/// label.
pub proof fn law_tuples_are_shown_by_their_elements(
    elts: Seq<ExpressionView>,
    elt: ExpressionView,
    label: Seq<char>,
)
    ensures
        rendered(ExpressionView::Tuple { elts: Seq::empty() }) == Seq::<char>::empty(),
        rendered(ExpressionView::Tuple { elts: seq![elt] }) == rendered(elt),
        elts.len() > 0 ==> rendered(ExpressionView::Tuple { elts: elts.push(elt) }) == rendered(
            ExpressionView::Tuple { elts },
        ) + ", "@ + rendered(elt),
        rendered(ExpressionView::List { label, elts }) == label,
        rendered(ExpressionView::Other { label, operands: elts }) == label,
{
    let none = Seq::<ExpressionView>::empty();
    assert(none.push(elt) =~= seq![elt]);
    assert(seq![elt].drop_last() =~= none);
    reveal_with_fuel(rendered_all, 2);
    assert(rendered_all(seq![elt]) =~= seq![rendered(elt)]);
    assert(elts.push(elt).drop_last() =~= elts);
    assert(rendered_all(elts.push(elt)) == rendered_all(elts).push(rendered(elt)));
    assert(rendered(ExpressionView::Tuple { elts: elts.push(elt) }) == joined(
        rendered_all(elts.push(elt)),
        ", "@,
    ));
    lemma_as_many_shown(elts);
    law_joined_items_are_separated(rendered_all(elts), rendered(elt), ", "@);
}

proof fn lemma_as_many_shown(exprs: Seq<ExpressionView>)
    ensures
        rendered_all(exprs).len() == exprs.len(),
    decreases exprs.len(),
{
    if exprs.len() > 0 {
        lemma_as_many_shown(exprs.drop_last());
    }
}

/// A signature shows the name, then all parameters in brackets and in their order, each with its
/// annotation if it has one, and then the return type if there is one.
pub proof fn law_signature_shows_every_parameter(
    name: Seq<char>,
    params: Seq<ParamView>,
    param: ParamView,
    annotation: ExpressionView,
    returned: ExpressionView,
)
    ensures
        param_text(ParamView { annotation: None, ..param }) == param.name,
        param_text(ParamView { annotation: Some(annotation), ..param }) == param.name + ": "@
            + rendered(annotation),
        signature(name, Seq::empty(), None) == name + "("@ + ")"@,
        signature(name, seq![param], None) == name + "("@ + param_text(param) + ")"@,
        params.len() > 0 ==> signature(name, params.push(param), None) == signature(
            name,
            params,
            None,
        ).drop_last() + ", "@ + param_text(param) + ")"@,
        signature(name, params, Some(returned)) == signature(name, params, None) + " -> "@
            + rendered(returned),
{
    reveal_strlit(")");
    let show = |p: ParamView| param_text(p);
    let none = Seq::<ParamView>::empty();
    assert(none.map_values(show) =~= Seq::empty());
    assert(seq![param].map_values(show) =~= seq![param_text(param)]);
    assert(params.push(param).map_values(show) =~= params.map_values(show).push(
        param_text(param),
    ));
    law_joined_items_are_separated(params.map_values(show), param_text(param), ", "@);
    let list = joined(params.map_values(show), ", "@);
    assert(name + "("@ + Seq::<char>::empty() + ")"@ =~= name + "("@ + ")"@);
    assert((name + "("@ + list + ")"@).drop_last() =~= name + "("@ + list);
    assert(name + "("@ + (list + ", "@ + param_text(param)) + ")"@ =~= name + "("@ + list + ", "@
        + param_text(param) + ")"@);
}

} // verus!
