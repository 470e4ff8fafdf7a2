//! What the pairs of an edit query are read as.
use crate::edit::modify;
use crate::edit::modify::NumberText;
use crate::edit::parse::NodeModel;
use crate::edit::QueryType;
use crate::item;
use crate::tag;
use crate::text;
use crate::types;
use crate::types::BiticalModel;
use vstd::prelude::*;

verus! {

proof fn lemma_words_are_no_integers()
    ensures
        text::parsed_i64("true"@) is None,
        text::parsed_i64("false"@) is None,
        "true"@ != "false"@,
{
    reveal_strlit("true");
    reveal_strlit("false");
    assert("true"@.len() == 4 && "false"@.len() == 5);
    assert("true"@[0] == 't' && "false"@[0] == 'f');
}

/// A text is read as the value whose form it is: an integer in decimals as that integer, a truth
/// value as it is shown, a number where the text is one and no integer; and what is read as text
/// or as a truth value is the text.
pub proof fn law_values_are_read_as_written(
    s: Seq<char>,
    number: Option<(u64, Seq<char>)>,
    i: i64,
    b: bool,
)
    ensures
        modify::read_value(text::int_text(i as int), number) == BiticalModel::Integer(i),
        modify::read_value(types::bool_text(b), None) == BiticalModel::Boolean(b),
        match modify::read_value(s, number) {
            BiticalModel::Integer(n) => text::parsed_i64(s) == Some(n),
            BiticalModel::Double(bits, shown) => number == Some((bits, shown)),
            BiticalModel::Boolean(v) => s == types::bool_text(v),
            BiticalModel::String(t) => t == s && number is None && text::parsed_i64(s) is None,
            _ => false,
        },
{
    text::law_show_parse_i64(i);
    lemma_words_are_no_integers();
}

/// The number that a text reads as is the first that is listed for it.
pub proof fn law_first_listed_number_counts(numbers: Seq<NumberText>, s: Seq<char>, k: int)
    requires
        0 <= k < numbers.len(),
        forall|i: int| 0 <= i < k ==> (#[trigger] numbers[i]).text@ != s,
    ensures
        numbers[k].text@ == s ==> modify::number_for(numbers, s) == Some(
            (numbers[k].number.bits, numbers[k].number.shown@),
        ),
        k == numbers.len() - 1 && numbers[k].text@ != s ==> modify::number_for(numbers, s) is None,
    decreases numbers.len(),
{
    let rest = numbers.skip(1);
    if k > 0 {
        assert(numbers[0].text@ != s);
        assert forall|i: int| 0 <= i < k - 1 implies (#[trigger] rest[i]).text@ != s by {
            assert(rest[i] == numbers[i + 1]);
        }
        law_first_listed_number_counts(rest, s, k - 1);
        assert(rest[k - 1] == numbers[k]);
    } else if numbers.len() == 1 {
        assert(rest.len() == 0);
        assert(modify::number_for(rest, s) is None);
    }
}

/// Whether a pair may not be carried out: it names no type, or a type that is registered as one
/// that is not edited, or its tags are to be taken away and the type does not let them.
pub open spec fn may_not_be(n: NodeModel, qt: QueryType, reg: Seq<tag::TagFnModel>) -> bool {
    ||| n.tag_type.valued().len() == 0
    ||| tag::find_fn(reg, n.tag_type.valued()) matches Some(f) && (match f.edit {
        Some(e) => qt == QueryType::Untag && !e.can_untag,
        None => true,
    })
}

/// The pairs of a query are made ready one by one, in their order. Each keeps the name of its
/// type and has a label where one is written: the text where it is quoted, else what it reads
/// as.
pub proof fn law_ready_pairs_are_as_written(
    nodes: Seq<NodeModel>,
    numbers: Seq<NumberText>,
    qt: QueryType,
    reg: Seq<tag::TagFnModel>,
    k: int,
)
    requires
        0 <= k < nodes.len(),
    ensures
        modify::resolved_all(nodes, numbers, qt, reg) matches Ok(out) ==> {
            &&& out.len() == nodes.len()
            &&& out[k].tag_type.name() == nodes[k].tag_type.valued()
            &&& match nodes[k].label {
                None => out[k].label is None,
                Some(l) => out[k].label == Some(
                    if l.quoted {
                        BiticalModel::String(l.valued())
                    } else {
                        modify::read_value(l.valued(), modify::number_for(numbers, l.valued()))
                    },
                ),
            }
            &&& match tag::find_fn(reg, nodes[k].tag_type.valued()) {
                Some(f) => f.edit is Some && out[k].strategy == f.edit->0.strategy,
                None => out[k].strategy == crate::edit::EditStrategy::Append,
            }
            &&& !may_not_be(nodes[k], qt, reg)
        },
    decreases nodes.len(),
{
    let front = nodes.drop_last();
    let last = nodes.len() - 1;
    lemma_as_many(front, numbers, qt, reg);
    item::law_tag_type_names(crate::col::Col::Path, nodes[last].tag_type.valued());
    if k < last {
        law_ready_pairs_are_as_written(front, numbers, qt, reg, k);
        assert(front[k] == nodes[k]);
    }
}

proof fn lemma_as_many(
    nodes: Seq<NodeModel>,
    numbers: Seq<NumberText>,
    qt: QueryType,
    reg: Seq<tag::TagFnModel>,
)
    ensures
        modify::resolved_all(nodes, numbers, qt, reg) matches Ok(out) ==> out.len() == nodes.len(),
    decreases nodes.len(),
{
    if nodes.len() > 0 {
        lemma_as_many(nodes.drop_last(), numbers, qt, reg);
    }
}

/// A query is refused only for a pair that may not be carried out. The result is where the pair
/// stands.
pub proof fn law_refused_queries_hold_a_refused_pair(
    nodes: Seq<NodeModel>,
    numbers: Seq<NumberText>,
    qt: QueryType,
    reg: Seq<tag::TagFnModel>,
) -> (k: int)
    requires
        modify::resolved_all(nodes, numbers, qt, reg) is Err,
    ensures
        0 <= k < nodes.len(),
        may_not_be(nodes[k], qt, reg),
    decreases nodes.len(),
{
    let front = nodes.drop_last();
    if modify::resolved_all(front, numbers, qt, reg) is Err {
        law_refused_queries_hold_a_refused_pair(front, numbers, qt, reg)
    } else {
        nodes.len() - 1
    }
}

} // verus!
