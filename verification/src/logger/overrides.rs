//! Levels that are set for particular targets, and which of them counts.

use vstd::prelude::*;

use crate::level::{Level, LevelFilter};
use crate::text::starts_with;

verus! {

/// A filter that is set for the targets whose names start with the text.
pub type Override = (Seq<char>, LevelFilter);

/// The overrides in a list, with their texts spelled out.
pub open spec fn overrides(levels: Seq<(String, LevelFilter)>) -> Seq<Override> {
    levels.map_values(|level: (String, LevelFilter)| (level.0@, level.1))
}

/// The number by which an override is ordered: the length of its text in bytes,
/// negated.
///
/// The longer the text, the smaller the number: the most specific override is
/// the smallest. The empty text, which every target starts with, is the largest.
pub open spec fn order(text: Seq<char>) -> int {
    -(vstd::utf8::encode_utf8(text).len() as int)
}

/// The overrides in a list that have a given order.
pub open spec fn of_order(levels: Seq<Override>, wanted: int) -> Seq<Override>
    decreases levels.len(),
{
    if levels.len() == 0 {
        Seq::empty()
    } else {
        let before = of_order(levels.drop_last(), wanted);
        if order(levels.last().0) == wanted {
            before.push(levels.last())
        } else {
            before
        }
    }
}

/// The list is ascending in the order of its texts.
pub open spec fn ascending(levels: Seq<Override>) -> bool {
    forall|i: int, j: int|
        0 <= i <= j < levels.len() ==> order(#[trigger] levels[i].0) <= order(
            #[trigger] levels[j].0,
        )
}

/// `sorted` is what sorting `levels` gives: it is ascending, and holds the same
/// overrides, those of one order in the same sequence as before.
pub open spec fn sorted_from(levels: Seq<Override>, sorted: Seq<Override>) -> bool {
    &&& ascending(sorted)
    &&& forall|wanted: int| #[trigger] of_order(sorted, wanted) == of_order(levels, wanted)
}

/// The filter that the first override in the list sets that applies to a target.
pub open spec fn first_match(levels: Seq<Override>, target: Seq<char>) -> Option<LevelFilter>
    decreases levels.len(),
{
    if levels.len() == 0 {
        None
    } else if levels.first().0.is_prefix_of(target) {
        Some(levels.first().1)
    } else {
        first_match(levels.drop_first(), target)
    }
}

/// The filter for a target: that of the first override that applies to it, or
/// the default.
pub open spec fn filter_for(
    levels: Seq<Override>,
    default_level: LevelFilter,
    target: Seq<char>,
) -> LevelFilter {
    match first_match(levels, target) {
        Some(level) => level,
        None => default_level,
    }
}

/// The most permissive filter among the default and the overrides.
pub open spec fn most_permissive_of(levels: Seq<Override>, default_level: LevelFilter) -> LevelFilter
    decreases levels.len(),
{
    if levels.len() == 0 {
        default_level
    } else {
        most_permissive_of(levels.drop_last(), default_level).spec_or(levels.last().1)
    }
}

proof fn lemma_of_order_append(first: Seq<Override>, second: Seq<Override>, wanted: int)
    ensures
        of_order(first + second, wanted) == of_order(first, wanted) + of_order(second, wanted),
    decreases second.len(),
{
    if second.len() == 0 {
        assert(first + second =~= first);
        assert(of_order(first, wanted) + of_order(second, wanted) =~= of_order(first, wanted));
    } else {
        lemma_of_order_append(first, second.drop_last(), wanted);
        assert((first + second).drop_last() =~= first + second.drop_last());
        assert(of_order(first + second, wanted) =~= of_order(first, wanted) + of_order(
            second,
            wanted,
        ));
    }
}

proof fn lemma_of_order_none(levels: Seq<Override>, wanted: int)
    requires
        forall|i: int| 0 <= i < levels.len() ==> order(#[trigger] levels[i].0) != wanted,
    ensures
        of_order(levels, wanted) == Seq::<Override>::empty(),
    decreases levels.len(),
{
    if levels.len() > 0 {
        assert(order(levels[levels.len() - 1].0) != wanted);
        assert forall|i: int| 0 <= i < levels.drop_last().len() implies order(
            #[trigger] levels.drop_last()[i].0,
        ) != wanted by {
            assert(levels.drop_last()[i] == levels[i]);
        }
        lemma_of_order_none(levels.drop_last(), wanted);
    }
}

/// Moving an override ahead of others that have a larger order keeps the
/// sequence of those of one order.
proof fn lemma_moved_ahead(levels: Seq<Override>, from: int, to: int)
    requires
        0 <= to <= from < levels.len(),
        forall|i: int| to <= i < from ==> order(#[trigger] levels[i].0) > order(levels[from].0),
    ensures
        forall|wanted: int| #[trigger]
            of_order(levels.remove(from).insert(to, levels[from]), wanted) == of_order(
                levels,
                wanted,
            ),
{
    let moved = levels.remove(from).insert(to, levels[from]);
    let ahead = levels.take(to);
    let passed = levels.subrange(to, from);
    let it = seq![levels[from]];
    let behind = levels.skip(from + 1);
    assert(levels =~= ahead + passed + it + behind);
    assert(moved =~= ahead + it + passed + behind);
    assert forall|wanted: int| #[trigger] of_order(moved, wanted) == of_order(levels, wanted) by {
        lemma_of_order_append(ahead + passed + it, behind, wanted);
        lemma_of_order_append(ahead + passed, it, wanted);
        lemma_of_order_append(ahead, passed, wanted);
        lemma_of_order_append(ahead + it + passed, behind, wanted);
        lemma_of_order_append(ahead + it, passed, wanted);
        lemma_of_order_append(ahead, it, wanted);
        if order(levels[from].0) == wanted {
            lemma_of_order_none(passed, wanted);
        } else {
            lemma_of_order_none(it, wanted);
        }
        assert(of_order(passed, wanted) + of_order(it, wanted) =~= of_order(it, wanted) + of_order(
            passed,
            wanted,
        ));
        assert(of_order(ahead, wanted) + of_order(passed, wanted) + of_order(it, wanted)
            =~= of_order(ahead, wanted) + (of_order(passed, wanted) + of_order(it, wanted)));
        assert(of_order(ahead, wanted) + of_order(it, wanted) + of_order(passed, wanted)
            =~= of_order(ahead, wanted) + (of_order(it, wanted) + of_order(passed, wanted)));
    }
}

proof fn lemma_first_match_append(first: Seq<Override>, second: Seq<Override>, target: Seq<char>)
    ensures
        first_match(first + second, target) == match first_match(first, target) {
            Some(level) => Some(level),
            None => first_match(second, target),
        },
    decreases first.len(),
{
    if first.len() == 0 {
        assert(first + second =~= second);
    } else {
        assert((first + second).drop_first() =~= first.drop_first() + second);
        lemma_first_match_append(first.drop_first(), second, target);
    }
}

proof fn lemma_first_match_none(levels: Seq<Override>, target: Seq<char>)
    requires
        forall|i: int|
            0 <= i < levels.len() ==> !(#[trigger] levels[i].0).is_prefix_of(target),
    ensures
        first_match(levels, target) is None,
    decreases levels.len(),
{
    if levels.len() > 0 {
        assert(!levels[0].0.is_prefix_of(target));
        assert forall|i: int| 0 <= i < levels.drop_first().len() implies !(
        #[trigger] levels.drop_first()[i].0).is_prefix_of(target) by {
            assert(levels.drop_first()[i] == levels[i + 1]);
        }
        lemma_first_match_none(levels.drop_first(), target);
    }
}

/// The first override that applies, by its place in the list.
proof fn lemma_first_match_at(levels: Seq<Override>, target: Seq<char>, at: int)
    requires
        0 <= at < levels.len(),
        levels[at].0.is_prefix_of(target),
        forall|i: int| 0 <= i < at ==> !(#[trigger] levels[i].0).is_prefix_of(target),
    ensures
        first_match(levels, target) == Some(levels[at].1),
{
    let ahead = levels.take(at);
    assert(levels =~= ahead + levels.skip(at));
    assert forall|i: int| 0 <= i < ahead.len() implies !(#[trigger] ahead[i].0).is_prefix_of(
        target,
    ) by {
        assert(ahead[i] == levels[i]);
    }
    lemma_first_match_none(ahead, target);
    lemma_first_match_append(ahead, levels.skip(at), target);
    assert(levels.skip(at).first() == levels[at]);
}

/// Every override of one order stands in the list.
proof fn lemma_of_order_from(levels: Seq<Override>, wanted: int)
    ensures
        forall|i: int|
            0 <= i < of_order(levels, wanted).len() ==> {
                &&& order((#[trigger] of_order(levels, wanted)[i]).0) == wanted
                &&& levels.contains(of_order(levels, wanted)[i])
            },
    decreases levels.len(),
{
    if levels.len() > 0 {
        lemma_of_order_from(levels.drop_last(), wanted);
        let before = of_order(levels.drop_last(), wanted);
        let all = of_order(levels, wanted);
        assert forall|i: int| 0 <= i < all.len() implies order((#[trigger] all[i]).0) == wanted
            && levels.contains(all[i]) by {
            if i < before.len() {
                assert(all[i] == before[i]);
                let k = choose|k: int|
                    0 <= k < levels.drop_last().len() && levels.drop_last()[k] == before[i];
                assert(levels[k] == all[i]);
            } else {
                assert(levels[levels.len() - 1] == all[i]);
            }
        }
    }
}

/// Every override in the list is among those of its order.
proof fn lemma_of_order_holds(levels: Seq<Override>, at: int)
    requires
        0 <= at < levels.len(),
    ensures
        of_order(levels, order(levels[at].0)).contains(levels[at]),
{
    let wanted = order(levels[at].0);
    let it = seq![levels[at]];
    assert(levels =~= levels.take(at) + it + levels.skip(at + 1));
    lemma_of_order_append(levels.take(at) + it, levels.skip(at + 1), wanted);
    lemma_of_order_append(levels.take(at), it, wanted);
    assert(of_order(it, wanted) =~= it) by {
        reveal_with_fuel(of_order, 2);
    }
    assert(of_order(levels, wanted)[of_order(levels.take(at), wanted).len() as int] == levels[at]);
}

/// Sorting neither adds an override to a list nor takes one out of it.
pub proof fn law_sorting_keeps_all_overrides(levels: Seq<Override>, sorted: Seq<Override>)
    requires
        sorted_from(levels, sorted),
    ensures
        forall|level: Override| #[trigger] sorted.contains(level) <==> levels.contains(level),
{
    assert forall|level: Override| #[trigger] sorted.contains(level) <==> levels.contains(
        level,
    ) by {
        let wanted = order(level.0);
        assert(of_order(sorted, wanted) == of_order(levels, wanted));
        if sorted.contains(level) {
            let i = choose|i: int| 0 <= i < sorted.len() && sorted[i] == level;
            lemma_of_order_holds(sorted, i);
            lemma_of_order_from(levels, wanted);
        }
        if levels.contains(level) {
            let i = choose|i: int| 0 <= i < levels.len() && levels[i] == level;
            lemma_of_order_holds(levels, i);
            lemma_of_order_from(sorted, wanted);
        }
    }
}

proof fn lemma_same_last(levels: Seq<Override>, sorted: Seq<Override>)
    requires
        ascending(levels),
        ascending(sorted),
        forall|wanted: int| #[trigger] of_order(sorted, wanted) == of_order(levels, wanted),
        levels.len() > 0,
    ensures
        sorted.len() > 0,
        sorted.last() == levels.last(),
{
    let highest = order(levels.last().0);
    law_sorting_keeps_all_overrides(levels, sorted);
    assert(levels.contains(levels.last()));
    assert(sorted.contains(levels.last()));
    let other = order(sorted.last().0);
    let i = choose|i: int| 0 <= i < sorted.len() && sorted[i] == levels.last();
    assert(order(sorted[i].0) <= order(sorted[sorted.len() - 1].0));
    assert(sorted.contains(sorted.last()));
    assert(levels.contains(sorted.last()));
    let j = choose|j: int| 0 <= j < levels.len() && levels[j] == sorted.last();
    assert(order(levels[j].0) <= order(levels[levels.len() - 1].0));
    assert(highest == other);
    assert(of_order(levels, highest).last() == levels.last());
    assert(of_order(sorted, highest).last() == sorted.last());
    assert(of_order(sorted, highest) == of_order(levels, highest));
}

proof fn lemma_one_outcome(one: Seq<Override>, other: Seq<Override>)
    requires
        ascending(one),
        ascending(other),
        forall|wanted: int| #[trigger] of_order(other, wanted) == of_order(one, wanted),
    ensures
        one == other,
    decreases one.len(),
{
    if one.len() == 0 {
        if other.len() > 0 {
            lemma_of_order_holds(other, 0);
            let wanted = order(other[0].0);
            assert(of_order(other, wanted) == of_order(one, wanted));
        }
        assert(one =~= other);
    } else {
        lemma_same_last(one, other);
        let last = one.last();
        assert forall|wanted: int| #[trigger]
            of_order(other.drop_last(), wanted) == of_order(one.drop_last(), wanted) by {
            assert(of_order(other, wanted) == of_order(one, wanted));
            let fewer = of_order(one.drop_last(), wanted);
            let others = of_order(other.drop_last(), wanted);
            if order(last.0) == wanted {
                assert(fewer =~= fewer.push(last).drop_last());
                assert(others =~= others.push(last).drop_last());
            }
        }
        lemma_ascending_start(one);
        lemma_ascending_start(other);
        lemma_one_outcome(one.drop_last(), other.drop_last());
        assert(one =~= one.drop_last().push(last));
        assert(other =~= other.drop_last().push(last));
    }
}

proof fn lemma_ascending_start(levels: Seq<Override>)
    requires
        ascending(levels),
        levels.len() > 0,
    ensures
        ascending(levels.drop_last()),
{
    let start = levels.drop_last();
    assert forall|i: int, j: int| 0 <= i <= j < start.len() implies order(#[trigger] start[i].0)
        <= order(#[trigger] start[j].0) by {
        assert(start[i] == levels[i] && start[j] == levels[j]);
    }
}

/// Sorting has one outcome: no two lists are what sorting one list gives.
pub proof fn law_sorting_has_one_outcome(
    levels: Seq<Override>,
    one: Seq<Override>,
    other: Seq<Override>,
)
    requires
        sorted_from(levels, one),
        sorted_from(levels, other),
    ensures
        one == other,
{
    assert forall|wanted: int| #[trigger] of_order(other, wanted) == of_order(one, wanted) by {
        assert(of_order(one, wanted) == of_order(levels, wanted));
    }
    lemma_one_outcome(one, other);
}

proof fn lemma_first_match_of_order(
    levels: Seq<Override>,
    target: Seq<char>,
    at: int,
)
    requires
        0 <= at < levels.len(),
        levels[at].0.is_prefix_of(target),
        forall|i: int|
            0 <= i < at && order(levels[i].0) == order(levels[at].0) ==> !(
            #[trigger] levels[i].0).is_prefix_of(target),
    ensures
        first_match(of_order(levels, order(levels[at].0)), target) == Some(levels[at].1),
{
    let wanted = order(levels[at].0);
    let ahead = levels.take(at);
    let it = seq![levels[at]];
    let behind = levels.skip(at + 1);
    assert(levels =~= ahead + it + behind);
    lemma_of_order_append(ahead + it, behind, wanted);
    lemma_of_order_append(ahead, it, wanted);
    assert(of_order(it, wanted) =~= it) by {
        reveal_with_fuel(of_order, 2);
    }
    lemma_of_order_from(ahead, wanted);
    let before = of_order(ahead, wanted);
    assert forall|i: int| 0 <= i < before.len() implies !(#[trigger] before[i].0).is_prefix_of(
        target,
    ) by {
        assert(ahead.contains(before[i]));
        let k = choose|k: int| 0 <= k < ahead.len() && ahead[k] == before[i];
        assert(levels[k] == before[i]);
    }
    lemma_first_match_none(before, target);
    assert(it.first() == levels[at]);
    lemma_first_match_append(before, it, target);
    lemma_first_match_append(before + it, of_order(behind, wanted), target);
}

/// The override at a place decides on a target by its order: it applies, none
/// that applies has a smaller order, and none of the same order stands ahead of
/// it.
pub open spec fn decides(levels: Seq<Override>, target: Seq<char>, at: int) -> bool {
    &&& 0 <= at < levels.len()
    &&& levels[at].0.is_prefix_of(target)
    &&& forall|i: int|
        0 <= i < levels.len() && (#[trigger] levels[i].0).is_prefix_of(target) ==> {
            ||| order(levels[at].0) < order(levels[i].0)
            ||| order(levels[at].0) == order(levels[i].0) && at <= i
        }
}

/// Once the overrides are sorted, the filter for a target is set by the override
/// that decides on it, wherever that was added.
pub proof fn law_the_deciding_override_counts(
    levels: Seq<Override>,
    sorted: Seq<Override>,
    target: Seq<char>,
    at: int,
)
    requires
        sorted_from(levels, sorted),
        decides(levels, target, at),
    ensures
        first_match(sorted, target) == Some(levels[at].1),
{
    law_sorting_keeps_all_overrides(levels, sorted);
    let wanted = order(levels[at].0);
    lemma_first_match_of_order(levels, target, at);
    assert(of_order(sorted, wanted) == of_order(levels, wanted));
    assert(sorted.contains(levels[at]));
    let there = choose|i: int| 0 <= i < sorted.len() && sorted[i] == levels[at];
    lemma_first_place(sorted, target, there);
    let first = choose|i: int|
        0 <= i <= there && (#[trigger] sorted[i].0).is_prefix_of(target) && forall|j: int|
            0 <= j < i ==> !(#[trigger] sorted[j].0).is_prefix_of(target);
    lemma_first_match_at(sorted, target, first);
    assert(sorted.contains(sorted[first]));
    let origin = choose|i: int| 0 <= i < levels.len() && levels[i] == sorted[first];
    assert(levels[origin].0.is_prefix_of(target));
    assert(order(sorted[first].0) <= order(sorted[there].0));
    lemma_first_match_of_order(sorted, target, first);
}

proof fn lemma_first_place(levels: Seq<Override>, target: Seq<char>, there: int)
    requires
        0 <= there < levels.len(),
        levels[there].0.is_prefix_of(target),
    ensures
        exists|i: int|
            0 <= i <= there && (#[trigger] levels[i].0).is_prefix_of(target) && forall|j: int|
                0 <= j < i ==> !(#[trigger] levels[j].0).is_prefix_of(target),
    decreases there,
{
    if exists|j: int| 0 <= j < there && (#[trigger] levels[j].0).is_prefix_of(target) {
        let j = choose|j: int| 0 <= j < there && (#[trigger] levels[j].0).is_prefix_of(target);
        lemma_first_place(levels, target, j);
    } else {
        assert(levels[there].0.is_prefix_of(target));
    }
}

/// The most specific override counts: of those that apply to a target, the one
/// with the longest text, and of those as long, the first that was added.
pub proof fn law_the_most_specific_override_counts(
    levels: Seq<Override>,
    sorted: Seq<Override>,
    target: Seq<char>,
    at: int,
)
    requires
        sorted_from(levels, sorted),
        0 <= at < levels.len(),
        levels[at].0.is_prefix_of(target),
        forall|i: int|
            0 <= i < levels.len() && (#[trigger] levels[i].0).is_prefix_of(target) ==> {
                let len = vstd::utf8::encode_utf8(levels[i].0).len();
                let longest = vstd::utf8::encode_utf8(levels[at].0).len();
                len < longest || (len == longest && at <= i)
            },
    ensures
        first_match(sorted, target) == Some(levels[at].1),
{
    assert(decides(levels, target, at));
    law_the_deciding_override_counts(levels, sorted, target, at);
}

/// Text that is not empty has bytes.
proof fn lemma_some_bytes(text: Seq<char>)
    requires
        text.len() > 0,
    ensures
        vstd::utf8::encode_utf8(text).len() > 0,
{
    vstd::utf8::encode_utf8_decode_utf8(text);
    if vstd::utf8::encode_utf8(text).len() == 0 {
        assert(vstd::utf8::encode_utf8(text) =~= Seq::<u8>::empty());
        assert(vstd::utf8::decode_utf8(Seq::<u8>::empty()).len() == 0);
    }
}

/// Where an override applies, one decides.
proof fn lemma_some_decides(levels: Seq<Override>, target: Seq<char>, there: int)
    requires
        0 <= there < levels.len(),
        levels[there].0.is_prefix_of(target),
    ensures
        exists|i: int| #[trigger] decides(levels, target, i),
    decreases levels.len(),
{
    let last = levels.len() - 1;
    let before = levels.drop_last();
    if exists|j: int| 0 <= j < last && (#[trigger] levels[j].0).is_prefix_of(target) {
        let j = choose|j: int| 0 <= j < last && (#[trigger] levels[j].0).is_prefix_of(target);
        assert(before[j] == levels[j]);
        lemma_some_decides(before, target, j);
        let i = choose|i: int| #[trigger] decides(before, target, i);
        assert(before[i] == levels[i]);
        assert forall|k: int|
            0 <= k < last && (#[trigger] levels[k].0).is_prefix_of(target) implies (order(
            levels[i].0,
        ) < order(levels[k].0) || order(levels[i].0) == order(levels[k].0) && i <= k) by {
            assert(before[k] == levels[k]);
        }
        if levels[last].0.is_prefix_of(target) && order(levels[last].0) < order(levels[i].0) {
            assert(decides(levels, target, last));
        } else {
            assert(decides(levels, target, i));
        }
    } else {
        assert(there == last);
        assert(decides(levels, target, last));
    }
}

/// An override that has a text applies to a target.
pub open spec fn some_text_applies(levels: Seq<Override>, target: Seq<char>) -> bool {
    exists|i: int|
        0 <= i < levels.len() && (#[trigger] levels[i].0).len() > 0 && levels[i].0.is_prefix_of(
            target,
        )
}

/// An override for the empty text counts only where no other override applies: as
/// long as one that has a text does, such a one decides.
pub proof fn law_an_override_for_the_empty_text_counts_last(
    levels: Seq<Override>,
    sorted: Seq<Override>,
    target: Seq<char>,
    at: int,
)
    requires
        sorted_from(levels, sorted),
        0 <= at < levels.len(),
        levels[at].0.len() == 0,
        forall|i: int| 0 <= i < at ==> (#[trigger] levels[i].0).len() > 0,
    ensures
        some_text_applies(levels, target) ==> exists|i: int|
            #[trigger] decides(levels, target, i) && levels[i].0.len() > 0 && first_match(
                sorted,
                target,
            ) == Some(levels[i].1),
        !some_text_applies(levels, target) ==> first_match(sorted, target) == Some(levels[at].1),
{
    assert forall|text: Seq<char>| text.len() == 0 implies #[trigger] order(text) == 0 by {
        assert(text =~= Seq::<char>::empty());
        assert(vstd::utf8::encode_utf8(text).len() == 0);
    }
    assert(levels[at].0.is_prefix_of(target));
    if some_text_applies(levels, target) {
        let k = choose|k: int|
            0 <= k < levels.len() && (#[trigger] levels[k].0).len() > 0 && levels[k].0.is_prefix_of(
                target,
            );
        lemma_some_bytes(levels[k].0);
        lemma_some_decides(levels, target, k);
        let i = choose|i: int| #[trigger] decides(levels, target, i);
        assert(order(levels[i].0) <= order(levels[k].0));
        law_the_deciding_override_counts(levels, sorted, target, i);
    } else {
        assert forall|i: int|
            0 <= i < levels.len() && (#[trigger] levels[i].0).is_prefix_of(target) implies order(
            levels[at].0,
        ) == order(levels[i].0) && at <= i by {
            assert(levels[i].0.len() == 0);
        }
        assert(decides(levels, target, at));
        law_the_deciding_override_counts(levels, sorted, target, at);
    }
}

proof fn lemma_first_match_from(levels: Seq<Override>, target: Seq<char>)
    ensures
        first_match(levels, target) matches Some(level) ==> exists|i: int|
            0 <= i < levels.len() && (#[trigger] levels[i]).1 == level,
    decreases levels.len(),
{
    if levels.len() > 0 {
        if levels.first().0.is_prefix_of(target) {
            assert(levels[0].1 == levels.first().1);
        } else {
            lemma_first_match_from(levels.drop_first(), target);
            if let Some(level) = first_match(levels.drop_first(), target) {
                let i = choose|i: int|
                    0 <= i < levels.drop_first().len() && (#[trigger] levels.drop_first()[i]).1
                        == level;
                assert(levels[i + 1].1 == level);
            }
        }
    }
}

/// The most permissive filter is the default or is set by an override, and none
/// of these is more permissive.
pub proof fn law_most_permissive(levels: Seq<Override>, default_level: LevelFilter)
    ensures
        ({
            let most = most_permissive_of(levels, default_level);
            &&& default_level.spec_rank() <= most.spec_rank()
            &&& forall|i: int|
                0 <= i < levels.len() ==> (#[trigger] levels[i]).1.spec_rank() <= most.spec_rank()
            &&& most == default_level || exists|i: int|
                0 <= i < levels.len() && (#[trigger] levels[i]).1 == most
        }),
    decreases levels.len(),
{
    if levels.len() > 0 {
        let before = levels.drop_last();
        law_most_permissive(before, default_level);
        let most = most_permissive_of(levels, default_level);
        assert forall|i: int| 0 <= i < levels.len() implies (#[trigger] levels[i]).1.spec_rank()
            <= most.spec_rank() by {
            if i < before.len() {
                assert(before[i] == levels[i]);
            }
        }
        if most == levels.last().1 {
            assert(levels[levels.len() - 1].1 == most);
        } else if most != default_level {
            let i = choose|i: int| 0 <= i < before.len() && (#[trigger] before[i]).1 == most;
            assert(levels[i].1 == most);
        }
    }
}

/// Sorting the overrides does not change which filter is the most permissive.
pub proof fn law_sorting_keeps_the_most_permissive(
    levels: Seq<Override>,
    sorted: Seq<Override>,
    default_level: LevelFilter,
)
    requires
        sorted_from(levels, sorted),
    ensures
        most_permissive_of(sorted, default_level) == most_permissive_of(levels, default_level),
{
    law_sorting_keeps_all_overrides(levels, sorted);
    law_most_permissive(levels, default_level);
    law_most_permissive(sorted, default_level);
    let one = most_permissive_of(levels, default_level);
    let other = most_permissive_of(sorted, default_level);
    if one != default_level {
        let i = choose|i: int| 0 <= i < levels.len() && (#[trigger] levels[i]).1 == one;
        assert(sorted.contains(levels[i]));
        let j = choose|j: int| 0 <= j < sorted.len() && sorted[j] == levels[i];
        assert(sorted[j].1 == one);
    }
    if other != default_level {
        let i = choose|i: int| 0 <= i < sorted.len() && (#[trigger] sorted[i]).1 == other;
        assert(sorted.contains(sorted[i]));
        let j = choose|j: int| 0 <= j < levels.len() && levels[j] == sorted[i];
        assert(levels[j].1 == other);
    }
}

/// Nothing that the filter for its target lets through, once the overrides are
/// sorted, is held back by the most permissive filter.
pub proof fn law_nothing_let_through_is_held_back(
    levels: Seq<Override>,
    sorted: Seq<Override>,
    default_level: LevelFilter,
    target: Seq<char>,
    level: Level,
)
    requires
        sorted_from(levels, sorted),
        level.spec_passes(filter_for(sorted, default_level, target)),
    ensures
        level.spec_passes(most_permissive_of(levels, default_level)),
{
    law_sorting_keeps_the_most_permissive(levels, sorted, default_level);
    law_most_permissive(sorted, default_level);
    lemma_first_match_from(sorted, target);
}

/// The length of a text in bytes.
fn byte_len(text: &String) -> (len: usize)
    ensures
        order(text@) == -(len as int),
{
    text.as_str().as_bytes().len()
}

/// Sorts overrides from the most specific to the least specific.
///
/// The length of the text is used instead of the depth of the module that it
/// names, to avoid taking the name of the module apart.
pub fn sort_overrides(levels: &mut Vec<(String, LevelFilter)>)
    ensures
        sorted_from(overrides(old(levels)@), overrides(final(levels)@)),
{
    let mut done: usize = 0;
    while done < levels.len()
        invariant
            done <= levels@.len(),
            ascending(overrides(levels@).take(done as int)),
            forall|wanted: int| #[trigger]
                of_order(overrides(levels@), wanted) == of_order(overrides(old(levels)@), wanted),
        decreases levels@.len() - done,
    {
        let moving: usize = byte_len(&levels[done].0);
        let mut to: usize = done;
        while to > 0 && byte_len(&levels[to - 1].0) < moving
            invariant
                to <= done < levels@.len(),
                order(levels@[done as int].0@) == -(moving as int),
                ascending(overrides(levels@).take(done as int)),
                forall|i: int| to <= i < done ==> order(#[trigger] levels@[i].0@) > -(moving as int),
            decreases to,
        {
            to = to - 1;
        }
        let ghost before = overrides(levels@);
        proof {
            assert forall|i: int| to <= i < done implies order(#[trigger] before[i].0) > order(
                before[done as int].0,
            ) by {
                assert(order(levels@[i].0@) > -(moving as int));
            }
            lemma_moved_ahead(before, done as int, to as int);
        }
        let level = levels.remove(done);
        levels.insert(to, level);
        proof {
            let after = overrides(levels@);
            let sorted = before.take(done as int);
            assert(after =~= before.remove(done as int).insert(to as int, before[done as int]));
            assert forall|i: int, j: int| 0 <= i <= j < done + 1 implies order(
                #[trigger] after.take(done + 1)[i].0,
            ) <= order(#[trigger] after.take(done + 1)[j].0) by {
                let k = if i < to {
                    i
                } else {
                    i - 1
                };
                let l = if j < to {
                    j
                } else {
                    j - 1
                };
                if i == to && j == to {
                } else if i == to {
                    assert(after[j] == before[l]);
                    assert(order(before[l].0) > order(before[done as int].0));
                } else if j == to {
                    assert(after[i] == sorted[i]);
                    assert(order(sorted[i].0) <= order(sorted[to - 1].0));
                    assert(sorted[to - 1] == before[to - 1]);
                } else {
                    assert(after[i] == sorted[k] && after[j] == sorted[l]);
                    assert(order(sorted[k].0) <= order(sorted[l].0));
                }
            }
        }
        done = done + 1;
    }
    assert(overrides(levels@).take(done as int) =~= overrides(levels@));
}

/// The filter for a target: that of the first override that applies to it, or
/// the default.
pub fn find_filter(
    levels: &Vec<(String, LevelFilter)>,
    default_level: LevelFilter,
    target: &str,
) -> (level: LevelFilter)
    ensures
        level == filter_for(overrides(levels@), default_level, target@),
{
    let ghost all = overrides(levels@);
    assert(all.skip(0) =~= all);
    let mut at: usize = 0;
    while at < levels.len()
        invariant
            at <= levels@.len(),
            all == overrides(levels@),
            first_match(all, target@) == first_match(all.skip(at as int), target@),
        decreases levels@.len() - at,
    {
        proof {
            assert(all.skip(at as int).first() == all[at as int]);
            assert(all.skip(at as int).drop_first() =~= all.skip(at + 1));
        }
        if starts_with(target, levels[at].0.as_str()) {
            return levels[at].1;
        }
        at = at + 1;
    }
    default_level
}

/// The most permissive filter among the default and the overrides.
pub fn find_most_permissive(
    levels: &Vec<(String, LevelFilter)>,
    default_level: LevelFilter,
) -> (level: LevelFilter)
    ensures
        level == most_permissive_of(overrides(levels@), default_level),
{
    let ghost all = overrides(levels@);
    let mut level = default_level;
    let mut at: usize = 0;
    while at < levels.len()
        invariant
            at <= levels@.len(),
            all == overrides(levels@),
            level == most_permissive_of(all.take(at as int), default_level),
        decreases levels@.len() - at,
    {
        assert(all.take(at + 1).drop_last() =~= all.take(at as int));
        level = level.or(levels[at].1);
        at = at + 1;
    }
    assert(all.take(at as int) =~= all);
    level
}

/// Each override stands at its place, with its text and its filter.
pub proof fn law_overrides_keep_their_places(levels: Seq<(String, LevelFilter)>)
    ensures
        overrides(levels).len() == levels.len(),
        forall|i: int|
            0 <= i < levels.len() ==> (#[trigger] overrides(levels)[i]).0 == levels[i].0@
                && overrides(levels)[i].1 == levels[i].1,
{
}

/// The first override that applies to a target is the one that sets its filter; if
/// none applies, none does.
pub proof fn law_the_first_override_that_applies_counts(levels: Seq<Override>, target: Seq<char>)
    ensures
        forall|at: int|
            0 <= at < levels.len() && (#[trigger] levels[at]).0.is_prefix_of(target) && (forall|
                i: int,
            |
                0 <= i < at ==> !(#[trigger] levels[i].0).is_prefix_of(target)) ==> first_match(
                levels,
                target,
            ) == Some(levels[at].1),
        (forall|i: int| 0 <= i < levels.len() ==> !(#[trigger] levels[i].0).is_prefix_of(target))
            ==> first_match(levels, target) is None,
{
    assert forall|at: int|
        0 <= at < levels.len() && (#[trigger] levels[at]).0.is_prefix_of(target) && (forall|i: int|
            0 <= i < at ==> !(#[trigger] levels[i].0).is_prefix_of(target)) implies first_match(
        levels,
        target,
    ) == Some(levels[at].1) by {
        lemma_first_match_at(levels, target, at);
    }
    if forall|i: int| 0 <= i < levels.len() ==> !(#[trigger] levels[i].0).is_prefix_of(target) {
        lemma_first_match_none(levels, target);
    }
}

proof fn lemma_of_order_is_a_filter(levels: Seq<Override>, len: nat)
    ensures
        of_order(levels, -(len as int)) == levels.filter(
            |level: Override| vstd::utf8::encode_utf8(level.0).len() == len,
        ),
    decreases levels.len(),
{
    reveal(Seq::filter);
    if levels.len() > 0 {
        lemma_of_order_is_a_filter(levels.drop_last(), len);
    } else {
        assert(levels =~= Seq::empty());
    }
}

/// What sorting does: no text comes behind one that has fewer bytes, and the
/// overrides whose texts have a given number of bytes are the same as before, in the
/// same sequence.
pub proof fn law_sorting_is_by_length_and_stable(
    levels: Seq<Override>,
    sorted: Seq<Override>,
    len: nat,
)
    requires
        sorted_from(levels, sorted),
    ensures
        forall|i: int, j: int|
            0 <= i <= j < sorted.len() ==> vstd::utf8::encode_utf8((#[trigger] sorted[i]).0).len()
                >= vstd::utf8::encode_utf8((#[trigger] sorted[j]).0).len(),
        sorted.filter(|level: Override| vstd::utf8::encode_utf8(level.0).len() == len)
            == levels.filter(|level: Override| vstd::utf8::encode_utf8(level.0).len() == len),
{
    assert forall|i: int, j: int| 0 <= i <= j < sorted.len() implies vstd::utf8::encode_utf8(
        (#[trigger] sorted[i]).0,
    ).len() >= vstd::utf8::encode_utf8((#[trigger] sorted[j]).0).len() by {
        assert(order(sorted[i].0) <= order(sorted[j].0));
    }
    lemma_of_order_is_a_filter(sorted, len);
    lemma_of_order_is_a_filter(levels, len);
    assert(of_order(sorted, -(len as int)) == of_order(levels, -(len as int)));
}

} // verus!
