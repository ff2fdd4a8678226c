//! The rule set of a font and how it merges two sub-characters.

use crate::layout::{LayoutMode, LayoutType, SmushingRule};
use vstd::arithmetic::div_mod::{
    lemma_fundamental_div_mod, lemma_fundamental_div_mod_converse, lemma_small_mod,
};
use vstd::prelude::*;

verus! {

/// The layout of a font: a mode and an ordered rule list for each axis.
/// Rules earlier in a list take precedence.
#[derive(Debug)]
pub struct Rules {
    pub horizontal_layout: LayoutMode,
    pub vertical_layout: LayoutMode,
    pub horizontal_rules: Vec<SmushingRule>,
    pub vertical_rules: Vec<SmushingRule>,
}

/// The mathematical value of a [`Rules`].
pub struct RulesView {
    pub horizontal_layout: LayoutMode,
    pub vertical_layout: LayoutMode,
    pub horizontal_rules: Seq<SmushingRule>,
    pub vertical_rules: Seq<SmushingRule>,
}

impl View for Rules {
    type V = RulesView;

    open spec fn view(&self) -> RulesView {
        RulesView {
            horizontal_layout: self.horizontal_layout,
            vertical_layout: self.vertical_layout,
            horizontal_rules: self.horizontal_rules@,
            vertical_rules: self.vertical_rules@,
        }
    }
}

/// Every rule, from the highest priority value down to the lowest.
pub open spec fn priority_order() -> Seq<SmushingRule> {
    seq![
        SmushingRule::VerticalSmushing,
        SmushingRule::VerticalFitting,
        SmushingRule::VerticalVerticalLine,
        SmushingRule::VerticalHorizontalLine,
        SmushingRule::VerticalHierarchy,
        SmushingRule::VerticalUnderscore,
        SmushingRule::VerticalEqualChar,
        SmushingRule::HorizontalSmushing,
        SmushingRule::HorizontalFitting,
        SmushingRule::HorizontalHardblank,
        SmushingRule::HorizontalBigX,
        SmushingRule::HorizontalOppositePair,
        SmushingRule::HorizontalHierarchy,
        SmushingRule::HorizontalUnderscore,
        SmushingRule::HorizontalEqualChar,
    ]
}

/// What is left of `code` after the rules of `table` were tried in order:
/// each rule whose value does not exceed what is left takes its value away.
pub open spec fn remaining(code: int, table: Seq<SmushingRule>) -> int
    decreases table.len(),
{
    if table.len() == 0 {
        code
    } else {
        let left = remaining(code, table.drop_last());
        if left >= table.last().value() {
            left - table.last().value()
        } else {
            left
        }
    }
}

/// The rules of `table` on `axis` that the decomposition of `code` selects,
/// in the order of `table`.
pub open spec fn selected(code: int, table: Seq<SmushingRule>, axis: LayoutType) -> Seq<
    SmushingRule,
>
    decreases table.len(),
{
    if table.len() == 0 {
        Seq::empty()
    } else {
        let before = selected(code, table.drop_last(), axis);
        if remaining(code, table.drop_last()) >= table.last().value() && table.last().axis()
            == axis {
            before.push(table.last())
        } else {
            before
        }
    }
}

/// `rules` without any occurrence of `rule`, the others in their order.
pub open spec fn without(rules: Seq<SmushingRule>, rule: SmushingRule) -> Seq<SmushingRule>
    decreases rules.len(),
{
    if rules.len() == 0 {
        rules
    } else if rules.last() == rule {
        without(rules.drop_last(), rule)
    } else {
        without(rules.drop_last(), rule).push(rules.last())
    }
}

/// The integer that is decomposed: the full layout where the font has one,
/// the old layout otherwise.
pub open spec fn layout_code(full_layout: Option<isize>, old_layout: isize) -> int {
    match full_layout {
        Some(code) => code as int,
        None => old_layout as int,
    }
}

/// Whether the layout fields settle the horizontal mode: a horizontal rule is
/// selected, or the old layout is `0` (fitting) or `-1` (full width).
pub open spec fn decides_horizontal(full_layout: Option<isize>, old_layout: isize) -> bool {
    selected(layout_code(full_layout, old_layout), priority_order(), LayoutType::Horizontal).len()
        > 0 || old_layout == 0 || old_layout == -1
}

/// The layout that a font's layout fields stand for.
///
/// Each axis takes the mode of the last rule selected for it. Without a
/// horizontal rule the old layout decides the horizontal mode: `0` stands for
/// fitting, and also puts the horizontal fitting rule on the vertical list,
/// and `-1` stands for full width. Without a vertical rule the vertical mode
/// is full width. An axis in controlled mode drops its universal smushing
/// rule.
///
/// Where [`decides_horizontal`] does not hold the fields stand for no
/// layout; the value given here for them is full width, and nothing decodes
/// them.
pub open spec fn decode(full_layout: Option<isize>, old_layout: isize) -> RulesView {
    let code = layout_code(full_layout, old_layout);
    let horizontal = selected(code, priority_order(), LayoutType::Horizontal);
    let vertical = selected(code, priority_order(), LayoutType::Vertical);
    let horizontal_layout = if horizontal.len() > 0 {
        horizontal.last().mode()
    } else if old_layout == 0 {
        LayoutMode::Fitting
    } else {
        LayoutMode::FullWidth
    };
    let vertical_layout = if vertical.len() > 0 {
        vertical.last().mode()
    } else {
        LayoutMode::FullWidth
    };
    let vertical_marked = if horizontal.len() == 0 && old_layout == 0 {
        vertical.push(SmushingRule::HorizontalFitting)
    } else {
        vertical
    };
    RulesView {
        horizontal_layout,
        vertical_layout,
        horizontal_rules: if horizontal.len() > 0 && horizontal_layout
            == LayoutMode::ControlledSmush {
            without(horizontal, SmushingRule::HorizontalSmushing)
        } else {
            horizontal
        },
        vertical_rules: if vertical.len() > 0 && vertical_layout == LayoutMode::ControlledSmush {
            without(vertical_marked, SmushingRule::VerticalSmushing)
        } else {
            vertical_marked
        },
    }
}

/// Whether the priority values of `rules` fall strictly from each rule to the
/// next, so that no rule occurs twice.
pub open spec fn descending(rules: Seq<SmushingRule>) -> bool {
    forall|i: int, j: int|
        0 <= i < j < rules.len() ==> (#[trigger] rules[i]).value() > (#[trigger] rules[j]).value()
}

impl RulesView {
    /// Full width on both axes, with no rules.
    pub open spec fn full_width() -> RulesView {
        RulesView {
            horizontal_layout: LayoutMode::FullWidth,
            vertical_layout: LayoutMode::FullWidth,
            horizontal_rules: Seq::empty(),
            vertical_rules: Seq::empty(),
        }
    }

    /// Whether universal mode merges every pair that a listed rule applies
    /// to. It holds of every decoded layout.
    pub open spec fn consistent(self) -> bool {
        self.horizontal_layout == LayoutMode::UniversalSmush ==> forall|
            a: char,
            b: char,
            hardblank: char,
        | #[trigger]
            self.smushes_horizontal(a, b, hardblank) ==> SmushingRule::HorizontalSmushing.combine(
                a,
                b,
                hardblank,
            ) is Some
    }

    /// What holds of every decoded layout: each list is in priority order
    /// without repetition, the horizontal list holds horizontal rules, and the
    /// vertical list holds vertical rules but for the horizontal fitting rule
    /// that may stand at its end.
    pub open spec fn ordered(self) -> bool {
        &&& descending(self.horizontal_rules)
        &&& descending(self.vertical_rules)
        &&& forall|i: int|
            0 <= i < self.horizontal_rules.len() ==> (#[trigger] self.horizontal_rules[i]).axis()
                == LayoutType::Horizontal
        &&& forall|i: int|
            0 <= i < self.vertical_rules.len() ==> (#[trigger] self.vertical_rules[i]).axis()
                == LayoutType::Vertical || (i == self.vertical_rules.len() - 1
                && self.vertical_rules[i] == SmushingRule::HorizontalFitting)
    }
}

/// The rules selected from a table in priority order are rules of the table
/// on the axis asked for, in priority order.
pub proof fn lemma_selected_descending(code: int, table: Seq<SmushingRule>, axis: LayoutType)
    requires
        descending(table),
    ensures
        descending(selected(code, table, axis)),
        forall|i: int|
            0 <= i < selected(code, table, axis).len() ==> (#[trigger] selected(
                code,
                table,
                axis,
            )[i]).axis() == axis && table.contains(selected(code, table, axis)[i]),
    decreases table.len(),
{
    if table.len() > 0 {
        let shorter = table.drop_last();
        lemma_selected_descending(code, shorter, axis);
        let before = selected(code, shorter, axis);
        let all = selected(code, table, axis);
        assert forall|i: int| 0 <= i < before.len() implies table.contains(#[trigger] before[i])
            && before[i].value() > table.last().value() by {
            let k = choose|k: int| 0 <= k < shorter.len() && shorter[k] == before[i];
            assert(table[k] == before[i]);
            assert(table[k].value() > table[table.len() - 1].value());
        }
        assert forall|i: int| 0 <= i < all.len() implies (#[trigger] all[i]).axis() == axis
            && table.contains(all[i]) by {
            if i < before.len() {
                assert(all[i] == before[i]);
            } else {
                assert(all[i] == table[table.len() - 1]);
            }
        }
        assert forall|i: int, j: int| 0 <= i < j < all.len() implies (#[trigger] all[i]).value()
            > (#[trigger] all[j]).value() by {
            assert(all[i] == before[i]);
            if j < before.len() {
                assert(all[j] == before[j]);
            }
        }
    }
}

/// Taking a rule out of a list in priority order leaves a list in priority
/// order, made of rules of the first.
pub proof fn lemma_without_descending(rules: Seq<SmushingRule>, rule: SmushingRule)
    requires
        descending(rules),
    ensures
        descending(without(rules, rule)),
        forall|i: int|
            0 <= i < without(rules, rule).len() ==> rules.contains(
                #[trigger] without(rules, rule)[i],
            ) && without(rules, rule)[i] != rule,
    decreases rules.len(),
{
    if rules.len() > 0 {
        let shorter = rules.drop_last();
        lemma_without_descending(shorter, rule);
        let before = without(shorter, rule);
        let all = without(rules, rule);
        assert forall|i: int| 0 <= i < before.len() implies rules.contains(#[trigger] before[i])
            && before[i].value() > rules.last().value() by {
            let k = choose|k: int| 0 <= k < shorter.len() && shorter[k] == before[i];
            assert(rules[k] == before[i]);
            assert(rules[k].value() > rules[rules.len() - 1].value());
        }
        assert forall|i: int| 0 <= i < all.len() implies rules.contains(#[trigger] all[i])
            && all[i] != rule by {
            if i < before.len() {
                assert(all[i] == before[i]);
            } else {
                assert(all[i] == rules[rules.len() - 1]);
            }
        }
        assert forall|i: int, j: int| 0 <= i < j < all.len() implies (#[trigger] all[i]).value()
            > (#[trigger] all[j]).value() by {
            assert(all[i] == before[i]);
            if j < before.len() {
                assert(all[j] == before[j]);
            }
        }
    }
}

/// Taking the bit `v` out of what `code` leaves above it: the bit is set
/// exactly when the rest is at least `v`, and without it the rest is what
/// `code` leaves above the next lower bit.
proof fn lemma_take_bit(code: int, v: int)
    requires
        v > 0,
        code >= 0,
    ensures
        code % (2 * v) >= v <==> (code / v) % 2 == 1,
        code % v == if code % (2 * v) >= v {
            code % (2 * v) - v
        } else {
            code % (2 * v)
        },
{
    let q = code / (2 * v);
    let x = code % (2 * v);
    lemma_fundamental_div_mod(code, 2 * v);
    assert(code == (2 * v) * q + x);
    assert(0 <= x < 2 * v);
    if x >= v {
        assert(code == (2 * q + 1) * v + (x - v)) by (nonlinear_arith)
            requires
                code == (2 * v) * q + x,
        ;
        lemma_fundamental_div_mod_converse(code, v, 2 * q + 1, x - v);
    } else {
        assert(code == (2 * q) * v + x) by (nonlinear_arith)
            requires
                code == (2 * v) * q + x,
        ;
        lemma_fundamental_div_mod_converse(code, v, 2 * q, x);
    }
}

/// What the first `i` rules of the priority order leave of a layout integer
/// from 0 to 32767: its bits below theirs.
proof fn lemma_remaining_bits(code: int, i: int)
    requires
        0 <= code < 32768,
        0 <= i <= 15,
    ensures
        i < 15 ==> remaining(code, priority_order().take(i)) == code % (2
            * priority_order()[i].value()),
        i == 15 ==> remaining(code, priority_order().take(i)) == 0,
    decreases i,
{
    let table = priority_order();
    if i == 0 {
        lemma_small_mod(code as nat, 32768);
    } else {
        lemma_remaining_bits(code, i - 1);
        assert(table.take(i).drop_last() =~= table.take(i - 1));
        assert(table.take(i).last() == table[i - 1]);
        lemma_take_bit(code, table[i - 1].value());
        if i < 15 {
            assert(table[i - 1].value() == 2 * table[i].value());
        }
    }
}

/// A rule is selected from the first `j` rules of the priority order exactly
/// when it is one of them, on the axis asked for, and its value does not
/// exceed what the rules before it leave.
proof fn lemma_selected_contains(code: int, axis: LayoutType, i: int, j: int)
    requires
        0 <= i < 15,
        0 <= j <= 15,
    ensures
        selected(code, priority_order().take(j), axis).contains(priority_order()[i]) <==> i < j
            && priority_order()[i].axis() == axis && remaining(code, priority_order().take(i))
            >= priority_order()[i].value(),
    decreases j,
{
    let table = priority_order();
    if j > 0 {
        lemma_selected_contains(code, axis, i, j - 1);
        assert(table.take(j).drop_last() =~= table.take(j - 1));
        assert(table.take(j).last() == table[j - 1]);
        let before = selected(code, table.take(j - 1), axis);
        let all = selected(code, table.take(j), axis);
        assert(descending(table));
        if all.len() > before.len() {
            assert(all =~= before.push(table[j - 1]));
            if before.contains(table[i]) {
                let k = choose|k: int| 0 <= k < before.len() && before[k] == table[i];
                assert(all[k] == table[i]);
            }
            if i == j - 1 {
                assert(all[all.len() - 1] == table[i]);
            }
            if all.contains(table[i]) && i != j - 1 {
                let k = choose|k: int| 0 <= k < all.len() && all[k] == table[i];
                if k == all.len() - 1 {
                    assert(table[i].value() == table[j - 1].value());
                } else {
                    assert(before[k] == table[i]);
                }
            }
        }
    }
}

/// The decomposition of a layout integer from 0 to 32767 selects exactly the
/// rules whose bits are set in it, and leaves nothing of it.
pub proof fn lemma_selected_bits(code: int, rule: SmushingRule)
    requires
        0 <= code < 32768,
    ensures
        selected(code, priority_order(), rule.axis()).contains(rule) <==> (code / rule.value())
            % 2 == 1,
        remaining(code, priority_order()) == 0,
{
    let table = priority_order();
    assert(table.take(15) =~= table);
    lemma_remaining_bits(code, 15);
    let i = choose|i: int| 0 <= i < 15 && priority_order()[i] == rule;
    assert(0 <= i < 15 && table[i] == rule) by {
        match rule {
            SmushingRule::VerticalSmushing => assert(table[0] == rule),
            SmushingRule::VerticalFitting => assert(table[1] == rule),
            SmushingRule::VerticalVerticalLine => assert(table[2] == rule),
            SmushingRule::VerticalHorizontalLine => assert(table[3] == rule),
            SmushingRule::VerticalHierarchy => assert(table[4] == rule),
            SmushingRule::VerticalUnderscore => assert(table[5] == rule),
            SmushingRule::VerticalEqualChar => assert(table[6] == rule),
            SmushingRule::HorizontalSmushing => assert(table[7] == rule),
            SmushingRule::HorizontalFitting => assert(table[8] == rule),
            SmushingRule::HorizontalHardblank => assert(table[9] == rule),
            SmushingRule::HorizontalBigX => assert(table[10] == rule),
            SmushingRule::HorizontalOppositePair => assert(table[11] == rule),
            SmushingRule::HorizontalHierarchy => assert(table[12] == rule),
            SmushingRule::HorizontalUnderscore => assert(table[13] == rule),
            SmushingRule::HorizontalEqualChar => assert(table[14] == rule),
        }
    }
    lemma_selected_contains(code, rule.axis(), i, 15);
    lemma_remaining_bits(code, i);
    lemma_take_bit(code, rule.value());
}

/// In a decoded layout in universal mode the universal smushing rule is the
/// only horizontal rule.
pub proof fn lemma_decode_consistent(full_layout: Option<isize>, old_layout: isize)
    ensures
        decode(full_layout, old_layout).consistent(),
{
    let decoded = decode(full_layout, old_layout);
    if decoded.horizontal_layout == LayoutMode::UniversalSmush {
        let code = layout_code(full_layout, old_layout);
        let horizontal = selected(code, priority_order(), LayoutType::Horizontal);
        assert(descending(priority_order()));
        lemma_selected_descending(code, priority_order(), LayoutType::Horizontal);
        assert(horizontal.len() > 0);
        assert(horizontal.last() == SmushingRule::HorizontalSmushing);
        if horizontal.len() > 1 {
            assert(horizontal[0].value() > horizontal[horizontal.len() - 1].value());
            assert(horizontal[0].axis() == LayoutType::Horizontal);
        }
        assert(decoded.horizontal_rules =~= seq![SmushingRule::HorizontalSmushing]);
        assert forall|a: char, b: char, hardblank: char| #[trigger]
            decoded.smushes_horizontal(a, b, hardblank) implies
            SmushingRule::HorizontalSmushing.combine(a, b, hardblank) is Some by {
            let i = choose|i: int|
                0 <= i < decoded.horizontal_rules.len() && (#[trigger] decoded.horizontal_rules[i]
                    .combine(a, b, hardblank)) is Some;
            assert(decoded.horizontal_rules[i] == SmushingRule::HorizontalSmushing);
        }
    }
}

/// Every decoded layout is ordered.
pub proof fn lemma_decode_ordered(full_layout: Option<isize>, old_layout: isize)
    ensures
        decode(full_layout, old_layout).ordered(),
{
    let code = layout_code(full_layout, old_layout);
    let table = priority_order();
    assert(descending(table));
    let horizontal = selected(code, table, LayoutType::Horizontal);
    let vertical = selected(code, table, LayoutType::Vertical);
    lemma_selected_descending(code, table, LayoutType::Horizontal);
    lemma_selected_descending(code, table, LayoutType::Vertical);
    lemma_without_descending(horizontal, SmushingRule::HorizontalSmushing);
    let marked = vertical.push(SmushingRule::HorizontalFitting);
    assert(descending(marked)) by {
        assert forall|i: int, j: int| 0 <= i < j < marked.len() implies (#[trigger] marked[i]).value()
            > (#[trigger] marked[j]).value() by {
            assert(marked[i] == vertical[i]);
            if j < vertical.len() {
                assert(marked[j] == vertical[j]);
            }
        }
    }
    lemma_without_descending(vertical, SmushingRule::VerticalSmushing);
    lemma_without_descending(marked, SmushingRule::VerticalSmushing);
    let decoded = decode(full_layout, old_layout);
    assert forall|i: int|
        0 <= i < decoded.horizontal_rules.len() implies (#[trigger] decoded.horizontal_rules[i]).axis()
        == LayoutType::Horizontal by {
        let rule = decoded.horizontal_rules[i];
        assert(horizontal.contains(rule));
        let k = choose|k: int| 0 <= k < horizontal.len() && horizontal[k] == rule;
        assert(horizontal[k].axis() == LayoutType::Horizontal);
    }
    assert forall|i: int|
        0 <= i < decoded.vertical_rules.len() implies (#[trigger] decoded.vertical_rules[i]).axis()
        == LayoutType::Vertical || (i == decoded.vertical_rules.len() - 1
        && decoded.vertical_rules[i] == SmushingRule::HorizontalFitting) by {
        let rule = decoded.vertical_rules[i];
        if rule.axis() != LayoutType::Vertical {
            assert(marked.contains(rule) || vertical.contains(rule));
            if vertical.contains(rule) {
                let k = choose|k: int| 0 <= k < vertical.len() && vertical[k] == rule;
                assert(vertical[k].axis() == LayoutType::Vertical);
            } else {
                let k = choose|k: int| 0 <= k < marked.len() && marked[k] == rule;
                if k < vertical.len() {
                    assert(marked[k] == vertical[k]);
                    assert(vertical[k].axis() == LayoutType::Vertical);
                }
                assert(rule == SmushingRule::HorizontalFitting);
                if i < decoded.vertical_rules.len() - 1 {
                    let last = decoded.vertical_rules.len() - 1;
                    assert(decoded.vertical_rules[i].value() > decoded.vertical_rules[last].value());
                    assert(marked.contains(decoded.vertical_rules[last]));
                    let m = choose|m: int|
                        0 <= m < marked.len() && marked[m] == decoded.vertical_rules[last];
                    if m < vertical.len() {
                        assert(marked[m] == vertical[m]);
                        assert(vertical[m].axis() == LayoutType::Vertical);
                    }
                }
            }
        }
    }
}

/// Whether some rule of `rules` applies to the pair `(a, b)`.
pub open spec fn any_applies(rules: Seq<SmushingRule>, a: char, b: char, hardblank: char) -> bool {
    exists|i: int| 0 <= i < rules.len() && (#[trigger] rules[i].combine(a, b, hardblank)) is Some
}

/// The result of the first rule of `rules` that applies to the pair `(a, b)`.
pub open spec fn first_applicable(
    rules: Seq<SmushingRule>,
    a: char,
    b: char,
    hardblank: char,
) -> Option<char>
    decreases rules.len(),
{
    if rules.len() == 0 {
        None
    } else if rules[0].combine(a, b, hardblank) is Some {
        rules[0].combine(a, b, hardblank)
    } else {
        first_applicable(rules.drop_first(), a, b, hardblank)
    }
}

impl RulesView {
    /// Whether some horizontal rule applies to the pair `(a, b)`.
    pub open spec fn smushes_horizontal(self, a: char, b: char, hardblank: char) -> bool {
        any_applies(self.horizontal_rules, a, b, hardblank)
    }

    /// The sub-character that takes the place of `a` overlapped by `b`: a
    /// space gives way to the other; under universal smushing the later
    /// sub-character wins unless one is the hardblank; otherwise the first
    /// applicable horizontal rule decides. `None` where the pair cannot be
    /// merged.
    pub open spec fn smush_horizontal(self, a: char, b: char, hardblank: char) -> Option<char> {
        if a == ' ' {
            Some(b)
        } else if b == ' ' {
            Some(a)
        } else if self.horizontal_layout == LayoutMode::UniversalSmush {
            SmushingRule::HorizontalSmushing.combine(a, b, hardblank)
        } else {
            first_applicable(self.horizontal_rules, a, b, hardblank)
        }
    }
}

/// The first applicable rule gives a result exactly when some rule applies,
/// and the result is that of the earliest such rule.
pub proof fn lemma_first_applicable(rules: Seq<SmushingRule>, a: char, b: char, hardblank: char)
    ensures
        first_applicable(rules, a, b, hardblank) is Some <==> any_applies(rules, a, b, hardblank),
        first_applicable(rules, a, b, hardblank) is Some ==> exists|i: int|
            0 <= i < rules.len() && first_applicable(rules, a, b, hardblank) == (
            #[trigger] rules[i].combine(a, b, hardblank)) && forall|j: int|
                0 <= j < i ==> (#[trigger] rules[j].combine(a, b, hardblank)) is None,
    decreases rules.len(),
{
    if rules.len() == 0 {
    } else if rules[0].combine(a, b, hardblank) is Some {
        assert(0 <= 0 < rules.len() && first_applicable(rules, a, b, hardblank)
            == rules[0].combine(a, b, hardblank));
    } else {
        let rest = rules.drop_first();
        lemma_first_applicable(rest, a, b, hardblank);
        assert(forall|i: int| 0 <= i < rest.len() ==> rest[i] == rules[i + 1]);
        if any_applies(rules, a, b, hardblank) {
            let i = choose|i: int|
                0 <= i < rules.len() && (#[trigger] rules[i].combine(a, b, hardblank)) is Some;
            assert(rest[i - 1].combine(a, b, hardblank) is Some);
        }
        if first_applicable(rest, a, b, hardblank) is Some {
            let i = choose|i: int|
                0 <= i < rest.len() && first_applicable(rest, a, b, hardblank) == (
                #[trigger] rest[i].combine(a, b, hardblank)) && forall|j: int|
                    0 <= j < i ==> (#[trigger] rest[j].combine(a, b, hardblank)) is None;
            assert(rules[i + 1].combine(a, b, hardblank) is Some);
            assert forall|j: int| 0 <= j < i + 1 implies (#[trigger] rules[j].combine(
                a,
                b,
                hardblank,
            )) is None by {
                if j > 0 {
                    assert(rest[j - 1].combine(a, b, hardblank) is None);
                }
            }
            assert(0 <= i + 1 < rules.len() && first_applicable(rules, a, b, hardblank)
                == rules[i + 1].combine(a, b, hardblank));
        }
    }
}

/// Every rule, from the highest priority value down to the lowest.
pub fn rules_by_priority() -> (res: Vec<SmushingRule>)
    ensures
        res@ == priority_order(),
{
    let table = vec![
        SmushingRule::VerticalSmushing,
        SmushingRule::VerticalFitting,
        SmushingRule::VerticalVerticalLine,
        SmushingRule::VerticalHorizontalLine,
        SmushingRule::VerticalHierarchy,
        SmushingRule::VerticalUnderscore,
        SmushingRule::VerticalEqualChar,
        SmushingRule::HorizontalSmushing,
        SmushingRule::HorizontalFitting,
        SmushingRule::HorizontalHardblank,
        SmushingRule::HorizontalBigX,
        SmushingRule::HorizontalOppositePair,
        SmushingRule::HorizontalHierarchy,
        SmushingRule::HorizontalUnderscore,
        SmushingRule::HorizontalEqualChar,
    ];
    assert(table@ =~= priority_order());
    table
}

/// Copies `rules` without any occurrence of `rule`.
pub fn remove_rule(rules: &Vec<SmushingRule>, rule: SmushingRule) -> (res: Vec<SmushingRule>)
    ensures
        res@ == without(rules@, rule),
{
    let mut out: Vec<SmushingRule> = Vec::new();
    let mut i: usize = 0;
    assert(rules@.take(0) =~= Seq::<SmushingRule>::empty());
    while i < rules.len()
        invariant
            i <= rules.len(),
            out@ == without(rules@.take(i as int), rule),
        decreases rules.len() - i,
    {
        assert(rules@.take(i + 1).drop_last() =~= rules@.take(i as int));
        if rules[i] != rule {
            out.push(rules[i]);
        }
        i += 1;
    }
    assert(rules@.take(i as int) =~= rules@);
    out
}

impl Rules {
    /// Whether some horizontal rule applies to `char1` followed by `char2`.
    pub fn smushes_horizontal(&self, char1: char, char2: char, hardblank: char) -> (res: bool)
        ensures
            res == self@.smushes_horizontal(char1, char2, hardblank),
    {
        let mut i: usize = 0;
        while i < self.horizontal_rules.len()
            invariant
                i <= self.horizontal_rules.len(),
                forall|j: int|
                    0 <= j < i ==> (#[trigger] self.horizontal_rules@[j].combine(
                        char1,
                        char2,
                        hardblank,
                    )) is None,
            decreases self.horizontal_rules.len() - i,
        {
            if self.horizontal_rules[i].smush(char1, char2, hardblank).is_some() {
                return true;
            }
            i += 1;
        }
        false
    }

    /// Merges `char1` with the overlapping `char2`.
    pub fn smush_horizontal(&self, char1: char, char2: char, hardblank: char) -> (res: Option<char>)
        ensures
            res == self@.smush_horizontal(char1, char2, hardblank),
    {
        if char1 == ' ' {
            return Some(char2);
        }
        if char2 == ' ' {
            return Some(char1);
        }
        if self.horizontal_layout == LayoutMode::UniversalSmush {
            return SmushingRule::HorizontalSmushing.smush(char1, char2, hardblank);
        }
        let mut i: usize = 0;
        assert(self.horizontal_rules@.skip(0) =~= self.horizontal_rules@);
        while i < self.horizontal_rules.len()
            invariant
                i <= self.horizontal_rules.len(),
                char1 != ' ',
                char2 != ' ',
                self.horizontal_layout != LayoutMode::UniversalSmush,
                first_applicable(self.horizontal_rules@, char1, char2, hardblank)
                    == first_applicable(
                    self.horizontal_rules@.skip(i as int),
                    char1,
                    char2,
                    hardblank,
                ),
            decreases self.horizontal_rules.len() - i,
        {
            let smush = self.horizontal_rules[i].smush(char1, char2, hardblank);
            assert(self.horizontal_rules@.skip(i as int)[0] == self.horizontal_rules@[i as int]);
            if smush.is_some() {
                return smush;
            }
            assert(self.horizontal_rules@.skip(i as int).drop_first()
                =~= self.horizontal_rules@.skip(i + 1));
            i += 1;
        }
        None
    }
}

impl Default for Rules {
    /// Full width on both axes, with no rules.
    fn default() -> (res: Rules)
        ensures
            res@ == RulesView::full_width(),
    {
        Rules {
            horizontal_layout: LayoutMode::FullWidth,
            vertical_layout: LayoutMode::FullWidth,
            horizontal_rules: Vec::new(),
            vertical_rules: Vec::new(),
        }
    }
}

} // verus!
