use figfont::font::{decompose, layout_is_decided, Font};
use figfont::layout::{LayoutMode, SmushingRule};
use figfont::rules::{remove_rule, rules_by_priority, Rules};

#[test]
fn get_layout_full_width() {
    let l = Font::get_layout(Some(0), -1);
    assert_eq!(l.horizontal_layout, LayoutMode::FullWidth);
    assert_eq!(l.vertical_layout, LayoutMode::FullWidth);
    assert_eq!(l.horizontal_rules.len(), 0);
    assert_eq!(l.vertical_rules.len(), 0);

    let l = Font::get_layout(None, -1);
    assert_eq!(l.horizontal_layout, LayoutMode::FullWidth);
    assert_eq!(l.vertical_layout, LayoutMode::FullWidth);
    assert_eq!(l.horizontal_rules.len(), 0);
    assert_eq!(l.vertical_rules.len(), 0);
}

#[test]
fn get_layout_kerning() {
    let l = Font::get_layout(Some(64), 0);
    assert_eq!(l.horizontal_layout, LayoutMode::Fitting);
    assert_eq!(l.vertical_layout, LayoutMode::FullWidth);
    assert_eq!(l.horizontal_rules.len(), 1);
    assert_eq!(
        l.horizontal_rules.get(0).unwrap(),
        &SmushingRule::HorizontalFitting
    );
    assert_eq!(l.vertical_rules.len(), 0);
}

#[test]
fn get_layout_smushing() {
    let l = Font::get_layout(Some(128), 0);
    assert_eq!(l.horizontal_layout, LayoutMode::UniversalSmush);
    assert_eq!(l.vertical_layout, LayoutMode::FullWidth);
    assert_eq!(l.horizontal_rules.len(), 1);
    assert_eq!(
        l.horizontal_rules.get(0).unwrap(),
        &SmushingRule::HorizontalSmushing
    );
    assert_eq!(l.vertical_rules.len(), 0);
}

#[test]
fn get_layout_controlled_smushing_slant() {
    let l = Font::get_layout(Some(18319), 15);
    assert_eq!(l.horizontal_layout, LayoutMode::ControlledSmush);
    assert_eq!(l.vertical_layout, LayoutMode::ControlledSmush);
    assert_eq!(l.horizontal_rules.len(), 4);
    assert_eq!(l.vertical_rules.len(), 3);

    assert!(l
        .horizontal_rules
        .contains(&SmushingRule::HorizontalOppositePair));
    assert!(l
        .horizontal_rules
        .contains(&SmushingRule::HorizontalHierarchy));
    assert!(l
        .horizontal_rules
        .contains(&SmushingRule::HorizontalUnderscore));
    assert!(l
        .horizontal_rules
        .contains(&SmushingRule::HorizontalEqualChar));

    assert!(l.vertical_rules.contains(&SmushingRule::VerticalHierarchy));
    assert!(l.vertical_rules.contains(&SmushingRule::VerticalUnderscore));
    assert!(l.vertical_rules.contains(&SmushingRule::VerticalEqualChar));
}

#[test]
fn get_layout_controlled_smushing_standard() {
    let l = Font::get_layout(Some(24463), 15);
    assert_eq!(l.horizontal_layout, LayoutMode::ControlledSmush);
    assert_eq!(l.vertical_layout, LayoutMode::ControlledSmush);
    assert_eq!(l.horizontal_rules.len(), 4);
    assert_eq!(l.vertical_rules.len(), 5);

    assert!(l
        .horizontal_rules
        .contains(&SmushingRule::HorizontalOppositePair));
    assert!(l
        .horizontal_rules
        .contains(&SmushingRule::HorizontalHierarchy));
    assert!(l
        .horizontal_rules
        .contains(&SmushingRule::HorizontalUnderscore));
    assert!(l
        .horizontal_rules
        .contains(&SmushingRule::HorizontalEqualChar));

    assert!(l
        .vertical_rules
        .contains(&SmushingRule::VerticalVerticalLine));
    assert!(l.vertical_rules.contains(&SmushingRule::VerticalHierarchy));
    assert!(l.vertical_rules.contains(&SmushingRule::VerticalUnderscore));
    assert!(l.vertical_rules.contains(&SmushingRule::VerticalEqualChar));

    let l = Font::get_layout(None, 15);
    assert_eq!(l.horizontal_layout, LayoutMode::ControlledSmush);
    assert_eq!(l.horizontal_rules.len(), 4);
    assert_eq!(l.vertical_layout, LayoutMode::FullWidth);

    assert!(l
        .horizontal_rules
        .contains(&SmushingRule::HorizontalOppositePair));
    assert!(l
        .horizontal_rules
        .contains(&SmushingRule::HorizontalHierarchy));
    assert!(l
        .horizontal_rules
        .contains(&SmushingRule::HorizontalUnderscore));
    assert!(l
        .horizontal_rules
        .contains(&SmushingRule::HorizontalEqualChar));
}

#[test]
fn rules_come_out_in_priority_order() {
    let l = Font::get_layout(Some(24463), 15);
    assert_eq!(
        l.horizontal_rules,
        vec![
            SmushingRule::HorizontalOppositePair,
            SmushingRule::HorizontalHierarchy,
            SmushingRule::HorizontalUnderscore,
            SmushingRule::HorizontalEqualChar,
        ]
    );
    assert_eq!(
        l.vertical_rules,
        vec![
            SmushingRule::VerticalVerticalLine,
            SmushingRule::VerticalHorizontalLine,
            SmushingRule::VerticalHierarchy,
            SmushingRule::VerticalUnderscore,
            SmushingRule::VerticalEqualChar,
        ]
    );
}

#[test]
fn old_layout_zero_marks_the_vertical_list() {
    let l = Font::get_layout(None, 0);
    assert_eq!(l.horizontal_layout, LayoutMode::Fitting);
    assert_eq!(l.vertical_layout, LayoutMode::FullWidth);
    assert_eq!(l.horizontal_rules.len(), 0);
    assert_eq!(l.vertical_rules, vec![SmushingRule::HorizontalFitting]);

    let l = Font::get_layout(Some(256), 0);
    assert_eq!(l.horizontal_layout, LayoutMode::Fitting);
    assert_eq!(l.vertical_layout, LayoutMode::ControlledSmush);
    assert_eq!(
        l.vertical_rules,
        vec![SmushingRule::VerticalEqualChar, SmushingRule::HorizontalFitting]
    );
}

#[test]
fn controlled_mode_drops_universal_smushing() {
    let l = Font::get_layout(Some(129), 1);
    assert_eq!(l.horizontal_layout, LayoutMode::ControlledSmush);
    assert_eq!(l.horizontal_rules, vec![SmushingRule::HorizontalEqualChar]);

    let l = Font::get_layout(Some(16384 + 256 + 64), 0);
    assert_eq!(l.vertical_layout, LayoutMode::ControlledSmush);
    assert_eq!(l.vertical_rules, vec![SmushingRule::VerticalEqualChar]);
    assert_eq!(l.horizontal_layout, LayoutMode::Fitting);

    let l = Font::get_layout(Some(192), 0);
    assert_eq!(l.horizontal_layout, LayoutMode::Fitting);
    assert_eq!(
        l.horizontal_rules,
        vec![SmushingRule::HorizontalSmushing, SmushingRule::HorizontalFitting]
    );
}

#[test]
fn vertical_fitting_and_vertical_universal_smushing() {
    let l = Font::get_layout(Some(8192 + 64), 0);
    assert_eq!(l.vertical_layout, LayoutMode::Fitting);
    assert_eq!(l.vertical_rules, vec![SmushingRule::VerticalFitting]);

    let l = Font::get_layout(Some(16384), -1);
    assert_eq!(l.horizontal_layout, LayoutMode::FullWidth);
    assert_eq!(l.vertical_layout, LayoutMode::UniversalSmush);
    assert_eq!(l.vertical_rules, vec![SmushingRule::VerticalSmushing]);
    assert!(l.horizontal_rules.is_empty());

    let l = Font::get_layout(Some(16384 + 64), 0);
    assert_eq!(l.vertical_layout, LayoutMode::UniversalSmush);
    assert_eq!(l.vertical_rules, vec![SmushingRule::VerticalSmushing]);

    let l = Font::get_layout(Some(16384 + 8192 + 64), 0);
    assert_eq!(l.vertical_layout, LayoutMode::Fitting);
    assert_eq!(
        l.vertical_rules,
        vec![SmushingRule::VerticalSmushing, SmushingRule::VerticalFitting]
    );
}

#[test]
fn decomposition_is_greedy() {
    let (h, v) = decompose(0);
    assert!(h.is_empty() && v.is_empty());
    let (h, v) = decompose(-5);
    assert!(h.is_empty() && v.is_empty());
    let (h, v) = decompose(5);
    assert_eq!(
        h,
        vec![SmushingRule::HorizontalHierarchy, SmushingRule::HorizontalEqualChar]
    );
    assert!(v.is_empty());
    let (h, v) = decompose(32768 + 1);
    assert_eq!(v, vec![SmushingRule::VerticalSmushing, SmushingRule::VerticalFitting, SmushingRule::VerticalVerticalLine, SmushingRule::VerticalHorizontalLine, SmushingRule::VerticalHierarchy, SmushingRule::VerticalUnderscore, SmushingRule::VerticalEqualChar]);
    assert_eq!(h.len(), 8);
    let (h, v) = decompose(isize::MAX);
    assert_eq!(h.len() + v.len(), 15);
    let (h, v) = decompose(isize::MIN);
    assert_eq!(h.len() + v.len(), 0);
}

#[test]
fn layout_decided_or_not() {
    assert!(layout_is_decided(Some(0), -1));
    assert!(layout_is_decided(None, 0));
    assert!(layout_is_decided(None, 15));
    assert!(layout_is_decided(Some(64), 7));
    assert!(!layout_is_decided(Some(0), 15));
    assert!(!layout_is_decided(Some(256), 3));
    assert!(!layout_is_decided(None, -2));
}

#[test]
fn priority_table_and_removal() {
    let table = rules_by_priority();
    assert_eq!(table.len(), 15);
    assert_eq!(table[0], SmushingRule::VerticalSmushing);
    assert_eq!(table[14], SmushingRule::HorizontalEqualChar);
    for i in 1..table.len() {
        assert!(table[i - 1].code() > table[i].code());
    }
    let some = vec![
        SmushingRule::HorizontalSmushing,
        SmushingRule::HorizontalBigX,
        SmushingRule::HorizontalSmushing,
        SmushingRule::HorizontalEqualChar,
    ];
    assert_eq!(
        remove_rule(&some, SmushingRule::HorizontalSmushing),
        vec![SmushingRule::HorizontalBigX, SmushingRule::HorizontalEqualChar]
    );
    assert_eq!(remove_rule(&some, SmushingRule::VerticalSmushing), some);
}

#[test]
fn rules_smush_horizontal_by_mode() {
    let controlled = Font::get_layout(Some(24463), 15);
    assert_eq!(controlled.smush_horizontal(' ', 'x', '$'), Some('x'));
    assert_eq!(controlled.smush_horizontal('x', ' ', '$'), Some('x'));
    assert_eq!(controlled.smush_horizontal('[', ']', '$'), Some('|'));
    assert_eq!(controlled.smush_horizontal('|', '>', '$'), Some('>'));
    assert_eq!(controlled.smush_horizontal('_', '/', '$'), Some('/'));
    assert_eq!(controlled.smush_horizontal('x', 'x', '$'), Some('x'));
    assert_eq!(controlled.smush_horizontal('x', 'y', '$'), None);
    assert!(controlled.smushes_horizontal('[', ']', '$'));
    assert!(!controlled.smushes_horizontal('x', 'y', '$'));

    let universal = Font::get_layout(Some(128), 0);
    assert_eq!(universal.smush_horizontal('x', 'y', '$'), Some('y'));
    assert_eq!(universal.smush_horizontal('$', 'y', '$'), None);
    assert!(universal.smushes_horizontal('x', 'y', '$'));

    let full = Rules::default();
    assert_eq!(full.horizontal_layout, LayoutMode::FullWidth);
    assert_eq!(full.vertical_layout, LayoutMode::FullWidth);
    assert!(full.horizontal_rules.is_empty() && full.vertical_rules.is_empty());
    assert_eq!(full.smush_horizontal('x', 'y', '$'), None);
    assert!(!full.smushes_horizontal('x', 'x', '$'));
}

#[test]
fn earlier_rule_wins() {
    let rules = Rules {
        horizontal_layout: LayoutMode::ControlledSmush,
        vertical_layout: LayoutMode::FullWidth,
        horizontal_rules: vec![SmushingRule::HorizontalBigX, SmushingRule::HorizontalHierarchy],
        vertical_rules: vec![],
    };
    assert_eq!(rules.smush_horizontal('>', '<', '$'), Some('X'));
    assert_eq!(rules.smush_horizontal('/', '<', '$'), Some('<'));
    let swapped = Rules {
        horizontal_layout: LayoutMode::ControlledSmush,
        vertical_layout: LayoutMode::FullWidth,
        horizontal_rules: vec![SmushingRule::HorizontalSmushing, SmushingRule::HorizontalBigX],
        vertical_rules: vec![],
    };
    assert_eq!(swapped.smush_horizontal('>', '<', '$'), Some('<'));
}
