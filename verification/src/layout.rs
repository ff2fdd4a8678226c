//! Layout modes and the closed table of smushing rules.

use vstd::prelude::*;
use vstd::string::*;

verus! {

/// The axis along which a smushing rule merges glyphs.
#[derive(Clone, Copy, Debug, PartialEq, Eq, Structural)]
pub enum LayoutType {
    Horizontal,
    Vertical,
}

/// How adjacent glyphs are brought together along one axis.
#[derive(Clone, Copy, Debug, PartialEq, Eq, Structural)]
pub enum LayoutMode {
    FullWidth,
    Fitting,
    ControlledSmush,
    UniversalSmush,
}

/// A rule that may merge two touching sub-characters into one.
#[derive(Clone, Copy, Debug, PartialEq, Eq, Structural)]
pub enum SmushingRule {
    HorizontalEqualChar,
    HorizontalUnderscore,
    HorizontalHierarchy,
    HorizontalOppositePair,
    HorizontalBigX,
    HorizontalHardblank,
    HorizontalFitting,
    HorizontalSmushing,
    VerticalEqualChar,
    VerticalUnderscore,
    VerticalHierarchy,
    VerticalHorizontalLine,
    VerticalVerticalLine,
    VerticalFitting,
    VerticalSmushing,
}

/// The characters that replace an underscore they meet.
pub open spec fn underscore_partners() -> Seq<char> {
    "|/\\[]{}()<>"@
}

/// The hierarchy classes, lowest first; a character's rank is the index of its
/// first occurrence.
pub open spec fn hierarchy_classes() -> Seq<char> {
    "| /\\ [] {} () <>"@
}

/// The bracket pairs; two characters are opposite when their first
/// occurrences are neighbours.
pub open spec fn bracket_pairs() -> Seq<char> {
    "[] {} ()"@
}

/// Whether two positions in a class string are next to each other.
pub open spec fn adjacent(p: int, q: int) -> bool {
    p - q == 1 || q - p == 1
}

/// The result of the underscore rule on the ordered pair `(a, b)`.
pub open spec fn combine_underscore(a: char, b: char) -> Option<char> {
    if a == '_' && underscore_partners().contains(b) {
        Some(b)
    } else if b == '_' && underscore_partners().contains(a) {
        Some(a)
    } else {
        None
    }
}

/// The result of the hierarchy rule on the ordered pair `(a, b)`.
pub open spec fn combine_hierarchy(a: char, b: char) -> Option<char> {
    match (hierarchy_classes().index_of_first(a), hierarchy_classes().index_of_first(b)) {
        (Some(p), Some(q)) => if p != q && !adjacent(p, q) {
            Some(hierarchy_classes()[if p > q { p } else { q }])
        } else {
            None
        },
        _ => None,
    }
}

/// The result of the opposite-pair rule on the ordered pair `(a, b)`.
pub open spec fn combine_opposite_pair(a: char, b: char) -> Option<char> {
    match (bracket_pairs().index_of_first(a), bracket_pairs().index_of_first(b)) {
        (Some(p), Some(q)) => if adjacent(p, q) {
            Some('|')
        } else {
            None
        },
        _ => None,
    }
}

/// The index of the first occurrence of `c` in `s`, if there is one.
pub fn position_of(s: &str, c: char) -> (res: Option<usize>)
    ensures
        match res {
            Some(i) => s@.index_of_first(c) == Some(i as int),
            None => s@.index_of_first(c) is None,
        },
        res is Some ==> res->0 < s@.len() && s@[res->0 as int] == c,
        res is Some <==> s@.contains(c),
{
    let n: usize = s.unicode_len();
    let mut i: usize = 0;
    while i < n
        invariant
            n == s@.len(),
            i <= n,
            forall|j: int| 0 <= j < i ==> s@[j] != c,
        decreases n - i,
    {
        if s.get_char(i) == c {
            proof {
                assert(s@.contains(c)) by {
                    assert(s@[i as int] == c);
                }
                s@.index_of_first_ensures(c);
            }
            return Some(i);
        }
        i += 1;
    }
    proof {
        s@.index_of_first_ensures(c);
    }
    None
}

impl SmushingRule {
    /// The rule's priority value: the bit it occupies in a layout integer.
    pub open spec fn value(self) -> int {
        match self {
            SmushingRule::HorizontalEqualChar => 1,
            SmushingRule::HorizontalUnderscore => 2,
            SmushingRule::HorizontalHierarchy => 4,
            SmushingRule::HorizontalOppositePair => 8,
            SmushingRule::HorizontalBigX => 16,
            SmushingRule::HorizontalHardblank => 32,
            SmushingRule::HorizontalFitting => 64,
            SmushingRule::HorizontalSmushing => 128,
            SmushingRule::VerticalEqualChar => 256,
            SmushingRule::VerticalUnderscore => 512,
            SmushingRule::VerticalHierarchy => 1024,
            SmushingRule::VerticalHorizontalLine => 2048,
            SmushingRule::VerticalVerticalLine => 4096,
            SmushingRule::VerticalFitting => 8192,
            SmushingRule::VerticalSmushing => 16384,
        }
    }

    /// The axis the rule belongs to: the low eight bits are horizontal.
    pub open spec fn axis(self) -> LayoutType {
        if self.value() <= 255 {
            LayoutType::Horizontal
        } else {
            LayoutType::Vertical
        }
    }

    /// The layout mode that selecting this rule gives its axis: fitting for
    /// the two fitting rules, universal smushing for the two universal
    /// smushing rules, controlled smushing for every other rule.
    pub open spec fn mode(self) -> LayoutMode {
        match self {
            SmushingRule::HorizontalFitting | SmushingRule::VerticalFitting => LayoutMode::Fitting,
            SmushingRule::HorizontalSmushing | SmushingRule::VerticalSmushing => {
                LayoutMode::UniversalSmush
            },
            _ => LayoutMode::ControlledSmush,
        }
    }

    /// What the rule makes of the sub-character `a` followed by `b`, or `None`
    /// where the rule does not apply to that ordered pair.
    pub open spec fn combine(self, a: char, b: char, hardblank: char) -> Option<char> {
        match self {
            SmushingRule::HorizontalEqualChar | SmushingRule::VerticalEqualChar => {
                if a == b && a != hardblank {
                    Some(a)
                } else {
                    None
                }
            },
            SmushingRule::HorizontalUnderscore | SmushingRule::VerticalUnderscore => {
                combine_underscore(a, b)
            },
            SmushingRule::HorizontalHierarchy | SmushingRule::VerticalHierarchy => {
                combine_hierarchy(a, b)
            },
            SmushingRule::HorizontalOppositePair => combine_opposite_pair(a, b),
            SmushingRule::HorizontalBigX => {
                if a == '/' && b == '\\' {
                    Some('|')
                } else if a == '\\' && b == '/' {
                    Some('Y')
                } else if a == '>' && b == '<' {
                    Some('X')
                } else {
                    None
                }
            },
            SmushingRule::HorizontalHardblank => {
                if a == hardblank && b == hardblank {
                    Some(hardblank)
                } else {
                    None
                }
            },
            SmushingRule::HorizontalFitting => {
                if a == ' ' && b == ' ' {
                    Some(' ')
                } else {
                    None
                }
            },
            SmushingRule::HorizontalSmushing => {
                if a != hardblank && b != hardblank {
                    Some(b)
                } else {
                    None
                }
            },
            SmushingRule::VerticalHorizontalLine => {
                if (a == '-' && b == '_') || (a == '_' && b == '-') {
                    Some('=')
                } else {
                    None
                }
            },
            SmushingRule::VerticalVerticalLine => {
                if a == '|' && b == '|' {
                    Some('|')
                } else {
                    None
                }
            },
            SmushingRule::VerticalFitting | SmushingRule::VerticalSmushing => None,
        }
    }

    /// The rule's priority value.
    pub fn code(self) -> (res: isize)
        ensures
            res == self.value(),
    {
        match self {
            SmushingRule::HorizontalEqualChar => 1,
            SmushingRule::HorizontalUnderscore => 2,
            SmushingRule::HorizontalHierarchy => 4,
            SmushingRule::HorizontalOppositePair => 8,
            SmushingRule::HorizontalBigX => 16,
            SmushingRule::HorizontalHardblank => 32,
            SmushingRule::HorizontalFitting => 64,
            SmushingRule::HorizontalSmushing => 128,
            SmushingRule::VerticalEqualChar => 256,
            SmushingRule::VerticalUnderscore => 512,
            SmushingRule::VerticalHierarchy => 1024,
            SmushingRule::VerticalHorizontalLine => 2048,
            SmushingRule::VerticalVerticalLine => 4096,
            SmushingRule::VerticalFitting => 8192,
            SmushingRule::VerticalSmushing => 16384,
        }
    }

    /// Applies the rule to the sub-character `char1` followed by `char2`.
    pub fn smush(self, char1: char, char2: char, hardblank: char) -> (res: Option<char>)
        ensures
            res == self.combine(char1, char2, hardblank),
    {
        match self {
            SmushingRule::HorizontalEqualChar | SmushingRule::VerticalEqualChar => {
                if char1 == char2 && char1 != hardblank {
                    Some(char1)
                } else {
                    None
                }
            },
            SmushingRule::HorizontalUnderscore | SmushingRule::VerticalUnderscore => {
                let chars: &str = "|/\\[]{}()<>";
                if char1 == '_' && position_of(chars, char2).is_some() {
                    Some(char2)
                } else if char2 == '_' && position_of(chars, char1).is_some() {
                    Some(char1)
                } else {
                    None
                }
            },
            SmushingRule::HorizontalHierarchy | SmushingRule::VerticalHierarchy => {
                let classes: &str = "| /\\ [] {} () <>";
                match (position_of(classes, char1), position_of(classes, char2)) {
                    (Some(pos1), Some(pos2)) => {
                        if pos1 != pos2 && !neighbours(pos1, pos2) {
                            if pos1 > pos2 {
                                Some(char1)
                            } else {
                                Some(char2)
                            }
                        } else {
                            None
                        }
                    },
                    _ => None,
                }
            },
            SmushingRule::HorizontalOppositePair => {
                let brackets: &str = "[] {} ()";
                match (position_of(brackets, char1), position_of(brackets, char2)) {
                    (Some(pos1), Some(pos2)) => {
                        if neighbours(pos1, pos2) {
                            Some('|')
                        } else {
                            None
                        }
                    },
                    _ => None,
                }
            },
            SmushingRule::HorizontalBigX => {
                if char1 == '/' && char2 == '\\' {
                    Some('|')
                } else if char1 == '\\' && char2 == '/' {
                    Some('Y')
                } else if char1 == '>' && char2 == '<' {
                    Some('X')
                } else {
                    None
                }
            },
            SmushingRule::HorizontalHardblank => {
                if char1 == hardblank && char2 == hardblank {
                    Some(hardblank)
                } else {
                    None
                }
            },
            SmushingRule::HorizontalFitting => {
                if char1 == ' ' && char2 == ' ' {
                    Some(' ')
                } else {
                    None
                }
            },
            SmushingRule::HorizontalSmushing => {
                if char1 != hardblank && char2 != hardblank {
                    Some(char2)
                } else {
                    None
                }
            },
            SmushingRule::VerticalHorizontalLine => {
                if (char1 == '-' && char2 == '_') || (char1 == '_' && char2 == '-') {
                    Some('=')
                } else {
                    None
                }
            },
            SmushingRule::VerticalVerticalLine => {
                if char1 == '|' && char2 == '|' {
                    Some('|')
                } else {
                    None
                }
            },
            SmushingRule::VerticalFitting | SmushingRule::VerticalSmushing => None,
        }
    }

    /// The axis the rule belongs to.
    pub fn get_type(self) -> (res: LayoutType)
        ensures
            res == self.axis(),
    {
        if self.code() <= 255 {
            LayoutType::Horizontal
        } else {
            LayoutType::Vertical
        }
    }

    /// The layout mode that selecting this rule gives its axis.
    pub fn get_mode(self) -> (res: LayoutMode)
        ensures
            res == self.mode(),
    {
        let code: isize = self.code();
        if code == 8192 || code == 64 {
            LayoutMode::Fitting
        } else if code == 16384 || code == 128 {
            LayoutMode::UniversalSmush
        } else {
            LayoutMode::ControlledSmush
        }
    }
}

/// The three class strings, character by character.
pub proof fn lemma_class_strings()
    ensures
        underscore_partners() =~= seq!['|', '/', '\\', '[', ']', '{', '}', '(', ')', '<', '>'],
        hierarchy_classes() =~= seq![
            '|',
            ' ',
            '/',
            '\\',
            ' ',
            '[',
            ']',
            ' ',
            '{',
            '}',
            ' ',
            '(',
            ')',
            ' ',
            '<',
            '>',
        ],
        bracket_pairs() =~= seq!['[', ']', ' ', '{', '}', ' ', '(', ')'],
{
    reveal_strlit("|/\\[]{}()<>");
    reveal_strlit("| /\\ [] {} () <>");
    reveal_strlit("[] {} ()");
}

/// Every rule but big X and universal smushing gives the same result for a
/// pair of sub-characters in either order.
pub proof fn lemma_smush_symmetric(rule: SmushingRule, a: char, b: char, hardblank: char)
    requires
        rule != SmushingRule::HorizontalBigX,
        rule != SmushingRule::HorizontalSmushing,
    ensures
        rule.combine(a, b, hardblank) == rule.combine(b, a, hardblank),
{
}

/// Big X depends on the order of the pair: a slash before a backslash gives a
/// bar and the reverse a `Y`; `>` before `<` gives an `X` and the reverse
/// nothing.
pub proof fn lemma_big_x_directed(hardblank: char)
    ensures
        SmushingRule::HorizontalBigX.combine('/', '\\', hardblank) == Some('|'),
        SmushingRule::HorizontalBigX.combine('\\', '/', hardblank) == Some('Y'),
        SmushingRule::HorizontalBigX.combine('>', '<', hardblank) == Some('X'),
        SmushingRule::HorizontalBigX.combine('<', '>', hardblank) is None,
{
}

/// Universal smushing depends on the order of the pair: the later
/// sub-character wins.
pub proof fn lemma_universal_smushing_directed(a: char, b: char, hardblank: char)
    requires
        a != hardblank,
        b != hardblank,
    ensures
        SmushingRule::HorizontalSmushing.combine(a, b, hardblank) == Some(b),
        SmushingRule::HorizontalSmushing.combine(b, a, hardblank) == Some(a),
{
}

/// An underscore gives way to each of its partners, whichever comes first.
pub proof fn lemma_underscore_both_ways(partner: char, hardblank: char)
    requires
        underscore_partners().contains(partner),
    ensures
        SmushingRule::HorizontalUnderscore.combine('_', partner, hardblank) == Some(partner),
        SmushingRule::HorizontalUnderscore.combine(partner, '_', hardblank) == Some(partner),
        SmushingRule::VerticalUnderscore.combine('_', partner, hardblank) == Some(partner),
        SmushingRule::VerticalUnderscore.combine(partner, '_', hardblank) == Some(partner),
{
}

/// Of two characters at class positions that differ and are no neighbours,
/// the hierarchy rule keeps the one at the later position, whichever comes
/// first.
pub proof fn lemma_hierarchy_both_ways(a: char, b: char, p: int, q: int, hardblank: char)
    requires
        hierarchy_classes().index_of_first(a) == Some(p),
        hierarchy_classes().index_of_first(b) == Some(q),
        p < q,
        !adjacent(p, q),
    ensures
        SmushingRule::HorizontalHierarchy.combine(a, b, hardblank) == Some(b),
        SmushingRule::HorizontalHierarchy.combine(b, a, hardblank) == Some(b),
        SmushingRule::VerticalHierarchy.combine(a, b, hardblank) == Some(b),
        SmushingRule::VerticalHierarchy.combine(b, a, hardblank) == Some(b),
{
    hierarchy_classes().index_of_first_ensures(b);
}

/// Two characters at neighbouring positions of the bracket string give a bar,
/// whichever comes first.
pub proof fn lemma_opposite_pair_both_ways(a: char, b: char, p: int, q: int, hardblank: char)
    requires
        bracket_pairs().index_of_first(a) == Some(p),
        bracket_pairs().index_of_first(b) == Some(q),
        adjacent(p, q),
    ensures
        SmushingRule::HorizontalOppositePair.combine(a, b, hardblank) == Some('|'),
        SmushingRule::HorizontalOppositePair.combine(b, a, hardblank) == Some('|'),
{
}

/// Whether two positions are next to each other.
fn neighbours(p: usize, q: usize) -> (res: bool)
    ensures
        res == adjacent(p as int, q as int),
{
    if p > q {
        p - q == 1
    } else {
        q - p == 1
    }
}

} // verus!
