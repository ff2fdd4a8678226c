//! Composing the glyphs of a message into a banner.

use crate::font::{Font, FontView};
use crate::layout::{LayoutMode, SmushingRule};
use crate::rules::{lemma_first_applicable, RulesView};
use crate::text::{chars_of, grid, join_lines, join_rows, string_of};
use vstd::prelude::*;
use vstd::std_specs::hash::group_hash_axioms;

verus! {

/// Why a message could not be rendered.
#[derive(Clone, Copy, Debug, PartialEq, Eq, Structural)]
pub enum RenderError {
    /// The font has no glyph for this character of the message.
    GlyphLookup(char),
    /// A glyph could not be merged with what was rendered before it: two
    /// overlapping sub-characters admit no rule, or the overlap is wider than
    /// a row.
    Composition,
}

/// The number of spaces at the end of `row`.
pub open spec fn trailing_spaces(row: Seq<char>) -> nat
    decreases row.len(),
{
    if row.len() == 0 || row.last() != ' ' {
        0
    } else {
        1 + trailing_spaces(row.drop_last())
    }
}

/// The number of spaces at the start of `row`.
pub open spec fn leading_spaces(row: Seq<char>) -> nat
    decreases row.len(),
{
    if row.len() == 0 || row[0] != ' ' {
        0
    } else {
        1 + leading_spaces(row.drop_first())
    }
}

/// The code under which the glyph of `c` is looked up: the low sixteen bits
/// of the character.
pub open spec fn code_of(c: char) -> u16 {
    (c as u32 % 0x10000) as u16
}

impl RulesView {
    /// Whether the sub-character `a` at the end of a row and `b` at the start
    /// of the next glyph's row can share a column.
    pub open spec fn joins(self, a: char, b: char, hardblank: char) -> bool {
        (self.horizontal_layout == LayoutMode::UniversalSmush
            && SmushingRule::HorizontalSmushing.combine(a, b, hardblank) is Some)
            || self.smushes_horizontal(a, b, hardblank)
    }

    /// By how many columns one row lets the glyph row `next` move into `row`:
    /// through the spaces at the end of `row` and at the start of `next`, and
    /// one column more where the sub-characters that then meet can share one.
    pub open spec fn row_overlay(self, hardblank: char, row: Seq<char>, next: Seq<char>) -> nat {
        let empty_a = trailing_spaces(row);
        let empty_b = leading_spaces(next);
        if empty_a < row.len() && empty_b < next.len() && self.joins(
            row[row.len() - 1 - empty_a],
            next[empty_b as int],
            hardblank,
        ) {
            empty_a + empty_b + 1
        } else {
            empty_a + empty_b
        }
    }

    /// The least overlay of the first `n` rows, and at most the width of the
    /// first row of `rows`.
    pub open spec fn least_overlay(
        self,
        hardblank: char,
        rows: Seq<Seq<char>>,
        glyph: Seq<Seq<char>>,
        n: nat,
    ) -> nat
        decreases n,
    {
        if n == 0 {
            rows[0].len()
        } else {
            let before = self.least_overlay(hardblank, rows, glyph, (n - 1) as nat);
            let here = self.row_overlay(hardblank, rows[n - 1], glyph[n - 1]);
            if here < before {
                here
            } else {
                before
            }
        }
    }

    /// By how many columns `glyph` overlaps `rows`: none in full-width mode,
    /// else the least overlay of all rows.
    pub open spec fn overlay(self, hardblank: char, rows: Seq<Seq<char>>, glyph: Seq<Seq<char>>) -> nat {
        if self.horizontal_layout == LayoutMode::FullWidth {
            0
        } else {
            self.least_overlay(hardblank, rows, glyph, rows.len())
        }
    }

    /// The column that takes the place of column `k` of the overlap.
    pub open spec fn merged_column(
        self,
        hardblank: char,
        row: Seq<char>,
        next: Seq<char>,
        overlay: nat,
        k: int,
    ) -> Option<char> {
        self.smush_horizontal(row[row.len() - overlay + k], next[k], hardblank)
    }

    /// `row` with `next` laid over its last `overlay` columns: the columns of
    /// the overlap are merged pair by pair, the rest of `next` follows.
    /// `None` where a row is narrower than the overlap or a pair cannot be
    /// merged.
    pub open spec fn merge_row(
        self,
        hardblank: char,
        row: Seq<char>,
        next: Seq<char>,
        overlay: nat,
    ) -> Option<Seq<char>> {
        if overlay <= row.len() && overlay <= next.len() && forall|k: int|
            0 <= k < overlay ==> (#[trigger] self.merged_column(
                hardblank,
                row,
                next,
                overlay,
                k,
            )) is Some {
            Some(
                row.take(row.len() - overlay) + Seq::new(
                    overlay,
                    |k: int| self.merged_column(hardblank, row, next, overlay, k)->0,
                ) + next.skip(overlay as int),
            )
        } else {
            None
        }
    }

    /// `rows` with `glyph` appended, row by row, at the overlay of the two.
    pub open spec fn append_glyph(
        self,
        hardblank: char,
        rows: Seq<Seq<char>>,
        glyph: Seq<Seq<char>>,
    ) -> Option<Seq<Seq<char>>> {
        let overlay = self.overlay(hardblank, rows, glyph);
        if forall|r: int|
            0 <= r < rows.len() ==> (#[trigger] self.merge_row(
                hardblank,
                rows[r],
                glyph[r],
                overlay,
            )) is Some {
            Some(
                Seq::new(
                    rows.len(),
                    |r: int| self.merge_row(hardblank, rows[r], glyph[r], overlay)->0,
                ),
            )
        } else {
            None
        }
    }
}

impl FontView {
    /// The rows of the banner for `message`: the glyphs of its characters
    /// appended one after the other to rows that start out empty. The first
    /// character that fails gives the error.
    pub open spec fn render(self, message: Seq<char>) -> Result<Seq<Seq<char>>, RenderError>
        decreases message.len(),
    {
        if message.len() == 0 {
            Ok(Seq::new(self.font_head.height as nat, |r: int| Seq::empty()))
        } else {
            match self.render(message.drop_last()) {
                Err(error) => Err(error),
                Ok(rows) => {
                    let c = message.last();
                    if !self.chars.contains_key(code_of(c)) {
                        Err(RenderError::GlyphLookup(c))
                    } else {
                        match self.rules.append_glyph(
                            self.font_head.hardblank,
                            rows,
                            self.chars[code_of(c)],
                        ) {
                            Some(next) => Ok(next),
                            None => Err(RenderError::Composition),
                        }
                    }
                },
            }
        }
    }
}

impl FontView {
    /// Whether the font has a glyph for every character of `message`.
    pub open spec fn has_glyphs(self, message: Seq<char>) -> bool {
        forall|i: int|
            0 <= i < message.len() ==> self.chars.contains_key(code_of(#[trigger] message[i]))
    }

    /// Row `r` of the glyphs of `message`, written one after the other.
    pub open spec fn concatenated_row(self, message: Seq<char>, r: int) -> Seq<char>
        decreases message.len(),
    {
        if message.len() == 0 {
            Seq::empty()
        } else {
            self.concatenated_row(message.drop_last(), r) + self.chars[code_of(
                message.last(),
            )][r]
        }
    }

    /// The sum of the widths of row `r` of the glyphs of `message`.
    pub open spec fn glyph_widths(self, message: Seq<char>, r: int) -> nat
        decreases message.len(),
    {
        if message.len() == 0 {
            0
        } else {
            self.glyph_widths(message.drop_last(), r) + self.chars[code_of(
                message.last(),
            )][r].len()
        }
    }
}

/// In full-width mode rendering is concatenation: each row of the banner is
/// that row of the glyphs of the message, one after the other, and so is as
/// wide as those glyph rows together.
pub proof fn lemma_full_width_concatenates(font: FontView, message: Seq<char>)
    requires
        font.wf(),
        font.rules.horizontal_layout == LayoutMode::FullWidth,
        font.has_glyphs(message),
    ensures
        font.render(message) == Ok::<Seq<Seq<char>>, RenderError>(
            Seq::new(
                font.font_head.height as nat,
                |r: int| font.concatenated_row(message, r),
            ),
        ),
        forall|r: int|
            0 <= r < font.font_head.height ==> (#[trigger] font.concatenated_row(
                message,
                r,
            )).len() == font.glyph_widths(message, r),
    decreases message.len(),
{
    let height = font.font_head.height as nat;
    let banner = Seq::new(height, |r: int| font.concatenated_row(message, r));
    if message.len() == 0 {
        assert(banner =~= Seq::new(height, |r: int| Seq::<char>::empty()));
    } else {
        let shorter = message.drop_last();
        assert(font.has_glyphs(shorter)) by {
            assert forall|i: int| 0 <= i < shorter.len() implies font.chars.contains_key(
                code_of(#[trigger] shorter[i]),
            ) by {
                assert(shorter[i] == message[i]);
            }
        }
        lemma_full_width_concatenates(font, shorter);
        let rows = Seq::new(height, |r: int| font.concatenated_row(shorter, r));
        let c = message.last();
        assert(c == message[message.len() - 1]);
        let glyph = font.chars[code_of(c)];
        let hardblank = font.font_head.hardblank;
        assert(font.rules.overlay(hardblank, rows, glyph) == 0);
        assert forall|r: int| 0 <= r < rows.len() implies (#[trigger] font.rules.merge_row(
            hardblank,
            rows[r],
            glyph[r],
            0,
        )) == Some(banner[r]) by {
            let merged = rows[r].take(rows[r].len() - 0) + Seq::new(
                0,
                |k: int| font.rules.merged_column(hardblank, rows[r], glyph[r], 0, k)->0,
            ) + glyph[r].skip(0);
            assert(merged =~= banner[r]);
        }
        let next = font.rules.append_glyph(hardblank, rows, glyph);
        assert(next is Some);
        assert(next->0 =~= banner);
        assert forall|r: int| 0 <= r < height implies (#[trigger] font.concatenated_row(
            message,
            r,
        )).len() == font.glyph_widths(message, r) by {
            assert(font.concatenated_row(shorter, r).len() == font.glyph_widths(shorter, r));
        }
    }
}

/// The spaces at the end of a row are spaces, and what stands before them is
/// none.
pub proof fn lemma_trailing_spaces(row: Seq<char>)
    ensures
        trailing_spaces(row) <= row.len(),
        forall|i: int| row.len() - trailing_spaces(row) <= i < row.len() ==> row[i] == ' ',
        trailing_spaces(row) < row.len() ==> row[row.len() - 1 - trailing_spaces(row)] != ' ',
    decreases row.len(),
{
    if row.len() > 0 && row.last() == ' ' {
        let shorter = row.drop_last();
        lemma_trailing_spaces(shorter);
        assert forall|i: int| row.len() - trailing_spaces(row) <= i < row.len() implies row[i]
            == ' ' by {
            if i < shorter.len() {
                assert(row[i] == shorter[i]);
            }
        }
        if trailing_spaces(row) < row.len() {
            assert(row[row.len() - 1 - trailing_spaces(row)] == shorter[shorter.len() - 1
                - trailing_spaces(shorter)]);
        }
    }
}

/// The spaces at the start of a row are spaces, and what stands after them
/// is none.
pub proof fn lemma_leading_spaces(row: Seq<char>)
    ensures
        leading_spaces(row) <= row.len(),
        forall|i: int| 0 <= i < leading_spaces(row) ==> row[i] == ' ',
        leading_spaces(row) < row.len() ==> row[leading_spaces(row) as int] != ' ',
    decreases row.len(),
{
    if row.len() > 0 && row[0] == ' ' {
        let shorter = row.drop_first();
        lemma_leading_spaces(shorter);
        assert forall|i: int| 0 <= i < leading_spaces(row) implies row[i] == ' ' by {
            if i > 0 {
                assert(row[i] == shorter[i - 1]);
            }
        }
        if leading_spaces(row) < row.len() {
            assert(row[leading_spaces(row) as int] == shorter[leading_spaces(shorter) as int]);
        }
    }
}

/// Within the overlay that a row allows, every pair of overlapping
/// sub-characters can be merged: laying a glyph row over a row fails only
/// where one of the two is narrower than the overlap.
pub proof fn lemma_merge_row_within_overlay(
    rules: RulesView,
    hardblank: char,
    row: Seq<char>,
    next: Seq<char>,
    overlay: nat,
)
    requires
        rules.consistent(),
        overlay <= rules.row_overlay(hardblank, row, next),
        overlay <= row.len(),
        overlay <= next.len(),
    ensures
        rules.merge_row(hardblank, row, next, overlay) is Some,
{
    lemma_trailing_spaces(row);
    lemma_leading_spaces(next);
    let empty_a = trailing_spaces(row);
    let empty_b = leading_spaces(next);
    assert forall|k: int| 0 <= k < overlay implies (#[trigger] rules.merged_column(
        hardblank,
        row,
        next,
        overlay,
        k,
    )) is Some by {
        let a = row[row.len() - overlay + k];
        let b = next[k];
        if a != ' ' && b != ' ' {
            assert(k >= empty_b);
            assert(row.len() - overlay + k < row.len() - empty_a);
            assert(k == empty_b);
            assert(overlay == empty_a + empty_b + 1);
            assert(rules.joins(a, b, hardblank));
            lemma_first_applicable(rules.horizontal_rules, a, b, hardblank);
        }
    }
}

/// The overlay of a glyph is at most what each row allows.
pub proof fn lemma_least_overlay(
    rules: RulesView,
    hardblank: char,
    rows: Seq<Seq<char>>,
    glyph: Seq<Seq<char>>,
    n: nat,
)
    ensures
        rules.least_overlay(hardblank, rows, glyph, n) <= rows[0].len(),
        forall|r: int|
            0 <= r < n ==> rules.least_overlay(hardblank, rows, glyph, n) <= rules.row_overlay(
                hardblank,
                #[trigger] rows[r],
                glyph[r],
            ),
    decreases n,
{
    if n > 0 {
        lemma_least_overlay(rules, hardblank, rows, glyph, (n - 1) as nat);
    }
}

/// Appending a glyph fails exactly where its overlay is wider than one of the
/// rows it joins: within the rows, a rule is found for every pair.
pub proof fn lemma_append_glyph(
    rules: RulesView,
    hardblank: char,
    rows: Seq<Seq<char>>,
    glyph: Seq<Seq<char>>,
)
    requires
        rules.consistent(),
    ensures
        rules.append_glyph(hardblank, rows, glyph) is Some <==> forall|r: int|
            0 <= r < rows.len() ==> rules.overlay(hardblank, rows, glyph) <= (
            #[trigger] rows[r]).len() && rules.overlay(hardblank, rows, glyph) <= glyph[r].len(),
{
    let overlay = rules.overlay(hardblank, rows, glyph);
    lemma_least_overlay(rules, hardblank, rows, glyph, rows.len());
    if rules.append_glyph(hardblank, rows, glyph) is Some {
        assert forall|r: int| 0 <= r < rows.len() implies overlay <= (#[trigger] rows[r]).len()
            && overlay <= glyph[r].len() by {
            assert(rules.merge_row(hardblank, rows[r], glyph[r], overlay) is Some);
        }
    }
    if forall|r: int|
        0 <= r < rows.len() ==> overlay <= (#[trigger] rows[r]).len() && overlay
            <= glyph[r].len() {
        assert forall|r: int| 0 <= r < rows.len() implies (#[trigger] rules.merge_row(
            hardblank,
            rows[r],
            glyph[r],
            overlay,
        )) is Some by {
            assert(overlay <= rows[r].len() && overlay <= glyph[r].len());
            lemma_merge_row_within_overlay(rules, hardblank, rows[r], glyph[r], overlay);
        }
    }
}

/// Once a prefix of a message fails, the message fails with the same error.
pub proof fn lemma_render_error_stays(font: FontView, message: Seq<char>, k: int)
    requires
        0 <= k <= message.len(),
        font.render(message.take(k)) is Err,
    ensures
        font.render(message) == font.render(message.take(k)),
    decreases message.len(),
{
    if k == message.len() {
        assert(message.take(k) =~= message);
    } else {
        assert(message.drop_last().take(k) =~= message.take(k));
        lemma_render_error_stays(font, message.drop_last(), k);
    }
}

/// Counts the spaces at the end of `row`.
pub fn count_trailing_spaces(row: &Vec<char>) -> (res: usize)
    ensures
        res == trailing_spaces(row@),
        res <= row.len(),
{
    let n = row.len();
    let mut k: usize = 0;
    assert(row@.take(n as int) =~= row@);
    while k < n && row[n - 1 - k] == ' '
        invariant
            k <= n,
            n == row.len(),
            trailing_spaces(row@) == k + trailing_spaces(row@.take(n - k)),
        decreases n - k,
    {
        assert(row@.take(n - k).drop_last() =~= row@.take(n - k - 1));
        k += 1;
    }
    k
}

/// Counts the spaces at the start of `row`.
pub fn count_leading_spaces(row: &Vec<char>) -> (res: usize)
    ensures
        res == leading_spaces(row@),
        res <= row.len(),
{
    let n = row.len();
    let mut k: usize = 0;
    assert(row@.skip(0) =~= row@);
    while k < n && row[k] == ' '
        invariant
            k <= n,
            n == row.len(),
            leading_spaces(row@) == k + leading_spaces(row@.skip(k as int)),
        decreases n - k,
    {
        assert(row@.skip(k as int).drop_first() =~= row@.skip(k + 1));
        k += 1;
    }
    k
}

impl Font {
    /// The overlay that one row allows, or `cap` where that is less.
    fn row_overlay_up_to(&self, row: &Vec<char>, next: &Vec<char>, cap: usize) -> (res: usize)
        ensures
            res == (if self.rules@.row_overlay(self.font_head.hardblank, row@, next@) < cap {
                self.rules@.row_overlay(self.font_head.hardblank, row@, next@)
            } else {
                cap as nat
            }),
    {
        let emptys1 = count_trailing_spaces(row);
        if emptys1 >= cap {
            return cap;
        }
        let emptys2 = count_leading_spaces(next);
        if emptys2 >= cap - emptys1 {
            return cap;
        }
        let overlay = emptys1 + emptys2;
        if emptys1 < row.len() && emptys2 < next.len() {
            let char1 = row[row.len() - 1 - emptys1];
            let char2 = next[emptys2];
            let hardblank = self.font_head.hardblank;
            if (self.rules.horizontal_layout == LayoutMode::UniversalSmush
                && SmushingRule::HorizontalSmushing.smush(char1, char2, hardblank).is_some())
                || self.rules.smushes_horizontal(char1, char2, hardblank) {
                return overlay + 1;
            }
        }
        overlay
    }

    /// By how many columns the glyph `figchar` overlaps the rows `chars`.
    pub fn calc_overlay(&self, chars: &[Vec<char>], figchar: &[Vec<char>]) -> (res: usize)
        requires
            chars.len() == figchar.len(),
            self.rules.horizontal_layout != LayoutMode::FullWidth ==> chars.len() > 0,
        ensures
            res == self.rules@.overlay(self.font_head.hardblank, grid(chars@), grid(figchar@)),
    {
        if self.rules.horizontal_layout == LayoutMode::FullWidth {
            return 0;
        }
        let mut max_overlay: usize = chars[0].len();
        let mut r: usize = 0;
        while r < chars.len()
            invariant
                r <= chars.len(),
                chars.len() == figchar.len(),
                chars.len() > 0,
                max_overlay == self.rules@.least_overlay(
                    self.font_head.hardblank,
                    grid(chars@),
                    grid(figchar@),
                    r as nat,
                ),
            decreases chars.len() - r,
        {
            max_overlay = self.row_overlay_up_to(&chars[r], &figchar[r], max_overlay);
            r += 1;
        }
        max_overlay
    }

    /// Lays the glyph row `next` over the last `overlay` columns of `row`.
    pub fn merge_row(&self, row: &Vec<char>, next: &Vec<char>, overlay: usize) -> (res: Option<
        Vec<char>,
    >)
        ensures
            match self.rules@.merge_row(self.font_head.hardblank, row@, next@, overlay as nat) {
                Some(merged) => res is Some && res->0@ == merged,
                None => res is None,
            },
    {
        if overlay > row.len() || overlay > next.len() {
            return None;
        }
        let ghost rules = self.rules@;
        let hardblank = self.font_head.hardblank;
        let keep = row.len() - overlay;
        let mut out: Vec<char> = Vec::new();
        let mut i: usize = 0;
        while i < keep
            invariant
                i <= keep <= row.len(),
                out@ == row@.take(i as int),
            decreases keep - i,
        {
            out.push(row[i]);
            assert(row@.take(i + 1) =~= row@.take(i as int).push(row@[i as int]));
            i += 1;
        }
        let mut k: usize = 0;
        while k < overlay
            invariant
                k <= overlay,
                keep == row.len() - overlay,
                overlay <= next.len(),
                rules == self.rules@,
                hardblank == self.font_head.hardblank,
                out@.len() == keep + k,
                out@.take(keep as int) == row@.take(keep as int),
                forall|j: int|
                    0 <= j < k ==> (#[trigger] rules.merged_column(
                        hardblank,
                        row@,
                        next@,
                        overlay as nat,
                        j,
                    )) == Some(out@[keep + j]),
            decreases overlay - k,
        {
            match self.rules.smush_horizontal(row[keep + k], next[k], hardblank) {
                Some(c) => {
                    let ghost before = out@;
                    out.push(c);
                    assert(out@.take(keep as int) =~= before.take(keep as int));
                },
                None => {
                    assert(rules.merged_column(hardblank, row@, next@, overlay as nat, k as int)
                        is None);
                    return None;
                },
            }
            k += 1;
        }
        let ghost merged = out@;
        let mut j: usize = overlay;
        while j < next.len()
            invariant
                overlay <= j <= next.len(),
                out@ == merged + next@.subrange(overlay as int, j as int),
            decreases next.len() - j,
        {
            out.push(next[j]);
            assert(next@.subrange(overlay as int, j + 1) =~= next@.subrange(
                overlay as int,
                j as int,
            ).push(next@[j as int]));
            j += 1;
        }
        assert(out@ =~= rules.merge_row(hardblank, row@, next@, overlay as nat)->0);
        Some(out)
    }

    /// Appends the glyph `figchar` to the rows `chars`, which stay as they
    /// were where the glyph cannot be merged.
    pub fn add_char(&self, chars: &mut Vec<Vec<char>>, figchar: &[Vec<char>]) -> (res: Result<
        (),
        RenderError,
    >)
        requires
            old(chars).len() == figchar.len(),
            self.rules.horizontal_layout != LayoutMode::FullWidth ==> old(chars).len() > 0,
        ensures
            match self.rules@.append_glyph(
                self.font_head.hardblank,
                grid(old(chars)@),
                grid(figchar@),
            ) {
                Some(rows) => res is Ok && grid(final(chars)@) == rows,
                None => res == Err::<(), RenderError>(RenderError::Composition) && final(chars)@
                    == old(chars)@,
            },
    {
        let overlay = self.calc_overlay(chars.as_slice(), figchar);
        let ghost rules = self.rules@;
        let ghost hardblank = self.font_head.hardblank;
        let ghost rows = grid(chars@);
        let ghost glyph = grid(figchar@);
        let mut merged: Vec<Vec<char>> = Vec::new();
        let mut r: usize = 0;
        while r < chars.len()
            invariant
                r <= chars.len(),
                chars.len() == figchar.len(),
                chars@ == old(chars)@,
                rules == self.rules@,
                hardblank == self.font_head.hardblank,
                rows == grid(chars@),
                glyph == grid(figchar@),
                overlay == rules.overlay(hardblank, rows, glyph),
                merged@.len() == r,
                forall|j: int|
                    0 <= j < r ==> (#[trigger] rules.merge_row(
                        hardblank,
                        rows[j],
                        glyph[j],
                        overlay as nat,
                    )) == Some(merged@[j]@),
            decreases chars.len() - r,
        {
            match self.merge_row(&chars[r], &figchar[r], overlay) {
                Some(row) => {
                    merged.push(row);
                },
                None => {
                    assert(rules.merge_row(hardblank, rows[r as int], glyph[r as int], overlay as nat)
                        is None);
                    return Err(RenderError::Composition);
                },
            }
            r += 1;
        }
        assert(grid(merged@) =~= rules.append_glyph(hardblank, rows, glyph)->0);
        *chars = merged;
        Ok(())
    }

    /// Renders `message` as the rows of a banner.
    pub fn render_rows(&self, message: &str) -> (res: Result<Vec<Vec<char>>, RenderError>)
        requires
            self.wf(),
        ensures
            match self@.render(message@) {
                Ok(rows) => res is Ok && grid(res->Ok_0@) == rows,
                Err(error) => res is Err && res->Err_0 == error,
            },
    {
        broadcast use group_hash_axioms;

        let text = chars_of(message);
        let height = self.font_head.height;
        let mut result: Vec<Vec<char>> = Vec::new();
        let mut r: usize = 0;
        while r < height
            invariant
                r <= height,
                result@.len() == r,
                forall|j: int| 0 <= j < r ==> (#[trigger] result@[j])@ == Seq::<char>::empty(),
            decreases height - r,
        {
            result.push(Vec::new());
            r += 1;
        }
        assert(text@.take(0) =~= Seq::<char>::empty());
        assert(grid(result@) =~= Seq::new(height as nat, |r: int| Seq::<char>::empty()));
        let mut i: usize = 0;
        while i < text.len()
            invariant
                i <= text.len(),
                text@ == message@,
                self.wf(),
                height == self.font_head.height,
                result@.len() == height,
                self@.render(text@.take(i as int)) == Ok::<Seq<Seq<char>>, RenderError>(
                    grid(result@),
                ),
            decreases text.len() - i,
        {
            let c = text[i];
            let code: u16 = (c as u32 % 0x10000) as u16;
            assert(code == code_of(c));
            let ghost upto = text@.take(i + 1);
            assert(upto.drop_last() =~= text@.take(i as int));
            assert(upto.last() == c);
            match self.chars.get(&code) {
                None => {
                    proof {
                        assert(!self@.chars.contains_key(code));
                        assert(self@.render(upto) == Err::<Seq<Seq<char>>, RenderError>(
                            RenderError::GlyphLookup(c),
                        ));
                        lemma_render_error_stays(self@, text@, i + 1);
                    }
                    return Err(RenderError::GlyphLookup(c));
                },
                Some(figchar) => {
                    assert(self@.chars.contains_key(code));
                    assert(self@.chars[code] == grid(figchar@));
                    assert(grid(figchar@).len() == figchar@.len());
                    match self.add_char(&mut result, figchar.as_slice()) {
                        Ok(()) => {
                            assert(grid(result@).len() == result@.len());
                        },
                        Err(error) => {
                            proof {
                                assert(self@.render(upto) == Err::<Seq<Seq<char>>, RenderError>(
                                    RenderError::Composition,
                                ));
                                lemma_render_error_stays(self@, text@, i + 1);
                            }
                            return Err(error);
                        },
                    }
                },
            }
            i += 1;
        }
        assert(text@.take(i as int) =~= text@);
        Ok(result)
    }

    /// Renders `message` as a banner: the rows joined by line feeds.
    pub fn convert(&self, message: &str) -> (res: Result<String, RenderError>)
        requires
            self.wf(),
        ensures
            match self@.render(message@) {
                Ok(rows) => res is Ok && res->Ok_0@ == join_lines(rows),
                Err(error) => res is Err && res->Err_0 == error,
            },
    {
        match self.render_rows(message) {
            Ok(rows) => {
                let text = join_rows(&rows, 0, rows.len());
                assert(grid(rows@).subrange(0, rows.len() as int) =~= grid(rows@));
                Ok(string_of(&text))
            },
            Err(error) => Err(error),
        }
    }
}

} // verus!
