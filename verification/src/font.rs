//! Fonts: the header line, the glyph table, and the decoding of the layout.

use crate::layout::{LayoutMode, LayoutType, SmushingRule};
use crate::rules::{
    decides_horizontal, decode, lemma_decode_consistent, lemma_decode_ordered, priority_order,
    remaining, remove_rule, rules_by_priority, selected, Rules, RulesView,
};
use crate::text::{
    chars_of, decimal_digits, grid, is_ascii_space, is_word, isize_numeral, join_lines, join_rows,
    join_words, lemma_decimal_digits, lemma_signed_digits, lemma_tokens_of_joined_words, lines,
    parse_isize, parse_usize, signed_digits, split_lines, split_tokens, string_of, tokens,
    usize_numeral,
};
use std::collections::HashMap;
use vstd::arithmetic::div_mod::lemma_fundamental_div_mod_converse;
use vstd::prelude::*;
use vstd::std_specs::hash::group_hash_axioms;
use vstd::std_specs::iter::IteratorSpec;

verus! {

/// Why a font could not be read.
#[derive(Clone, Copy, Debug, PartialEq, Eq, Structural)]
pub enum ParseError {
    /// The header line is missing, or one of its mandatory fields is missing
    /// or is no number.
    Header,
    /// The header gives glyphs a height of zero.
    Height,
    /// The layout fields of the header settle no horizontal mode.
    Layout,
}

/// The header of a font file.
#[derive(Clone, Copy, Debug, PartialEq, Eq, Structural)]
pub struct FontOpts {
    pub hardblank: char,
    pub height: usize,
    pub baseline: usize,
    pub max_length: usize,
    pub old_layout: isize,
    pub comment_lines: usize,
    pub print_direction: usize,
    pub full_layout: Option<isize>,
    pub codetag_count: Option<usize>,
}

/// The header that `line` writes, or why it writes none.
///
/// The line is cut into whitespace-separated tokens. The last character of
/// the first token is the hardblank. Height, baseline, maximal length, old
/// layout and the number of comment lines follow and must be numbers. The
/// print direction is `0` where the line ends before it, and must be a number
/// where it is there. Full layout and codetag count are absent where the line
/// ends before them or where they are no numbers. A line whose fields can be
/// read but whose height is zero writes no header either.
pub open spec fn header_of(line: Seq<char>) -> Result<FontOpts, ParseError> {
    let t = tokens(line);
    if t.len() < 6 {
        Err(ParseError::Header)
    } else {
        match (
            usize_numeral(t[1]),
            usize_numeral(t[2]),
            usize_numeral(t[3]),
            isize_numeral(t[4]),
            usize_numeral(t[5]),
            if t.len() > 6 {
                usize_numeral(t[6])
            } else {
                Some(0usize)
            },
        ) {
            (
                Some(height),
                Some(baseline),
                Some(max_length),
                Some(old_layout),
                Some(comment_lines),
                Some(print_direction),
            ) => if height == 0 {
                Err(ParseError::Height)
            } else {
                Ok(
                    FontOpts {
                        hardblank: t[0].last(),
                        height,
                        baseline,
                        max_length,
                        old_layout,
                        comment_lines,
                        print_direction,
                        full_layout: if t.len() > 7 {
                            isize_numeral(t[7])
                        } else {
                            None
                        },
                        codetag_count: if t.len() > 8 {
                            usize_numeral(t[8])
                        } else {
                            None
                        },
                    },
                )
            },
            _ => Err(ParseError::Header),
        }
    }
}

/// The words of a header line that writes `header` after `signature`: the
/// signature with the hardblank, and the numerals of the five mandatory
/// fields.
pub open spec fn mandatory_words(signature: Seq<char>, header: FontOpts) -> Seq<Seq<char>> {
    seq![
        signature.push(header.hardblank),
        decimal_digits(header.height as nat),
        decimal_digits(header.baseline as nat),
        decimal_digits(header.max_length as nat),
        signed_digits(header.old_layout as int),
        decimal_digits(header.comment_lines as nat),
    ]
}

/// The words of a header line that writes every field of `header` that it
/// can: the mandatory ones, the print direction, the full layout where there
/// is one, and after it the codetag count where there is one.
pub open spec fn header_words(signature: Seq<char>, header: FontOpts) -> Seq<Seq<char>> {
    let fixed = mandatory_words(signature, header).push(
        decimal_digits(header.print_direction as nat),
    );
    match header.full_layout {
        None => fixed,
        Some(full_layout) => {
            let with_layout = fixed.push(signed_digits(full_layout as int));
            match header.codetag_count {
                None => with_layout,
                Some(codetag_count) => with_layout.push(decimal_digits(codetag_count as nat)),
            }
        },
    }
}

/// Whether `header` can be written after `signature` as a header line: its
/// height is above zero, and neither the signature nor the hardblank holds
/// whitespace.
pub open spec fn writable(signature: Seq<char>, header: FontOpts) -> bool {
    &&& header.height > 0
    &&& !is_ascii_space(header.hardblank)
    &&& forall|k: int| 0 <= k < signature.len() ==> !is_ascii_space(#[trigger] signature[k])
}

/// A header line that writes only the mandatory fields is read back with
/// those fields as they were, a print direction of `0`, and neither a full
/// layout nor a codetag count.
pub proof fn lemma_mandatory_header_roundtrip(signature: Seq<char>, header: FontOpts)
    requires
        writable(signature, header),
    ensures
        header_of(join_words(mandatory_words(signature, header))) == Ok::<FontOpts, ParseError>(
            FontOpts { print_direction: 0, full_layout: None, codetag_count: None, ..header },
        ),
{
    let words = mandatory_words(signature, header);
    lemma_header_words(signature, header);
    assert forall|i: int| 0 <= i < words.len() implies is_word(#[trigger] words[i]) by {
        assert(words[i] == header_words(signature, header)[i]);
    }
    lemma_tokens_of_joined_words(words);
}

/// A header line that writes every field of a header is read back as that
/// header. A codetag count can only be written after a full layout.
pub proof fn lemma_header_roundtrip(signature: Seq<char>, header: FontOpts)
    requires
        writable(signature, header),
        header.codetag_count is Some ==> header.full_layout is Some,
    ensures
        header_of(join_words(header_words(signature, header))) == Ok::<FontOpts, ParseError>(
            header,
        ),
{
    lemma_header_words(signature, header);
    lemma_tokens_of_joined_words(header_words(signature, header));
}

/// Every word of a written header is a word, and each numeral is read back
/// as its field.
proof fn lemma_header_words(signature: Seq<char>, header: FontOpts)
    requires
        writable(signature, header),
    ensures
        forall|i: int|
            0 <= i < header_words(signature, header).len() ==> is_word(
                #[trigger] header_words(signature, header)[i],
            ),
        header_words(signature, header)[0].last() == header.hardblank,
        usize_numeral(decimal_digits(header.height as nat)) == Some(header.height),
        usize_numeral(decimal_digits(header.baseline as nat)) == Some(header.baseline),
        usize_numeral(decimal_digits(header.max_length as nat)) == Some(header.max_length),
        isize_numeral(signed_digits(header.old_layout as int)) == Some(header.old_layout),
        usize_numeral(decimal_digits(header.comment_lines as nat)) == Some(header.comment_lines),
        usize_numeral(decimal_digits(header.print_direction as nat)) == Some(
            header.print_direction,
        ),
        header.full_layout is Some ==> isize_numeral(
            signed_digits(header.full_layout->0 as int),
        ) == header.full_layout,
        header.codetag_count is Some ==> usize_numeral(
            decimal_digits(header.codetag_count->0 as nat),
        ) == header.codetag_count,
{
    let first = signature.push(header.hardblank);
    assert(is_word(first)) by {
        assert forall|k: int| 0 <= k < first.len() implies !is_ascii_space(
            #[trigger] first[k],
        ) by {
            if k < signature.len() {
                assert(first[k] == signature[k]);
            }
        }
    }
    lemma_decimal_digits(header.height as nat);
    lemma_decimal_digits(header.baseline as nat);
    lemma_decimal_digits(header.max_length as nat);
    lemma_signed_digits(header.old_layout as int);
    lemma_decimal_digits(header.comment_lines as nat);
    lemma_decimal_digits(header.print_direction as nat);
    if header.full_layout is Some {
        lemma_signed_digits(header.full_layout->0 as int);
    }
    if header.codetag_count is Some {
        lemma_decimal_digits(header.codetag_count->0 as nat);
    }
}

/// The header with the null character as hardblank and every number zero or
/// absent. With a height of zero it is not valid, and no line writes it.
pub open spec fn blank_header() -> FontOpts {
    FontOpts {
        hardblank: '\0',
        height: 0,
        baseline: 0,
        max_length: 0,
        old_layout: 0,
        comment_lines: 0,
        print_direction: 0,
        full_layout: None,
        codetag_count: None,
    }
}

impl Default for FontOpts {
    /// The blank header.
    fn default() -> (res: FontOpts)
        ensures
            res == blank_header(),
    {
        FontOpts {
            hardblank: '\0',
            height: 0,
            baseline: 0,
            max_length: 0,
            old_layout: 0,
            comment_lines: 0,
            print_direction: 0,
            full_layout: None,
            codetag_count: None,
        }
    }
}

impl FontOpts {
    /// Whether glyphs have at least one row.
    pub open spec fn valid(self) -> bool {
        self.height > 0
    }

    /// Reads the header line of a font file.
    pub fn parse(line: &str) -> (res: Result<FontOpts, ParseError>)
        ensures
            res == header_of(line@),
            res is Ok ==> res->Ok_0.valid(),
    {
        let chars = chars_of(line);
        FontOpts::parse_chars(&chars)
    }

    /// Reads the header line of a font file from its characters.
    pub fn parse_chars(line: &Vec<char>) -> (res: Result<FontOpts, ParseError>)
        ensures
            res == header_of(line@),
            res is Ok ==> res->Ok_0.valid(),
    {
        let toks = split_tokens(line);
        let n = toks.len();
        assert(grid(toks@).len() == n);
        assert(forall|i: int| 0 <= i < n ==> tokens(line@)[i] == toks@[i]@);
        if n < 6 {
            return Err(ParseError::Header);
        }
        let signature = &toks[0];
        proof {
            crate::text::lemma_tokens_nonempty(line@);
        }
        let hardblank = signature[signature.len() - 1];
        let height = match parse_usize(&toks[1]) {
            Some(v) => v,
            None => { return Err(ParseError::Header); },
        };
        let baseline = match parse_usize(&toks[2]) {
            Some(v) => v,
            None => { return Err(ParseError::Header); },
        };
        let max_length = match parse_usize(&toks[3]) {
            Some(v) => v,
            None => { return Err(ParseError::Header); },
        };
        let old_layout = match parse_isize(&toks[4]) {
            Some(v) => v,
            None => { return Err(ParseError::Header); },
        };
        let comment_lines = match parse_usize(&toks[5]) {
            Some(v) => v,
            None => { return Err(ParseError::Header); },
        };
        let print_direction = if n > 6 {
            match parse_usize(&toks[6]) {
                Some(v) => v,
                None => { return Err(ParseError::Header); },
            }
        } else {
            0
        };
        let full_layout = if n > 7 {
            parse_isize(&toks[7])
        } else {
            None
        };
        let codetag_count = if n > 8 {
            parse_usize(&toks[8])
        } else {
            None
        };
        if height == 0 {
            return Err(ParseError::Height);
        }
        Ok(
            FontOpts {
                hardblank,
                height,
                baseline,
                max_length,
                old_layout,
                comment_lines,
                print_direction,
                full_layout,
                codetag_count,
            },
        )
    }
}

/// The rules that the decomposition of `code` selects, first the horizontal
/// and then the vertical ones, each list from the highest value down.
pub fn decompose(code: isize) -> (res: (Vec<SmushingRule>, Vec<SmushingRule>))
    ensures
        res.0@ == selected(code as int, priority_order(), LayoutType::Horizontal),
        res.1@ == selected(code as int, priority_order(), LayoutType::Vertical),
{
    let mut horizontal_rules: Vec<SmushingRule> = Vec::new();
    let mut vertical_rules: Vec<SmushingRule> = Vec::new();
    let mut ly: isize = code;
    let table = rules_by_priority();
    let mut i: usize = 0;
    assert(table@.take(0) =~= Seq::<SmushingRule>::empty());
    while i < table.len()
        invariant
            i <= table.len(),
            ly == remaining(code as int, table@.take(i as int)),
            horizontal_rules@ == selected(
                code as int,
                table@.take(i as int),
                LayoutType::Horizontal,
            ),
            vertical_rules@ == selected(code as int, table@.take(i as int), LayoutType::Vertical),
        decreases table.len() - i,
    {
        let rule = table[i];
        assert(table@.take(i + 1).drop_last() =~= table@.take(i as int));
        assert(table@.take(i + 1).last() == rule);
        let value = rule.code();
        if ly >= value {
            ly -= value;
            match rule.get_type() {
                LayoutType::Horizontal => {
                    horizontal_rules.push(rule);
                },
                LayoutType::Vertical => {
                    vertical_rules.push(rule);
                },
            }
        }
        i += 1;
    }
    assert(table@.take(i as int) =~= table@);
    (horizontal_rules, vertical_rules)
}

/// Whether the layout fields of a header settle the horizontal mode.
pub fn layout_is_decided(full_layout: Option<isize>, old_layout: isize) -> (res: bool)
    ensures
        res == decides_horizontal(full_layout, old_layout),
{
    let code = match full_layout {
        Some(code) => code,
        None => old_layout,
    };
    let (horizontal_rules, _) = decompose(code);
    horizontal_rules.len() > 0 || old_layout == 0 || old_layout == -1
}

/// A glyph row as the font file writes it, without the end-mark at its end:
/// the last character of the row, and the one before it where the two are the
/// same. What the row holds before them stays, and an empty row stays empty.
pub open spec fn strip_end_mark(row: Seq<char>) -> Seq<char> {
    if row.len() >= 2 && row[row.len() - 2] == row.last() {
        row.take(row.len() - 2)
    } else if row.len() >= 1 {
        row.take(row.len() - 1)
    } else {
        row
    }
}

/// The number of character codes that a font file gives glyphs to.
pub const GLYPH_CODES: usize = 101;

/// The character codes that a font file gives glyphs to, in the order of its
/// glyphs: 32 to 125, then seven Latin-1 letters.
pub open spec fn glyph_codes() -> Seq<u16> {
    Seq::new(94, |i: int| (32 + i) as u16) + seq![
        196u16,
        214u16,
        220u16,
        228u16,
        246u16,
        252u16,
        223u16,
    ]
}

/// The glyph number `k` of a font whose glyph rows are `rows`: `height`
/// consecutive rows, each without its end-mark.
pub open spec fn glyph_at(rows: Seq<Seq<char>>, height: nat, k: nat) -> Seq<Seq<char>> {
    Seq::new(height, |r: int| strip_end_mark(rows[k * height + r]))
}

/// How many glyphs `n` rows hold: one for each `height` rows, up to the
/// number of character codes.
pub open spec fn glyph_count(n: nat, height: nat) -> nat {
    if n / height < glyph_codes().len() {
        n / height
    } else {
        glyph_codes().len()
    }
}

/// The first `count` glyphs of `rows`, each under its character code.
pub open spec fn glyph_table(rows: Seq<Seq<char>>, height: nat, count: nat) -> Map<
    u16,
    Seq<Seq<char>>,
>
    decreases count,
{
    if count == 0 {
        Map::empty()
    } else {
        glyph_table(rows, height, (count - 1) as nat).insert(
            glyph_codes()[count - 1],
            glyph_at(rows, height, (count - 1) as nat),
        )
    }
}

/// The character codes are all different.
pub proof fn lemma_glyph_codes_differ()
    ensures
        glyph_codes().len() == GLYPH_CODES,
        forall|i: int, j: int|
            0 <= i < j < GLYPH_CODES ==> (#[trigger] glyph_codes()[i]) != (
            #[trigger] glyph_codes()[j]),
{
    assert forall|i: int, j: int| 0 <= i < j < GLYPH_CODES implies (#[trigger] glyph_codes()[i])
        != (#[trigger] glyph_codes()[j]) by {
        if i < 94 {
            assert(glyph_codes()[i] == 32 + i);
        } else {
            assert(glyph_codes()[i] > 125);
        }
        if j < 94 {
            assert(glyph_codes()[j] == 32 + j);
        } else {
            assert(glyph_codes()[j] > 125);
        }
    }
}

/// A glyph table holds exactly the codes of its glyphs, and under the code
/// number `k` the glyph number `k`.
pub proof fn lemma_glyph_table(rows: Seq<Seq<char>>, height: nat, count: nat)
    requires
        count <= glyph_codes().len(),
    ensures
        forall|k: int|
            0 <= k < count ==> glyph_table(rows, height, count).contains_key(
                #[trigger] glyph_codes()[k],
            ) && glyph_table(rows, height, count)[glyph_codes()[k]] == glyph_at(
                rows,
                height,
                k as nat,
            ),
        forall|code: u16| #[trigger]
            glyph_table(rows, height, count).contains_key(code) ==> exists|k: int|
                0 <= k < count && glyph_codes()[k] == code,
    decreases count,
{
    if count > 0 {
        let fewer = (count - 1) as nat;
        lemma_glyph_table(rows, height, fewer);
        lemma_glyph_codes_differ();
        let table = glyph_table(rows, height, count);
        assert forall|code: u16| #[trigger] table.contains_key(code) implies exists|k: int|
            0 <= k < count && glyph_codes()[k] == code by {
            if code == glyph_codes()[count - 1] {
            } else {
                assert(glyph_table(rows, height, fewer).contains_key(code));
                let k = choose|k: int| 0 <= k < fewer && glyph_codes()[k] == code;
                assert(0 <= k < count && glyph_codes()[k] == code);
            }
        }
    }
}

/// The mathematical value of a [`Font`].
pub struct FontView {
    pub name: Seq<char>,
    pub font_head: FontOpts,
    pub meta_data: Seq<char>,
    pub chars: Map<u16, Seq<Seq<char>>>,
    pub rules: RulesView,
}

/// The font that the text `data` of a font file describes.
///
/// The first line is the header. The comment is made of as many of the next
/// lines as the header counts, joined by line feeds. The lines after them are
/// glyph rows.
pub open spec fn font_of(name: Seq<char>, data: Seq<char>) -> Result<FontView, ParseError> {
    let all = lines(data);
    if all.len() == 0 {
        Err(ParseError::Header)
    } else {
        match header_of(all[0]) {
            Err(error) => Err(error),
            Ok(header) => {
                let first_row = if header.comment_lines < all.len() - 1 {
                    1 + header.comment_lines
                } else {
                    all.len() as int
                };
                let rows = all.skip(first_row);
                if !decides_horizontal(header.full_layout, header.old_layout) {
                    Err(ParseError::Layout)
                } else {
                    Ok(
                        FontView {
                            name,
                            font_head: header,
                            meta_data: join_lines(all.subrange(1, first_row)),
                            chars: glyph_table(
                                rows,
                                header.height as nat,
                                glyph_count(rows.len(), header.height as nat),
                            ),
                            rules: decode(header.full_layout, header.old_layout),
                        },
                    )
                }
            },
        }
    }
}

/// Copies `row` without its end-mark.
pub fn strip_row(row: &Vec<char>) -> (res: Vec<char>)
    ensures
        res@ == strip_end_mark(row@),
{
    let n = row.len();
    let keep = if n >= 2 && row[n - 2] == row[n - 1] {
        n - 2
    } else if n >= 1 {
        n - 1
    } else {
        0
    };
    let mut out: Vec<char> = Vec::new();
    let mut i: usize = 0;
    while i < keep
        invariant
            i <= keep <= row.len(),
            out@ == row@.take(i as int),
        decreases keep - i,
    {
        out.push(row[i]);
        assert(row@.take(i + 1) =~= row@.take(i as int).push(row@[i as int]));
        i += 1;
    }
    assert(n == 0 ==> row@.take(0) =~= row@);
    out
}

/// The character code of the glyph number `k` of a font file.
pub fn glyph_code_at(k: usize) -> (res: u16)
    requires
        k < glyph_codes().len(),
    ensures
        res == glyph_codes()[k as int],
{
    if k < 94 {
        (32 + k) as u16
    } else if k == 94 {
        196
    } else if k == 95 {
        214
    } else if k == 96 {
        220
    } else if k == 97 {
        228
    } else if k == 98 {
        246
    } else if k == 99 {
        252
    } else {
        223
    }
}

/// A font: its header, its comment, its glyphs by character code, and the
/// layout that its header stands for.
#[derive(Debug)]
pub struct Font {
    pub name: String,
    pub font_head: FontOpts,
    pub meta_data: String,
    pub chars: HashMap<u16, Vec<Vec<char>>>,
    pub rules: Rules,
}

impl View for Font {
    type V = FontView;

    open spec fn view(&self) -> FontView {
        FontView {
            name: self.name@,
            font_head: self.font_head,
            meta_data: self.meta_data@,
            chars: Map::new(
                |code: u16| self.chars@.contains_key(code),
                |code: u16| grid(self.chars@[code]@),
            ),
            rules: self.rules@,
        }
    }
}

impl FontView {
    /// Whether glyphs have at least one row and each glyph of the table has as
    /// many rows as the header says.
    pub open spec fn wf(self) -> bool {
        &&& self.font_head.height > 0
        &&& forall|code: u16| #[trigger]
            self.chars.contains_key(code) ==> self.chars[code].len() == self.font_head.height
    }
}

impl Default for Font {
    /// A font without a name, with the blank header, no glyphs, and full
    /// width on both axes. Its height is zero, so it is not well formed.
    fn default() -> (res: Font)
        ensures
            res@.name == Seq::<char>::empty(),
            res@.font_head == blank_header(),
            res@.meta_data == Seq::<char>::empty(),
            res@.chars == Map::<u16, Seq<Seq<char>>>::empty(),
            res@.rules == RulesView::full_width(),
    {
        broadcast use group_hash_axioms;

        let font = Font {
            name: String::new(),
            font_head: FontOpts::default(),
            meta_data: String::new(),
            chars: HashMap::new(),
            rules: Rules::default(),
        };
        assert(font@.chars =~= Map::<u16, Seq<Seq<char>>>::empty());
        font
    }
}

impl Font {
    /// Whether the font's value is well formed.
    pub open spec fn wf(&self) -> bool {
        self@.wf()
    }

    /// Tests whether the font is well formed: whether its glyphs have at
    /// least one row, and each as many as the header says.
    pub fn is_well_formed(&self) -> (res: bool)
        ensures
            res == self.wf(),
    {
        broadcast use group_hash_axioms;

        let height = self.font_head.height;
        if height == 0 {
            return false;
        }
        let values = self.chars.values();
        let ghost all = values.remaining();
        assert(all.unref().to_set() == self.chars@.values());
        for glyph in it: values
            invariant
                height == self.font_head.height,
                height > 0,
                it.seq() == all,
                all.unref().to_set() == self.chars@.values(),
                forall|i: int| 0 <= i < it.index() ==> (#[trigger] all[i]).len() == height,
        {
            if glyph.len() != height {
                proof {
                    let i = it.index() as int;
                    assert(all.unref()[i] == *glyph);
                    assert(all.unref().to_set().contains(*glyph));
                    assert(self.chars@.contains_value(*glyph));
                    let code = choose|code: u16|
                        self.chars@.contains_key(code) && self.chars@[code] == *glyph;
                    assert(self@.chars.contains_key(code));
                    assert(self@.chars[code].len() == glyph.len());
                }
                return false;
            }
        }
        proof {
            assert forall|code: u16| #[trigger] self@.chars.contains_key(code) implies self@.chars[code].len()
                == height by {
                let glyph = self.chars@[code];
                assert(self.chars@.contains_value(glyph));
                assert(all.unref().to_set().contains(glyph));
                let i = choose|i: int| 0 <= i < all.unref().len() && all.unref()[i] == glyph;
                assert(all[i].len() == height);
            }
        }
        true
    }

    /// Reads a font from the text of a font file.
    pub fn parse_font(name: &str, data: &str) -> (res: Result<Font, ParseError>)
        ensures
            match font_of(name@, data@) {
                Ok(font) => res is Ok && res->Ok_0@ == font && res->Ok_0.wf(),
                Err(error) => res is Err && res->Err_0 == error,
            },
    {
        broadcast use group_hash_axioms;

        let text = chars_of(data);
        let all = split_lines(&text);
        let n = all.len();
        assert(grid(all@).len() == n);
        if n == 0 {
            return Err(ParseError::Header);
        }
        assert(grid(all@)[0] == all@[0]@);
        let font_head = match FontOpts::parse_chars(&all[0]) {
            Ok(header) => header,
            Err(error) => { return Err(error); },
        };
        let height = font_head.height;
        if !layout_is_decided(font_head.full_layout, font_head.old_layout) {
            return Err(ParseError::Layout);
        }
        let first_row = if font_head.comment_lines < n - 1 {
            1 + font_head.comment_lines
        } else {
            n
        };
        let comment = join_rows(&all, 1, first_row);
        let ghost rows = grid(all@).skip(first_row as int);
        let mut chars: HashMap<u16, Vec<Vec<char>>> = HashMap::new();
        let mut k: usize = 0;
        let mut base: usize = first_row;
        while k < GLYPH_CODES && n - base >= height
            invariant
                k <= GLYPH_CODES,
                glyph_codes().len() == GLYPH_CODES,
                height > 0,
                n == all.len(),
                first_row <= base <= n,
                base - first_row == k * height,
                rows == grid(all@).skip(first_row as int),
                forall|code: u16|
                    chars@.contains_key(code) <==> (#[trigger] glyph_table(
                        rows,
                        height as nat,
                        k as nat,
                    ).contains_key(code)),
                forall|code: u16| #[trigger]
                    chars@.contains_key(code) ==> grid(chars@[code]@) == glyph_table(
                        rows,
                        height as nat,
                        k as nat,
                    )[code],
                forall|code: u16| #[trigger]
                    chars@.contains_key(code) ==> chars@[code]@.len() == height,
            decreases GLYPH_CODES - k,
        {
            let mut glyph: Vec<Vec<char>> = Vec::new();
            let mut r: usize = 0;
            while r < height
                invariant
                    r <= height,
                    base + height <= n,
                    n == all.len(),
                    first_row <= base,
                    base - first_row == k * height,
                    rows == grid(all@).skip(first_row as int),
                    glyph@.len() == r,
                    forall|j: int|
                        0 <= j < r ==> (#[trigger] glyph@[j])@ == strip_end_mark(
                            rows[k * height + j],
                        ),
                decreases height - r,
            {
                let row = strip_row(&all[base + r]);
                assert(rows[k * height + r] == all@[base + r]@);
                glyph.push(row);
                r += 1;
            }
            assert(grid(glyph@) =~= glyph_at(rows, height as nat, k as nat));
            let code = glyph_code_at(k);
            let ghost before = chars@;
            let ghost table = glyph_table(rows, height as nat, k as nat);
            let ghost next = glyph_table(rows, height as nat, (k + 1) as nat);
            chars.insert(code, glyph);
            assert(next == table.insert(code, glyph_at(rows, height as nat, k as nat)));
            assert forall|c: u16| chars@.contains_key(c) <==> #[trigger] next.contains_key(
                c,
            ) by {
                assert(before.contains_key(c) <==> table.contains_key(c));
            }
            assert((k + 1) * height == k * height + height) by (nonlinear_arith);
            base += height;
            k += 1;
        }
        proof {
            let total = rows.len();
            assert(total == n - first_row);
            if k < GLYPH_CODES {
                lemma_fundamental_div_mod_converse(
                    total as int,
                    height as int,
                    k as int,
                    (n - base) as int,
                );
            } else {
                assert(total >= GLYPH_CODES * height);
                assert(total / (height as nat) >= 101) by (nonlinear_arith)
                    requires
                        total >= 101 * height,
                        height > 0,
                ;
            }
            assert(k == glyph_count(total, height as nat));
        }
        let rules = Font::get_layout(font_head.full_layout, font_head.old_layout);
        let font = Font {
            name: name.to_owned(),
            font_head,
            meta_data: string_of(&comment),
            chars,
            rules,
        };
        proof {
            let expected = font_of(name@, data@)->Ok_0;
            assert(font@.chars =~= expected.chars);
            assert(grid(all@).subrange(1, first_row as int) =~= lines(data@).subrange(
                1,
                first_row as int,
            ));
        }
        Ok(font)
    }

    /// Decodes the layout fields of a header into the rules of each axis.
    pub fn get_layout(full_layout: Option<isize>, old_layout: isize) -> (res: Rules)
        requires
            decides_horizontal(full_layout, old_layout),
        ensures
            res@ == decode(full_layout, old_layout),
            res@.ordered(),
            res@.consistent(),
    {
        proof {
            lemma_decode_ordered(full_layout, old_layout);
            lemma_decode_consistent(full_layout, old_layout);
        }
        let code = match full_layout {
            Some(code) => code,
            None => old_layout,
        };
        let (mut horizontal_rules, mut vertical_rules) = decompose(code);
        let vertical_matched = vertical_rules.len() > 0;
        let vertical_layout = if vertical_matched {
            vertical_rules[vertical_rules.len() - 1].get_mode()
        } else {
            LayoutMode::FullWidth
        };
        let horizontal_layout: LayoutMode;
        if horizontal_rules.len() == 0 {
            if old_layout == 0 {
                horizontal_layout = LayoutMode::Fitting;
                vertical_rules.push(SmushingRule::HorizontalFitting);
            } else {
                horizontal_layout = LayoutMode::FullWidth;
            }
        } else {
            horizontal_layout = horizontal_rules[horizontal_rules.len() - 1].get_mode();
            if horizontal_layout == LayoutMode::ControlledSmush {
                horizontal_rules = remove_rule(&horizontal_rules, SmushingRule::HorizontalSmushing);
            }
        }
        if vertical_matched && vertical_layout == LayoutMode::ControlledSmush {
            vertical_rules = remove_rule(&vertical_rules, SmushingRule::VerticalSmushing);
        }
        Rules { horizontal_layout, vertical_layout, horizontal_rules, vertical_rules }
    }
}

} // verus!
