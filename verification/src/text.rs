//! Character sequences: conversion from and to strings, whitespace-separated
//! tokens, lines, and decimal numerals.

use vstd::prelude::*;
use vstd::string::*;

verus! {

/// The characters of `s`, in order.
pub fn chars_of(s: &str) -> (res: Vec<char>)
    ensures
        res@ == s@,
{
    let mut out: Vec<char> = Vec::new();
    for c in it: s.chars()
        invariant
            out@ == it.seq().take(it.index() as int),
            it.seq() == s@,
    {
        out.push(c);
    }
    out
}

/// The string made of the characters of `chars`, in order.
///
/// Calls `String::from_iter`, which std documents to collect the characters
/// it is given into a string in the order given; Verus takes that on trust.
#[verifier::external_body]
pub(crate) fn string_of(chars: &Vec<char>) -> (res: String)
    ensures
        res@ == chars@,
{
    String::from_iter(chars.iter())
}

/// The rows of a vector of character vectors, each as a sequence.
pub open spec fn grid(rows: Seq<Vec<char>>) -> Seq<Seq<char>> {
    Seq::new(rows.len(), |i: int| rows[i]@)
}

/// The ASCII whitespace characters: space, tab, line feed, form feed and
/// carriage return.
pub open spec fn is_ascii_space(c: char) -> bool {
    c == ' ' || c == '\t' || c == '\n' || c == '\x0C' || c == '\r'
}

/// The maximal runs of characters other than ASCII whitespace in `s`, in
/// order. Read from the left: a whitespace character adds nothing, a character
/// that follows a non-whitespace character extends the last token, and any
/// other character starts a new one.
pub open spec fn tokens(s: Seq<char>) -> Seq<Seq<char>>
    decreases s.len(),
{
    if s.len() == 0 {
        Seq::empty()
    } else {
        let before = tokens(s.drop_last());
        if is_ascii_space(s.last()) {
            before
        } else if s.len() >= 2 && !is_ascii_space(s[s.len() - 2]) {
            before.drop_last().push(before.last().push(s.last()))
        } else {
            before.push(seq![s.last()])
        }
    }
}

/// No token is empty, and none holds whitespace.
pub proof fn lemma_tokens_nonempty(s: Seq<char>)
    ensures
        forall|i: int|
            0 <= i < tokens(s).len() ==> (#[trigger] tokens(s)[i]).len() > 0 && forall|k: int|
                0 <= k < tokens(s)[i].len() ==> !is_ascii_space(#[trigger] tokens(s)[i][k]),
        s.len() > 0 && !is_ascii_space(s.last()) ==> tokens(s).len() > 0,
    decreases s.len(),
{
    if s.len() > 0 {
        lemma_tokens_nonempty(s.drop_last());
        let before = tokens(s.drop_last());
        if !is_ascii_space(s.last()) && s.len() >= 2 && !is_ascii_space(s[s.len() - 2]) {
            assert(s.drop_last().last() == s[s.len() - 2]);
        }
    }
}

/// Whether `w` can be a token: it is not empty and holds no whitespace.
pub open spec fn is_word(w: Seq<char>) -> bool {
    w.len() > 0 && forall|k: int| 0 <= k < w.len() ==> !is_ascii_space(#[trigger] w[k])
}

/// `words` written one after the other with a space between them.
pub open spec fn join_words(words: Seq<Seq<char>>) -> Seq<char>
    decreases words.len(),
{
    if words.len() == 0 {
        Seq::empty()
    } else if words.len() == 1 {
        words[0]
    } else {
        join_words(words.drop_last()).push(' ') + words.last()
    }
}

/// A word written after the start of a text or after whitespace is a token of
/// its own.
pub proof fn lemma_tokens_push_word(s: Seq<char>, w: Seq<char>)
    requires
        s.len() == 0 || is_ascii_space(s.last()),
        is_word(w),
    ensures
        tokens(s + w) == tokens(s).push(w),
    decreases w.len(),
{
    let c = w.last();
    let shorter = w.drop_last();
    assert((s + w).drop_last() =~= s + shorter);
    assert((s + w).last() == c);
    if shorter.len() == 0 {
        assert(s + shorter =~= s);
        assert(w =~= seq![c]);
        if s.len() > 0 {
            assert((s + w)[(s + w).len() - 2] == s.last());
        }
    } else {
        assert(is_word(shorter)) by {
            assert forall|k: int| 0 <= k < shorter.len() implies !is_ascii_space(
                #[trigger] shorter[k],
            ) by {
                assert(shorter[k] == w[k]);
            }
        }
        lemma_tokens_push_word(s, shorter);
        assert((s + w)[(s + w).len() - 2] == w[w.len() - 2]);
        assert(tokens(s).push(shorter).drop_last() =~= tokens(s));
        assert(shorter.push(c) =~= w);
    }
}

/// Words written with single spaces between them are read back as they
/// were.
pub proof fn lemma_tokens_of_joined_words(words: Seq<Seq<char>>)
    requires
        forall|i: int| 0 <= i < words.len() ==> is_word(#[trigger] words[i]),
    ensures
        tokens(join_words(words)) == words,
    decreases words.len(),
{
    if words.len() == 0 {
        assert(words =~= Seq::<Seq<char>>::empty());
    } else if words.len() == 1 {
        lemma_tokens_push_word(Seq::empty(), words[0]);
        assert(Seq::<char>::empty() + words[0] =~= words[0]);
        assert(Seq::<Seq<char>>::empty().push(words[0]) =~= words);
    } else {
        let before = words.drop_last();
        lemma_tokens_of_joined_words(before);
        let spaced = join_words(before).push(' ');
        assert(spaced.drop_last() =~= join_words(before));
        lemma_tokens_push_word(spaced, words.last());
        assert(before.push(words.last()) =~= words);
    }
}

/// `row` without a carriage return at its end.
pub open spec fn strip_cr(row: Seq<char>) -> Seq<char> {
    if row.len() > 0 && row.last() == '\r' {
        row.drop_last()
    } else {
        row
    }
}

/// The lines of `s`. A line ends at a line feed, which is not part of it, and
/// a carriage return just before that line feed is dropped with it. What
/// follows the last line feed is a line of its own unless it is empty.
pub open spec fn lines(s: Seq<char>) -> Seq<Seq<char>>
    decreases s.len(),
{
    if s.len() == 0 {
        Seq::empty()
    } else {
        let before = lines(s.drop_last());
        let open = s.len() >= 2 && s[s.len() - 2] != '\n';
        if s.last() == '\n' {
            if open {
                before.drop_last().push(strip_cr(before.last()))
            } else {
                before.push(Seq::empty())
            }
        } else {
            if open {
                before.drop_last().push(before.last().push(s.last()))
            } else {
                before.push(seq![s.last()])
            }
        }
    }
}

/// `rows` joined by line feeds.
pub open spec fn join_lines(rows: Seq<Seq<char>>) -> Seq<char>
    decreases rows.len(),
{
    if rows.len() == 0 {
        Seq::empty()
    } else if rows.len() == 1 {
        rows[0]
    } else {
        join_lines(rows.drop_last()) + seq!['\n'] + rows.last()
    }
}

/// Whether `c` is ASCII whitespace.
pub fn is_space(c: char) -> (res: bool)
    ensures
        res == is_ascii_space(c),
{
    c == ' ' || c == '\t' || c == '\n' || c == '\x0C' || c == '\r'
}

/// Splits `s` into its whitespace-separated tokens.
pub fn split_tokens(s: &Vec<char>) -> (res: Vec<Vec<char>>)
    ensures
        grid(res@) == tokens(s@),
{
    let mut out: Vec<Vec<char>> = Vec::new();
    let mut current: Vec<char> = Vec::new();
    let mut i: usize = 0;
    assert(grid(out@) =~= tokens(s@.take(0)));
    while i < s.len()
        invariant
            i <= s.len(),
            current@.len() > 0 <==> i > 0 && !is_ascii_space(s@[i - 1]),
            current@.len() > 0 ==> tokens(s@.take(i as int)) == grid(out@).push(current@),
            current@.len() == 0 ==> tokens(s@.take(i as int)) == grid(out@),
        decreases s.len() - i,
    {
        let c = s[i];
        let ghost prefix = s@.take(i + 1);
        assert(prefix.drop_last() =~= s@.take(i as int));
        assert(prefix.last() == c);
        assert(i > 0 ==> prefix[prefix.len() - 2] == s@[i - 1]);
        if is_space(c) {
            if current.len() > 0 {
                let ghost before = grid(out@);
                out.push(current);
                current = Vec::new();
                assert(grid(out@) =~= before.push(out@.last()@));
            }
        } else {
            proof {
                if current@.len() > 0 {
                    assert(grid(out@).push(current@).drop_last() =~= grid(out@));
                } else {
                    assert(current@.push(c) =~= seq![c]);
                }
            }
            current.push(c);
        }
        i += 1;
    }
    assert(s@.take(i as int) =~= s@);
    if current.len() > 0 {
        let ghost before = grid(out@);
        out.push(current);
        assert(grid(out@) =~= before.push(out@.last()@));
    }
    out
}

/// Splits `s` into its lines.
pub fn split_lines(s: &Vec<char>) -> (res: Vec<Vec<char>>)
    ensures
        grid(res@) == lines(s@),
{
    let mut out: Vec<Vec<char>> = Vec::new();
    let mut current: Vec<char> = Vec::new();
    let mut i: usize = 0;
    assert(grid(out@) =~= lines(s@.take(0)));
    while i < s.len()
        invariant
            i <= s.len(),
            current@.len() > 0 <==> i > 0 && s@[i - 1] != '\n',
            current@.len() > 0 ==> lines(s@.take(i as int)) == grid(out@).push(current@),
            current@.len() == 0 ==> lines(s@.take(i as int)) == grid(out@),
        decreases s.len() - i,
    {
        let c = s[i];
        let ghost prefix = s@.take(i + 1);
        assert(prefix.drop_last() =~= s@.take(i as int));
        assert(prefix.last() == c);
        assert(i > 0 ==> prefix[prefix.len() - 2] == s@[i - 1]);
        if c == '\n' {
            let ghost before = grid(out@);
            let ghost row = current@;
            proof {
                if current@.len() > 0 {
                    assert(before.push(row).drop_last() =~= before);
                } else {
                    assert(row =~= Seq::<char>::empty());
                }
            }
            let n = current.len();
            if n > 0 && current[n - 1] == '\r' {
                current.pop();
            }
            assert(current@ =~= strip_cr(row));
            out.push(current);
            current = Vec::new();
            assert(grid(out@) =~= before.push(strip_cr(row)));
        } else {
            proof {
                if current@.len() > 0 {
                    assert(grid(out@).push(current@).drop_last() =~= grid(out@));
                } else {
                    assert(current@.push(c) =~= seq![c]);
                }
            }
            current.push(c);
        }
        i += 1;
    }
    assert(s@.take(i as int) =~= s@);
    if current.len() > 0 {
        let ghost before = grid(out@);
        out.push(current);
        assert(grid(out@) =~= before.push(out@.last()@));
    }
    out
}

/// Joins the rows of `rows` from `from` up to `to` with line feeds between
/// them.
pub fn join_rows(rows: &Vec<Vec<char>>, from: usize, to: usize) -> (res: Vec<char>)
    requires
        from <= to <= rows.len(),
    ensures
        res@ == join_lines(grid(rows@).subrange(from as int, to as int)),
{
    let ghost part = grid(rows@).subrange(from as int, to as int);
    let mut out: Vec<char> = Vec::new();
    let mut i: usize = from;
    assert(part.take(0) =~= Seq::<Seq<char>>::empty());
    while i < to
        invariant
            from <= i <= to <= rows.len(),
            part == grid(rows@).subrange(from as int, to as int),
            out@ == join_lines(part.take(i - from)),
        decreases to - i,
    {
        let ghost upto = part.take(i - from + 1);
        assert(upto.drop_last() =~= part.take(i - from));
        assert(upto.last() == rows@[i as int]@);
        if i > from {
            out.push('\n');
        }
        let row = &rows[i];
        let ghost start = out@;
        let mut k: usize = 0;
        while k < row.len()
            invariant
                k <= row.len(),
                out@ == start + row@.take(k as int),
            decreases row.len() - k,
        {
            out.push(row[k]);
            assert(row@.take(k + 1) =~= row@.take(k as int).push(row@[k as int]));
            k += 1;
        }
        assert(row@.take(k as int) =~= row@);
        assert(out@ =~= join_lines(upto));
        i += 1;
    }
    assert(part.take(i - from) =~= part);
    out
}

/// Whether `c` is one of the digits `0` to `9`.
pub open spec fn is_digit(c: char) -> bool {
    '0' as u32 <= c as u32 <= '9' as u32
}

/// The value of the digit `c`; zero for any other character.
pub open spec fn digit_value(c: char) -> nat {
    if is_digit(c) {
        (c as u32 - '0' as u32) as nat
    } else {
        0
    }
}

/// Whether every character of `s` is a digit.
pub open spec fn all_digits(s: Seq<char>) -> bool {
    forall|i: int| 0 <= i < s.len() ==> is_digit(#[trigger] s[i])
}

/// The number that the digits of `s` write in base ten.
pub open spec fn decimal_value(s: Seq<char>) -> nat
    decreases s.len(),
{
    if s.len() == 0 {
        0
    } else {
        decimal_value(s.drop_last()) * 10 + digit_value(s.last())
    }
}

/// The number that `s` writes: one or more digits, after an optional `+`.
pub open spec fn unsigned_numeral(s: Seq<char>) -> Option<nat> {
    let body = if s.len() > 0 && s[0] == '+' {
        s.drop_first()
    } else {
        s
    };
    if body.len() > 0 && all_digits(body) {
        Some(decimal_value(body))
    } else {
        None
    }
}

/// The integer that `s` writes: one or more digits, after an optional `+` or
/// `-`.
pub open spec fn signed_numeral(s: Seq<char>) -> Option<int> {
    if s.len() > 0 && s[0] == '-' {
        let body = s.drop_first();
        if body.len() > 0 && all_digits(body) {
            Some(-(decimal_value(body) as int))
        } else {
            None
        }
    } else {
        match unsigned_numeral(s) {
            Some(v) => Some(v as int),
            None => None,
        }
    }
}

/// The `usize` that `s` writes, if it writes one that fits.
pub open spec fn usize_numeral(s: Seq<char>) -> Option<usize> {
    match unsigned_numeral(s) {
        Some(v) => if v <= usize::MAX {
            Some(v as usize)
        } else {
            None
        },
        None => None,
    }
}

/// The `isize` that `s` writes, if it writes one that fits.
pub open spec fn isize_numeral(s: Seq<char>) -> Option<isize> {
    match signed_numeral(s) {
        Some(v) => if isize::MIN <= v <= isize::MAX {
            Some(v as isize)
        } else {
            None
        },
        None => None,
    }
}

/// The character that writes the digit `d`.
pub open spec fn digit_char(d: nat) -> char {
    (48 + d) as char
}

/// The numeral of `n` in base ten, without leading zeros.
pub open spec fn decimal_digits(n: nat) -> Seq<char>
    decreases n,
{
    if n < 10 {
        seq![digit_char(n)]
    } else {
        decimal_digits(n / 10).push(digit_char(n % 10))
    }
}

/// The numeral of `v` in base ten, with a `-` before it where `v` is
/// negative.
pub open spec fn signed_digits(v: int) -> Seq<char> {
    if v < 0 {
        seq!['-'] + decimal_digits((-v) as nat)
    } else {
        decimal_digits(v as nat)
    }
}

/// A digit's character is a digit with that value.
pub proof fn lemma_digit_char(d: nat)
    requires
        d < 10,
    ensures
        is_digit(digit_char(d)),
        digit_value(digit_char(d)) == d,
{
    assert(digit_char(d) as u32 == 48 + d);
    assert('0' as u32 == 48);
    assert('9' as u32 == 57);
}

/// The numeral of a number is a word of digits that writes that number.
pub proof fn lemma_decimal_digits(n: nat)
    ensures
        is_word(decimal_digits(n)),
        all_digits(decimal_digits(n)),
        decimal_value(decimal_digits(n)) == n,
        unsigned_numeral(decimal_digits(n)) == Some(n),
    decreases n,
{
    let s = decimal_digits(n);
    lemma_digit_char(n % 10);
    if n < 10 {
        assert(s.drop_last() =~= Seq::<char>::empty());
        assert(s.last() == digit_char(n));
        assert(decimal_value(s.drop_last()) == 0);
    } else {
        lemma_decimal_digits(n / 10);
        assert(s.drop_last() =~= decimal_digits(n / 10));
        assert(s.last() == digit_char(n % 10));
        assert forall|i: int| 0 <= i < s.len() implies is_digit(#[trigger] s[i]) by {
            if i < s.len() - 1 {
                assert(s[i] == decimal_digits(n / 10)[i]);
            }
        }
    }
    assert(is_digit(s[0]));
}

/// The numeral of an integer is a word that writes that integer.
pub proof fn lemma_signed_digits(v: int)
    ensures
        is_word(signed_digits(v)),
        signed_numeral(signed_digits(v)) == Some(v),
{
    if v < 0 {
        let digits = decimal_digits((-v) as nat);
        lemma_decimal_digits((-v) as nat);
        assert(signed_digits(v).drop_first() =~= digits);
        assert forall|k: int| 0 <= k < signed_digits(v).len() implies !is_ascii_space(
            #[trigger] signed_digits(v)[k],
        ) by {
            if k > 0 {
                assert(signed_digits(v)[k] == digits[k - 1]);
            }
        }
    } else {
        lemma_decimal_digits(v as nat);
        assert(is_digit(signed_digits(v)[0]));
    }
}

/// A prefix of a numeral writes no larger a number than the whole.
pub proof fn lemma_decimal_prefix(s: Seq<char>, k: int)
    requires
        0 <= k <= s.len(),
    ensures
        decimal_value(s.take(k)) <= decimal_value(s),
    decreases s.len(),
{
    if k == s.len() {
        assert(s.take(k) =~= s);
    } else {
        lemma_decimal_prefix(s.drop_last(), k);
        assert(s.drop_last().take(k) =~= s.take(k));
    }
}

/// The number written by the digits of `s` from `start` on, if they are
/// digits, there is at least one, and the number fits a `usize`.
fn parse_digits(s: &Vec<char>, start: usize) -> (res: Option<usize>)
    requires
        start <= s.len(),
    ensures
        res == (if s@.skip(start as int).len() > 0 && all_digits(s@.skip(start as int))
            && decimal_value(s@.skip(start as int)) <= usize::MAX {
            Some(decimal_value(s@.skip(start as int)) as usize)
        } else {
            None
        }),
{
    let ghost body = s@.skip(start as int);
    if start == s.len() {
        return None;
    }
    let mut acc: usize = 0;
    let mut i: usize = start;
    assert(body.take(0) =~= Seq::<char>::empty());
    while i < s.len()
        invariant
            start <= i <= s.len(),
            body == s@.skip(start as int),
            all_digits(body.take(i - start)),
            acc == decimal_value(body.take(i - start)),
        decreases s.len() - i,
    {
        let c = s[i];
        let ghost upto = body.take(i - start + 1);
        assert(upto.drop_last() =~= body.take(i - start));
        assert(upto.last() == c);
        assert(body[i - start] == c);
        let code: u32 = c as u32;
        if code < 48 || code > 57 {
            return None;
        }
        let d: usize = (code - 48) as usize;
        assert(d == digit_value(c));
        if acc > (usize::MAX - d) / 10 {
            proof {
                lemma_decimal_prefix(body, i - start + 1);
            }
            return None;
        }
        acc = acc * 10 + d;
        i += 1;
    }
    assert(body.take(i - start) =~= body);
    Some(acc)
}

/// Reads `s` as a decimal `usize`, as `str::parse` does.
pub fn parse_usize(s: &Vec<char>) -> (res: Option<usize>)
    ensures
        res == usize_numeral(s@),
{
    if s.len() > 0 && s[0] == '+' {
        assert(s@.skip(1) =~= s@.drop_first());
        parse_digits(s, 1)
    } else {
        assert(s@.skip(0) =~= s@);
        parse_digits(s, 0)
    }
}

/// Reads `s` as a decimal `isize`, as `str::parse` does.
pub fn parse_isize(s: &Vec<char>) -> (res: Option<isize>)
    ensures
        res == isize_numeral(s@),
{
    if s.len() > 0 && s[0] == '-' {
        assert(s@.skip(1) =~= s@.drop_first());
        match parse_digits(s, 1) {
            Some(magnitude) => {
                if magnitude <= isize::MAX as usize {
                    Some(-(magnitude as isize))
                } else if magnitude - 1 == isize::MAX as usize {
                    Some(isize::MIN)
                } else {
                    None
                }
            },
            None => None,
        }
    } else {
        match parse_usize(s) {
            Some(value) => {
                if value <= isize::MAX as usize {
                    Some(value as isize)
                } else {
                    None
                }
            },
            None => None,
        }
    }
}

} // verus!
