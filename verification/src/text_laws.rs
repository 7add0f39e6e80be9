//! What holds of texts and numerals: what is put together reads back.

use vstd::prelude::*;

use crate::number;
use crate::text;

verus! {

// ---------------------------------------------------------------------------
// Words
// ---------------------------------------------------------------------------

/// A character that is no white space.
pub open spec fn is_ink(c: char) -> bool {
    !text::is_space(c)
}

/// White space of any kind.
pub open spec fn is_blank(c: char) -> bool {
    text::is_space(c)
}

/// A word without white space.
pub open spec fn is_inked(s: Seq<char>) -> bool {
    s.len() > 0 && forall|i: int| 0 <= i < s.len() ==> is_ink(#[trigger] s[i])
}

/// A text of white space alone.
pub open spec fn is_gap(s: Seq<char>) -> bool {
    forall|i: int| 0 <= i < s.len() ==> is_blank(#[trigger] s[i])
}

proof fn lemma_cut(a: Seq<char>, c: char, b: Seq<char>, cut: spec_fn(char) -> bool)
    requires
        cut(c),
    ensures
        text::split_where(a.push(c) + b, cut) == text::split_where(a, cut) + text::split_where(
            b,
            cut,
        ),
    decreases b.len(),
{
    let whole = a.push(c) + b;
    let left = text::split_where(a, cut);
    text::lemma_split_nonempty(b, cut);
    if b.len() == 0 {
        assert(whole.drop_last() =~= a);
        assert(whole.last() == c);
        assert(text::split_where(b, cut) =~= seq![Seq::empty()]);
        assert(text::split_where(whole, cut) =~= left + text::split_where(b, cut));
    } else {
        let shorter = b.drop_last();
        assert(whole.drop_last() =~= a.push(c) + shorter);
        assert(whole.last() == b.last());
        lemma_cut(a, c, shorter, cut);
        text::lemma_split_nonempty(shorter, cut);
        let right = text::split_where(shorter, cut);
        let inner = left + right;
        if cut(b.last()) {
            assert(inner.push(Seq::empty()) =~= left + right.push(Seq::empty()));
        } else {
            let last = right.last().push(b.last());
            assert(inner.last() == right.last());
            assert(inner.drop_last().push(last) =~= left + right.drop_last().push(last));
        }
    }
}

proof fn lemma_filter_two(
    a: Seq<Seq<char>>,
    b: Seq<Seq<char>>,
    kept: spec_fn(Seq<char>) -> bool,
)
    ensures
        (a + b).filter(kept) == a.filter(kept) + b.filter(kept),
    decreases b.len(),
{
    reveal(Seq::filter);
    if b.len() == 0 {
        assert(a + b =~= a);
        assert(a.filter(kept) + b.filter(kept) =~= a.filter(kept));
    } else {
        lemma_filter_two(a, b.drop_last(), kept);
        assert((a + b).drop_last() =~= a + b.drop_last());
        assert((a + b).last() == b.last());
        assert((a + b).filter(kept) =~= a.filter(kept) + b.filter(kept));
    }
}

/// Whitespace separates words: the words of two texts with a blank between them
/// are the words of the one and then those of the other.
pub proof fn blanks_separate_words(a: Seq<char>, blank: char, b: Seq<char>)
    requires
        is_blank(blank),
    ensures
        text::words(a.push(blank) + b) == text::words(a) + text::words(b),
{
    let cut = |c: char| text::is_space(c);
    let kept = |w: Seq<char>| w.len() > 0;
    assert(cut(blank));
    lemma_cut(a, blank, b, cut);
    lemma_filter_two(text::split_where(a, cut), text::split_where(b, cut), kept);
}

proof fn lemma_uncut(s: Seq<char>, cut: spec_fn(char) -> bool)
    requires
        forall|i: int| 0 <= i < s.len() ==> !cut(#[trigger] s[i]),
    ensures
        text::split_where(s, cut) == seq![s],
    decreases s.len(),
{
    if s.len() == 0 {
        assert(s =~= Seq::empty());
    } else {
        let shorter = s.drop_last();
        assert forall|i: int| 0 <= i < shorter.len() implies !cut(#[trigger] shorter[i]) by {
            assert(shorter[i] == s[i]);
        }
        lemma_uncut(shorter, cut);
        assert(!cut(s[s.len() - 1]));
        assert(shorter.push(s.last()) =~= s);
        assert(text::split_where(s, cut) =~= seq![s]);
    }
}

/// Characters without a blank among them are one word.
pub proof fn ink_is_one_word(word: Seq<char>)
    requires
        is_inked(word),
    ensures
        text::words(word) == seq![word],
{
    let cut = |c: char| text::is_space(c);
    let kept = |w: Seq<char>| w.len() > 0;
    assert forall|i: int| 0 <= i < word.len() implies !cut(#[trigger] word[i]) by {
        assert(is_ink(word[i]));
    }
    lemma_uncut(word, cut);
    reveal(Seq::filter);
    reveal_with_fuel(Seq::filter, 2);
    assert(seq![word].drop_last() =~= Seq::empty());
    assert(seq![word].filter(kept) =~= seq![word]);
}

proof fn lemma_no_words()
    ensures
        text::words(Seq::<char>::empty()) == Seq::<Seq<char>>::empty(),
{
    let cut = |c: char| text::is_space(c);
    let kept = |w: Seq<char>| w.len() > 0;
    let none = Seq::<char>::empty();
    assert(text::split_where(none, cut) =~= seq![none]);
    reveal_with_fuel(Seq::filter, 2);
    assert(seq![none].drop_last() =~= Seq::empty());
    assert(seq![none].filter(kept) =~= Seq::empty());
}

proof fn lemma_gap(gap: Seq<char>, rest: Seq<char>)
    requires
        is_gap(gap),
    ensures
        text::words(gap + rest) == text::words(rest),
    decreases gap.len(),
{
    if gap.len() == 0 {
        assert(gap + rest =~= rest);
    } else {
        let blank = gap[0];
        assert(is_blank(blank));
        let later = gap.drop_first();
        assert forall|i: int| 0 <= i < later.len() implies is_blank(#[trigger] later[i]) by {
            assert(later[i] == gap[i + 1]);
        }
        let none = Seq::<char>::empty();
        blanks_separate_words(none, blank, later + rest);
        assert(none.push(blank) + (later + rest) =~= gap + rest);
        lemma_no_words();
        assert(Seq::<Seq<char>>::empty() + text::words(later + rest) =~= text::words(
            later + rest,
        ));
        lemma_gap(later, rest);
    }
}

/// The words with a gap behind each, and something after them.
pub open spec fn spaced(fields: Seq<Seq<char>>, gap: Seq<char>, rest: Seq<char>) -> Seq<char>
    decreases fields.len(),
{
    if fields.len() == 0 {
        rest
    } else {
        fields.first() + gap + spaced(fields.drop_first(), gap, rest)
    }
}

/// Words that are written with gaps between them read back, whatever the gaps
/// are made of.
pub proof fn words_read_back(
    lead: Seq<char>,
    fields: Seq<Seq<char>>,
    gap: Seq<char>,
    rest: Seq<char>,
)
    requires
        is_gap(lead),
        is_gap(gap),
        gap.len() > 0,
        forall|i: int| 0 <= i < fields.len() ==> is_inked(#[trigger] fields[i]),
    ensures
        text::words(lead + spaced(fields, gap, rest)) == fields + text::words(rest),
    decreases fields.len(),
{
    lemma_gap(lead, spaced(fields, gap, rest));
    if fields.len() == 0 {
        assert(fields + text::words(rest) =~= text::words(rest));
    } else {
        let word = fields.first();
        assert(is_inked(fields[0]));
        let others = fields.drop_first();
        assert forall|i: int| 0 <= i < others.len() implies is_inked(#[trigger] others[i]) by {
            assert(others[i] == fields[i + 1]);
        }
        let tail = spaced(others, gap, rest);
        let blank = gap[0];
        assert(is_blank(blank));
        let later = gap.drop_first();
        assert forall|i: int| 0 <= i < later.len() implies is_blank(#[trigger] later[i]) by {
            assert(later[i] == gap[i + 1]);
        }
        assert(word + gap + tail =~= word.push(blank) + (later + tail));
        blanks_separate_words(word, blank, later + tail);
        ink_is_one_word(word);
        words_read_back(later, others, gap, rest);
        assert(seq![word] + (others + text::words(rest)) =~= fields + text::words(rest));
    }
}

/// The blanks around a text are trimmed away, and nothing else: a text that
/// begins and ends without one comes back whole.
pub proof fn trimming_takes_the_blanks_around(lead: Seq<char>, core: Seq<char>, trail: Seq<char>)
    requires
        is_gap(lead),
        is_gap(trail),
        core.len() > 0,
        is_ink(core.first()),
        is_ink(core.last()),
    ensures
        text::trimmed(lead + core + trail) == core,
{
    lemma_trim_lead(lead, core + trail);
    assert(lead + core + trail =~= lead + (core + trail));
    lemma_trim_trail(core, trail);
}

proof fn lemma_trim_lead(lead: Seq<char>, rest: Seq<char>)
    requires
        is_gap(lead),
        rest.len() > 0,
        is_ink(rest.first()),
    ensures
        text::trim_start(lead + rest) == rest,
    decreases lead.len(),
{
    if lead.len() == 0 {
        assert(lead + rest =~= rest);
    } else {
        assert(is_blank(lead[0]));
        let later = lead.drop_first();
        assert forall|i: int| 0 <= i < later.len() implies is_blank(#[trigger] later[i]) by {
            assert(later[i] == lead[i + 1]);
        }
        assert((lead + rest).drop_first() =~= later + rest);
        lemma_trim_lead(later, rest);
    }
}

proof fn lemma_trim_trail(core: Seq<char>, trail: Seq<char>)
    requires
        is_gap(trail),
        core.len() > 0,
        is_ink(core.last()),
    ensures
        text::trim_end(core + trail) == core,
    decreases trail.len(),
{
    if trail.len() == 0 {
        assert(core + trail =~= core);
    } else {
        assert(is_blank(trail[trail.len() - 1]));
        let earlier = trail.drop_last();
        assert forall|i: int| 0 <= i < earlier.len() implies is_blank(#[trigger] earlier[i]) by {
            assert(earlier[i] == trail[i]);
        }
        assert((core + trail).drop_last() =~= core + earlier);
        lemma_trim_trail(core, earlier);
    }
}

// ---------------------------------------------------------------------------
// Lines
// ---------------------------------------------------------------------------

/// A line that can stand in a text: no line feed in it, no carriage return at
/// its end.
pub open spec fn is_line(s: Seq<char>) -> bool {
    &&& text::free_of(s, '\n')
    &&& s.len() > 0 ==> s.last() != '\r'
}

/// A line and what ends it.
pub open spec fn ended_line(line: Seq<char>, with_cr: bool) -> Seq<char> {
    if with_cr {
        line.push('\r').push('\n')
    } else {
        line.push('\n')
    }
}

/// Lines, each ended.
pub open spec fn ended_lines(lines: Seq<Seq<char>>, with_cr: bool) -> Seq<char>
    decreases lines.len(),
{
    if lines.len() == 0 {
        Seq::empty()
    } else {
        ended_lines(lines.drop_last(), with_cr) + ended_line(lines.last(), with_cr)
    }
}

proof fn lemma_ended(lines: Seq<Seq<char>>, with_cr: bool, last: Seq<char>)
    requires
        forall|i: int| 0 <= i < lines.len() ==> is_line(#[trigger] lines[i]),
        text::free_of(last, '\n'),
    ensures
        ({
            let pieces = text::split_on(ended_lines(lines, with_cr) + last, '\n');
            &&& pieces.len() == lines.len() + 1
            &&& pieces.last() == last
            &&& forall|i: int|
                0 <= i < lines.len() ==> #[trigger] text::without_cr(pieces[i]) == lines[i]
        }),
    decreases lines.len(),
{
    let whole = ended_lines(lines, with_cr) + last;
    text::lemma_split_free(last, '\n');
    if lines.len() == 0 {
        assert(whole =~= last);
    } else {
        let before = lines.drop_last();
        let line = lines.last();
        assert(is_line(lines[lines.len() - 1]));
        assert forall|i: int| 0 <= i < before.len() implies is_line(#[trigger] before[i]) by {
            assert(before[i] == lines[i]);
        }
        let raw = if with_cr {
            line.push('\r')
        } else {
            line
        };
        assert(text::free_of(raw, '\n'));
        lemma_ended(before, with_cr, raw);
        let head = ended_lines(before, with_cr) + raw;
        assert(whole =~= head.push('\n') + last);
        text::lemma_split_at(head, '\n', last);
        let first = text::split_on(head, '\n');
        let pieces = text::split_on(whole, '\n');
        assert(pieces =~= first + seq![last]);
        assert forall|i: int| 0 <= i < lines.len() implies #[trigger] text::without_cr(pieces[i])
            == lines[i] by {
            if i < before.len() {
                assert(pieces[i] == first[i]);
                assert(text::without_cr(first[i]) == before[i]);
            } else {
                assert(pieces[i] == raw);
                if with_cr {
                    assert(raw.drop_last() =~= line);
                }
            }
        }
    }
}

/// Lines that are written one after the other read back, whether they end in
/// line feeds or in carriage returns and line feeds, and whether or not the last
/// one is ended.
pub proof fn lines_read_back(lines: Seq<Seq<char>>, with_cr: bool, last: Seq<char>)
    requires
        forall|i: int| 0 <= i < lines.len() ==> is_line(#[trigger] lines[i]),
        text::free_of(last, '\n'),
    ensures
        text::lines(ended_lines(lines, with_cr) + last) == (if last.len() == 0 {
            lines
        } else {
            lines.push(last)
        }),
{
    lemma_ended(lines, with_cr, last);
    let pieces = text::split_on(ended_lines(lines, with_cr) + last, '\n');
    let ended = pieces.drop_last().map_values(|line: Seq<char>| text::without_cr(line));
    assert forall|i: int| 0 <= i < lines.len() implies ended[i] == lines[i] by {
        assert(text::without_cr(pieces[i]) == lines[i]);
    }
    assert(ended =~= lines);
}

// ---------------------------------------------------------------------------
// Replacing and comparing
// ---------------------------------------------------------------------------

/// Replacing a character leaves none of it, changes no other one, and keeps
/// every character at its place.
pub proof fn replacing_replaces_every_one(s: Seq<char>, from: char, to: char)
    ensures
        text::with_replaced(s, from, to).len() == s.len(),
        forall|i: int|
            0 <= i < s.len() ==> #[trigger] text::with_replaced(s, from, to)[i] == (if s[i]
                == from {
                to
            } else {
                s[i]
            }),
        from != to ==> text::free_of(text::with_replaced(s, from, to), from),
{
}

/// In the dictionary a text stands before its own continuations, and the first
/// character in which two texts differ decides between them.
pub proof fn the_first_difference_decides(
    common: Seq<char>,
    a: char,
    after_a: Seq<char>,
    b: char,
    after_b: Seq<char>,
)
    requires
        (a as int) < (b as int),
    ensures
        text::text_le(common, common + after_a),
        text::text_le(common.push(a) + after_a, common.push(b) + after_b),
        !text::text_le(common.push(b) + after_b, common.push(a) + after_a),
    decreases common.len(),
{
    let left = common.push(a) + after_a;
    let right = common.push(b) + after_b;
    if common.len() > 0 {
        let shorter = common.drop_first();
        the_first_difference_decides(shorter, a, after_a, b, after_b);
        assert(left.drop_first() =~= shorter.push(a) + after_a);
        assert(right.drop_first() =~= shorter.push(b) + after_b);
        assert((common + after_a).drop_first() =~= shorter + after_a);
    }
}

// ---------------------------------------------------------------------------
// Numerals
// ---------------------------------------------------------------------------

/// A numeral spells exactly the numbers up to its limit: a number above it is
/// refused, in decimal and in hexadecimal.
pub proof fn numbers_above_the_limit_are_refused(n: nat, width: nat, max: nat)
    requires
        n > max,
        n < number::hex_range(width),
    ensures
        number::numeral(number::decimal(n), 10, max) is None,
        number::numeral(number::hex_digits(n, width), 16, max) is None,
{
    number::lemma_decimal_digits(n);
    assert(number::decimal(n)[0] != '+');
    number::lemma_hex_digits(n, width);
    if width > 0 {
        assert(number::hex_digits(n, width)[0] != '+');
    }
}

/// A plus sign in front of a number does not change it.
pub proof fn a_plus_sign_is_read_over(n: nat, max: nat)
    requires
        n <= max,
    ensures
        number::numeral(seq!['+'] + number::decimal(n), 10, max) == Some(n),
{
    number::lemma_decimal_digits(n);
    assert((seq!['+'] + number::decimal(n)).skip(1) =~= number::decimal(n));
}

/// Only digits spell a decimal number, and there is at least one of them.
pub proof fn only_digits_spell_numbers(s: Seq<char>, max: nat)
    requires
        number::numeral(s, 10, max) is Some,
    ensures
        s.len() > 0,
        number::numeral(s, 10, max)->0 <= max,
        forall|i: int|
            0 <= i < s.len() && !(i == 0 && s[0] == '+') ==> '0' <= #[trigger] s[i] && s[i] <= '9',
        s[0] == '+' ==> s.len() > 1,
{
    let digits = number::numeral_digits(s);
    lemma_digits_only(digits);
    assert forall|i: int| 0 <= i < s.len() && !(i == 0 && s[0] == '+') implies '0'
        <= #[trigger] s[i] && s[i] <= '9' by {
        if s[0] == '+' {
            assert(digits[i - 1] == s[i]);
        } else {
            assert(digits[i] == s[i]);
        }
    }
}

proof fn lemma_digits_only(s: Seq<char>)
    requires
        number::digits_value(s, 10) is Some,
    ensures
        forall|i: int| 0 <= i < s.len() ==> '0' <= #[trigger] s[i] && s[i] <= '9',
    decreases s.len(),
{
    if s.len() > 0 {
        lemma_digits_only(s.drop_last());
        assert forall|i: int| 0 <= i < s.len() implies '0' <= #[trigger] s[i] && s[i] <= '9' by {
            if i < s.len() - 1 {
                assert(s.drop_last()[i] == s[i]);
            }
        }
    }
}

/// A hexadecimal digit in lower case.
pub open spec fn small(c: char) -> char {
    if 'A' <= c && c <= 'F' {
        (c as int + 32) as char
    } else {
        c
    }
}

/// Hexadecimal digits read alike in upper and in lower case.
pub proof fn hexadecimal_reads_in_both_cases(n: nat, width: nat, max: nat)
    requires
        n < number::hex_range(width),
        n <= max,
        width > 0,
    ensures
        number::numeral(number::hex_digits(n, width), 16, max) == Some(n),
        number::numeral(
            number::hex_digits(n, width).map_values(|c: char| small(c)),
            16,
            max,
        ) == Some(n),
{
    number::lemma_hex_read_back(n, width, max);
    number::lemma_hex_digits(n, width);
    let digits = number::hex_digits(n, width);
    let lower = digits.map_values(|c: char| small(c));
    lemma_small_digits(n, width);
    assert(digits[0] != '+');
    assert(lower[0] == small(digits[0]));
}

proof fn lemma_small_digits(n: nat, width: nat)
    requires
        n < number::hex_range(width),
    ensures
        number::digits_value(
            number::hex_digits(n, width).map_values(|c: char| small(c)),
            16,
        ) == Some(n),
    decreases width,
{
    let digits = number::hex_digits(n, width);
    let lower = digits.map_values(|c: char| small(c));
    if width > 0 {
        let shorter = (width - 1) as nat;
        lemma_small_digits(n / 16, shorter);
        assert(digits.drop_last() =~= number::hex_digits(n / 16, shorter));
        assert(lower.drop_last() =~= number::hex_digits(n / 16, shorter).map_values(
            |c: char| small(c),
        ));
        assert(lower.last() == small(number::hex_char((n % 16) as int)));
    }
}

/// A hexadecimal digit, in upper or lower case.
pub open spec fn is_hexadecimal(c: char) -> bool {
    ('0' <= c && c <= '9') || ('a' <= c && c <= 'f') || ('A' <= c && c <= 'F')
}

/// Only hexadecimal digits spell a hexadecimal number, and there is at least one
/// of them.
pub proof fn only_hexadecimal_digits_spell_numbers(s: Seq<char>, max: nat)
    requires
        number::numeral(s, 16, max) is Some,
    ensures
        s.len() > 0,
        number::numeral(s, 16, max)->0 <= max,
        forall|i: int|
            0 <= i < s.len() && !(i == 0 && s[0] == '+') ==> is_hexadecimal(#[trigger] s[i]),
        s[0] == '+' ==> s.len() > 1,
{
    let digits = number::numeral_digits(s);
    lemma_hexadecimal_only(digits);
    assert forall|i: int| 0 <= i < s.len() && !(i == 0 && s[0] == '+') implies is_hexadecimal(
        #[trigger] s[i],
    ) by {
        if s[0] == '+' {
            assert(digits[i - 1] == s[i]);
        } else {
            assert(digits[i] == s[i]);
        }
    }
}

proof fn lemma_hexadecimal_only(s: Seq<char>)
    requires
        number::digits_value(s, 16) is Some,
    ensures
        forall|i: int| 0 <= i < s.len() ==> is_hexadecimal(#[trigger] s[i]),
    decreases s.len(),
{
    if s.len() > 0 {
        lemma_hexadecimal_only(s.drop_last());
        assert forall|i: int| 0 <= i < s.len() implies is_hexadecimal(#[trigger] s[i]) by {
            if i < s.len() - 1 {
                assert(s.drop_last()[i] == s[i]);
            }
        }
    }
}

/// The characters that Unicode calls white space, by their numbers.
pub open spec fn white_space() -> Seq<int> {
    seq![
        0x09,
        0x0a,
        0x0b,
        0x0c,
        0x0d,
        0x20,
        0x85,
        0xa0,
        0x1680,
        0x2000,
        0x2001,
        0x2002,
        0x2003,
        0x2004,
        0x2005,
        0x2006,
        0x2007,
        0x2008,
        0x2009,
        0x200a,
        0x2028,
        0x2029,
        0x202f,
        0x205f,
        0x3000,
    ]
}

/// White space is what Unicode calls so, each of its characters and no other.
pub proof fn white_space_is_that_of_unicode(c: char)
    ensures
        forall|i: int|
            0 <= i < white_space().len() && #[trigger] white_space()[i] == c as int
                ==> text::is_space(c),
        text::is_space(c) ==> exists|i: int|
            0 <= i < white_space().len() && #[trigger] white_space()[i] == c as int,
{
    let u = c as int;
    let all = white_space();
    if text::is_space(c) {
        let at = if u <= 0x0d {
            u - 9
        } else if u == 0x20 {
            5
        } else if u == 0x85 {
            6
        } else if u == 0xa0 {
            7
        } else if u == 0x1680 {
            8
        } else if u <= 0x200a {
            u - 0x2000 + 9
        } else if u == 0x2028 {
            20
        } else if u == 0x2029 {
            21
        } else if u == 0x202f {
            22
        } else if u == 0x205f {
            23
        } else {
            24int
        };
        assert(all[at] == u);
    }
}

/// The ten digits.
pub open spec fn ten_digits() -> Seq<char> {
    seq!['0', '1', '2', '3', '4', '5', '6', '7', '8', '9']
}

/// A number is written digit by digit: the digits of its tens, then its own
/// last one, and a number below ten is that one alone.
pub proof fn numbers_are_written_digit_by_digit(tens: nat, last: nat)
    requires
        last < 10,
    ensures
        number::decimal(last) == seq![ten_digits()[last as int]],
        tens > 0 ==> number::decimal(10 * tens + last) == number::decimal(tens).push(
            ten_digits()[last as int],
        ),
{
    assert((10 * tens + last) / 10 == tens);
    assert((10 * tens + last) % 10 == last);
    assert(number::digit_char(last as int) == ten_digits()[last as int]);
}

/// A number is read digit by digit: one more digit makes it ten times as large
/// and adds the digit, zeros in front do not matter, and the limit itself is
/// still read.
pub proof fn numbers_are_read_digit_by_digit(s: Seq<char>, last: nat, max: nat)
    requires
        last < 10,
        s.len() > 0,
        s[0] != '+',
    ensures
        ({
            let longer = s.push(ten_digits()[last as int]);
            &&& number::numeral(s, 10, max) matches Some(n) ==> number::numeral(longer, 10, max)
                == (if 10 * n + last <= max {
                    Some(10 * n + last)
                } else {
                    None::<nat>
                })
            &&& number::numeral(seq!['0'] + s, 10, max) == number::numeral(s, 10, max)
        }),
{
    let longer = s.push(ten_digits()[last as int]);
    assert(longer.drop_last() =~= s);
    assert(number::digit_value(ten_digits()[last as int], 10) == Some(last));
    lemma_leading_zero(s);
}

proof fn lemma_leading_zero(s: Seq<char>)
    ensures
        number::digits_value(seq!['0'] + s, 10) == number::digits_value(s, 10),
    decreases s.len(),
{
    let longer = seq!['0'] + s;
    if s.len() == 0 {
        assert(longer.drop_last() =~= Seq::empty());
        assert(number::digits_value(Seq::<char>::empty(), 10) == Some(0nat));
        assert(s =~= Seq::empty());
    } else {
        lemma_leading_zero(s.drop_last());
        assert(longer.drop_last() =~= seq!['0'] + s.drop_last());
    }
}

/// A negative number is written with a minus sign before its digits, another
/// one with its digits alone.
pub proof fn signs_are_written(n: nat)
    ensures
        number::signed_decimal(n as int) == number::decimal(n),
        n > 0 ==> number::signed_decimal(-n) == seq!['-'] + number::decimal(n),
{
    reveal_strlit("-");
    assert("-"@ =~= seq!['-']);
}

/// What a text is made of is found in it: at its start, at its end and inside.
pub proof fn parts_are_found(before: Seq<char>, part: Seq<char>, after: Seq<char>)
    ensures
        text::begins_with(part + after, part),
        text::ends_in(before + part, part),
        text::occurs(before + part + after, part),
        text::stands_at(before + part + after, part, before.len() as int),
{
    assert((part + after).take(part.len() as int) =~= part);
    let ended = before + part;
    assert(ended.skip(ended.len() - part.len()) =~= part);
    let whole = before + part + after;
    let at = before.len() as int;
    assert(whole.subrange(at, at + part.len()) =~= part);
    assert(text::stands_at(whole, part, at));
}

/// Nothing else is found: a text that begins with, ends in or holds a part is
/// made of it and of what stands around it.
pub proof fn what_is_found_is_a_part(s: Seq<char>, part: Seq<char>, at: int)
    ensures
        text::begins_with(s, part) ==> s == part + s.skip(part.len() as int),
        text::ends_in(s, part) ==> s == s.take(s.len() - part.len()) + part,
        text::stands_at(s, part, at) ==> s == s.take(at) + part + s.skip(at + part.len()),
        text::occurs(s, part) <==> exists|i: int|
            0 <= i <= s.len() - part.len() && #[trigger] s.take(i) + part + s.skip(i + part.len())
                == s,
{
    if text::begins_with(s, part) {
        assert(s =~= s.take(part.len() as int) + s.skip(part.len() as int));
    }
    if text::ends_in(s, part) {
        assert(s =~= s.take(s.len() - part.len()) + s.skip(s.len() - part.len()));
    }
    assert forall|i: int| text::stands_at(s, part, i) implies s == #[trigger] s.take(i) + part
        + s.skip(i + part.len()) by {
        assert(s =~= s.take(i) + s.subrange(i, i + part.len()) + s.skip(i + part.len()));
    }
    if text::stands_at(s, part, at) {
        assert(s == s.take(at) + part + s.skip(at + part.len()));
    }
    if text::occurs(s, part) {
        let i = choose|i: int| text::stands_at(s, part, i);
        assert(s.take(i) + part + s.skip(i + part.len()) == s);
    }
    if exists|i: int|
        0 <= i <= s.len() - part.len() && #[trigger] s.take(i) + part + s.skip(i + part.len())
            == s {
        let i = choose|i: int|
            0 <= i <= s.len() - part.len() && #[trigger] s.take(i) + part + s.skip(i + part.len())
                == s;
        parts_are_found(s.take(i), part, s.skip(i + part.len()));
    }
}

/// Joining puts the separator between neighbours and nowhere else.
pub proof fn joining_separates_neighbours(
    parts: Seq<Seq<char>>,
    next: Seq<char>,
    separator: Seq<char>,
)
    ensures
        text::joined(seq![next], separator) == next,
        parts.len() > 0 ==> text::joined(parts.push(next), separator) == text::joined(
            parts,
            separator,
        ) + separator + next,
        text::joined(Seq::empty(), separator) == Seq::<char>::empty(),
{
    assert(parts.push(next).drop_last() =~= parts);
}

} // verus!
