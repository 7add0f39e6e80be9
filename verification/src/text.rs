//! Text as sequences of characters: the splitting, searching, number parsing
//! and formatting that the rest of the crate is stated in.

use vstd::prelude::*;
use vstd::slice::slice_subrange;

verus! {

/// `String::push` appends one character.
pub assume_specification[ String::push ](s: &mut String, c: char)
    ensures
        final(s)@ == old(s)@.push(c),
;

/// The characters of a string slice.
pub fn chars_of(s: &str) -> (chars: Vec<char>)
    ensures
        chars@ == s@,
{
    let mut chars: Vec<char> = Vec::new();
    for c in it: s.chars()
        invariant
            chars@ == it.seq().take(it.index()),
            it.seq() == s@,
    {
        chars.push(c);
    }
    chars
}

/// The string made of the given characters.
pub fn string_of(chars: &[char]) -> (s: String)
    ensures
        s@ == chars@,
{
    let mut s = String::new();
    let mut i: usize = 0;
    while i < chars.len()
        invariant
            i <= chars@.len(),
            s@ == chars@.take(i as int),
        decreases chars@.len() - i,
    {
        s.push(chars[i]);
        proof {
            assert(chars@.take(i + 1) =~= chars@.take(i as int).push(chars@[i as int]));
        }
        i += 1;
    }
    assert(chars@.take(chars@.len() as int) =~= chars@);
    s
}

/// Two character slices hold the same text.
pub fn same_chars(a: &[char], b: &[char]) -> (same: bool)
    ensures
        same == (a@ == b@),
{
    if a.len() != b.len() {
        return false;
    }
    let mut i: usize = 0;
    while i < a.len()
        invariant
            i <= a@.len(),
            a@.len() == b@.len(),
            forall|j: int| 0 <= j < i ==> a@[j] == b@[j],
        decreases a@.len() - i,
    {
        if a[i] != b[i] {
            return false;
        }
        i += 1;
    }
    assert(a@ =~= b@);
    true
}

/// Two strings hold the same text.
pub fn same_text(a: &str, b: &str) -> (same: bool)
    ensures
        same == (a@ == b@),
{
    let left = chars_of(a);
    let right = chars_of(b);
    same_chars(left.as_slice(), right.as_slice())
}

// ---------------------------------------------------------------------------
// Whitespace
// ---------------------------------------------------------------------------

/// The characters with the Unicode `White_Space` property.
pub open spec fn is_space(c: char) -> bool {
    let u = c as int;
    ||| 0x09 <= u <= 0x0d
    ||| u == 0x20
    ||| u == 0x85
    ||| u == 0xa0
    ||| u == 0x1680
    ||| 0x2000 <= u <= 0x200a
    ||| u == 0x2028
    ||| u == 0x2029
    ||| u == 0x202f
    ||| u == 0x205f
    ||| u == 0x3000
}

/// Decides whether a character is whitespace.
pub fn char_is_space(c: char) -> (space: bool)
    ensures
        space == is_space(c),
{
    let u = c as u32;
    (0x09 <= u && u <= 0x0d) || u == 0x20 || u == 0x85 || u == 0xa0 || u == 0x1680 || (0x2000 <= u
        && u <= 0x200a) || u == 0x2028 || u == 0x2029 || u == 0x202f || u == 0x205f || u == 0x3000
}

/// `s` without the whitespace at its start.
pub open spec fn trim_start(s: Seq<char>) -> Seq<char>
    decreases s.len(),
{
    if s.len() > 0 && is_space(s.first()) {
        trim_start(s.drop_first())
    } else {
        s
    }
}

/// `s` without the whitespace at its end.
pub open spec fn trim_end(s: Seq<char>) -> Seq<char>
    decreases s.len(),
{
    if s.len() > 0 && is_space(s.last()) {
        trim_end(s.drop_last())
    } else {
        s
    }
}

/// `s` without the whitespace at either end.
pub open spec fn trimmed(s: Seq<char>) -> Seq<char> {
    trim_end(trim_start(s))
}

/// Removes the whitespace at either end.
pub fn trim_chars(s: &[char]) -> (t: &[char])
    ensures
        t@ == trimmed(s@),
{
    let mut lo: usize = 0;
    assert(s@.skip(0) =~= s@);
    while lo < s.len() && char_is_space(s[lo])
        invariant
            lo <= s@.len(),
            trim_start(s@) == trim_start(s@.skip(lo as int)),
        decreases s@.len() - lo,
    {
        assert(s@.skip(lo as int).drop_first() =~= s@.skip(lo + 1));
        lo += 1;
    }
    let ghost body = s@.skip(lo as int);
    assert(trim_start(s@) == body);
    let mut hi: usize = s.len();
    assert(s@.subrange(lo as int, hi as int) =~= body);
    while hi > lo && char_is_space(s[hi - 1])
        invariant
            lo <= hi <= s@.len(),
            trim_end(body) == trim_end(s@.subrange(lo as int, hi as int)),
        decreases hi,
    {
        assert(s@.subrange(lo as int, hi as int).drop_last() =~= s@.subrange(
            lo as int,
            hi - 1,
        ));
        hi -= 1;
    }
    slice_subrange(s, lo, hi)
}

// ---------------------------------------------------------------------------
// Splitting
// ---------------------------------------------------------------------------

/// The texts held by a sequence of character vectors.
pub open spec fn texts(v: Seq<Vec<char>>) -> Seq<Seq<char>> {
    v.map_values(|t: Vec<char>| t@)
}

/// The pieces of `s` between the characters that satisfy `cut`. There is
/// always at least one piece, and pieces may be empty.
pub open spec fn split_where(s: Seq<char>, cut: spec_fn(char) -> bool) -> Seq<Seq<char>>
    decreases s.len(),
{
    if s.len() == 0 {
        seq![Seq::empty()]
    } else {
        let pieces = split_where(s.drop_last(), cut);
        if cut(s.last()) {
            pieces.push(Seq::empty())
        } else {
            pieces.drop_last().push(pieces.last().push(s.last()))
        }
    }
}

/// The predicate that only `sep` satisfies.
pub open spec fn is_char(sep: char) -> spec_fn(char) -> bool {
    |c: char| c == sep
}

/// The pieces of `s` between occurrences of `sep`.
pub open spec fn split_on(s: Seq<char>, sep: char) -> Seq<Seq<char>> {
    split_where(s, is_char(sep))
}

/// The maximal runs of non-whitespace characters of `s`, in order.
pub open spec fn words(s: Seq<char>) -> Seq<Seq<char>> {
    split_where(s, |c: char| is_space(c)).filter(|w: Seq<char>| w.len() > 0)
}

/// `line` without one carriage return at its end.
pub open spec fn without_cr(line: Seq<char>) -> Seq<char> {
    if line.len() > 0 && line.last() == '\r' {
        line.drop_last()
    } else {
        line
    }
}

/// The lines of `s`: the pieces between line feeds, the empty piece after a
/// final line feed left out. A line that a line feed ends also loses one
/// carriage return before it.
pub open spec fn lines(s: Seq<char>) -> Seq<Seq<char>> {
    let pieces = split_on(s, '\n');
    let ended = pieces.drop_last().map_values(|line: Seq<char>| without_cr(line));
    if pieces.last().len() == 0 {
        ended
    } else {
        ended.push(pieces.last())
    }
}

/// A text has at least one piece.
pub proof fn lemma_split_nonempty(s: Seq<char>, cut: spec_fn(char) -> bool)
    ensures
        split_where(s, cut).len() >= 1,
    decreases s.len(),
{
    if s.len() > 0 {
        lemma_split_nonempty(s.drop_last(), cut);
    }
}

/// No character of `s` is `c`.
pub open spec fn free_of(s: Seq<char>, c: char) -> bool {
    forall|i: int| 0 <= i < s.len() ==> s[i] != c
}

/// A text without the separator is one piece.
pub proof fn lemma_split_free(s: Seq<char>, sep: char)
    requires
        free_of(s, sep),
    ensures
        split_on(s, sep) == seq![s],
    decreases s.len(),
{
    if s.len() == 0 {
        assert(s =~= Seq::empty());
    } else {
        let shorter = s.drop_last();
        assert(free_of(shorter, sep)) by {
            assert(forall|i: int| 0 <= i < shorter.len() ==> shorter[i] == s[i]);
        }
        lemma_split_free(shorter, sep);
        assert(shorter.push(s.last()) =~= s);
        assert(split_on(s, sep) =~= seq![s]);
    }
}

/// A separator cuts a text in two, and each part splits by itself.
pub proof fn lemma_split_at(a: Seq<char>, sep: char, b: Seq<char>)
    ensures
        split_on(a.push(sep) + b, sep) == split_on(a, sep) + split_on(b, sep),
    decreases b.len(),
{
    let whole = a.push(sep) + b;
    let left = split_on(a, sep);
    lemma_split_nonempty(b, is_char(sep));
    if b.len() == 0 {
        assert(whole.drop_last() =~= a);
        assert(whole.last() == sep);
        assert(split_on(b, sep) =~= seq![Seq::empty()]);
        assert(split_on(whole, sep) =~= left + split_on(b, sep));
    } else {
        let shorter = b.drop_last();
        assert(whole.drop_last() =~= a.push(sep) + shorter);
        assert(whole.last() == b.last());
        lemma_split_at(a, sep, shorter);
        lemma_split_nonempty(shorter, is_char(sep));
        let right = split_on(shorter, sep);
        let inner = left + right;
        if b.last() == sep {
            assert(inner.push(Seq::empty()) =~= left + right.push(Seq::empty()));
        } else {
            let last = right.last().push(b.last());
            assert(inner.last() == right.last());
            assert(inner.drop_last().push(last) =~= left + right.drop_last().push(last));
        }
    }
}

proof fn lemma_texts_push(v: Seq<Vec<char>>, t: Vec<char>)
    ensures
        texts(v.push(t)) == texts(v).push(t@),
{
    assert(texts(v.push(t)) =~= texts(v).push(t@));
}

/// Splits at every occurrence of a character.
pub fn split_chars_on(s: &[char], sep: char) -> (pieces: Vec<Vec<char>>)
    ensures
        texts(pieces@) == split_on(s@, sep),
{
    let ghost cut = is_char(sep);
    let mut done: Vec<Vec<char>> = Vec::new();
    let mut current: Vec<char> = Vec::new();
    let mut i: usize = 0;
    assert(s@.take(0) =~= Seq::empty());
    assert(texts(done@).push(current@) =~= split_where(s@.take(0), cut));
    while i < s.len()
        invariant
            i <= s@.len(),
            cut == is_char(sep),
            texts(done@).push(current@) == split_where(s@.take(i as int), cut),
        decreases s@.len() - i,
    {
        let c = s[i];
        let ghost before = texts(done@).push(current@);
        assert(s@.take(i + 1).drop_last() =~= s@.take(i as int));
        assert(s@.take(i + 1).last() == c);
        assert(before.drop_last() =~= texts(done@));
        if c == sep {
            proof {
                lemma_texts_push(done@, current);
            }
            done.push(current);
            current = Vec::new();
            assert(texts(done@).push(current@) =~= before.push(Seq::empty()));
        } else {
            current.push(c);
        }
        i += 1;
    }
    assert(s@.take(s@.len() as int) =~= s@);
    proof {
        lemma_texts_push(done@, current);
    }
    done.push(current);
    done
}

/// Splits at whitespace and keeps the pieces that are not empty.
pub fn words_of(s: &[char]) -> (found: Vec<Vec<char>>)
    ensures
        texts(found@) == words(s@),
{
    let ghost cut = |c: char| is_space(c);
    let ghost kept = |w: Seq<char>| w.len() > 0;
    let mut found: Vec<Vec<char>> = Vec::new();
    let mut current: Vec<char> = Vec::new();
    let mut i: usize = 0;
    let ghost mut pieces: Seq<Seq<char>> = Seq::empty();
    assert(s@.take(0) =~= Seq::empty());
    assert(pieces.push(current@) =~= split_where(s@.take(0), cut));
    proof {
        reveal(Seq::filter);
        assert(texts(found@) =~= pieces.filter(kept));
    }
    while i < s.len()
        invariant
            i <= s@.len(),
            cut == (|c: char| is_space(c)),
            kept == (|w: Seq<char>| w.len() > 0),
            pieces.push(current@) == split_where(s@.take(i as int), cut),
            texts(found@) == pieces.filter(kept),
        decreases s@.len() - i,
    {
        let c = s[i];
        let ghost before = pieces.push(current@);
        assert(s@.take(i + 1).drop_last() =~= s@.take(i as int));
        assert(s@.take(i + 1).last() == c);
        assert(before.drop_last() =~= pieces);
        if char_is_space(c) {
            proof {
                lemma_filter_push(pieces, current@, kept);
                pieces = pieces.push(current@);
            }
            if current.len() > 0 {
                proof {
                    lemma_texts_push(found@, current);
                }
                found.push(current);
            }
            current = Vec::new();
            assert(pieces.push(current@) =~= before.push(Seq::empty()));
        } else {
            current.push(c);
        }
        i += 1;
    }
    assert(s@.take(s@.len() as int) =~= s@);
    proof {
        lemma_filter_push(pieces, current@, kept);
        lemma_texts_push(found@, current);
    }
    if current.len() > 0 {
        found.push(current);
    }
    found
}

proof fn lemma_filter_push(s: Seq<Seq<char>>, x: Seq<char>, kept: spec_fn(Seq<char>) -> bool)
    ensures
        s.push(x).filter(kept) == (if kept(x) {
            s.filter(kept).push(x)
        } else {
            s.filter(kept)
        }),
{
    reveal(Seq::filter);
    assert(s.push(x).drop_last() =~= s);
}

/// Splits a text into its lines.
pub fn lines_of(s: &[char]) -> (found: Vec<Vec<char>>)
    ensures
        texts(found@) == lines(s@),
{
    let mut pieces = split_chars_on(s, '\n');
    let ghost all = texts(pieces@);
    proof {
        lemma_split_nonempty(s@, is_char('\n'));
    }
    let count = pieces.len();
    let mut found: Vec<Vec<char>> = Vec::new();
    let mut i: usize = 0;
    let ghost ended = all.drop_last().map_values(|line: Seq<char>| without_cr(line));
    while i + 1 < count
        invariant
            count == pieces@.len(),
            all == texts(pieces@),
            i < count,
            ended == all.drop_last().map_values(|line: Seq<char>| without_cr(line)),
            texts(found@) == ended.take(i as int),
        decreases count - i,
    {
        let mut line = pieces[i].clone();
        assert(line@ =~= pieces@[i as int]@);
        if line.len() > 0 && line[line.len() - 1] == '\r' {
            line.pop();
            assert(line@ =~= pieces@[i as int]@.drop_last());
        }
        assert(line@ == without_cr(all[i as int]));
        proof {
            lemma_texts_push(found@, line);
            assert(ended.take(i + 1) =~= ended.take(i as int).push(ended[i as int]));
        }
        found.push(line);
        i += 1;
    }
    assert(ended.take(i as int) =~= ended);
    let last = pieces[count - 1].clone();
    assert(last@ =~= all.last());
    if last.len() > 0 {
        proof {
            lemma_texts_push(found@, last);
        }
        found.push(last);
    }
    found
}

// ---------------------------------------------------------------------------
// Searching
// ---------------------------------------------------------------------------

/// `pattern` stands in `s` at position `at`.
pub open spec fn stands_at(s: Seq<char>, pattern: Seq<char>, at: int) -> bool {
    0 <= at && at + pattern.len() <= s.len() && s.subrange(at, at + pattern.len()) == pattern
}

/// `pattern` occurs somewhere in `s`.
pub open spec fn occurs(s: Seq<char>, pattern: Seq<char>) -> bool {
    exists|at: int| stands_at(s, pattern, at)
}

/// `at` is the last position where `pattern` stands in `s`.
pub open spec fn last_at(s: Seq<char>, pattern: Seq<char>, at: int) -> bool {
    stands_at(s, pattern, at) && forall|later: int| at < later ==> !stands_at(s, pattern, later)
}

/// `s` begins with `prefix`.
pub open spec fn begins_with(s: Seq<char>, prefix: Seq<char>) -> bool {
    prefix.len() <= s.len() && s.take(prefix.len() as int) == prefix
}

/// `s` ends with `suffix`.
pub open spec fn ends_in(s: Seq<char>, suffix: Seq<char>) -> bool {
    suffix.len() <= s.len() && s.skip(s.len() - suffix.len()) == suffix
}

/// Decides whether a pattern stands at a position.
pub fn match_at(s: &[char], pattern: &[char], at: usize) -> (found: bool)
    ensures
        found == stands_at(s@, pattern@, at as int),
{
    if at > s.len() || pattern.len() > s.len() - at {
        return false;
    }
    same_chars(slice_subrange(s, at, at + pattern.len()), pattern)
}

/// Decides whether a pattern occurs.
pub fn contains_chars(s: &[char], pattern: &[char]) -> (found: bool)
    ensures
        found == occurs(s@, pattern@),
{
    let mut at: usize = 0;
    while at < s.len()
        invariant
            at <= s@.len(),
            forall|j: int| 0 <= j < at ==> !stands_at(s@, pattern@, j),
        decreases s@.len() - at,
    {
        if match_at(s, pattern, at) {
            return true;
        }
        at += 1;
    }
    match_at(s, pattern, at)
}

/// Finds the last occurrence of a pattern.
pub fn find_last(s: &[char], pattern: &[char]) -> (found: Option<usize>)
    ensures
        match found {
            Some(at) => last_at(s@, pattern@, at as int),
            None => !occurs(s@, pattern@),
        },
{
    let mut at: usize = s.len();
    if match_at(s, pattern, at) {
        return Some(at);
    }
    while at > 0
        invariant
            at <= s@.len(),
            forall|j: int| at <= j ==> !stands_at(s@, pattern@, j),
        decreases at,
    {
        at -= 1;
        if match_at(s, pattern, at) {
            return Some(at);
        }
    }
    None
}

/// Decides whether a text begins with a prefix.
pub fn starts_with_chars(s: &[char], prefix: &[char]) -> (starts: bool)
    ensures
        starts == begins_with(s@, prefix@),
{
    if prefix.len() > s.len() {
        return false;
    }
    assert(s@.take(prefix@.len() as int) =~= s@.subrange(0, prefix@.len() as int));
    same_chars(slice_subrange(s, 0, prefix.len()), prefix)
}

/// Decides whether a text ends in a suffix.
pub fn ends_with_chars(s: &[char], suffix: &[char]) -> (ends: bool)
    ensures
        ends == ends_in(s@, suffix@),
{
    if suffix.len() > s.len() {
        return false;
    }
    let from: usize = s.len() - suffix.len();
    assert(s@.skip(from as int) =~= s@.subrange(from as int, s@.len() as int));
    same_chars(slice_subrange(s, from, s.len()), suffix)
}

// ---------------------------------------------------------------------------
// Building
// ---------------------------------------------------------------------------

/// `s` with every `from` turned into `to`.
pub open spec fn with_replaced(s: Seq<char>, from: char, to: char) -> Seq<char> {
    s.map_values(|c: char| if c == from { to } else { c })
}

/// Replaces every occurrence of one character by another.
pub fn replace_char(s: &str, from: char, to: char) -> (replaced: String)
    ensures
        replaced@ == with_replaced(s@, from, to),
{
    let mut replaced = String::new();
    for c in it: s.chars()
        invariant
            it.seq() == s@,
            replaced@ == with_replaced(it.seq().take(it.index()), from, to),
    {
        let ghost seen = it.seq().take(it.index());
        assert(it.seq().take(it.index() + 1) =~= seen.push(c));
        assert(with_replaced(seen.push(c), from, to) =~= with_replaced(seen, from, to).push(
            if c == from {
                to
            } else {
                c
            },
        ));
        if c == from {
            replaced.push(to);
        } else {
            replaced.push(c);
        }
    }
    assert(s@.take(s@.len() as int) =~= s@);
    replaced
}

/// The texts held by a sequence of strings.
pub open spec fn string_texts(v: Seq<String>) -> Seq<Seq<char>> {
    v.map_values(|t: String| t@)
}

/// Two texts one after the other.
pub fn followed_by(first: &str, second: &str) -> (text: String)
    ensures
        text@ == first@ + second@,
{
    let mut text = first.to_string();
    text.append(second);
    text
}

/// Makes strings of character vectors.
pub fn strings_of(pieces: &Vec<Vec<char>>) -> (strings: Vec<String>)
    ensures
        string_texts(strings@) == texts(pieces@),
{
    let mut strings: Vec<String> = Vec::new();
    let mut i: usize = 0;
    while i < pieces.len()
        invariant
            i <= pieces@.len(),
            strings@.len() == i,
            forall|j: int| 0 <= j < i ==> (#[trigger] strings@[j])@ == pieces@[j]@,
        decreases pieces@.len() - i,
    {
        strings.push(string_of(pieces[i].as_slice()));
        i += 1;
    }
    assert(string_texts(strings@) =~= texts(pieces@));
    strings
}

/// The parts one after the other with `sep` between neighbours.
pub open spec fn joined(parts: Seq<Seq<char>>, sep: Seq<char>) -> Seq<char>
    decreases parts.len(),
{
    if parts.len() == 0 {
        Seq::empty()
    } else if parts.len() == 1 {
        parts[0]
    } else {
        joined(parts.drop_last(), sep) + sep + parts.last()
    }
}

/// Joins strings with a separator between neighbours.
pub fn join_strings(parts: &Vec<String>, sep: &str) -> (text: String)
    ensures
        text@ == joined(string_texts(parts@), sep@),
{
    let mut text = String::new();
    let mut i: usize = 0;
    let ghost all = string_texts(parts@);
    assert(all.take(0) =~= Seq::empty());
    while i < parts.len()
        invariant
            i <= parts@.len(),
            all == string_texts(parts@),
            text@ == joined(all.take(i as int), sep@),
        decreases parts@.len() - i,
    {
        assert(all.take(i + 1).drop_last() =~= all.take(i as int));
        assert(all.take(i + 1).last() == parts@[i as int]@);
        if i > 0 {
            text.append(sep);
        }
        text.append(parts[i].as_str());
        assert(text@ =~= joined(all.take(i + 1), sep@));
        i += 1;
    }
    assert(all.take(all.len() as int) =~= all);
    text
}

/// Joining fields that are free of the separator and splitting the result
/// gives the fields back.
pub proof fn joined_fields_split_back(fields: Seq<Seq<char>>, sep: char)
    requires
        fields.len() > 0,
        forall|i: int| 0 <= i < fields.len() ==> free_of(#[trigger] fields[i], sep),
    ensures
        split_on(joined(fields, seq![sep]), sep) == fields,
    decreases fields.len(),
{
    if fields.len() == 1 {
        lemma_split_free(fields[0], sep);
        assert(seq![fields[0]] =~= fields);
    } else {
        let shorter = fields.drop_last();
        assert forall|i: int| 0 <= i < shorter.len() implies free_of(#[trigger] shorter[i], sep) by {
            assert(shorter[i] == fields[i]);
        }
        joined_fields_split_back(shorter, sep);
        let head = joined(shorter, seq![sep]);
        lemma_split_at(head, sep, fields.last());
        lemma_split_free(fields.last(), sep);
        assert(head + seq![sep] + fields.last() =~= head.push(sep) + fields.last());
        assert(shorter + seq![fields.last()] =~= fields);
    }
}

// ---------------------------------------------------------------------------
// Order
// ---------------------------------------------------------------------------

/// `a` comes before `b`, or is `b`, in the dictionary order of code points.
pub open spec fn text_le(a: Seq<char>, b: Seq<char>) -> bool
    decreases a.len(),
{
    if a.len() == 0 {
        true
    } else if b.len() == 0 {
        false
    } else if a[0] == b[0] {
        text_le(a.drop_first(), b.drop_first())
    } else {
        (a[0] as int) < (b[0] as int)
    }
}

/// Compares two texts in dictionary order.
pub fn chars_le(a: &[char], b: &[char]) -> (le: bool)
    ensures
        le == text_le(a@, b@),
{
    let mut i: usize = 0;
    assert(a@.skip(0) =~= a@);
    assert(b@.skip(0) =~= b@);
    while i < a.len() && i < b.len()
        invariant
            i <= a@.len(),
            i <= b@.len(),
            text_le(a@, b@) == text_le(a@.skip(i as int), b@.skip(i as int)),
        decreases a@.len() - i,
    {
        if a[i] != b[i] {
            let left: char = a[i];
            let right: char = b[i];
            return left < right;
        }
        assert(a@.skip(i as int).drop_first() =~= a@.skip(i + 1));
        assert(b@.skip(i as int).drop_first() =~= b@.skip(i + 1));
        i += 1;
    }
    i == a.len()
}

/// The dictionary order holds between a text and itself.
pub proof fn lemma_text_le_reflexive(a: Seq<char>)
    ensures
        text_le(a, a),
    decreases a.len(),
{
    if a.len() > 0 {
        lemma_text_le_reflexive(a.drop_first());
    }
}

/// Of two texts one comes before the other, and only a text itself both
/// before and after it.
pub proof fn lemma_text_le_total(a: Seq<char>, b: Seq<char>)
    ensures
        text_le(a, b) || text_le(b, a),
        text_le(a, b) && text_le(b, a) ==> a == b,
    decreases a.len(),
{
    if a.len() > 0 && b.len() > 0 {
        if a[0] == b[0] {
            lemma_text_le_total(a.drop_first(), b.drop_first());
            assert(a =~= seq![a[0]] + a.drop_first());
            assert(b =~= seq![b[0]] + b.drop_first());
        }
    } else {
        assert(a.len() == 0 && b.len() == 0 ==> a =~= b);
    }
}

/// The dictionary order is transitive.
pub proof fn lemma_text_le_transitive(a: Seq<char>, b: Seq<char>, c: Seq<char>)
    requires
        text_le(a, b),
        text_le(b, c),
    ensures
        text_le(a, c),
    decreases a.len(),
{
    if a.len() > 0 && b.len() > 0 && c.len() > 0 && a[0] == b[0] && b[0] == c[0] {
        lemma_text_le_transitive(a.drop_first(), b.drop_first(), c.drop_first());
    }
}

} // verus!
