//! Splitting an input line into tokens.
//!
//! A line is first stripped of the white space at both of its ends and then
//! cut at every single space character. Nothing else separates tokens: two
//! spaces in a row enclose an empty token, and a tab is part of the token it
//! stands in.

use vstd::prelude::*;

verus! {

/// Whether `c` is a white-space character: one of the code points that
/// Unicode gives the `White_Space` property.
pub open spec fn is_whitespace(c: char) -> bool {
    let code = c as u32;
    ||| 0x0009 <= code <= 0x000D
    ||| code == 0x0020
    ||| code == 0x0085
    ||| code == 0x00A0
    ||| code == 0x1680
    ||| 0x2000 <= code <= 0x200A
    ||| code == 0x2028
    ||| code == 0x2029
    ||| code == 0x202F
    ||| code == 0x205F
    ||| code == 0x3000
}

/// Decides whether `c` is a white-space character.
pub fn char_is_whitespace(c: char) -> (answer: bool)
    ensures
        answer == is_whitespace(c),
{
    let code: u32 = c as u32;
    (0x0009 <= code && code <= 0x000D) || code == 0x0020 || code == 0x0085 || code == 0x00A0
        || code == 0x1680 || (0x2000 <= code && code <= 0x200A) || code == 0x2028 || code == 0x2029
        || code == 0x202F || code == 0x205F || code == 0x3000
}

/// `s` without the white space it begins with.
pub open spec fn trim_start(s: Seq<char>) -> Seq<char>
    decreases s.len(),
{
    if s.len() > 0 && is_whitespace(s.first()) {
        trim_start(s.drop_first())
    } else {
        s
    }
}

/// `s` without the white space it ends with.
pub open spec fn trim_end(s: Seq<char>) -> Seq<char>
    decreases s.len(),
{
    if s.len() > 0 && is_whitespace(s.last()) {
        trim_end(s.drop_last())
    } else {
        s
    }
}

/// `s` without the white space at either end.
pub open spec fn trim(s: Seq<char>) -> Seq<char> {
    trim_end(trim_start(s))
}

/// The position of the first `separator` in `s`, or `s.len()` where `s`
/// holds none.
pub open spec fn first_separator(s: Seq<char>, separator: char) -> int
    decreases s.len(),
{
    if s.len() == 0 || s.first() == separator {
        0
    } else {
        1 + first_separator(s.drop_first(), separator)
    }
}

/// The pieces that `s` falls into when it is cut at every `separator`.
///
/// The first piece runs up to the first separator; the others are the
/// pieces of what follows it. A sequence without a separator, the empty one
/// included, is a single piece.
pub open spec fn split(s: Seq<char>, separator: char) -> Seq<Seq<char>>
    decreases s.len(),
{
    let cut = first_separator(s, separator);
    if 0 <= cut < s.len() {
        seq![s.take(cut)] + split(s.skip(cut + 1), separator)
    } else {
        seq![s]
    }
}

/// The tokens of an input line: the line is trimmed, then cut at every
/// single space.
pub open spec fn tokens(line: Seq<char>) -> Seq<Seq<char>> {
    split(trim(line), ' ')
}

/// Stripping the leading white space leaves exactly what starts at the first
/// character that is not white space.
pub proof fn lemma_trim_start_skips(s: Seq<char>, start: int)
    requires
        0 <= start <= s.len(),
        forall|i: int| 0 <= i < start ==> is_whitespace(s[i]),
        start < s.len() ==> !is_whitespace(s[start]),
    ensures
        trim_start(s) == s.skip(start),
    decreases start,
{
    if start == 0 {
        assert(s.skip(0) =~= s);
    } else {
        lemma_trim_start_skips(s.drop_first(), start - 1);
        assert(s.drop_first().skip(start - 1) =~= s.skip(start));
    }
}

/// Stripping the trailing white space leaves exactly what ends at the last
/// character that is not white space.
pub proof fn lemma_trim_end_takes(s: Seq<char>, end: int)
    requires
        0 <= end <= s.len(),
        forall|i: int| end <= i < s.len() ==> is_whitespace(s[i]),
        0 < end ==> !is_whitespace(s[end - 1]),
    ensures
        trim_end(s) == s.take(end),
    decreases s.len() - end,
{
    if end == s.len() {
        assert(s.take(end) =~= s);
    } else {
        lemma_trim_end_takes(s.drop_last(), end);
        assert(s.drop_last().take(end) =~= s.take(end));
    }
}

/// Where the first separator stands: at `cut`, if no separator stands before
/// `cut` and either `cut` is the end of `s` or a separator stands there.
pub proof fn lemma_first_separator_at(s: Seq<char>, separator: char, cut: int)
    requires
        0 <= cut <= s.len(),
        forall|i: int| 0 <= i < cut ==> s[i] != separator,
        cut < s.len() ==> s[cut] == separator,
    ensures
        first_separator(s, separator) == cut,
    decreases cut,
{
    if cut > 0 {
        lemma_first_separator_at(s.drop_first(), separator, cut - 1);
    }
}

/// The pieces put together again, with one `separator` between each two
/// neighbours.
pub open spec fn join(pieces: Seq<Seq<char>>, separator: char) -> Seq<char>
    decreases pieces.len(),
{
    if pieces.len() == 0 {
        Seq::empty()
    } else if pieces.len() == 1 {
        pieces[0]
    } else {
        pieces[0] + seq![separator] + join(pieces.drop_first(), separator)
    }
}

/// `first_separator` points at the first separator and nowhere else: it lies
/// within `s` or at its end, nothing before it is a separator, and inside `s`
/// it is one.
pub proof fn lemma_first_separator_is_first(s: Seq<char>, separator: char)
    ensures
        0 <= first_separator(s, separator) <= s.len(),
        forall|i: int| 0 <= i < first_separator(s, separator) ==> s[i] != separator,
        first_separator(s, separator) < s.len() ==> s[first_separator(s, separator)] == separator,
    decreases s.len(),
{
    if s.len() > 0 && s.first() != separator {
        let tail = s.drop_first();
        lemma_first_separator_is_first(tail, separator);
        assert forall|i: int| 0 <= i < first_separator(s, separator) implies s[i] != separator by {
            if i > 0 {
                assert(s[i] == tail[i - 1]);
            }
        }
    }
}

/// Cutting yields at least one piece, and no piece holds a separator.
pub proof fn lemma_split_pieces(s: Seq<char>, separator: char)
    ensures
        split(s, separator).len() >= 1,
        forall|k: int|
            0 <= k < split(s, separator).len() ==> !(#[trigger] split(s, separator)[k]).contains(
                separator,
            ),
    decreases s.len(),
{
    let cut = first_separator(s, separator);
    lemma_first_separator_is_first(s, separator);
    if cut < s.len() {
        let rest = split(s.skip(cut + 1), separator);
        lemma_split_pieces(s.skip(cut + 1), separator);
        assert forall|k: int| 0 <= k < split(s, separator).len() implies !(#[trigger] split(
            s,
            separator,
        )[k]).contains(separator) by {
            if k > 0 {
                assert(split(s, separator)[k] == rest[k - 1]);
            }
        }
    }
}

/// Cutting loses nothing: the pieces, joined by the separator, are the
/// sequence that was cut.
pub proof fn lemma_split_joins_back(s: Seq<char>, separator: char)
    ensures
        join(split(s, separator), separator) == s,
    decreases s.len(),
{
    let cut = first_separator(s, separator);
    lemma_first_separator_is_first(s, separator);
    if cut < s.len() {
        let rest = split(s.skip(cut + 1), separator);
        lemma_split_joins_back(s.skip(cut + 1), separator);
        lemma_split_pieces(s.skip(cut + 1), separator);
        assert(split(s, separator).drop_first() =~= rest);
        assert(s.take(cut) + seq![separator] + s.skip(cut + 1) =~= s);
    }
}

/// Cutting is the only way to take a sequence apart at its separators: one or
/// more pieces that hold no separator and join to `s` are the pieces of `s`.
pub proof fn lemma_split_is_unique(pieces: Seq<Seq<char>>, s: Seq<char>, separator: char)
    requires
        pieces.len() >= 1,
        forall|k: int| 0 <= k < pieces.len() ==> !(#[trigger] pieces[k]).contains(separator),
        join(pieces, separator) == s,
    ensures
        pieces == split(s, separator),
    decreases pieces.len(),
{
    let head = pieces[0];
    assert(!head.contains(separator));
    if pieces.len() == 1 {
        lemma_first_separator_at(s, separator, s.len() as int);
        assert(pieces =~= seq![s]);
    } else {
        let others = pieces.drop_first();
        let tail = join(others, separator);
        assert forall|k: int| 0 <= k < others.len() implies !(#[trigger] others[k]).contains(
            separator,
        ) by {
            assert(others[k] == pieces[k + 1]);
        }
        lemma_split_is_unique(others, tail, separator);
        assert(s == head + seq![separator] + tail);
        lemma_first_separator_at(s, separator, head.len() as int);
        assert(s.take(head.len() as int) =~= head);
        assert(s.skip(head.len() as int + 1) =~= tail);
        assert(pieces =~= seq![head] + others);
    }
}

/// What is left after stripping the leading white space does not begin with
/// white space.
pub proof fn lemma_trim_start_is_stripped(s: Seq<char>)
    ensures
        trim_start(s).len() > 0 ==> !is_whitespace(trim_start(s).first()),
    decreases s.len(),
{
    if s.len() > 0 && is_whitespace(s.first()) {
        lemma_trim_start_is_stripped(s.drop_first());
    }
}

/// What is left after stripping the trailing white space is a prefix of `s`
/// that does not end with white space, and it keeps every character up to the
/// last one that is not white space.
pub proof fn lemma_trim_end_is_stripped(s: Seq<char>)
    ensures
        trim_end(s).len() <= s.len(),
        trim_end(s) == s.take(trim_end(s).len() as int),
        trim_end(s).len() > 0 ==> !is_whitespace(trim_end(s).last()),
        forall|i: int| 0 <= i < s.len() && !is_whitespace(s[i]) ==> i < trim_end(s).len(),
    decreases s.len(),
{
    if s.len() > 0 && is_whitespace(s.last()) {
        let front = s.drop_last();
        lemma_trim_end_is_stripped(front);
        assert(front.take(trim_end(front).len() as int) =~= s.take(trim_end(front).len() as int));
        assert forall|i: int| 0 <= i < s.len() && !is_whitespace(s[i]) implies i < trim_end(
            s,
        ).len() by {
            assert(s[i] == front[i]);
        }
    } else {
        assert(s.take(s.len() as int) =~= s);
    }
}

/// Trimming leaves no white space at either end.
pub proof fn lemma_trim_is_stripped(s: Seq<char>)
    ensures
        trim(s).len() > 0 ==> !is_whitespace(trim(s).first()) && !is_whitespace(trim(s).last()),
{
    lemma_trim_start_is_stripped(s);
    lemma_trim_end_is_stripped(trim_start(s));
}

/// A line always has at least one token, and no token holds a space.
pub proof fn lemma_tokens_are_pieces(line: Seq<char>)
    ensures
        tokens(line).len() >= 1,
        forall|k: int| 0 <= k < tokens(line).len() ==> !(#[trigger] tokens(line)[k]).contains(' '),
        join(tokens(line), ' ') == trim(line),
{
    lemma_split_pieces(trim(line), ' ');
    lemma_split_joins_back(trim(line), ' ');
}

/// A line of white space alone, the empty line included, has one token: the
/// empty one.
pub proof fn lemma_blank_line_has_one_empty_token(line: Seq<char>)
    requires
        trim(line).len() == 0,
    ensures
        tokens(line) == seq![Seq::<char>::empty()],
{
    assert(trim(line) =~= Seq::<char>::empty());
}

/// The characters of `line`, in order.
fn characters(line: &str) -> (chars: Vec<char>)
    ensures
        chars@ == line@,
{
    let mut chars: Vec<char> = Vec::new();
    for c in it: line.chars()
        invariant
            chars@ == it.seq().take(it.index()),
    {
        chars.push(c);
    }
    chars
}

/// Splits `line` into its tokens.
///
/// The result is never empty: a line that is empty or holds white space only
/// gives the single token `""`.
pub fn tokenize(line: &str) -> (result: Vec<String>)
    ensures
        result.deep_view() == tokens(line@),
{
    let chars = characters(line);
    let n = chars.len();
    let mut start: usize = 0;
    while start < n && char_is_whitespace(chars[start])
        invariant
            n == chars.len(),
            start <= n,
            forall|i: int| 0 <= i < start ==> is_whitespace(chars@[i]),
        decreases n - start,
    {
        start += 1;
    }
    let mut end: usize = n;
    while end > start && char_is_whitespace(chars[end - 1])
        invariant
            n == chars.len(),
            start <= end <= n,
            forall|i: int| end <= i < n ==> is_whitespace(chars@[i]),
        decreases end,
    {
        end -= 1;
    }
    let ghost trimmed = line@.subrange(start as int, end as int);
    proof {
        lemma_trim_start_skips(line@, start as int);
        lemma_trim_end_takes(line@.skip(start as int), end - start);
        assert(line@.skip(start as int).take(end - start) =~= trimmed);
    }
    let mut result: Vec<String> = Vec::new();
    let mut from: usize = start;
    let mut at: usize = start;
    assert(result.deep_view() + split(trimmed, ' ') =~= split(trimmed, ' '));
    while at < end
        invariant
            n == chars.len(),
            chars@ == line@,
            start <= from <= at <= end <= n,
            trimmed == line@.subrange(start as int, end as int),
            forall|i: int| from <= i < at ==> line@[i] != ' ',
            result.deep_view() + split(line@.subrange(from as int, end as int), ' ') == split(
                trimmed,
                ' ',
            ),
        decreases end - at,
    {
        if chars[at] == ' ' {
            let piece = line.substring_char(from, at);
            let ghost before = result.deep_view();
            let ghost rest = line@.subrange(from as int, end as int);
            result.push(piece.to_string());
            proof {
                lemma_first_separator_at(rest, ' ', at - from);
                assert(rest.take(at - from) =~= piece@);
                assert(rest.skip(at - from + 1) =~= line@.subrange(at + 1, end as int));
                assert(result.deep_view() =~= before.push(piece@));
                assert(before.push(piece@) + split(line@.subrange(at + 1, end as int), ' ')
                    =~= before + split(rest, ' '));
            }
            from = at + 1;
        }
        at += 1;
    }
    let piece = line.substring_char(from, end);
    let ghost before = result.deep_view();
    result.push(piece.to_string());
    proof {
        lemma_first_separator_at(piece@, ' ', end - from);
        assert(result.deep_view() =~= before.push(piece@));
        assert(before.push(piece@) =~= before + split(piece@, ' '));
    }
    result
}

} // verus!
