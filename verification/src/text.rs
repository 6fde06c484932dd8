//! Character-level helpers shared by the parsers and the statement builders:
//! trimming, splitting and removal of characters, each with its meaning as a
//! function on sequences of characters.

use vstd::prelude::*;

verus! {

/// How many characters at the front of `s` belong to `strip`.
pub open spec fn leading(s: Seq<char>, strip: Seq<char>) -> nat
    decreases s.len(),
{
    if s.len() > 0 && strip.contains(s[0]) {
        1 + leading(s.drop_first(), strip)
    } else {
        0
    }
}

/// How many characters at the back of `s` belong to `strip`.
pub open spec fn trailing(s: Seq<char>, strip: Seq<char>) -> nat
    decreases s.len(),
{
    if s.len() > 0 && strip.contains(s.last()) {
        1 + trailing(s.drop_last(), strip)
    } else {
        0
    }
}

/// `s` without the characters of `strip` at its front.
pub open spec fn trim_start(s: Seq<char>, strip: Seq<char>) -> Seq<char> {
    s.skip(leading(s, strip) as int)
}

/// `s` without the characters of `strip` at its back.
pub open spec fn trim_end(s: Seq<char>, strip: Seq<char>) -> Seq<char> {
    s.take(s.len() - trailing(s, strip))
}

/// `s` without the characters of `strip` at either end. Characters of `strip`
/// that stand between two others stay.
pub open spec fn trim(s: Seq<char>, strip: Seq<char>) -> Seq<char> {
    trim_end(trim_start(s, strip), strip)
}

/// The position of the first `c` in `s`, or the length of `s` if there is none.
pub open spec fn find_char(s: Seq<char>, c: char) -> nat
    decreases s.len(),
{
    if s.len() == 0 || s[0] == c {
        0
    } else {
        1 + find_char(s.drop_first(), c)
    }
}

/// The pieces of `s` between occurrences of `sep`: the first piece is what
/// stands before the first separator, the others are the pieces of what
/// follows it. There is always at least one piece, and a piece may be empty.
pub open spec fn split(s: Seq<char>, sep: char) -> Seq<Seq<char>>
    decreases s.len(),
{
    let at = find_char(s, sep) as int;
    if at >= s.len() {
        seq![s]
    } else {
        seq![s.take(at)] + split(s.skip(at + 1), sep)
    }
}

/// The pieces joined again, with `sep` between neighbours.
pub open spec fn join(pieces: Seq<Seq<char>>, sep: char) -> Seq<char>
    decreases pieces.len(),
{
    if pieces.len() == 0 {
        Seq::empty()
    } else if pieces.len() == 1 {
        pieces[0]
    } else {
        pieces[0] + seq![sep] + join(pieces.drop_first(), sep)
    }
}

/// `s` with every occurrence of `c` taken out.
pub open spec fn without_char(s: Seq<char>, c: char) -> Seq<char>
    decreases s.len(),
{
    if s.len() == 0 {
        s
    } else if s.last() == c {
        without_char(s.drop_last(), c)
    } else {
        without_char(s.drop_last(), c).push(s.last())
    }
}

/// A run of `k` stripped characters at the front, ended by the end of `s` or by
/// a character that stays, is the whole leading run.
pub proof fn lemma_leading_is(s: Seq<char>, strip: Seq<char>, k: int)
    requires
        0 <= k <= s.len(),
        forall|i: int| 0 <= i < k ==> strip.contains(#[trigger] s[i]),
        k == s.len() || !strip.contains(s[k]),
    ensures
        leading(s, strip) == k,
    decreases k,
{
    if k > 0 {
        let rest = s.drop_first();
        assert forall|i: int| 0 <= i < k - 1 implies strip.contains(#[trigger] rest[i]) by {}
        lemma_leading_is(rest, strip, k - 1);
    }
}

/// A run of `k` stripped characters at the back, begun at the start of `s` or
/// after a character that stays, is the whole trailing run.
pub proof fn lemma_trailing_is(s: Seq<char>, strip: Seq<char>, k: int)
    requires
        0 <= k <= s.len(),
        forall|i: int| s.len() - k <= i < s.len() ==> strip.contains(#[trigger] s[i]),
        k == s.len() || !strip.contains(s[s.len() - k - 1]),
    ensures
        trailing(s, strip) == k,
    decreases k,
{
    if k > 0 {
        let rest = s.drop_last();
        assert forall|i: int| rest.len() - (k - 1) <= i < rest.len() implies strip.contains(
            #[trigger] rest[i],
        ) by {}
        lemma_trailing_is(rest, strip, k - 1);
    }
}

/// The first `c` stands at `k` when no earlier character is `c` and `k` is the
/// end of `s` or holds `c`.
pub proof fn lemma_find_char_is(s: Seq<char>, c: char, k: int)
    requires
        0 <= k <= s.len(),
        forall|i: int| 0 <= i < k ==> #[trigger] s[i] != c,
        k == s.len() || s[k] == c,
    ensures
        find_char(s, c) == k,
    decreases k,
{
    if k > 0 {
        let rest = s.drop_first();
        assert forall|i: int| 0 <= i < k - 1 implies #[trigger] rest[i] != c by {}
        lemma_find_char_is(rest, c, k - 1);
    }
}

/// What `find_char` returns: a position within `s` or its length, with no `c`
/// before it and `c` at it unless it is the length.
pub proof fn lemma_find_char_bounds(s: Seq<char>, c: char)
    ensures
        find_char(s, c) <= s.len(),
        forall|i: int| 0 <= i < find_char(s, c) ==> #[trigger] s[i] != c,
        find_char(s, c) < s.len() ==> s[find_char(s, c) as int] == c,
    decreases s.len(),
{
    if s.len() > 0 && s[0] != c {
        let rest = s.drop_first();
        lemma_find_char_bounds(rest, c);
        assert forall|i: int| 0 <= i < find_char(s, c) implies #[trigger] s[i] != c by {
            if i > 0 {
                assert(s[i] == rest[i - 1]);
            }
        }
    }
}

/// What `leading` returns: a length within `s`, with stripped characters
/// before it and a character that stays at it.
pub proof fn lemma_leading_bounds(s: Seq<char>, strip: Seq<char>)
    ensures
        leading(s, strip) <= s.len(),
        forall|i: int| 0 <= i < leading(s, strip) ==> strip.contains(#[trigger] s[i]),
        leading(s, strip) < s.len() ==> !strip.contains(s[leading(s, strip) as int]),
    decreases s.len(),
{
    if s.len() > 0 && strip.contains(s[0]) {
        let rest = s.drop_first();
        lemma_leading_bounds(rest, strip);
        assert forall|i: int| 0 <= i < leading(s, strip) implies strip.contains(
            #[trigger] s[i],
        ) by {
            if i > 0 {
                assert(s[i] == rest[i - 1]);
            }
        }
    }
}

/// What `trailing` returns: a length within `s`, with stripped characters
/// in the last places and a character that stays before them.
pub proof fn lemma_trailing_bounds(s: Seq<char>, strip: Seq<char>)
    ensures
        trailing(s, strip) <= s.len(),
        forall|i: int|
            s.len() - trailing(s, strip) <= i < s.len() ==> strip.contains(#[trigger] s[i]),
        trailing(s, strip) < s.len() ==> !strip.contains(s[s.len() - trailing(s, strip) - 1]),
    decreases s.len(),
{
    if s.len() > 0 && strip.contains(s.last()) {
        let rest = s.drop_last();
        lemma_trailing_bounds(rest, strip);
        assert forall|i: int| s.len() - trailing(s, strip) <= i < s.len() implies strip.contains(
            #[trigger] s[i],
        ) by {
            if i < rest.len() {
                assert(s[i] == rest[i]);
            }
        }
        if trailing(rest, strip) < rest.len() {
            assert(rest[rest.len() - trailing(rest, strip) - 1] == s[s.len() - trailing(
                s,
                strip,
            ) - 1]);
        }
    }
}

/// What trimming leaves is one part of the text: everything before it and
/// everything after it is stripped, and unless it is empty it begins and
/// ends with a character that stays.
pub proof fn lemma_trim_is_the_middle(s: Seq<char>, strip: Seq<char>)
    ensures
        ({
            let from = leading(s, strip) as int;
            let to = s.len() - trailing(s.skip(from), strip);
            &&& 0 <= from <= to <= s.len()
            &&& trim(s, strip) == s.subrange(from, to)
            &&& forall|i: int| 0 <= i < from ==> strip.contains(#[trigger] s[i])
            &&& forall|i: int| to <= i < s.len() ==> strip.contains(#[trigger] s[i])
            &&& from < to ==> !strip.contains(s[from]) && !strip.contains(s[to - 1])
        }),
{
    let from = leading(s, strip) as int;
    lemma_leading_bounds(s, strip);
    let rest = s.skip(from);
    lemma_trailing_bounds(rest, strip);
    let to = s.len() - trailing(rest, strip);
    assert forall|i: int| to <= i < s.len() implies strip.contains(#[trigger] s[i]) by {
        assert(rest[i - from] == s[i]);
    }
}

/// Trimming a second time changes nothing.
pub proof fn lemma_trim_twice(s: Seq<char>, strip: Seq<char>)
    ensures
        trim(trim(s, strip), strip) == trim(s, strip),
{
    lemma_trim_is_the_middle(s, strip);
    let once = trim(s, strip);
    if once.len() > 0 {
        lemma_leading_is(once, strip, 0);
        lemma_trailing_is(once, strip, 0);
    }
}

/// A split always gives at least one piece.
pub proof fn lemma_split_is_not_empty(s: Seq<char>, sep: char)
    ensures
        split(s, sep).len() >= 1,
    decreases s.len(),
{
    lemma_find_char_bounds(s, sep);
    let at = find_char(s, sep) as int;
    if at < s.len() {
        lemma_split_is_not_empty(s.skip(at + 1), sep);
    }
}

/// No piece of a split holds the separator.
pub proof fn lemma_pieces_hold_no_separator(s: Seq<char>, sep: char)
    ensures
        forall|i: int|
            0 <= i < split(s, sep).len() ==> !(#[trigger] split(s, sep)[i]).contains(sep),
    decreases s.len(),
{
    lemma_find_char_bounds(s, sep);
    let at = find_char(s, sep) as int;
    if at >= s.len() {
        assert forall|i: int| 0 <= i < split(s, sep).len() implies !(#[trigger] split(
            s,
            sep,
        )[i]).contains(sep) by {}
    } else {
        let rest = s.skip(at + 1);
        lemma_pieces_hold_no_separator(rest, sep);
        let head = s.take(at);
        assert forall|i: int| 0 <= i < split(s, sep).len() implies !(#[trigger] split(
            s,
            sep,
        )[i]).contains(sep) by {
            if i == 0 {
                assert forall|j: int| 0 <= j < head.len() implies head[j] != sep by {}
            } else {
                assert(split(s, sep)[i] == split(rest, sep)[i - 1]);
            }
        }
    }
}

/// The pieces of a split, joined with the separator, give the text back: a
/// split loses nothing and adds nothing.
pub proof fn lemma_split_then_join(s: Seq<char>, sep: char)
    ensures
        join(split(s, sep), sep) == s,
    decreases s.len(),
{
    lemma_find_char_bounds(s, sep);
    let at = find_char(s, sep) as int;
    if at < s.len() {
        let rest = s.skip(at + 1);
        lemma_split_then_join(rest, sep);
        lemma_split_is_not_empty(rest, sep);
        let pieces = split(s, sep);
        assert(pieces.drop_first() == split(rest, sep));
    }
}

/// What is left when `c` is taken out holds no `c`.
pub proof fn lemma_without_char_holds_none(s: Seq<char>, c: char)
    ensures
        !without_char(s, c).contains(c),
    decreases s.len(),
{
    if s.len() > 0 {
        lemma_without_char_holds_none(s.drop_last(), c);
        let init = without_char(s.drop_last(), c);
        if s.last() != c {
            assert forall|i: int| 0 <= i < init.push(s.last()).len() implies init.push(s.last())[i]
                != c by {}
        }
    }
}

/// A text that holds no `c` stays as it is when `c` is taken out.
pub proof fn lemma_without_char_of_none(s: Seq<char>, c: char)
    requires
        !s.contains(c),
    ensures
        without_char(s, c) == s,
    decreases s.len(),
{
    if s.len() > 0 {
        let init = s.drop_last();
        assert forall|i: int| 0 <= i < init.len() implies init[i] != c by {}
        lemma_without_char_of_none(init, c);
    }
}

/// Taking `c` out a second time changes nothing.
pub proof fn lemma_without_char_twice(s: Seq<char>, c: char)
    ensures
        without_char(without_char(s, c), c) == without_char(s, c),
{
    lemma_without_char_holds_none(s, c);
    lemma_without_char_of_none(without_char(s, c), c);
}

/// Whether `c` is one of the characters of `set`.
pub fn contains_char(set: &[char], c: char) -> (found: bool)
    ensures
        found == set@.contains(c),
{
    let mut i: usize = 0;
    while i < set.len()
        invariant
            i <= set.len(),
            forall|j: int| 0 <= j < i ==> set@[j] != c,
        decreases set.len() - i,
    {
        if set[i] == c {
            return true;
        }
        i += 1;
    }
    false
}

/// The characters of `s`, in order.
pub fn to_chars(s: &str) -> (chars: Vec<char>)
    ensures
        chars@ == s@,
{
    let mut chars: Vec<char> = Vec::new();
    for c in it: s.chars()
        invariant
            chars@ == it.seq().take(it.index()),
            it.seq() == s@,
    {
        chars.push(c);
    }
    chars
}

/// Appends one character to a string. This is `String::push` of the standard
/// library, which is taken on trust to add exactly `c` at the end and to leave
/// what was there before unchanged.
#[verifier::external_body]
pub(crate) fn push_char(s: &mut String, c: char)
    ensures
        final(s)@ == old(s)@.push(c),
{
    s.push(c);
}

/// The string made of `chars[from..to]`.
pub fn from_chars(chars: &Vec<char>, from: usize, to: usize) -> (s: String)
    requires
        from <= to <= chars.len(),
    ensures
        s@ == chars@.subrange(from as int, to as int),
{
    let mut s = String::new();
    let mut i: usize = from;
    while i < to
        invariant
            from <= i <= to <= chars.len(),
            s@ == chars@.subrange(from as int, i as int),
        decreases to - i,
    {
        push_char(&mut s, chars[i]);
        i += 1;
    }
    s
}

/// Removes from both ends of `s` every character that `strip` lists.
pub fn trim_matches(s: &str, strip: &[char]) -> (out: String)
    ensures
        out@ == trim(s@, strip@),
{
    let chars = to_chars(s);
    let n = chars.len();
    let mut start: usize = 0;
    while start < n && contains_char(strip, chars[start])
        invariant
            start <= n == chars.len(),
            forall|i: int| 0 <= i < start ==> strip@.contains(#[trigger] chars@[i]),
        decreases n - start,
    {
        start += 1;
    }
    let mut end: usize = n;
    while end > start && contains_char(strip, chars[end - 1])
        invariant
            start <= end <= n == chars.len(),
            forall|i: int| end <= i < n ==> strip@.contains(#[trigger] chars@[i]),
        decreases end,
    {
        end -= 1;
    }
    proof {
        lemma_leading_is(chars@, strip@, start as int);
        let rest = chars@.skip(start as int);
        assert forall|i: int| rest.len() - (n - end) <= i < rest.len() implies strip@.contains(
            #[trigger] rest[i],
        ) by {}
        lemma_trailing_is(rest, strip@, n - end);
    }
    from_chars(&chars, start, end)
}

/// Splits `s` at every occurrence of `sep`; the pieces come in order and none
/// is dropped, so a string without `sep` gives one piece.
pub fn split_on(s: &str, sep: char) -> (pieces: Vec<String>)
    ensures
        pieces.deep_view() == split(s@, sep),
{
    let chars = to_chars(s);
    let n = chars.len();
    let mut pieces: Vec<String> = Vec::new();
    let mut start: usize = 0;
    let mut pos: usize = 0;
    proof {
        assert(chars@.skip(0) == chars@);
    }
    while pos < n
        invariant
            start <= pos <= n == chars.len(),
            forall|i: int| start <= i < pos ==> #[trigger] chars@[i] != sep,
            split(chars@, sep) == pieces.deep_view() + split(chars@.skip(start as int), sep),
        decreases n - pos,
    {
        if chars[pos] == sep {
            let piece = from_chars(&chars, start, pos);
            proof {
                let rest = chars@.skip(start as int);
                assert forall|i: int| 0 <= i < pos - start implies #[trigger] rest[i] != sep by {}
                lemma_find_char_is(rest, sep, pos - start);
                assert(rest.take(pos - start) == piece@);
                assert(rest.skip(pos - start + 1) == chars@.skip(pos + 1));
                assert(pieces.deep_view().push(piece@) + split(chars@.skip(pos + 1), sep)
                    == pieces.deep_view() + (seq![piece@] + split(chars@.skip(pos + 1), sep)));
            }
            pieces.push(piece);
            start = pos + 1;
        }
        pos += 1;
    }
    let piece = from_chars(&chars, start, n);
    proof {
        let rest = chars@.skip(start as int);
        assert forall|i: int| 0 <= i < n - start implies #[trigger] rest[i] != sep by {}
        lemma_find_char_is(rest, sep, n - start);
    }
    pieces.push(piece);
    pieces
}

/// Copies `s` without any occurrence of `c`.
pub fn remove_char(s: &str, c: char) -> (out: String)
    ensures
        out@ == without_char(s@, c),
{
    let chars = to_chars(s);
    let mut out = String::new();
    let mut i: usize = 0;
    while i < chars.len()
        invariant
            i <= chars.len(),
            out@ == without_char(chars@.take(i as int), c),
        decreases chars.len() - i,
    {
        proof {
            assert(chars@.take(i + 1).drop_last() == chars@.take(i as int));
        }
        if chars[i] != c {
            push_char(&mut out, chars[i]);
        }
        i += 1;
    }
    proof {
        assert(chars@.take(chars.len() as int) == chars@);
    }
    out
}

} // verus!
