//! Character-level operations on text: whitespace, trimming, splitting on a
//! separator and splitting into words. Every operation is specified over
//! `Seq<char>`, the view of `str` and `String`.

use vstd::prelude::*;
use vstd::string::*;

verus! {

/// Whether `c` is one of the Unicode `White_Space` code points.
pub open spec fn is_space(c: char) -> bool {
    let n = c as u32;
    ||| 0x09 <= n <= 0x0d
    ||| n == 0x20
    ||| n == 0x85
    ||| n == 0xa0
    ||| n == 0x1680
    ||| 0x2000 <= n <= 0x200a
    ||| n == 0x2028
    ||| n == 0x2029
    ||| n == 0x202f
    ||| n == 0x205f
    ||| n == 0x3000
}

/// The first position at or after `i` that holds no whitespace, or the length
/// of `s` when only whitespace follows.
pub open spec fn skip_spaces(s: Seq<char>, i: int) -> int
    decreases s.len() - i,
{
    if 0 <= i < s.len() && is_space(s[i]) {
        skip_spaces(s, i + 1)
    } else {
        i
    }
}

/// The first position at or after `i` that holds whitespace, or the length of
/// `s` when none follows.
pub open spec fn skip_word(s: Seq<char>, i: int) -> int
    decreases s.len() - i,
{
    if 0 <= i < s.len() && !is_space(s[i]) {
        skip_word(s, i + 1)
    } else {
        i
    }
}

/// The end of the text that is left of `s[..j]` once its trailing whitespace
/// is dropped.
pub open spec fn drop_spaces(s: Seq<char>, j: int) -> int
    decreases j,
{
    if 0 < j <= s.len() && is_space(s[j - 1]) {
        drop_spaces(s, j - 1)
    } else {
        j
    }
}

/// `s` without its leading and trailing whitespace.
pub open spec fn trimmed(s: Seq<char>) -> Seq<char> {
    let from = skip_spaces(s, 0);
    let to = drop_spaces(s, s.len() as int);
    if from < to {
        s.subrange(from, to)
    } else {
        Seq::empty()
    }
}

/// Whether `sep` stands in `s` at position `i`.
pub open spec fn occurs_at(s: Seq<char>, sep: Seq<char>, i: int) -> bool {
    0 <= i && i + sep.len() <= s.len() && s.subrange(i, i + sep.len()) == sep
}

/// The position of the first occurrence of `sep` in `s` at or after `i`, or
/// `-1` when there is none.
pub open spec fn find(s: Seq<char>, sep: Seq<char>, i: int) -> int
    decreases s.len() - i,
{
    if i < 0 || i + sep.len() > s.len() {
        -1
    } else if occurs_at(s, sep, i) {
        i
    } else if i < s.len() {
        find(s, sep, i + 1)
    } else {
        -1
    }
}

/// The pieces of `s[i..]` between the occurrences of `sep`, taken from the
/// left and without overlap.
pub open spec fn pieces_from(s: Seq<char>, sep: Seq<char>, i: int) -> Seq<Seq<char>>
    recommends
        sep.len() > 0,
        0 <= i <= s.len(),
    decreases s.len() - i,
{
    let at = find(s, sep, i);
    if sep.len() == 0 || i < 0 || at < i || at + sep.len() > s.len() {
        seq![s.subrange(i, s.len() as int)]
    } else {
        seq![s.subrange(i, at)] + pieces_from(s, sep, at + sep.len())
    }
}

/// The pieces of `s` between the occurrences of the non-empty separator
/// `sep`. A text without the separator is one piece, the empty text included.
pub open spec fn pieces(s: Seq<char>, sep: Seq<char>) -> Seq<Seq<char>> {
    pieces_from(s, sep, 0)
}

/// The words of `s[i..]`: its maximal runs of characters that are not
/// whitespace, in order.
pub open spec fn words_from(s: Seq<char>, i: int) -> Seq<Seq<char>>
    decreases s.len() - i,
{
    let from = skip_spaces(s, i);
    let to = skip_word(s, from);
    if i < 0 || from >= s.len() {
        Seq::empty()
    } else {
        proof {
            lemma_skip_spaces(s, i);
            lemma_skip_word(s, from);
        }
        seq![s.subrange(from, to)] + words_from(s, to)
    }
}

/// The words of `s`.
pub open spec fn words(s: Seq<char>) -> Seq<Seq<char>> {
    words_from(s, 0)
}

/// Where `skip_spaces` ends: inside the text, after whitespace only, and on a
/// character that is none.
pub proof fn lemma_skip_spaces(s: Seq<char>, i: int)
    requires
        0 <= i <= s.len(),
    ensures
        i <= skip_spaces(s, i) <= s.len(),
        forall|j: int| i <= j < skip_spaces(s, i) ==> is_space(#[trigger] s[j]),
        skip_spaces(s, i) < s.len() ==> !is_space(s[skip_spaces(s, i)]),
    decreases s.len() - i,
{
    if i < s.len() && is_space(s[i]) {
        lemma_skip_spaces(s, i + 1);
    }
}

/// Where `skip_word` ends: inside the text, after characters that are no
/// whitespace, and on whitespace.
pub proof fn lemma_skip_word(s: Seq<char>, i: int)
    requires
        0 <= i <= s.len(),
    ensures
        i <= skip_word(s, i) <= s.len(),
        forall|j: int| i <= j < skip_word(s, i) ==> !is_space(#[trigger] s[j]),
        skip_word(s, i) < s.len() ==> is_space(s[skip_word(s, i)]),
    decreases s.len() - i,
{
    if i < s.len() && !is_space(s[i]) {
        lemma_skip_word(s, i + 1);
    }
}

/// Where `drop_spaces` ends: inside the text, before whitespace only, and
/// behind a character that is none.
pub proof fn lemma_drop_spaces(s: Seq<char>, j: int)
    requires
        0 <= j <= s.len(),
    ensures
        0 <= drop_spaces(s, j) <= j,
        forall|k: int| drop_spaces(s, j) <= k < j ==> is_space(#[trigger] s[k]),
        drop_spaces(s, j) > 0 ==> !is_space(s[drop_spaces(s, j) - 1]),
    decreases j,
{
    if 0 < j && is_space(s[j - 1]) {
        lemma_drop_spaces(s, j - 1);
    }
}

/// Where `find` ends: on the first occurrence at or after `i`, or on `-1`
/// when the separator does not occur from there on.
pub proof fn lemma_find(s: Seq<char>, sep: Seq<char>, i: int)
    requires
        0 <= i,
    ensures
        find(s, sep, i) == -1 || (i <= find(s, sep, i) && occurs_at(s, sep, find(s, sep, i))),
        forall|j: int|
            i <= j && (find(s, sep, i) == -1 || j < find(s, sep, i)) ==> !#[trigger] occurs_at(
                s,
                sep,
                j,
            ),
    decreases s.len() - i,
{
    if i + sep.len() <= s.len() && !occurs_at(s, sep, i) && i < s.len() {
        lemma_find(s, sep, i + 1);
    }
}

/// Trimmed text neither starts nor ends with whitespace, and what was cut
/// off on either side was whitespace.
pub proof fn lemma_trimmed(s: Seq<char>)
    ensures
        trimmed(s).len() > 0 ==> !is_space(trimmed(s).first()) && !is_space(trimmed(s).last()),
        exists|from: int, to: int|
            {
                &&& 0 <= from <= to <= s.len()
                &&& #[trigger] s.subrange(from, to) == trimmed(s)
                &&& forall|j: int| 0 <= j < from ==> is_space(#[trigger] s[j])
                &&& forall|j: int| to <= j < s.len() ==> is_space(#[trigger] s[j])
            },
{
    let from = skip_spaces(s, 0);
    let to = drop_spaces(s, s.len() as int);
    lemma_skip_spaces(s, 0);
    lemma_drop_spaces(s, s.len() as int);
    if from < to {
        assert(s.subrange(from, to) == trimmed(s));
    } else {
        assert(s.subrange(from, from) == trimmed(s));
        assert forall|j: int| from <= j < s.len() implies is_space(#[trigger] s[j]) by {
            if j < to {
            }
        }
    }
}

/// `parts` with `sep` between each two neighbours.
pub open spec fn joined(parts: Seq<Seq<char>>, sep: Seq<char>) -> Seq<char>
    decreases parts.len(),
{
    if parts.len() == 0 {
        Seq::empty()
    } else if parts.len() == 1 {
        parts[0]
    } else {
        parts[0] + sep + joined(parts.skip(1), sep)
    }
}

/// Every word holds a character, and none that is whitespace.
pub proof fn lemma_words_shape(s: Seq<char>, i: int)
    requires
        0 <= i,
    ensures
        forall|k: int|
            0 <= k < words_from(s, i).len() ==> (#[trigger] words_from(s, i)[k]).len() > 0,
        forall|k: int, j: int|
            0 <= k < words_from(s, i).len() && 0 <= j < words_from(s, i)[k].len() ==> !is_space(
                #[trigger] words_from(s, i)[k][j],
            ),
    decreases s.len() - i,
{
    let from = skip_spaces(s, i);
    let to = skip_word(s, from);
    if from < s.len() {
        lemma_skip_spaces(s, i);
        lemma_skip_word(s, from);
        lemma_words_shape(s, to);
        let first = s.subrange(from, to);
        let rest = words_from(s, to);
        assert(words_from(s, i) == seq![first] + rest);
        assert forall|k: int| 0 <= k < words_from(s, i).len() implies (#[trigger] words_from(
            s,
            i,
        )[k]).len() > 0 by {
            if k > 0 {
                assert(words_from(s, i)[k] == rest[k - 1]);
            }
        }
        assert forall|k: int, j: int|
            0 <= k < words_from(s, i).len() && 0 <= j < words_from(s, i)[k].len() implies !is_space(
            #[trigger] words_from(s, i)[k][j],
        ) by {
            if k > 0 {
                assert(words_from(s, i)[k] == rest[k - 1]);
            } else {
                assert(first[j] == s[from + j]);
            }
        }
    }
}

/// A text that holds a character that is not whitespace has a word.
pub proof fn lemma_words_exist(s: Seq<char>, at: int)
    requires
        0 <= at < s.len(),
        !is_space(s[at]),
    ensures
        words(s).len() > 0,
{
    lemma_skip_spaces(s, 0);
    let from = skip_spaces(s, 0);
    if from >= s.len() {
        assert(is_space(s[at]));
    }
}

/// At a position of `s` behind the prefix `pre`, `sep` stands in `pre + s`
/// exactly if it stands in `s` there.
pub proof fn lemma_occurs_shift(pre: Seq<char>, s: Seq<char>, sep: Seq<char>, i: int)
    requires
        0 <= i,
    ensures
        occurs_at(pre + s, sep, pre.len() + i) == occurs_at(s, sep, i),
{
    if i + sep.len() <= s.len() {
        assert((pre + s).subrange(pre.len() + i, pre.len() + i + sep.len()) =~= s.subrange(
            i,
            i + sep.len(),
        ));
    }
}

/// Behind the prefix `pre`, the separator is found in `pre + s` where it is
/// found in `s`.
pub proof fn lemma_find_shift(pre: Seq<char>, s: Seq<char>, sep: Seq<char>, i: int)
    requires
        0 <= i,
    ensures
        find(pre + s, sep, pre.len() + i) == if find(s, sep, i) < 0 {
            -1
        } else {
            pre.len() + find(s, sep, i)
        },
    decreases s.len() - i,
{
    lemma_occurs_shift(pre, s, sep, i);
    if i + sep.len() <= s.len() && !occurs_at(s, sep, i) && i < s.len() {
        lemma_find_shift(pre, s, sep, i + 1);
    }
}

/// Behind the prefix `pre`, the pieces of `pre + s` are those of `s`.
pub proof fn lemma_pieces_shift(pre: Seq<char>, s: Seq<char>, sep: Seq<char>, i: int)
    requires
        0 <= i <= s.len(),
        sep.len() > 0,
    ensures
        pieces_from(pre + s, sep, pre.len() + i) == pieces_from(s, sep, i),
    decreases s.len() - i,
{
    lemma_find_shift(pre, s, sep, i);
    lemma_find(s, sep, i);
    let at = find(s, sep, i);
    let n = pre.len() as int;
    if at < i || at + sep.len() > s.len() {
        assert((pre + s).subrange(n + i, (pre + s).len() as int) =~= s.subrange(
            i,
            s.len() as int,
        ));
    } else {
        assert((pre + s).subrange(n + i, n + at) =~= s.subrange(i, at));
        lemma_pieces_shift(pre, s, sep, at + sep.len());
    }
}

/// A text in which the separator stands nowhere is one piece.
pub proof fn lemma_pieces_single(s: Seq<char>, sep: Seq<char>)
    requires
        sep.len() > 0,
        forall|j: int| 0 <= j ==> !occurs_at(s, sep, j),
    ensures
        pieces(s, sep) == seq![s],
{
    lemma_find(s, sep, 0);
    assert(s.subrange(0, s.len() as int) =~= s);
}

/// Where the separator stands behind `first` and nowhere before, `first` is
/// the first piece, and the pieces of `rest` are the others.
pub proof fn lemma_pieces_first(first: Seq<char>, sep: Seq<char>, rest: Seq<char>)
    requires
        sep.len() > 0,
        forall|j: int| 0 <= j < first.len() ==> !occurs_at(first + sep + rest, sep, j),
    ensures
        pieces(first + sep + rest, sep) == seq![first] + pieces(rest, sep),
{
    let s = first + sep + rest;
    let n = first.len() as int;
    assert(s.subrange(n, n + sep.len()) =~= sep);
    assert(occurs_at(s, sep, n));
    lemma_find(s, sep, 0);
    assert(find(s, sep, 0) == n);
    assert(s.subrange(0, n) =~= first);
    assert(s =~= (first + sep) + rest);
    lemma_pieces_shift(first + sep, rest, sep, 0);
}

/// The pieces of a text, with the separator between them, are the text.
pub proof fn lemma_joined_pieces(s: Seq<char>, sep: Seq<char>, i: int)
    requires
        sep.len() > 0,
        0 <= i <= s.len(),
    ensures
        joined(pieces_from(s, sep, i), sep) == s.subrange(i, s.len() as int),
    decreases s.len() - i,
{
    lemma_find(s, sep, i);
    let at = find(s, sep, i);
    if at < i || at + sep.len() > s.len() {
    } else {
        let rest = pieces_from(s, sep, at + sep.len());
        let all = seq![s.subrange(i, at)] + rest;
        lemma_joined_pieces(s, sep, at + sep.len());
        lemma_pieces_nonempty(s, sep, at + sep.len());
        assert(all.skip(1) =~= rest);
        assert(all[0] == s.subrange(i, at));
        assert(s.subrange(at, at + sep.len()) == sep);
        assert(s.subrange(i, at) + sep + s.subrange(at + sep.len(), s.len() as int)
            =~= s.subrange(i, s.len() as int));
    }
}

/// A text has at least one piece.
pub proof fn lemma_pieces_nonempty(s: Seq<char>, sep: Seq<char>, i: int)
    ensures
        pieces_from(s, sep, i).len() >= 1,
{
}

/// Whitespace is skipped in a part of a text as in the text, up to the end
/// of the part.
pub proof fn lemma_skip_spaces_part(s: Seq<char>, from: int, to: int, i: int)
    requires
        0 <= from <= to <= s.len(),
        0 <= i <= to - from,
    ensures
        skip_spaces(s.subrange(from, to), i) == if skip_spaces(s, from + i) < to {
            skip_spaces(s, from + i) - from
        } else {
            to - from
        },
    decreases to - from - i,
{
    let part = s.subrange(from, to);
    lemma_skip_spaces(s, from + i);
    if i < to - from {
        assert(part[i] == s[from + i]);
        if is_space(part[i]) {
            lemma_skip_spaces_part(s, from, to, i + 1);
        }
    }
}

/// A word is skipped in a part of a text as in the text, up to the end of
/// the part.
pub proof fn lemma_skip_word_part(s: Seq<char>, from: int, to: int, i: int)
    requires
        0 <= from <= to <= s.len(),
        0 <= i <= to - from,
    ensures
        skip_word(s.subrange(from, to), i) == if skip_word(s, from + i) < to {
            skip_word(s, from + i) - from
        } else {
            to - from
        },
    decreases to - from - i,
{
    let part = s.subrange(from, to);
    lemma_skip_word(s, from + i);
    if i < to - from {
        assert(part[i] == s[from + i]);
        if !is_space(part[i]) {
            lemma_skip_word_part(s, from, to, i + 1);
        }
    }
}

/// A part of a text that is followed by whitespace only has, from any of
/// its positions on, the words that the text has from there on.
pub proof fn lemma_words_part(s: Seq<char>, from: int, to: int, i: int)
    requires
        0 <= from <= to <= s.len(),
        0 <= i <= to - from,
        forall|j: int| to <= j < s.len() ==> is_space(s[j]),
    ensures
        words_from(s.subrange(from, to), i) == words_from(s, from + i),
    decreases to - from - i,
{
    let part = s.subrange(from, to);
    lemma_skip_spaces_part(s, from, to, i);
    lemma_skip_spaces(s, from + i);
    let start = skip_spaces(s, from + i);
    if start < to {
        lemma_skip_word_part(s, from, to, start - from);
        lemma_skip_word(s, start);
        let end = skip_word(s, start);
        if end > to {
            assert(is_space(s[to]));
        }
        assert(part.subrange(start - from, end - from) =~= s.subrange(start, end));
        lemma_words_part(s, from, to, end - from);
    } else if start < s.len() {
        assert(is_space(s[start]));
    }
}

/// Trimming a text keeps its words.
pub proof fn lemma_words_trimmed(s: Seq<char>)
    ensures
        words(trimmed(s)) == words(s),
{
    let from = skip_spaces(s, 0);
    let to = drop_spaces(s, s.len() as int);
    lemma_skip_spaces(s, 0);
    lemma_drop_spaces(s, s.len() as int);
    if from < to {
        lemma_words_part(s, from, to, 0);
        assert(skip_spaces(s, from) == from);
    } else if from < s.len() {
        assert(is_space(s[from]));
    }
}

/// Whether `c` is whitespace.
pub fn is_whitespace(c: char) -> (r: bool)
    ensures
        r == is_space(c),
{
    let n: u32 = c as u32;
    (0x09 <= n && n <= 0x0d) || n == 0x20 || n == 0x85 || n == 0xa0 || n == 0x1680 || (0x2000 <= n
        && n <= 0x200a) || n == 0x2028 || n == 0x2029 || n == 0x202f || n == 0x205f || n
        == 0x3000
}

/// The characters of `s`, in order.
pub fn chars_of(s: &str) -> (v: Vec<char>)
    ensures
        v@ == s@,
{
    let mut v: Vec<char> = Vec::new();
    for c in it: s.chars()
        invariant
            v@ == it.seq().take(it.index() as int),
            it.seq() == s@,
    {
        v.push(c);
    }
    v
}

/// Whether `chars` spells out `text`.
pub fn spells(chars: &Vec<char>, text: &str) -> (r: bool)
    ensures
        r == (chars@ == text@),
{
    let mut i: usize = 0;
    let mut same = true;
    for c in it: text.chars()
        invariant
            it.seq() == text@,
            same ==> i == it.index() && i <= chars.len() && chars@.take(i as int) == text@.take(
                i as int,
            ),
            !same ==> chars@ != text@,
    {
        if same {
            if i < chars.len() && chars[i] == c {
                assert(chars@.take(i + 1) == chars@.take(i as int).push(chars@[i as int]));
                assert(text@.take(i + 1) == text@.take(i as int).push(text@[i as int]));
                i += 1;
            } else {
                assert(chars@ != text@) by {
                    if i < chars.len() {
                        assert(chars@[i as int] != text@[i as int]);
                    }
                }
                same = false;
            }
        }
    }
    if same {
        assert(text@.take(i as int) == text@);
        if i == chars.len() {
            assert(chars@.take(i as int) == chars@);
        }
    }
    same && i == chars.len()
}

/// Whether `a` and `b` hold the same text.
pub fn same_text(a: &str, b: &str) -> (r: bool)
    ensures
        r == (a@ == b@),
{
    let chars = chars_of(a);
    spells(&chars, b)
}

/// The position at which the whitespace that starts at `from` ends.
fn after_spaces(chars: &Vec<char>, from: usize) -> (r: usize)
    requires
        from <= chars.len(),
    ensures
        r == skip_spaces(chars@, from as int),
        from <= r <= chars.len(),
{
    let mut i: usize = from;
    while i < chars.len() && is_whitespace(chars[i])
        invariant
            from <= i <= chars.len(),
            skip_spaces(chars@, from as int) == skip_spaces(chars@, i as int),
        decreases chars.len() - i,
    {
        i += 1;
    }
    i
}

/// The position at which the word that starts at `from` ends.
fn after_word(chars: &Vec<char>, from: usize) -> (r: usize)
    requires
        from <= chars.len(),
    ensures
        r == skip_word(chars@, from as int),
        from <= r <= chars.len(),
{
    let mut i: usize = from;
    while i < chars.len() && !is_whitespace(chars[i])
        invariant
            from <= i <= chars.len(),
            skip_word(chars@, from as int) == skip_word(chars@, i as int),
        decreases chars.len() - i,
    {
        i += 1;
    }
    i
}

/// The position at which the text before `to` ends once its trailing
/// whitespace is dropped.
fn before_spaces(chars: &Vec<char>, to: usize) -> (r: usize)
    requires
        to <= chars.len(),
    ensures
        r == drop_spaces(chars@, to as int),
        r <= to,
{
    let mut j: usize = to;
    while j > 0 && is_whitespace(chars[j - 1])
        invariant
            j <= to <= chars.len(),
            drop_spaces(chars@, to as int) == drop_spaces(chars@, j as int),
        decreases j,
    {
        j -= 1;
    }
    j
}

/// `s` without its leading and trailing whitespace.
pub fn trim<'a>(s: &'a str) -> (r: &'a str)
    ensures
        r@ == trimmed(s@),
{
    let chars = chars_of(s);
    let from = after_spaces(&chars, 0);
    let to = before_spaces(&chars, chars.len());
    if from < to {
        s.substring_char(from, to)
    } else {
        s.substring_char(0, 0)
    }
}

/// Whether `sep` stands in `chars` at position `i`.
fn stands_at(chars: &Vec<char>, sep: &Vec<char>, i: usize) -> (r: bool)
    requires
        i + sep.len() <= chars.len(),
    ensures
        r == occurs_at(chars@, sep@, i as int),
{
    let mut k: usize = 0;
    while k < sep.len()
        invariant
            k <= sep.len(),
            i + sep.len() <= chars.len(),
            chars@.subrange(i as int, i + k) == sep@.take(k as int),
        decreases sep.len() - k,
    {
        if chars[i + k] != sep[k] {
            assert(chars@.subrange(i as int, i + sep.len())[k as int] != sep@[k as int]);
            return false;
        }
        assert(chars@.subrange(i as int, i + k + 1) == chars@.subrange(i as int, i + k).push(
            chars@[i + k],
        ));
        assert(sep@.take(k + 1) == sep@.take(k as int).push(sep@[k as int]));
        k += 1;
    }
    assert(sep@.take(k as int) == sep@);
    true
}

/// The position of the first occurrence of `sep` in `chars` at or after
/// `from`, or the length of `chars` when there is none.
pub fn position_of(chars: &Vec<char>, sep: &Vec<char>, from: usize) -> (r: usize)
    requires
        from <= chars.len(),
        sep.len() > 0,
    ensures
        from <= r <= chars.len(),
        r < chars.len() ==> r == find(chars@, sep@, from as int),
        r == chars.len() ==> find(chars@, sep@, from as int) == -1,
{
    let mut i: usize = from;
    while sep.len() <= chars.len() - i
        invariant
            from <= i <= chars.len(),
            sep.len() > 0,
            find(chars@, sep@, from as int) == find(chars@, sep@, i as int),
        decreases chars.len() - i,
    {
        if stands_at(chars, sep, i) {
            return i;
        }
        i += 1;
    }
    chars.len()
}

/// The pieces of `s` between the occurrences of `sep`.
pub fn split<'a>(s: &'a str, sep: &str) -> (r: Vec<&'a str>)
    requires
        sep@.len() > 0,
    ensures
        r.deep_view() == pieces(s@, sep@),
{
    let chars = chars_of(s);
    let mark = chars_of(sep);
    let mut out: Vec<&'a str> = Vec::new();
    let mut start: usize = 0;
    loop
        invariant_except_break
            start <= chars.len(),
            pieces(s@, sep@) == out.deep_view() + pieces_from(s@, sep@, start as int),
        invariant
            chars@ == s@,
            mark@ == sep@,
            sep@.len() > 0,
        ensures
            out.deep_view() == pieces(s@, sep@),
        decreases chars.len() - start,
    {
        let at = position_of(&chars, &mark, start);
        let ghost before = out.deep_view();
        if at == chars.len() {
            out.push(s.substring_char(start, chars.len()));
            assert(out.deep_view() == before.push(s@.subrange(start as int, s@.len() as int)));
            break;
        }
        proof {
            lemma_find(s@, sep@, start as int);
        }
        out.push(s.substring_char(start, at));
        assert(out.deep_view() == before.push(s@.subrange(start as int, at as int)));
        start = at + mark.len();
    }
    out
}

/// The words of `s`: its maximal runs of characters that are not whitespace.
pub fn split_words<'a>(s: &'a str) -> (r: Vec<&'a str>)
    ensures
        r.deep_view() == words(s@),
{
    let chars = chars_of(s);
    let mut out: Vec<&'a str> = Vec::new();
    let mut i: usize = 0;
    loop
        invariant_except_break
            i <= chars.len(),
            words(s@) == out.deep_view() + words_from(s@, i as int),
        invariant
            chars@ == s@,
        ensures
            out.deep_view() == words(s@),
        decreases chars.len() - i,
    {
        let from = after_spaces(&chars, i);
        let to = after_word(&chars, from);
        if from >= chars.len() {
            break;
        }
        proof {
            lemma_skip_word(s@, from as int);
        }
        let ghost before = out.deep_view();
        out.push(s.substring_char(from, to));
        assert(out.deep_view() == before.push(s@.subrange(from as int, to as int)));
        i = to;
    }
    out
}

} // verus!
