//! Splitting command text into whitespace-separated words, and per-character
//! ASCII lowercasing used to make unit suffixes case-insensitive.

use vstd::prelude::*;

verus! {

/// The whitespace characters recognized as word separators: the ASCII
/// whitespace set (space, tab, line feed, vertical tab, form feed, carriage
/// return).
pub open spec fn is_space(c: char) -> bool {
    c == ' ' || c == '\t' || c == '\n' || c == '\u{b}' || c == '\u{c}' || c == '\r'
}

/// Length of the leading run of non-whitespace characters of `s`.
pub open spec fn word_len(s: Seq<char>) -> nat
    decreases s.len(),
{
    if s.len() == 0 || is_space(s[0]) {
        0
    } else {
        1 + word_len(s.skip(1))
    }
}

pub proof fn lemma_word_len_le(s: Seq<char>)
    ensures
        word_len(s) <= s.len(),
    decreases s.len(),
{
    if s.len() == 0 || is_space(s[0]) {
    } else {
        lemma_word_len_le(s.skip(1));
    }
}

/// The whitespace-separated words of `s`, in order, each non-empty.
pub open spec fn words(s: Seq<char>) -> Seq<Seq<char>>
    decreases s.len(),
    via words_decreases
{
    if s.len() == 0 {
        Seq::empty()
    } else if is_space(s[0]) {
        words(s.skip(1))
    } else {
        seq![s.take(word_len(s) as int)] + words(s.skip(word_len(s) as int))
    }
}

#[via_fn]
proof fn words_decreases(s: Seq<char>) {
    if s.len() > 0 && !is_space(s[0]) {
        lemma_word_len_le(s);
        assert(word_len(s) >= 1);
    }
}

/// A text has no more words than characters.
pub proof fn lemma_words_count(s: Seq<char>)
    ensures
        words(s).len() <= s.len(),
    decreases s.len(),
{
    if s.len() == 0 {
    } else if is_space(s[0]) {
        lemma_words_count(s.skip(1));
    } else {
        lemma_word_len_le(s);
        assert(word_len(s) >= 1);
        lemma_words_count(s.skip(word_len(s) as int));
    }
}

/// Skipping one whitespace character does not change the words.
pub proof fn lemma_words_skip_space(s: Seq<char>, i: int)
    requires
        0 <= i < s.len(),
        is_space(s[i]),
    ensures
        words(s.skip(i)) == words(s.skip(i + 1)),
{
    assert(s.skip(i)[0] == s[i]);
    assert(s.skip(i).skip(1) =~= s.skip(i + 1));
}

/// A maximal non-whitespace run `[i, j)` is a word of length `j - i`.
pub proof fn lemma_word_len_scan(s: Seq<char>, i: int, j: int)
    requires
        0 <= i <= j <= s.len(),
        forall|m: int| i <= m < j ==> !is_space(s[m]),
        j == s.len() || is_space(s[j]),
    ensures
        word_len(s.skip(i)) == j - i,
    decreases j - i,
{
    if i == j {
        if i < s.len() {
            assert(s.skip(i)[0] == s[i]);
        } else {
            assert(s.skip(i).len() == 0);
        }
    } else {
        assert(s.skip(i)[0] == s[i]);
        assert(s.skip(i).skip(1) =~= s.skip(i + 1));
        lemma_word_len_scan(s, i + 1, j);
    }
}

/// At a maximal non-whitespace run `[i, j)`, the words are that run followed
/// by the words of the rest.
pub proof fn lemma_words_at_word(s: Seq<char>, i: int, j: int)
    requires
        0 <= i < j <= s.len(),
        forall|m: int| i <= m < j ==> !is_space(s[m]),
        j == s.len() || is_space(s[j]),
    ensures
        words(s.skip(i)) == seq![s.subrange(i, j)] + words(s.skip(j)),
{
    lemma_word_len_scan(s, i, j);
    assert(s.skip(i)[0] == s[i]);
    let w = word_len(s.skip(i)) as int;
    assert(words(s.skip(i)) == seq![s.skip(i).take(w)] + words(s.skip(i).skip(w)));
    assert(s.skip(i).take(w) =~= s.subrange(i, j));
    assert(s.skip(i).skip(w) =~= s.skip(j));
}

/// ASCII lowercasing of one character; anything but `'A'..='Z'` is unchanged.
pub open spec fn lower_char(c: char) -> char {
    match c {
        'A' => 'a',
        'B' => 'b',
        'C' => 'c',
        'D' => 'd',
        'E' => 'e',
        'F' => 'f',
        'G' => 'g',
        'H' => 'h',
        'I' => 'i',
        'J' => 'j',
        'K' => 'k',
        'L' => 'l',
        'M' => 'm',
        'N' => 'n',
        'O' => 'o',
        'P' => 'p',
        'Q' => 'q',
        'R' => 'r',
        'S' => 's',
        'T' => 't',
        'U' => 'u',
        'V' => 'v',
        'W' => 'w',
        'X' => 'x',
        'Y' => 'y',
        'Z' => 'z',
        _ => c,
    }
}

/// A word lowercased character by character.
pub open spec fn lower_seq(s: Seq<char>) -> Seq<char> {
    s.map_values(|c: char| lower_char(c))
}

/// Each word of a text lowercased.
pub open spec fn lower_words(ws: Seq<Seq<char>>) -> Seq<Seq<char>> {
    ws.map_values(|w: Seq<char>| lower_seq(w))
}

/// Lowercasing is idempotent.
pub proof fn lemma_lower_seq_idem(t: Seq<char>)
    ensures
        lower_seq(lower_seq(t)) == lower_seq(t),
{
    assert(lower_seq(lower_seq(t)) =~= lower_seq(t));
}

/// Lowercasing changes no word boundary: the leading word is as long.
pub proof fn lemma_word_len_lower(s: Seq<char>)
    ensures
        word_len(lower_seq(s)) == word_len(s),
    decreases s.len(),
{
    if s.len() == 0 {
        assert(lower_seq(s).len() == 0);
    } else {
        assert(lower_seq(s)[0] == lower_char(s[0]));
        assert(is_space(lower_char(s[0])) == is_space(s[0]));
        if !is_space(s[0]) {
            assert(lower_seq(s).skip(1) =~= lower_seq(s.skip(1)));
            lemma_word_len_lower(s.skip(1));
        }
    }
}

/// Lowercasing a text lowercases its words, one for one.
pub proof fn lemma_words_lower(s: Seq<char>)
    ensures
        words(lower_seq(s)) == lower_words(words(s)),
    decreases s.len(),
{
    if s.len() == 0 {
        assert(words(lower_seq(s)) =~= lower_words(words(s)));
    } else if is_space(s[0]) {
        assert(lower_seq(s)[0] == lower_char(s[0]));
        assert(is_space(lower_char(s[0])));
        assert(lower_seq(s).skip(1) =~= lower_seq(s.skip(1)));
        lemma_words_lower(s.skip(1));
    } else {
        assert(lower_seq(s)[0] == lower_char(s[0]));
        assert(!is_space(lower_char(s[0])));
        lemma_word_len_lower(s);
        lemma_word_len_le(s);
        let w = word_len(s) as int;
        assert(lower_seq(s).take(w) =~= lower_seq(s.take(w)));
        assert(lower_seq(s).skip(w) =~= lower_seq(s.skip(w)));
        lemma_words_lower(s.skip(w));
        assert(words(lower_seq(s)) == seq![lower_seq(s.take(w))] + lower_words(words(s.skip(w))));
        assert(seq![lower_seq(s.take(w))] + lower_words(words(s.skip(w))) =~= lower_words(
            seq![s.take(w)] + words(s.skip(w)),
        ));
    }
}

/// How the leading word of a concatenation relates to its parts.
pub proof fn lemma_word_len_concat(a: Seq<char>, b: Seq<char>)
    ensures
        word_len(a + b) == if word_len(a) == a.len() {
            a.len() + word_len(b)
        } else {
            word_len(a)
        },
    decreases a.len(),
{
    if a.len() == 0 {
        assert(a + b =~= b);
    } else if is_space(a[0]) {
        assert((a + b)[0] == a[0]);
    } else {
        assert((a + b)[0] == a[0]);
        assert((a + b).skip(1) =~= a.skip(1) + b);
        lemma_word_len_concat(a.skip(1), b);
    }
}

/// A trailing whitespace character adds no word.
pub proof fn lemma_words_trailing_space(s: Seq<char>, c: char)
    requires
        is_space(c),
    ensures
        words(s + seq![c]) == words(s),
    decreases s.len(),
{
    if s.len() == 0 {
        assert(s + seq![c] =~= seq![c]);
        assert(seq![c][0] == c);
        assert(seq![c].skip(1) =~= Seq::<char>::empty());
        assert(words(s + seq![c]) == words(seq![c].skip(1)));
        assert(words(s) =~= Seq::<Seq<char>>::empty());
        assert(words(seq![c].skip(1)) =~= Seq::<Seq<char>>::empty());
    } else if is_space(s[0]) {
        assert((s + seq![c])[0] == s[0]);
        assert((s + seq![c]).skip(1) =~= s.skip(1) + seq![c]);
        lemma_words_trailing_space(s.skip(1), c);
        assert(words(s + seq![c]) == words(s.skip(1) + seq![c]));
        assert(words(s) == words(s.skip(1)));
    } else {
        assert((s + seq![c])[0] == s[0]);
        lemma_word_len_concat(s, seq![c]);
        assert(word_len(seq![c]) == 0);
        let w = word_len(s) as int;
        lemma_word_len_le(s);
        assert(word_len(s + seq![c]) == w);
        assert((s + seq![c]).take(w) =~= s.take(w));
        assert((s + seq![c]).skip(w) =~= s.skip(w) + seq![c]);
        assert(w >= 1);
        lemma_words_trailing_space(s.skip(w), c);
        assert(words(s + seq![c]) == seq![(s + seq![c]).take(w)] + words((s + seq![c]).skip(w)));
        assert(words(s) == seq![s.take(w)] + words(s.skip(w)));
    }
}

/// A leading whitespace character adds no word.
pub proof fn lemma_words_leading_space(s: Seq<char>, c: char)
    requires
        is_space(c),
    ensures
        words(seq![c] + s) == words(s),
{
    assert((seq![c] + s)[0] == c);
    assert((seq![c] + s).skip(1) =~= s);
}

/// A whitespace character inserted beside an existing one adds no word.
pub proof fn lemma_words_extra_space(s: Seq<char>, i: int, c: char)
    requires
        0 <= i < s.len(),
        is_space(s[i]),
        is_space(c),
    ensures
        words(s.take(i) + seq![c] + s.skip(i)) == words(s),
    decreases s.len(),
{
    let t = s.take(i) + seq![c] + s.skip(i);
    if i == 0 {
        assert(t =~= seq![c] + s);
        lemma_words_leading_space(s, c);
    } else if is_space(s[0]) {
        assert(t[0] == s[0]);
        assert(t.skip(1) =~= s.skip(1).take(i - 1) + seq![c] + s.skip(1).skip(i - 1));
        assert(s.skip(1)[i - 1] == s[i]);
        lemma_words_extra_space(s.skip(1), i - 1, c);
    } else {
        assert(t[0] == s[0]);
        // the leading word is the same on both sides and ends before `i`
        assert(s =~= s.take(i) + s.skip(i));
        lemma_word_len_concat(s.take(i), s.skip(i));
        assert(word_len(s.skip(i)) == 0);
        assert(word_len(s) == word_len(s.take(i) + s.skip(i)));
        assert(s.take(i) + seq![c] + s.skip(i) =~= s.take(i) + (seq![c] + s.skip(i)));
        lemma_word_len_concat(s.take(i), seq![c] + s.skip(i));
        assert((seq![c] + s.skip(i))[0] == c);
        assert(word_len(seq![c] + s.skip(i)) == 0);
        let w = word_len(s) as int;
        lemma_word_len_le(s.take(i));
        assert(word_len(t) == w);
        assert(w <= i);
        assert(t.take(w) =~= s.take(w));
        assert(words(t) == seq![t.take(w)] + words(t.skip(w)));
        assert(words(s) == seq![s.take(w)] + words(s.skip(w)));
        if w == i {
            assert(t.skip(w) =~= seq![c] + s.skip(i));
            lemma_words_leading_space(s.skip(i), c);
        } else {
            assert(t.skip(w) =~= s.skip(w).take(i - w) + seq![c] + s.skip(w).skip(i - w));
            assert(s.skip(w)[i - w] == s[i]);
            assert(w >= 1);
            lemma_words_extra_space(s.skip(w), i - w, c);
        }
    }
}

/// Executable ASCII lowercasing, equal to the specification `lower_char`.
pub fn lower_char_exec(c: char) -> (r: char)
    ensures
        r == lower_char(c),
{
    match c {
        'A' => 'a',
        'B' => 'b',
        'C' => 'c',
        'D' => 'd',
        'E' => 'e',
        'F' => 'f',
        'G' => 'g',
        'H' => 'h',
        'I' => 'i',
        'J' => 'j',
        'K' => 'k',
        'L' => 'l',
        'M' => 'm',
        'N' => 'n',
        'O' => 'o',
        'P' => 'p',
        'Q' => 'q',
        'R' => 'r',
        'S' => 's',
        'T' => 't',
        'U' => 'u',
        'V' => 'v',
        'W' => 'w',
        'X' => 'x',
        'Y' => 'y',
        'Z' => 'z',
        _ => c,
    }
}

/// Executable test for `is_space`.
pub fn is_space_exec(c: char) -> (r: bool)
    ensures
        r == is_space(c),
{
    c == ' ' || c == '\t' || c == '\n' || c == '\u{b}' || c == '\u{c}' || c == '\r'
}

} // verus!
