//! Text handling: white space, words, substring containment.
//!
//! Strings are modelled by their view, a `Seq<char>`.

use vstd::prelude::*;

verus! {

/// Whether `c` is white space: the code points that carry Unicode's
/// `White_Space` property.
pub open spec fn is_space(c: char) -> bool {
    let u = c as u32;
    ||| 0x09 <= u <= 0x0D
    ||| u == 0x20
    ||| u == 0x85
    ||| u == 0xA0
    ||| u == 0x1680
    ||| 0x2000 <= u <= 0x200A
    ||| u == 0x2028
    ||| u == 0x2029
    ||| u == 0x202F
    ||| u == 0x205F
    ||| u == 0x3000
}

/// A text without any visible character.
pub open spec fn is_blank(s: Seq<char>) -> bool {
    forall|i: int| 0 <= i < s.len() ==> is_space(#[trigger] s[i])
}

/// A word: at least one character, none of them white space.
pub open spec fn is_word(s: Seq<char>) -> bool {
    &&& s.len() > 0
    &&& forall|i: int| 0 <= i < s.len() ==> !is_space(#[trigger] s[i])
}

/// The words of `s`, in order: its maximal runs of characters that are
/// not white space.
///
/// Read from the left, a white-space character ends the word before it, a
/// visible character after a visible one lengthens the last word, and any
/// other visible character starts a new one.
pub open spec fn words_of(s: Seq<char>) -> Seq<Seq<char>>
    decreases s.len(),
{
    if s.len() == 0 {
        Seq::empty()
    } else {
        let before = words_of(s.drop_last());
        let c = s.last();
        if is_space(c) {
            before
        } else if s.len() >= 2 && !is_space(s[s.len() - 2]) {
            before.drop_last().push(before.last().push(c))
        } else {
            before.push(seq![c])
        }
    }
}

/// What `words_of` yields are words, there is one as soon as `s` has a
/// visible character, and while `s` ends in a visible character the last
/// word is not closed yet: it is the run that `s` ends in.
pub proof fn lemma_words_of(s: Seq<char>)
    ensures
        forall|i: int| 0 <= i < words_of(s).len() ==> is_word(#[trigger] words_of(s)[i]),
        words_of(s).len() == 0 <==> is_blank(s),
        s.len() > 0 && !is_space(s.last()) ==> words_of(s).len() > 0,
    decreases s.len(),
{
    if s.len() > 0 {
        let init = s.drop_last();
        lemma_words_of(init);
        let before = words_of(init);
        let c = s.last();
        if is_space(c) {
            assert(is_blank(init) ==> is_blank(s)) by {
                if is_blank(init) {
                    assert forall|i: int| 0 <= i < s.len() implies is_space(#[trigger] s[i]) by {
                        if i < init.len() {
                            assert(s[i] == init[i]);
                        }
                    }
                }
            }
            assert(is_blank(s) ==> is_blank(init)) by {
                if is_blank(s) {
                    assert forall|i: int| 0 <= i < init.len() implies is_space(
                        #[trigger] init[i],
                    ) by {
                        assert(init[i] == s[i]);
                    }
                }
            }
        } else {
            assert(!is_blank(s)) by {
                assert(!is_space(s[s.len() - 1]));
            }
            if s.len() >= 2 && !is_space(s[s.len() - 2]) {
                assert(init.last() == s[s.len() - 2]);
                let grown = before.last().push(c);
                assert(is_word(before.last()));
                assert(is_word(grown)) by {
                    assert forall|i: int| 0 <= i < grown.len() implies !is_space(
                        #[trigger] grown[i],
                    ) by {
                        if i < before.last().len() {
                            assert(grown[i] == before.last()[i]);
                        }
                    }
                }
            } else {
                assert(is_word(seq![c]));
            }
        }
    }
}

/// Whether `needle` stands in `hay` at offset `at`.
pub open spec fn occurs_at(hay: Seq<char>, needle: Seq<char>, at: int) -> bool {
    &&& 0 <= at
    &&& at + needle.len() <= hay.len()
    &&& hay.subrange(at, at + needle.len()) == needle
}

/// Whether `needle` is a substring of `hay`: character for character, so
/// upper and lower case differ, and the empty text is in every text.
pub open spec fn contains(hay: Seq<char>, needle: Seq<char>) -> bool {
    exists|at: int| occurs_at(hay, needle, at)
}

/// The texts `parts` in a row, with `sep` between each two of them.
pub open spec fn joined(parts: Seq<Seq<char>>, sep: Seq<char>) -> Seq<char>
    decreases parts.len(),
{
    if parts.len() == 0 {
        Seq::empty()
    } else if parts.len() == 1 {
        parts[0]
    } else {
        joined(parts.drop_last(), sep) + sep + parts.last()
    }
}

/// Joins texts with a separator, by `itertools::Itertools::join` over the
/// iterator of `parts`.
///
/// That function writes the first item as `Display` shows it, which for a
/// `String` is the string itself, and then for every further item the
/// separator and the item; of no items it makes the empty string. The
/// contract says this of the views, and is believed, not proved.
#[verifier::external_body]
pub(crate) fn join(parts: &Vec<String>, sep: &str) -> (out: String)
    ensures
        out@ == joined(parts.deep_view(), sep@),
{
    itertools::Itertools::join(&mut parts.iter(), sep)
}

/// Tests a character for white space.
pub fn is_whitespace(c: char) -> (b: bool)
    ensures
        b == is_space(c),
{
    let u: u32 = c as u32;
    (0x09 <= u && u <= 0x0D) || u == 0x20 || u == 0x85 || u == 0xA0 || u == 0x1680 || (0x2000 <= u
        && u <= 0x200A) || u == 0x2028 || u == 0x2029 || u == 0x202F || u == 0x205F || u == 0x3000
}

/// The characters of `s`, in order.
pub fn chars_of(s: &str) -> (out: Vec<char>)
    ensures
        out@ == s@,
{
    let mut out: Vec<char> = Vec::new();
    for c in it: s.chars()
        invariant
            out@ == it.seq().take(it.index()),
            it.seq() == s@,
    {
        out.push(c);
    }
    out
}

/// Splits a text into its words, dropping all white space.
pub fn split_words(text: &str) -> (words: Vec<String>)
    ensures
        words.deep_view() == words_of(text@),
        forall|i: int| 0 <= i < words.len() ==> is_word(#[trigger] words[i]@),
        words.len() == 0 <==> is_blank(text@),
{
    let chars = chars_of(text);
    let n = chars.len();
    let mut words: Vec<String> = Vec::new();
    let mut start: usize = 0;
    let mut in_word = false;
    let mut i: usize = 0;
    while i < n
        invariant
            chars@ == text@,
            n == chars.len(),
            i <= n,
            in_word ==> start < i && !is_space(chars[i - 1]),
            !in_word ==> i == 0 || is_space(chars[i - 1]),
            in_word ==> words_of(text@.take(i as int)) == words.deep_view().push(
                text@.subrange(start as int, i as int),
            ),
            !in_word ==> words_of(text@.take(i as int)) == words.deep_view(),
        decreases n - i,
    {
        let c = chars[i];
        let ghost seen = text@.take(i as int);
        let ghost next = text@.take(i + 1);
        let ghost old_words = words.deep_view();
        proof {
            assert(next.drop_last() == seen);
            assert(next.last() == c);
            if i > 0 {
                assert(next[next.len() - 2] == chars[i - 1]);
            }
        }
        if is_whitespace(c) {
            if in_word {
                let word = text.substring_char(start, i).to_owned();
                words.push(word);
                in_word = false;
                assert(words.deep_view() == old_words.push(text@.subrange(start as int, i as int)));
            }
        } else if in_word {
            proof {
                let run = text@.subrange(start as int, i as int);
                let before = old_words.push(run);
                assert(before.drop_last() == old_words);
                assert(before.last().push(c) == text@.subrange(start as int, i + 1));
            }
        } else {
            start = i;
            in_word = true;
            assert(seq![c] == text@.subrange(i as int, i + 1));
        }
        i += 1;
    }
    assert(text@.take(n as int) == text@);
    if in_word {
        let ghost old_words = words.deep_view();
        let word = text.substring_char(start, n).to_owned();
        words.push(word);
        assert(words.deep_view() == old_words.push(text@.subrange(start as int, n as int)));
    }
    proof {
        lemma_words_of(text@);
        assert forall|i: int| 0 <= i < words.len() implies is_word(#[trigger] words[i]@) by {
            assert(words.deep_view()[i] == words[i]@);
        }
    }
    words
}

/// Tests whether a text is a word.
pub fn is_word_str(text: &str) -> (b: bool)
    ensures
        b == is_word(text@),
{
    let chars = chars_of(text);
    if chars.len() == 0 {
        return false;
    }
    let mut i: usize = 0;
    while i < chars.len()
        invariant
            i <= chars.len(),
            chars@ == text@,
            forall|j: int| 0 <= j < i ==> !is_space(#[trigger] chars[j]),
        decreases chars.len() - i,
    {
        if is_whitespace(chars[i]) {
            return false;
        }
        i += 1;
    }
    true
}

/// Tests whether `needle` stands in `hay` at offset `at`.
fn matches_at(hay: &Vec<char>, needle: &Vec<char>, at: usize) -> (b: bool)
    requires
        at + needle.len() <= hay.len(),
    ensures
        b == occurs_at(hay@, needle@, at as int),
{
    let m = needle.len();
    let mut k: usize = 0;
    while k < m
        invariant
            m == needle.len(),
            at + m <= hay.len(),
            k <= m,
            forall|j: int| 0 <= j < k ==> hay[at + j] == needle[j],
        decreases m - k,
    {
        if hay[at + k] != needle[k] {
            proof {
                let part = hay@.subrange(at as int, at + m);
                assert(part[k as int] == hay[at + k]);
            }
            return false;
        }
        k += 1;
    }
    assert(hay@.subrange(at as int, at + m) =~= needle@);
    true
}

/// Tests whether `needle` is a substring of `hay`.
pub fn contains_chars(hay: &Vec<char>, needle: &Vec<char>) -> (b: bool)
    ensures
        b == contains(hay@, needle@),
{
    let n = hay.len();
    let m = needle.len();
    if m > n {
        return false;
    }
    let last = n - m;
    let mut at: usize = 0;
    while at < last
        invariant
            n == hay.len(),
            m == needle.len(),
            last == n - m,
            at <= last,
            forall|a: int| 0 <= a < at ==> !occurs_at(hay@, needle@, a),
        decreases last - at,
    {
        if matches_at(hay, needle, at) {
            return true;
        }
        at += 1;
    }
    matches_at(hay, needle, last)
}

/// Tests whether `needle` is a substring of `hay`.
pub fn contains_str(hay: &str, needle: &str) -> (b: bool)
    ensures
        b == contains(hay@, needle@),
{
    let hay_chars = chars_of(hay);
    let needle_chars = chars_of(needle);
    contains_chars(&hay_chars, &needle_chars)
}

} // verus!
