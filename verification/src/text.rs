//! Strings as sequences of characters: the small set of text operations that
//! the rest of the crate is built on, each with an exact meaning.
use vstd::prelude::*;

verus! {

/// `String::push` puts the character behind the last one of the string.
pub assume_specification[ String::push ](s: &mut String, c: char)
    ensures
        final(s)@ == old(s)@.push(c),
;

/// What a list of strings holds.
pub open spec fn texts(v: Seq<String>) -> Seq<Seq<char>> {
    v.map_values(|s: String| s@)
}

/// Appending a string to a list appends its text.
pub proof fn lemma_texts_push(v: Seq<String>, s: String)
    ensures
        texts(v.push(s)) == texts(v).push(s@),
{
    assert(texts(v.push(s)) =~= texts(v).push(s@));
}

/// The characters of `s`, in order.
pub fn chars_of(s: &str) -> (res: Vec<char>)
    ensures
        res@ == s@,
{
    let mut res: Vec<char> = Vec::new();
    for c in it: s.chars()
        invariant
            it.seq() == s@,
            res@ == s@.take(it.index()),
    {
        res.push(c);
    }
    res
}

/// The characters `from..to` of `chars` as a string.
pub fn text_between(chars: &Vec<char>, from: usize, to: usize) -> (res: String)
    requires
        from <= to <= chars@.len(),
    ensures
        res@ == chars@.subrange(from as int, to as int),
{
    let mut res = String::new();
    let mut i: usize = from;
    while i < to
        invariant
            from <= i <= to <= chars@.len(),
            res@ == chars@.subrange(from as int, i as int),
        decreases to - i,
    {
        res.push(chars[i]);
        i = i + 1;
    }
    res
}

/// Whether two strings hold the same characters.
pub fn same_text(a: &str, b: &str) -> (res: bool)
    ensures
        res == (a@ == b@),
{
    let x = chars_of(a);
    let y = chars_of(b);
    if x.len() != y.len() {
        return false;
    }
    let mut i: usize = 0;
    while i < x.len()
        invariant
            i <= x@.len() == y@.len(),
            x@ == a@,
            y@ == b@,
            x@.take(i as int) == y@.take(i as int),
        decreases x@.len() - i,
    {
        if x[i] != y[i] {
            assert(a@[i as int] != b@[i as int]);
            return false;
        }
        i = i + 1;
    }
    assert(x@.take(i as int) == x@);
    assert(y@.take(i as int) == y@);
    true
}

/// Whether a list holds a text.
pub fn contains_text(list: &Vec<String>, text: &str) -> (res: bool)
    ensures
        res == texts(list@).contains(text@),
{
    let mut i: usize = 0;
    while i < list.len()
        invariant
            i <= list@.len(),
            forall|k: int| 0 <= k < i ==> #[trigger] texts(list@)[k] != text@,
        decreases list@.len() - i,
    {
        if same_text(list[i].as_str(), text) {
            assert(texts(list@)[i as int] == text@);
            return true;
        }
        i = i + 1;
    }
    false
}

/// Whether `s` begins with `prefix`.
pub fn has_prefix(s: &str, prefix: &str) -> (res: bool)
    ensures
        res == prefix@.is_prefix_of(s@),
{
    let x = chars_of(s);
    let p = chars_of(prefix);
    if p.len() > x.len() {
        return false;
    }
    let mut i: usize = 0;
    while i < p.len()
        invariant
            i <= p@.len() <= x@.len(),
            x@ == s@,
            p@ == prefix@,
            p@.take(i as int) == x@.take(i as int),
        decreases p@.len() - i,
    {
        if x[i] != p[i] {
            assert(s@.subrange(0, prefix@.len() as int)[i as int] != prefix@[i as int]);
            return false;
        }
        i = i + 1;
    }
    assert(p@.take(i as int) == p@);
    true
}

/// Whether `s` ends with `suffix`.
pub fn has_suffix(s: &str, suffix: &str) -> (res: bool)
    ensures
        res == suffix@.is_suffix_of(s@),
{
    let x = chars_of(s);
    let p = chars_of(suffix);
    if p.len() > x.len() {
        return false;
    }
    let gap: usize = x.len() - p.len();
    let mut i: usize = 0;
    while i < p.len()
        invariant
            i <= p@.len() <= x@.len(),
            gap + p.len() == x.len(),
            x@ == s@,
            p@ == suffix@,
            p@.take(i as int) == x@.subrange(gap as int, gap + i),
        decreases p@.len() - i,
    {
        if x[gap + i] != p[i] {
            assert(s@.subrange(gap as int, s@.len() as int)[i as int] != suffix@[i as int]);
            return false;
        }
        i = i + 1;
    }
    assert(p@.take(i as int) == p@);
    true
}

/// Whether a character separates words: the characters with Unicode's
/// `White_Space` property.
pub open spec fn is_space(c: char) -> bool {
    ||| '\u{9}' <= c <= '\u{d}'
    ||| c == '\u{20}'
    ||| c == '\u{85}'
    ||| c == '\u{a0}'
    ||| c == '\u{1680}'
    ||| '\u{2000}' <= c <= '\u{200a}'
    ||| c == '\u{2028}'
    ||| c == '\u{2029}'
    ||| c == '\u{202f}'
    ||| c == '\u{205f}'
    ||| c == '\u{3000}'
}

/// Tests for `is_space`.
pub fn char_is_space(c: char) -> (res: bool)
    ensures
        res == is_space(c),
{
    ('\u{9}' <= c && c <= '\u{d}') || c == '\u{20}' || c == '\u{85}' || c == '\u{a0}' || c
        == '\u{1680}' || ('\u{2000}' <= c && c <= '\u{200a}') || c == '\u{2028}' || c == '\u{2029}'
        || c == '\u{202f}' || c == '\u{205f}' || c == '\u{3000}'
}

/// How many characters at the front of `s` are no spaces.
pub open spec fn word_len(s: Seq<char>) -> nat
    decreases s.len(),
{
    if s.len() == 0 || is_space(s[0]) {
        0
    } else {
        1 + word_len(s.drop_first())
    }
}

/// A word is no longer than the text that it begins.
pub proof fn lemma_word_len(s: Seq<char>)
    ensures
        word_len(s) <= s.len(),
        s.len() > 0 && !is_space(s[0]) ==> word_len(s) > 0,
    decreases s.len(),
{
    if s.len() > 0 {
        lemma_word_len(s.drop_first());
    }
}

/// The words of `s`: its longest stretches without a space, in order.
pub open spec fn words_of(s: Seq<char>) -> Seq<Seq<char>>
    decreases s.len(),
    via words_of_decreases
{
    if s.len() == 0 {
        Seq::empty()
    } else if is_space(s[0]) {
        words_of(s.drop_first())
    } else {
        seq![s.take(word_len(s) as int)] + words_of(s.skip(word_len(s) as int))
    }
}

#[via_fn]
proof fn words_of_decreases(s: Seq<char>) {
    lemma_word_len(s);
}

/// Splits `s` at its spaces.
pub fn words(s: &str) -> (res: Vec<String>)
    ensures
        texts(res@) == words_of(s@),
{
    let x = chars_of(s);
    let mut res: Vec<String> = Vec::new();
    let mut i: usize = 0;
    assert(x@.skip(0) == x@);
    while i < x.len()
        invariant
            i <= x@.len(),
            x@ == s@,
            texts(res@) + words_of(x@.skip(i as int)) == words_of(s@),
        decreases x@.len() - i,
    {
        let ghost rest = x@.skip(i as int);
        if char_is_space(x[i]) {
            assert(rest.drop_first() == x@.skip(i + 1));
            i = i + 1;
        } else {
            let mut j: usize = i;
            while j < x.len() && !char_is_space(x[j])
                invariant
                    i <= j <= x@.len(),
                    word_len(x@.skip(i as int)) == (j - i) + word_len(x@.skip(j as int)),
                decreases x@.len() - j,
            {
                assert(x@.skip(j as int).drop_first() == x@.skip(j + 1));
                j = j + 1;
            }
            proof {
                lemma_word_len(rest);
                assert(rest.take(j - i) == x@.subrange(i as int, j as int));
                assert(rest.skip(j - i) == x@.skip(j as int));
            }
            let word = text_between(&x, i, j);
            proof {
                lemma_texts_push(res@, word);
                assert(texts(res@).push(word@) + words_of(x@.skip(j as int)) == texts(res@) + (seq![
                    word@,
                ] + words_of(x@.skip(j as int))));
            }
            res.push(word);
            i = j;
        }
    }
    assert(words_of(x@.skip(i as int)) == Seq::<Seq<char>>::empty());
    assert(texts(res@) + Seq::<Seq<char>>::empty() == texts(res@));
    res
}

/// The words of two texts with white space between them are the words of the
/// one followed by the words of the other.
pub proof fn words_of_spaced(a: Seq<char>, c: char, b: Seq<char>)
    requires
        is_space(c),
    ensures
        words_of(a + seq![c] + b) == words_of(a) + words_of(b),
    decreases a.len(),
{
    let joined = a + seq![c] + b;
    if a.len() == 0 {
        assert(joined.drop_first() == b);
        assert(words_of(a) + words_of(b) == words_of(b));
    } else if is_space(a[0]) {
        assert(joined.drop_first() == a.drop_first() + seq![c] + b);
        words_of_spaced(a.drop_first(), c, b);
    } else {
        lemma_word_len(a);
        lemma_word_len_spaced(a, c, b);
        let k = word_len(a) as int;
        assert(joined.take(k) == a.take(k));
        assert(joined.skip(k) == a.skip(k) + seq![c] + b);
        words_of_spaced(a.skip(k), c, b);
        assert(words_of(a) + words_of(b) == seq![a.take(k)] + (words_of(a.skip(k)) + words_of(b)));
    }
}

proof fn lemma_word_len_spaced(a: Seq<char>, c: char, b: Seq<char>)
    requires
        is_space(c),
    ensures
        word_len(a + seq![c] + b) == word_len(a),
    decreases a.len(),
{
    let joined = a + seq![c] + b;
    if a.len() > 0 {
        assert(joined.drop_first() == a.drop_first() + seq![c] + b);
        lemma_word_len_spaced(a.drop_first(), c, b);
    }
}

/// The words of two texts with a space between them are the words of the
/// one followed by the words of the other.
pub proof fn words_of_joined(a: Seq<char>, b: Seq<char>)
    ensures
        words_of(a + seq![' '] + b) == words_of(a) + words_of(b),
    decreases a.len(),
{
    let joined = a + seq![' '] + b;
    if a.len() == 0 {
        assert(joined.drop_first() == b);
        assert(words_of(a) + words_of(b) == words_of(b));
    } else if is_space(a[0]) {
        assert(joined.drop_first() == a.drop_first() + seq![' '] + b);
        words_of_joined(a.drop_first(), b);
    } else {
        lemma_word_len(a);
        lemma_word_len_joined(a, b);
        let k = word_len(a) as int;
        assert(joined.take(k) == a.take(k));
        assert(joined.skip(k) == a.skip(k) + seq![' '] + b);
        words_of_joined(a.skip(k), b);
        assert(words_of(a) + words_of(b) == seq![a.take(k)] + (words_of(a.skip(k)) + words_of(b)));
    }
}

proof fn lemma_word_len_joined(a: Seq<char>, b: Seq<char>)
    ensures
        word_len(a + seq![' '] + b) == word_len(a),
    decreases a.len(),
{
    let joined = a + seq![' '] + b;
    if a.len() > 0 {
        assert(joined.drop_first() == a.drop_first() + seq![' '] + b);
        lemma_word_len_joined(a.drop_first(), b);
    }
}

/// A text without white space is one word, and no text has no words.
pub proof fn text_without_space_is_a_word(s: Seq<char>)
    requires
        forall|i: int| 0 <= i < s.len() ==> !is_space(#[trigger] s[i]),
    ensures
        words_of(s) == (if s.len() > 0 {
            seq![s]
        } else {
            Seq::empty()
        }),
{
    if s.len() > 0 {
        lemma_whole_word(s);
        assert(s.take(s.len() as int) == s);
        assert(words_of(s.skip(s.len() as int)) == Seq::<Seq<char>>::empty());
        assert(seq![s] + Seq::<Seq<char>>::empty() == seq![s]);
    }
}

proof fn lemma_whole_word(s: Seq<char>)
    requires
        forall|i: int| 0 <= i < s.len() ==> !is_space(#[trigger] s[i]),
    ensures
        word_len(s) == s.len(),
    decreases s.len(),
{
    if s.len() > 0 {
        assert forall|i: int| 0 <= i < s.len() - 1 implies !is_space(
            #[trigger] s.drop_first()[i],
        ) by {
            assert(s.drop_first()[i] == s[i + 1]);
        }
        lemma_whole_word(s.drop_first());
    }
}

/// White space is the tab, the line feed and their kin, the space, and the
/// spaces and separators that Unicode adds; no other character is.
pub proof fn white_space(c: char)
    ensures
        ({
            let u = c as int;
            is_space(c) <==> u == 0x9 || u == 0xa || u == 0xb || u == 0xc || u == 0xd || u == 0x20
                || u == 0x85 || u == 0xa0 || u == 0x1680 || u == 0x2000 || u == 0x2001 || u
                == 0x2002 || u == 0x2003 || u == 0x2004 || u == 0x2005 || u == 0x2006 || u
                == 0x2007 || u == 0x2008 || u == 0x2009 || u == 0x200a || u == 0x2028 || u
                == 0x2029 || u == 0x202f || u == 0x205f || u == 0x3000
        }),
{
}

/// A list of strings holds their texts, each in its place.
pub proof fn every_string_has_its_text(v: Seq<String>, i: int)
    requires
        0 <= i < v.len(),
    ensures
        texts(v).len() == v.len(),
        texts(v)[i] == v[i]@,
{
}

/// How many characters stand before the first line feed of `s`.
pub open spec fn line_len(s: Seq<char>) -> nat
    decreases s.len(),
{
    if s.len() == 0 || s[0] == '\n' {
        0
    } else {
        1 + line_len(s.drop_first())
    }
}

/// A line is no longer than the text that it begins, and ends at a line feed
/// or at the end of the text.
pub proof fn lemma_line_len(s: Seq<char>)
    ensures
        line_len(s) <= s.len(),
        line_len(s) < s.len() ==> s[line_len(s) as int] == '\n',
    decreases s.len(),
{
    if s.len() > 0 {
        lemma_line_len(s.drop_first());
    }
}

/// A line without the carriage return that stood before its line feed.
pub open spec fn without_return(line: Seq<char>) -> Seq<char> {
    if line.len() > 0 && line.last() == '\r' {
        line.drop_last()
    } else {
        line
    }
}

/// The lines of `s`: each ends with a line feed, or a carriage return and a
/// line feed, which are no part of it; the last one may go without.
pub open spec fn lines_of(s: Seq<char>) -> Seq<Seq<char>>
    decreases s.len(),
    via lines_of_decreases
{
    let k = line_len(s) as int;
    if s.len() == 0 {
        Seq::empty()
    } else if k < s.len() {
        seq![without_return(s.take(k))] + lines_of(s.skip(k + 1))
    } else {
        seq![s]
    }
}

#[via_fn]
proof fn lines_of_decreases(s: Seq<char>) {
    lemma_line_len(s);
}

/// Splits `s` into its lines.
pub fn lines(s: &str) -> (res: Vec<String>)
    ensures
        texts(res@) == lines_of(s@),
{
    let x = chars_of(s);
    let mut res: Vec<String> = Vec::new();
    let mut i: usize = 0;
    assert(x@.skip(0) == x@);
    while i < x.len()
        invariant
            i <= x@.len(),
            x@ == s@,
            texts(res@) + lines_of(x@.skip(i as int)) == lines_of(s@),
        decreases x@.len() - i,
    {
        let ghost rest = x@.skip(i as int);
        let mut j: usize = i;
        while j < x.len() && x[j] != '\n'
            invariant
                i <= j <= x@.len(),
                line_len(x@.skip(i as int)) == (j - i) + line_len(x@.skip(j as int)),
            decreases x@.len() - j,
        {
            assert(x@.skip(j as int).drop_first() == x@.skip(j + 1));
            j = j + 1;
        }
        proof {
            lemma_line_len(rest);
            assert(rest.take(j - i) == x@.subrange(i as int, j as int));
        }
        let end: usize = if j < x.len() && i < j && x[j - 1] == '\r' {
            j - 1
        } else {
            j
        };
        let line = text_between(&x, i, end);
        let next: usize = if j < x.len() {
            j + 1
        } else {
            j
        };
        proof {
            if j < x@.len() {
                assert(line@ == without_return(rest.take(j - i)));
                assert(rest.skip(j - i + 1) == x@.skip(next as int));
            } else {
                assert(line@ == rest);
                assert(lines_of(x@.skip(next as int)) == Seq::<Seq<char>>::empty());
            }
            lemma_texts_push(res@, line);
            assert(lines_of(rest) == seq![line@] + lines_of(x@.skip(next as int)));
            assert(texts(res@).push(line@) + lines_of(x@.skip(next as int)) == texts(res@) + (seq![
                line@,
            ] + lines_of(x@.skip(next as int))));
        }
        res.push(line);
        i = next;
    }
    assert(lines_of(x@.skip(i as int)) == Seq::<Seq<char>>::empty());
    assert(texts(res@) + Seq::<Seq<char>>::empty() == texts(res@));
    res
}

/// A text up to its first line feed is its first line, without the carriage
/// return before the line feed if there is one; what follows the line feed has
/// the other lines.
pub proof fn line_ends_at_its_line_feed(line: Seq<char>, rest: Seq<char>)
    requires
        !line.contains('\n'),
    ensures
        line.len() == 0 || line.last() != '\r' ==> lines_of(line + seq!['\n'] + rest) == seq![line]
            + lines_of(rest),
        lines_of(line + seq!['\r', '\n'] + rest) == seq![line] + lines_of(rest),
{
    let plain = line + seq!['\n'] + rest;
    lemma_line_len_of(line, rest);
    assert(plain.take(line.len() as int) =~= line);
    assert(plain.skip(line.len() as int + 1) =~= rest);
    let returned = line.push('\r');
    let both = line + seq!['\r', '\n'] + rest;
    assert forall|i: int| 0 <= i < returned.len() implies #[trigger] returned[i] != '\n' by {
        if i < line.len() {
            assert(line.contains(line[i]));
        }
    }
    lemma_line_len_of(returned, rest);
    assert(both =~= returned + seq!['\n'] + rest);
    assert(both.take(returned.len() as int) =~= returned);
    assert(both.skip(returned.len() as int + 1) =~= rest);
    assert(returned.drop_last() =~= line);
}

/// A text without a line feed is one line, as it is; no text has no lines.
pub proof fn text_without_line_feed_is_a_line(s: Seq<char>)
    requires
        !s.contains('\n'),
    ensures
        lines_of(s) == (if s.len() > 0 {
            seq![s]
        } else {
            Seq::empty()
        }),
{
    lemma_line_len(s);
    if line_len(s) < s.len() {
        assert(s.contains(s[line_len(s) as int]));
    }
}

proof fn lemma_line_len_of(line: Seq<char>, rest: Seq<char>)
    requires
        !line.contains('\n'),
    ensures
        line_len(line + seq!['\n'] + rest) == line.len(),
    decreases line.len(),
{
    let s = line + seq!['\n'] + rest;
    if line.len() > 0 {
        assert(line.contains(line[0]));
        assert(s.drop_first() =~= line.drop_first() + seq!['\n'] + rest);
        assert forall|i: int| 0 <= i < line.len() - 1 implies #[trigger] line.drop_first()[i]
            != '\n' by {
            assert(line.contains(line[i + 1]));
        }
        lemma_line_len_of(line.drop_first(), rest);
    }
}

/// A path with `/` in the place of every backslash.
pub open spec fn slashed(s: Seq<char>) -> Seq<char> {
    s.map_values(
        |c: char|
            if c == '\\' {
                '/'
            } else {
                c
            },
    )
}

/// Writes a path with forward slashes only.
pub fn forward_slashes(s: &str) -> (res: String)
    ensures
        res@ == slashed(s@),
{
    let x = chars_of(s);
    let mut res = String::new();
    let mut i: usize = 0;
    while i < x.len()
        invariant
            i <= x@.len(),
            x@ == s@,
            res@ == slashed(s@.take(i as int)),
        decreases x@.len() - i,
    {
        let c = if x[i] == '\\' {
            '/'
        } else {
            x[i]
        };
        res.push(c);
        i = i + 1;
        assert(res@ == slashed(s@.take(i as int)));
    }
    assert(s@.take(i as int) == s@);
    res
}

/// Of the characters of a path, the backslashes become slashes, and all others
/// stay what they are and where they are.
pub proof fn only_backslashes_change(s: Seq<char>, i: int)
    requires
        0 <= i < s.len(),
    ensures
        slashed(s).len() == s.len(),
        s[i] == '\\' ==> slashed(s)[i] == '/',
        s[i] != '\\' ==> slashed(s)[i] == s[i],
{
}

/// Alphabetical order by code points: whether `a` comes strictly before `b`.
pub open spec fn precedes(a: Seq<char>, b: Seq<char>) -> bool
    decreases a.len(),
{
    if b.len() == 0 {
        false
    } else if a.len() == 0 {
        true
    } else if a[0] != b[0] {
        a[0] < b[0]
    } else {
        precedes(a.drop_first(), b.drop_first())
    }
}

/// No text comes before itself.
pub proof fn precedes_irreflexive(a: Seq<char>)
    ensures
        !precedes(a, a),
    decreases a.len(),
{
    if a.len() > 0 {
        precedes_irreflexive(a.drop_first());
    }
}

/// Alphabetical order is transitive.
pub proof fn precedes_transitive(a: Seq<char>, b: Seq<char>, c: Seq<char>)
    requires
        precedes(a, b),
        precedes(b, c),
    ensures
        precedes(a, c),
    decreases a.len(),
{
    if a.len() > 0 && a[0] == b[0] && b[0] == c[0] {
        precedes_transitive(a.drop_first(), b.drop_first(), c.drop_first());
    }
}

/// Of two different texts, one comes before the other.
pub proof fn precedes_total(a: Seq<char>, b: Seq<char>)
    ensures
        a == b || precedes(a, b) || precedes(b, a),
    decreases a.len(),
{
    if a.len() > 0 && b.len() > 0 {
        if a[0] == b[0] {
            precedes_total(a.drop_first(), b.drop_first());
            if a.drop_first() == b.drop_first() {
                assert(a == seq![a[0]] + a.drop_first());
                assert(b == seq![b[0]] + b.drop_first());
            }
        }
    } else {
        assert(a.len() == 0 && b.len() == 0 ==> a == b);
    }
}

/// The first difference decides: of two texts that begin alike, the one that
/// ends there comes first, or else the one with the smaller character there.
pub proof fn first_difference_decides(a: Seq<char>, b: Seq<char>, k: int)
    requires
        0 <= k <= a.len(),
        k <= b.len(),
        a.take(k) == b.take(k),
        k < a.len() && k < b.len() ==> a[k] != b[k],
    ensures
        k == a.len() ==> precedes(a, b) == (k < b.len()),
        k < a.len() ==> precedes(a, b) == (k < b.len() && (a[k] as int) < (b[k] as int)),
    decreases k,
{
    if k > 0 {
        assert(a.take(k)[0] == a[0] && b.take(k)[0] == b[0]);
        assert(a.drop_first().take(k - 1) =~= a.take(k).drop_first());
        assert(b.drop_first().take(k - 1) =~= b.take(k).drop_first());
        first_difference_decides(a.drop_first(), b.drop_first(), k - 1);
    }
}

/// Compares two strings alphabetically.
pub fn comes_before(a: &str, b: &str) -> (res: bool)
    ensures
        res == precedes(a@, b@),
{
    let x = chars_of(a);
    let y = chars_of(b);
    let mut i: usize = 0;
    assert(x@.skip(0) == x@);
    assert(y@.skip(0) == y@);
    while i < x.len() && i < y.len() && x[i] == y[i]
        invariant
            i <= x@.len(),
            i <= y@.len(),
            x@ == a@,
            y@ == b@,
            precedes(a@, b@) == precedes(x@.skip(i as int), y@.skip(i as int)),
        decreases x@.len() - i,
    {
        assert(x@.skip(i as int).drop_first() == x@.skip(i + 1));
        assert(y@.skip(i as int).drop_first() == y@.skip(i + 1));
        i = i + 1;
    }
    if i >= y.len() {
        false
    } else if i >= x.len() {
        true
    } else {
        x[i] < y[i]
    }
}

/// A character with an ASCII capital turned into its small letter.
pub open spec fn small_letter(c: char) -> char {
    if 'A' <= c <= 'Z' {
        (c as u32 + 32) as char
    } else {
        c
    }
}

/// A text with its ASCII capitals turned into small letters.
pub open spec fn small_letters(s: Seq<char>) -> Seq<char> {
    s.map_values(|c: char| small_letter(c))
}

/// Tests whether `s` is `word` but for the case of ASCII letters.
pub fn same_ignoring_case(s: &str, word: &str) -> (res: bool)
    ensures
        res == (small_letters(s@) == small_letters(word@)),
{
    let x = chars_of(s);
    let y = chars_of(word);
    if x.len() != y.len() {
        assert(small_letters(s@).len() != small_letters(word@).len());
        return false;
    }
    let mut i: usize = 0;
    while i < x.len()
        invariant
            i <= x@.len() == y@.len(),
            x@ == s@,
            y@ == word@,
            forall|k: int| 0 <= k < i ==> small_letter(#[trigger] x@[k]) == small_letter(y@[k]),
        decreases x@.len() - i,
    {
        if to_small_letter(x[i]) != to_small_letter(y[i]) {
            assert(small_letters(s@)[i as int] != small_letters(word@)[i as int]);
            return false;
        }
        i = i + 1;
    }
    assert(small_letters(s@) =~= small_letters(word@));
    true
}

fn to_small_letter(c: char) -> (res: char)
    ensures
        res == small_letter(c),
{
    if 'A' <= c && c <= 'Z' {
        ((c as u8) + 32) as char
    } else {
        c
    }
}

/// `s` ends with `ending` but for the case of ASCII letters.
pub open spec fn ends_ignoring_case(s: Seq<char>, ending: Seq<char>) -> bool {
    s.len() >= ending.len() && small_letters(s.skip(s.len() - ending.len())) == small_letters(ending)
}

/// Tests for `ends_ignoring_case`.
pub fn has_ending(name: &str, ending: &str) -> (res: bool)
    ensures
        res == ends_ignoring_case(name@, ending@),
{
    let x = chars_of(name);
    let y = chars_of(ending);
    if x.len() < y.len() {
        return false;
    }
    let tail = text_between(&x, x.len() - y.len(), x.len());
    assert(tail@ == name@.skip(name@.len() - ending@.len()));
    same_ignoring_case(tail.as_str(), ending)
}

/// A text ends with an ending, whatever stands before, if their characters
/// agree one by one; a capital from `A` to `Z` and its small letter agree, and
/// otherwise only the same character does.
pub proof fn ending_letter_by_letter(s: Seq<char>, ending: Seq<char>)
    ensures
        ends_ignoring_case(s, ending) <==> s.len() >= ending.len() && forall|i: int|
            0 <= i < ending.len() ==> {
                let c = s[s.len() - ending.len() + i] as int;
                let e = #[trigger] ending[i] as int;
                c == e || (65 <= c <= 90 && e == c + 32) || (65 <= e <= 90 && c == e + 32)
            },
{
    if s.len() >= ending.len() {
        let tail = s.skip(s.len() - ending.len());
        assert forall|i: int| 0 <= i < ending.len() implies (small_letter(tail[i]) == small_letter(
            #[trigger] ending[i],
        )) == ({
            let c = s[s.len() - ending.len() + i] as int;
            let e = ending[i] as int;
            c == e || (65 <= c <= 90 && e == c + 32) || (65 <= e <= 90 && c == e + 32)
        }) by {
            assert(tail[i] == s[s.len() - ending.len() + i]);
            lemma_small_letters_agree(tail[i], ending[i]);
        }
        if small_letters(tail) == small_letters(ending) {
            assert forall|i: int| 0 <= i < ending.len() implies small_letter(tail[i])
                == small_letter(#[trigger] ending[i]) by {
                assert(small_letters(tail)[i] == small_letters(ending)[i]);
            }
        } else {
            if forall|i: int|
                0 <= i < ending.len() ==> small_letter(tail[i]) == small_letter(
                    #[trigger] ending[i],
                ) {
                assert(small_letters(tail) =~= small_letters(ending));
            }
        }
    }
}

proof fn lemma_small_letters_agree(a: char, b: char)
    ensures
        (small_letter(a) == small_letter(b)) == ({
            let c = a as int;
            let e = b as int;
            c == e || (65 <= c <= 90 && e == c + 32) || (65 <= e <= 90 && c == e + 32)
        }),
{
    let c = a as u32;
    let e = b as u32;
    if 65 <= c <= 90 {
        assert(((c + 32) as char) as int == c + 32);
    }
    if 65 <= e <= 90 {
        assert(((e + 32) as char) as int == e + 32);
    }
}

} // verus!
