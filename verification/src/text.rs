//! Text helpers: white space, words, lines and decimal numbers.
//!
//! Text is modelled as `Seq<char>`, the view of `str` and `String`.

use vstd::prelude::*;
use vstd::utf8::*;

verus! {

/// `String::push`: appends one character to the end of the string.
pub assume_specification[ String::push ](s: &mut String, c: char)
    ensures
        final(s)@ == old(s)@.push(c),
;

/// The views of a sequence of strings.
pub open spec fn views(strings: Seq<String>) -> Seq<Seq<char>> {
    strings.map_values(|s: String| s@)
}

/// The text of an optional string; a missing one counts as empty.
pub open spec fn text_or_empty(s: Option<String>) -> Seq<char> {
    match s {
        Some(text) => text@,
        None => Seq::empty(),
    }
}

/// The characters with the Unicode property `White_Space`.
pub open spec fn is_space(c: char) -> bool {
    let u = c as u32;
    ||| 0x09 <= u <= 0x0d
    ||| u == 0x20
    ||| u == 0x85
    ||| u == 0xa0
    ||| u == 0x1680
    ||| 0x2000 <= u <= 0x200a
    ||| u == 0x2028
    ||| u == 0x2029
    ||| u == 0x202f
    ||| u == 0x205f
    ||| u == 0x3000
}

/// Whether `c` is white space.
pub fn is_whitespace(c: char) -> (r: bool)
    ensures
        r == is_space(c),
{
    let u: u32 = c as u32;
    (0x09 <= u && u <= 0x0d) || u == 0x20 || u == 0x85 || u == 0xa0 || u == 0x1680 || (0x2000 <= u
        && u <= 0x200a) || u == 0x2028 || u == 0x2029 || u == 0x202f || u == 0x205f || u == 0x3000
}

/// The characters of `s` as a vector.
pub fn chars_of(s: &str) -> (out: Vec<char>)
    ensures
        out@ == s@,
{
    let mut out: Vec<char> = Vec::new();
    for c in it: s.chars()
        invariant
            it.seq() == s@,
            out@ == s@.take(it.index() as int),
    {
        proof {
            assert(s@.take(it.index() as int).push(c) =~= s@.take(it.index() + 1));
        }
        out.push(c);
    }
    proof {
        assert(s@.take(s@.len() as int) =~= s@);
    }
    out
}

/// The characters from `from` up to `to` as a string.
pub fn string_of(chars: &Vec<char>, from: usize, to: usize) -> (out: String)
    requires
        from <= to <= chars@.len(),
    ensures
        out@ == chars@.subrange(from as int, to as int),
{
    let mut out: String = String::new();
    let mut i: usize = from;
    while i < to
        invariant
            from <= i <= to <= chars@.len(),
            out@ == chars@.subrange(from as int, i as int),
        decreases to - i,
    {
        out.push(chars[i]);
        i = i + 1;
        proof {
            assert(chars@.subrange(from as int, i as int) =~= chars@.subrange(
                from as int,
                i - 1,
            ).push(chars@[i - 1]));
        }
    }
    out
}

/// The length of the run of non-space characters that `s` begins with.
pub open spec fn word_len(s: Seq<char>) -> nat
    decreases s.len(),
{
    if s.len() == 0 || is_space(s[0]) {
        0
    } else {
        1 + word_len(s.drop_first())
    }
}

/// The words of `s`: its maximal runs of non-space characters, in order.
pub open spec fn words(s: Seq<char>) -> Seq<Seq<char>>
    decreases s.len(),
{
    if s.len() == 0 {
        Seq::empty()
    } else if is_space(s[0]) {
        words(s.drop_first())
    } else {
        let n = word_len(s) as int;
        proof {
            lemma_word_len_bounds(s);
        }
        seq![s.take(n)] + words(s.skip(n))
    }
}

/// A run of `n` non-space characters that ends at a space or at the end is the
/// run that [`word_len`] measures.
pub proof fn lemma_word_len(s: Seq<char>, n: int)
    requires
        0 <= n <= s.len(),
        forall|i: int| 0 <= i < n ==> !is_space(#[trigger] s[i]),
        n < s.len() ==> is_space(s[n]),
    ensures
        word_len(s) == n,
    decreases n,
{
    if n > 0 {
        let t = s.drop_first();
        assert forall|i: int| 0 <= i < n - 1 implies !is_space(#[trigger] t[i]) by {
            assert(t[i] == s[i + 1]);
        }
        lemma_word_len(t, n - 1);
    }
}

/// [`word_len`] stays within the text, covers no space and stops only at one.
pub proof fn lemma_word_len_bounds(s: Seq<char>)
    ensures
        word_len(s) <= s.len(),
        forall|i: int| 0 <= i < word_len(s) ==> !is_space(#[trigger] s[i]),
        word_len(s) < s.len() ==> is_space(s[word_len(s) as int]),
    decreases s.len(),
{
    if s.len() > 0 && !is_space(s[0]) {
        let t = s.drop_first();
        lemma_word_len_bounds(t);
        assert forall|i: int| 0 <= i < word_len(s) implies !is_space(#[trigger] s[i]) by {
            if i > 0 {
                assert(t[i - 1] == s[i]);
            }
        }
    }
}

/// A word: at least one character, none of them a space.
pub open spec fn is_word(s: Seq<char>) -> bool {
    &&& s.len() > 0
    &&& forall|i: int| 0 <= i < s.len() ==> !is_space(#[trigger] s[i])
}

/// A sequence of words.
pub open spec fn are_words(parts: Seq<Seq<char>>) -> bool {
    forall|i: int| 0 <= i < parts.len() ==> is_word(#[trigger] parts[i])
}

/// `parts` one after another, with `sep` between each two.
pub open spec fn joined(parts: Seq<Seq<char>>, sep: Seq<char>) -> Seq<char>
    decreases parts.len(),
{
    if parts.len() == 0 {
        Seq::empty()
    } else if parts.len() == 1 {
        parts[0]
    } else {
        parts[0] + sep + joined(parts.drop_first(), sep)
    }
}

/// One more part goes behind a separator.
pub proof fn lemma_joined_push(parts: Seq<Seq<char>>, sep: Seq<char>, last: Seq<char>)
    requires
        parts.len() > 0,
    ensures
        joined(parts.push(last), sep) == joined(parts, sep) + sep + last,
    decreases parts.len(),
{
    let longer = parts.push(last);
    assert(longer.drop_first() =~= parts.drop_first().push(last));
    if parts.len() == 1 {
        assert(longer.drop_first() =~= seq![last]);
        assert(joined(longer.drop_first(), sep) == last);
    } else {
        lemma_joined_push(parts.drop_first(), sep, last);
        let rest = joined(parts.drop_first(), sep);
        assert(parts[0] + sep + (rest + sep + last) =~= (parts[0] + sep + rest) + sep + last);
    }
}

/// The words of a text are words.
pub proof fn lemma_words_are_words(s: Seq<char>)
    ensures
        are_words(words(s)),
    decreases s.len(),
{
    if s.len() > 0 {
        if is_space(s[0]) {
            lemma_words_are_words(s.drop_first());
        } else {
            lemma_word_len_bounds(s);
            lemma_words_are_words(s.skip(word_len(s) as int));
        }
    }
}

/// The only word of a word is itself.
pub proof fn lemma_words_of_word(s: Seq<char>)
    requires
        is_word(s),
    ensures
        words(s) == seq![s],
{
    reveal_with_fuel(words, 2);
    lemma_word_len(s, s.len() as int);
    assert(s.take(s.len() as int) =~= s);
    assert(s.skip(s.len() as int) =~= Seq::<char>::empty());
    assert(words(s) =~= seq![s]);
}

/// A space parts the words on its two sides.
pub proof fn lemma_words_around_space(a: Seq<char>, c: char, b: Seq<char>)
    requires
        is_space(c),
    ensures
        words(a + seq![c] + b) == words(a) + words(b),
    decreases a.len(),
{
    let s = a + seq![c] + b;
    if a.len() == 0 {
        assert(s.drop_first() =~= b);
        assert(words(a) + words(b) =~= words(b));
    } else if is_space(a[0]) {
        assert(s.drop_first() =~= a.drop_first() + seq![c] + b);
        lemma_words_around_space(a.drop_first(), c, b);
    } else {
        lemma_word_len_bounds(a);
        let n = word_len(a) as int;
        assert forall|i: int| 0 <= i < n implies !is_space(#[trigger] s[i]) by {
            assert(s[i] == a[i]);
        }
        assert(s[n] == if n < a.len() { a[n] } else { c });
        lemma_word_len(s, n);
        assert(s.take(n) =~= a.take(n));
        assert(s.skip(n) =~= a.skip(n) + seq![c] + b);
        lemma_words_around_space(a.skip(n), c, b);
        assert(seq![a.take(n)] + (words(a.skip(n)) + words(b)) =~= words(a) + words(b));
    }
}

/// A text that is its words with one space between each two, and holds at least
/// one of them.
pub open spec fn is_tidy(s: Seq<char>) -> bool {
    &&& s.len() > 0
    &&& joined(words(s), seq![' ']) == s
}

/// A word is tidy.
pub proof fn lemma_word_is_tidy(s: Seq<char>)
    requires
        is_word(s),
    ensures
        is_tidy(s),
{
    lemma_words_of_word(s);
}

/// A tidy text has words, and stays tidy with one more behind a space.
pub proof fn lemma_tidy_push(s: Seq<char>, word: Seq<char>)
    requires
        is_tidy(s),
        is_word(word),
    ensures
        words(s).len() > 0,
        words(s + seq![' '] + word) == words(s).push(word),
        is_tidy(s + seq![' '] + word),
{
    assert(words(s).len() > 0);
    lemma_words_around_space(s, ' ', word);
    lemma_words_of_word(word);
    assert(words(s) + seq![word] =~= words(s).push(word));
    lemma_joined_push(words(s), seq![' '], word);
}

/// A tidy text neither begins nor ends with a space and holds none but `' '`.
pub proof fn lemma_tidy_chars(s: Seq<char>)
    requires
        is_tidy(s),
    ensures
        forall|i: int| 0 <= i < s.len() && is_space(#[trigger] s[i]) ==> s[i] == ' ',
        !is_space(s[0]),
        !is_space(s.last()),
{
    lemma_words_are_words(s);
    lemma_joined_chars(words(s));
}

proof fn lemma_joined_chars(parts: Seq<Seq<char>>)
    requires
        are_words(parts),
    ensures
        ({
            let s = joined(parts, seq![' ']);
            &&& forall|i: int| 0 <= i < s.len() && is_space(#[trigger] s[i]) ==> s[i] == ' '
            &&& s.len() > 0 ==> !is_space(s[0])
            &&& s.len() > 0 ==> !is_space(s.last())
            &&& parts.len() > 0 ==> s.len() > 0
        }),
    decreases parts.len(),
{
    if parts.len() > 1 {
        let rest = parts.drop_first();
        assert(are_words(rest));
        lemma_joined_chars(rest);
        let tail = joined(rest, seq![' ']);
        let s = joined(parts, seq![' ']);
        let first = parts[0];
        assert(is_word(first));
        assert forall|i: int| 0 <= i < s.len() && is_space(#[trigger] s[i]) implies s[i]
            == ' ' by {
            if i < first.len() {
                assert(s[i] == first[i]);
            } else if i > first.len() {
                assert(s[i] == tail[i - first.len() - 1]);
            }
        }
        assert(s.last() == tail.last());
        assert(s[0] == first[0]);
    } else if parts.len() == 1 {
        assert(is_word(parts[0]));
    }
}

/// The characters of `s` that are not white space.
pub open spec fn ink(s: Seq<char>) -> Seq<char>
    decreases s.len(),
{
    if s.len() == 0 {
        Seq::empty()
    } else if is_space(s[0]) {
        ink(s.drop_first())
    } else {
        seq![s[0]] + ink(s.drop_first())
    }
}

/// The [`ink`] of several texts, one after another.
pub open spec fn ink_of(parts: Seq<Seq<char>>) -> Seq<char>
    decreases parts.len(),
{
    if parts.len() == 0 {
        Seq::empty()
    } else {
        ink(parts[0]) + ink_of(parts.drop_first())
    }
}

/// The words of several texts, one after another.
pub open spec fn words_of(parts: Seq<Seq<char>>) -> Seq<Seq<char>>
    decreases parts.len(),
{
    if parts.len() == 0 {
        Seq::empty()
    } else {
        words(parts[0]) + words_of(parts.drop_first())
    }
}

/// [`ink`] goes through concatenation.
pub proof fn lemma_ink_concat(a: Seq<char>, b: Seq<char>)
    ensures
        ink(a + b) == ink(a) + ink(b),
    decreases a.len(),
{
    if a.len() == 0 {
        assert(a + b =~= b);
    } else {
        assert((a + b).drop_first() =~= a.drop_first() + b);
        lemma_ink_concat(a.drop_first(), b);
        assert(seq![a[0]] + (ink(a.drop_first()) + ink(b)) =~= (seq![a[0]] + ink(a.drop_first()))
            + ink(b));
    }
}

/// [`ink_of`] and [`words_of`] go through concatenation.
pub proof fn lemma_parts_concat(a: Seq<Seq<char>>, b: Seq<Seq<char>>)
    ensures
        ink_of(a + b) == ink_of(a) + ink_of(b),
        words_of(a + b) == words_of(a) + words_of(b),
    decreases a.len(),
{
    if a.len() == 0 {
        assert(a + b =~= b);
        assert(ink_of(a) + ink_of(b) =~= ink_of(b));
        assert(words_of(a) + words_of(b) =~= words_of(b));
    } else {
        let t = a.drop_first();
        assert((a + b).drop_first() =~= t + b);
        lemma_parts_concat(t, b);
        assert(ink(a[0]) + (ink_of(t) + ink_of(b)) =~= ink_of(a) + ink_of(b));
        assert(words(a[0]) + (words_of(t) + words_of(b)) =~= words_of(a) + words_of(b));
    }
}

/// The ink of a single text.
pub proof fn lemma_ink_of_one(s: Seq<char>)
    ensures
        ink_of(seq![s]) == ink(s),
{
    reveal_with_fuel(ink_of, 2);
    assert(seq![s].drop_first() =~= Seq::empty());
    assert(ink(s) + Seq::<char>::empty() =~= ink(s));
}

/// The words of a single text.
pub proof fn lemma_words_of_one(s: Seq<char>)
    ensures
        words_of(seq![s]) == words(s),
{
    reveal_with_fuel(words_of, 2);
    assert(seq![s].drop_first() =~= Seq::empty());
    assert(words(s) + Seq::<Seq<char>>::empty() =~= words(s));
}

/// The words of words are the words.
pub proof fn lemma_words_of_words(parts: Seq<Seq<char>>)
    requires
        are_words(parts),
    ensures
        words_of(parts) == parts,
    decreases parts.len(),
{
    if parts.len() > 0 {
        let rest = parts.drop_first();
        assert(is_word(parts[0]));
        assert(are_words(rest));
        lemma_words_of_word(parts[0]);
        lemma_words_of_words(rest);
        assert(seq![parts[0]] + rest =~= parts);
    } else {
        assert(words_of(parts) =~= parts);
    }
}

/// Fewer parts never join to a longer text.
pub proof fn lemma_joined_prefix(parts: Seq<Seq<char>>, sep: Seq<char>, n: int)
    requires
        0 <= n <= parts.len(),
    ensures
        joined(parts.take(n), sep).len() <= joined(parts, sep).len(),
    decreases parts.len() - n,
{
    if n == parts.len() {
        assert(parts.take(n) =~= parts);
    } else {
        lemma_joined_prefix(parts, sep, n + 1);
        if n > 0 {
            assert(parts.take(n + 1) =~= parts.take(n).push(parts[n]));
            lemma_joined_push(parts.take(n), sep, parts[n]);
        }
    }
}

/// A word is all ink.
pub proof fn lemma_ink_of_word(s: Seq<char>)
    requires
        forall|i: int| 0 <= i < s.len() ==> !is_space(#[trigger] s[i]),
    ensures
        ink(s) == s,
    decreases s.len(),
{
    if s.len() > 0 {
        let t = s.drop_first();
        assert forall|i: int| 0 <= i < t.len() implies !is_space(#[trigger] t[i]) by {
            assert(t[i] == s[i + 1]);
        }
        lemma_ink_of_word(t);
        assert(seq![s[0]] + t =~= s);
    }
}

/// The ink of a text is the ink of its words.
pub proof fn lemma_ink_of_words(s: Seq<char>)
    ensures
        ink_of(words(s)) == ink(s),
    decreases s.len(),
{
    if s.len() > 0 {
        if is_space(s[0]) {
            lemma_ink_of_words(s.drop_first());
        } else {
            lemma_word_len_bounds(s);
            let n = word_len(s) as int;
            lemma_ink_of_words(s.skip(n));
            assert(s =~= s.take(n) + s.skip(n));
            lemma_ink_concat(s.take(n), s.skip(n));
            assert(words(s)[0] == s.take(n));
            assert(words(s).drop_first() =~= words(s.skip(n)));
        }
    }
}

/// The words of `text`, in order.
pub fn split_whitespace(text: &str) -> (out: Vec<String>)
    ensures
        views(out@) == words(text@),
{
    let chars: Vec<char> = chars_of(text);
    let mut out: Vec<String> = Vec::new();
    let mut i: usize = 0;
    proof {
        assert(chars@.skip(0) =~= chars@);
        assert(views(out@) + words(chars@) =~= words(chars@));
    }
    while i < chars.len()
        invariant
            i <= chars@.len(),
            views(out@) + words(chars@.skip(i as int)) == words(chars@),
        decreases chars@.len() - i,
    {
        let ghost rest = chars@.skip(i as int);
        if is_whitespace(chars[i]) {
            i = i + 1;
            proof {
                assert(rest.drop_first() =~= chars@.skip(i as int));
            }
        } else {
            let start: usize = i;
            while i < chars.len() && !is_whitespace(chars[i])
                invariant
                    start <= i <= chars@.len(),
                    forall|k: int| start <= k < i ==> !is_space(#[trigger] chars@[k]),
                decreases chars@.len() - i,
            {
                i = i + 1;
            }
            let ghost n = i - start;
            proof {
                assert forall|k: int| 0 <= k < n implies !is_space(#[trigger] rest[k]) by {
                    assert(rest[k] == chars@[start + k]);
                }
                lemma_word_len(rest, n);
                assert(rest.skip(n) =~= chars@.skip(i as int));
                assert(rest.take(n) =~= chars@.subrange(start as int, i as int));
            }
            let word: String = string_of(&chars, start, i);
            let ghost before = views(out@);
            out.push(word);
            proof {
                assert(views(out@) =~= before + seq![word@]);
                assert(before + (seq![word@] + words(chars@.skip(i as int))) =~= (before
                    + seq![word@]) + words(chars@.skip(i as int)));
            }
        }
    }
    proof {
        assert(views(out@) + words(chars@.skip(i as int)) =~= views(out@));
    }
    out
}

/// `s` without the white space at its start.
pub open spec fn trim_start(s: Seq<char>) -> Seq<char>
    decreases s.len(),
{
    if s.len() > 0 && is_space(s[0]) {
        trim_start(s.drop_first())
    } else {
        s
    }
}

/// `s` without the white space at its end.
pub open spec fn trim_end(s: Seq<char>) -> Seq<char>
    decreases s.len(),
{
    if s.len() > 0 && is_space(s.last()) {
        trim_end(s.drop_last())
    } else {
        s
    }
}

/// `s` without the white space at both ends.
pub open spec fn trimmed(s: Seq<char>) -> Seq<char> {
    trim_end(trim_start(s))
}

/// `text` without the white space at both ends.
pub fn trim(text: &str) -> (out: String)
    ensures
        out@ == trimmed(text@),
{
    let chars: Vec<char> = chars_of(text);
    let mut from: usize = 0;
    proof {
        assert(chars@.skip(0) =~= chars@);
    }
    while from < chars.len() && is_whitespace(chars[from])
        invariant
            from <= chars@.len(),
            trim_start(chars@.skip(from as int)) == trim_start(chars@),
        decreases chars@.len() - from,
    {
        proof {
            assert(chars@.skip(from as int).drop_first() =~= chars@.skip(from + 1));
        }
        from = from + 1;
    }
    let mut to: usize = chars.len();
    proof {
        assert(chars@.subrange(from as int, to as int) =~= chars@.skip(from as int));
    }
    while from < to && is_whitespace(chars[to - 1])
        invariant
            from <= to <= chars@.len(),
            trim_end(chars@.subrange(from as int, to as int)) == trimmed(chars@),
        decreases to,
    {
        proof {
            assert(chars@.subrange(from as int, to as int).drop_last() =~= chars@.subrange(
                from as int,
                to - 1,
            ));
        }
        to = to - 1;
    }
    string_of(&chars, from, to)
}

/// The length of the run before the first line feed of `s`.
pub open spec fn line_len(s: Seq<char>) -> nat
    decreases s.len(),
{
    if s.len() == 0 || s[0] == '\n' {
        0
    } else {
        1 + line_len(s.drop_first())
    }
}

/// The parts of `s` between its line feeds; there is one more of them than there
/// are line feeds.
pub open spec fn lines(s: Seq<char>) -> Seq<Seq<char>>
    decreases s.len(),
{
    let n = line_len(s) as int;
    if n < s.len() {
        seq![s.take(n)] + lines(s.skip(n + 1))
    } else {
        seq![s]
    }
}

proof fn lemma_line_len(s: Seq<char>, n: int)
    requires
        0 <= n <= s.len(),
        forall|i: int| 0 <= i < n ==> #[trigger] s[i] != '\n',
        n < s.len() ==> s[n] == '\n',
    ensures
        line_len(s) == n,
    decreases n,
{
    if n > 0 {
        let t = s.drop_first();
        assert forall|i: int| 0 <= i < n - 1 implies #[trigger] t[i] != '\n' by {
            assert(t[i] == s[i + 1]);
        }
        lemma_line_len(t, n - 1);
    }
}

/// The parts of `text` between its line feeds.
pub fn split_lines(text: &str) -> (out: Vec<String>)
    ensures
        views(out@) == lines(text@),
{
    let chars: Vec<char> = chars_of(text);
    let mut out: Vec<String> = Vec::new();
    let mut start: usize = 0;
    let mut i: usize = 0;
    proof {
        assert(chars@.skip(0) =~= chars@);
        assert(views(out@) + lines(chars@) =~= lines(chars@));
    }
    while i < chars.len()
        invariant
            start <= i <= chars@.len(),
            forall|k: int| start <= k < i ==> #[trigger] chars@[k] != '\n',
            views(out@) + lines(chars@.skip(start as int)) == lines(chars@),
        decreases chars@.len() - i,
    {
        if chars[i] == '\n' {
            let ghost rest = chars@.skip(start as int);
            let ghost n = i - start;
            let ghost before = views(out@);
            let line: String = string_of(&chars, start, i);
            out.push(line);
            proof {
                assert forall|k: int| 0 <= k < n implies #[trigger] rest[k] != '\n' by {
                    assert(rest[k] == chars@[start + k]);
                }
                lemma_line_len(rest, n);
                assert(rest.take(n) =~= chars@.subrange(start as int, i as int));
                assert(rest.skip(n + 1) =~= chars@.skip(i + 1));
                assert(views(out@) =~= before + seq![line@]);
                assert(before + (seq![line@] + lines(chars@.skip(i + 1))) =~= (before
                    + seq![line@]) + lines(chars@.skip(i + 1)));
            }
            start = i + 1;
        }
        i = i + 1;
    }
    let ghost rest = chars@.skip(start as int);
    let ghost before = views(out@);
    let line: String = string_of(&chars, start, i);
    out.push(line);
    proof {
        assert forall|k: int| 0 <= k < rest.len() implies #[trigger] rest[k] != '\n' by {
            assert(rest[k] == chars@[start + k]);
        }
        lemma_line_len(rest, rest.len() as int);
        assert(line@ =~= rest);
        assert(views(out@) =~= before + seq![line@]);
    }
    out
}

/// The decimal digit `d`.
pub open spec fn digit(d: int) -> char {
    (48 + d) as char
}

/// The decimal digits of `n`, without leading zeros.
pub open spec fn digits(n: nat) -> Seq<char>
    decreases n,
{
    if n < 10 {
        seq![digit(n as int)]
    } else {
        digits(n / 10).push(digit((n % 10) as int))
    }
}

/// `n` in decimal, with a minus sign where it is negative.
pub open spec fn decimal(n: int) -> Seq<char> {
    if n < 0 {
        seq!['-'] + digits((-n) as nat)
    } else {
        digits(n as nat)
    }
}

fn push_digits(out: &mut String, n: u64)
    ensures
        final(out)@ == old(out)@ + digits(n as nat),
    decreases n,
{
    let d: u8 = (n % 10) as u8;
    let c: char = (48u8 + d) as char;
    if n >= 10 {
        push_digits(out, n / 10);
    }
    out.push(c);
    proof {
        assert(c == digit((n % 10) as int));
        if n >= 10 {
            assert(old(out)@ + digits((n / 10) as nat).push(c) =~= (old(out)@ + digits(
                (n / 10) as nat,
            )).push(c));
        } else {
            assert(old(out)@ + seq![c] =~= old(out)@.push(c));
        }
    }
}

/// Appends `n` in decimal.
pub fn push_number(out: &mut String, n: i64)
    ensures
        final(out)@ == old(out)@ + decimal(n as int),
{
    if n < 0 {
        out.push('-');
        let m: i128 = -(n as i128);
        push_digits(out, m as u64);
        proof {
            assert(old(out)@.push('-') + digits((-n) as nat) =~= old(out)@ + (seq!['-'] + digits(
                (-n) as nat,
            )));
        }
    } else {
        push_digits(out, n as u64);
    }
}

/// Appends the count `n` in decimal.
pub fn push_count(out: &mut String, n: usize)
    ensures
        final(out)@ == old(out)@ + decimal(n as int),
{
    push_digits(out, n as u64);
}

/// The characters whose UTF-8 bytes are `s`'s bytes from `from` up to `to`; `None`
/// where one of the two is past the end or inside a character.
pub open spec fn byte_range(s: Seq<char>, from: int, to: int) -> Option<Seq<char>>
    recommends
        from <= to,
{
    let bytes = encode_utf8(s);
    if is_char_boundary(bytes, from) && is_char_boundary(bytes, to) {
        Some(decode_utf8(bytes.subrange(from, to)))
    } else {
        None
    }
}

/// The part of `s` from byte `from` up to byte `to`, where both are character
/// boundaries.
pub fn get_bytes(s: &str, from: usize, to: usize) -> (out: Option<String>)
    requires
        from <= to,
    ensures
        match out {
            Some(part) => byte_range(s@, from as int, to as int) == Some(part@),
            None => byte_range(s@, from as int, to as int) is None,
        },
{
    if !s.is_char_boundary(from) || !s.is_char_boundary(to) {
        return None;
    }
    let ghost bytes = encode_utf8(s@);
    let (_, tail) = s.split_at(from);
    proof {
        encode_utf8_valid_utf8(s@);
        lemma_boundary_after(bytes, from as int, to as int);
    }
    let (part, _) = tail.split_at(to - from);
    proof {
        assert(encode_utf8(part@) =~= bytes.subrange(from as int, to as int));
        encode_utf8_decode_utf8(part@);
    }
    Some(part.to_owned())
}

/// A boundary of a text that lies at or behind another boundary is a boundary of
/// the rest of the text from there.
proof fn lemma_boundary_after(bytes: Seq<u8>, from: int, to: int)
    requires
        valid_utf8(bytes),
        is_char_boundary(bytes, from),
        is_char_boundary(bytes, to),
        from <= to,
    ensures
        0 <= from <= to <= bytes.len(),
        is_char_boundary(bytes.subrange(from, bytes.len() as int), to - from),
    decreases bytes.len(),
{
    reveal_with_fuel(is_char_boundary, 2);
    if from == 0 {
        assert(bytes.subrange(0, bytes.len() as int) =~= bytes);
    } else {
        let n = length_of_first_scalar(bytes);
        let rest = pop_first_scalar(bytes);
        lemma_boundary_after(rest, from - n, to - n);
        assert(rest.subrange(from - n, rest.len() as int) =~= bytes.subrange(
            from,
            bytes.len() as int,
        ));
    }
}

/// In ASCII text byte positions are character positions.
pub proof fn lemma_byte_range_of_ascii(s: Seq<char>, from: int, to: int)
    requires
        is_ascii_chars(s),
        0 <= from <= to,
    ensures
        byte_range(s, from, to) == (if to <= s.len() {
            Some(s.subrange(from, to))
        } else {
            None
        }),
{
    let bytes = encode_utf8(s);
    is_ascii_chars_encode_utf8(s);
    encode_utf8_valid_utf8(s);
    lemma_ascii_boundary(s, from);
    lemma_ascii_boundary(s, to);
    if to <= s.len() {
        let part = s.subrange(from, to);
        assert(is_ascii_chars(part));
        is_ascii_chars_encode_utf8(part);
        assert forall|i: int| 0 <= i < part.len() implies #[trigger] encode_utf8(part)[i]
            == bytes.subrange(from, to)[i] by {
            assert(part[i] == s[from + i]);
        }
        assert(encode_utf8(part) =~= bytes.subrange(from, to));
        encode_utf8_decode_utf8(part);
    }
}

proof fn lemma_ascii_boundary(s: Seq<char>, at: int)
    requires
        is_ascii_chars(s),
        0 <= at,
    ensures
        is_char_boundary(encode_utf8(s), at) == (at <= s.len()),
{
    let bytes = encode_utf8(s);
    is_ascii_chars_encode_utf8(s);
    encode_utf8_valid_utf8(s);
    if at < s.len() {
        assert(s[at] as u8 == bytes[at]);
        is_char_boundary_iff_not_is_continuation_byte(bytes, at);
    } else if at == s.len() {
        is_char_boundary_start_end_of_seq(bytes);
    }
}

/// Trimmed text neither begins nor ends with white space, and has lost nothing else.
pub proof fn law_trimmed(s: Seq<char>)
    ensures
        trimmed(s).len() > 0 ==> !is_space(trimmed(s)[0]) && !is_space(trimmed(s).last()),
        trimmed(trimmed(s)) == trimmed(s),
        ink(trimmed(s)) == ink(s),
{
    lemma_trim_start(s);
    lemma_trim_end(trim_start(s));
}

proof fn lemma_trim_start(s: Seq<char>)
    ensures
        trim_start(s).len() > 0 ==> !is_space(trim_start(s)[0]),
        ink(trim_start(s)) == ink(s),
    decreases s.len(),
{
    if s.len() > 0 && is_space(s[0]) {
        lemma_trim_start(s.drop_first());
    }
}

proof fn lemma_trim_end(s: Seq<char>)
    ensures
        trim_end(s).len() > 0 ==> !is_space(trim_end(s).last()) && trim_end(s)[0] == s[0],
        ink(trim_end(s)) == ink(s),
    decreases s.len(),
{
    if s.len() > 0 && is_space(s.last()) {
        let front = s.drop_last();
        lemma_trim_end(front);
        assert(s =~= front + seq![s.last()]);
        lemma_ink_concat(front, seq![s.last()]);
        reveal_with_fuel(ink, 2);
        assert(seq![s.last()].drop_first() =~= Seq::<char>::empty());
        assert(ink(front) + Seq::<char>::empty() =~= ink(front));
    }
}

/// The lines of a text hold no line feed, and with a line feed between each two they
/// are the text again.
pub proof fn law_lines_join_to_text(s: Seq<char>)
    ensures
        lines(s).len() > 0,
        forall|i: int| 0 <= i < lines(s).len() ==> !(#[trigger] lines(s)[i]).contains('\n'),
        joined(lines(s), seq!['\n']) == s,
    decreases s.len(),
{
    lemma_line_len_bounds(s);
    let n = line_len(s) as int;
    let all = lines(s);
    if n < s.len() {
        let rest = s.skip(n + 1);
        law_lines_join_to_text(rest);
        assert(all.drop_first() =~= lines(rest));
        assert(s.take(n) + seq!['\n'] + rest =~= s);
        assert forall|i: int| 0 <= i < all.len() implies !(#[trigger] all[i]).contains('\n') by {
            if i > 0 {
                assert(all[i] == lines(rest)[i - 1]);
            }
        }
    }
}

proof fn lemma_line_len_bounds(s: Seq<char>)
    ensures
        line_len(s) <= s.len(),
        forall|i: int| 0 <= i < line_len(s) ==> #[trigger] s[i] != '\n',
        line_len(s) < s.len() ==> s[line_len(s) as int] == '\n',
    decreases s.len(),
{
    if s.len() > 0 && s[0] != '\n' {
        let t = s.drop_first();
        lemma_line_len_bounds(t);
        assert forall|i: int| 0 <= i < line_len(s) implies #[trigger] s[i] != '\n' by {
            if i > 0 {
                assert(t[i - 1] == s[i]);
            }
        }
    }
}

/// The views of strings are their texts, one for one.
pub proof fn law_views(strings: Seq<String>)
    ensures
        views(strings).len() == strings.len(),
        forall|i: int| 0 <= i < strings.len() ==> views(strings)[i] == (#[trigger] strings[i])@,
{
}

/// White space parts the words on its two sides, whatever stands there; a run without
/// white space is one word; and where there is nothing there is no word.
pub proof fn law_words(before: Seq<char>, c: char, after: Seq<char>, run: Seq<char>)
    requires
        is_space(c),
        run.len() > 0,
        forall|i: int| 0 <= i < run.len() ==> !is_space(#[trigger] run[i]),
    ensures
        words(before + seq![c] + after) == words(before) + words(after),
        words(run) == seq![run],
        words(Seq::empty()) == Seq::<Seq<char>>::empty(),
{
    lemma_words_around_space(before, c, after);
    lemma_words_of_word(run);
    assert(words(Seq::empty()) =~= Seq::empty());
}

/// The words on several lines are those of the first lines followed by those of the
/// others; and so is their ink.
pub proof fn law_words_and_ink_of_lines(a: Seq<Seq<char>>, b: Seq<Seq<char>>, line: Seq<char>)
    ensures
        words_of(a + b) == words_of(a) + words_of(b),
        words_of(seq![line]) == words(line),
        words_of(Seq::empty()) == Seq::<Seq<char>>::empty(),
        ink_of(a + b) == ink_of(a) + ink_of(b),
        ink_of(seq![line]) == ink(line),
        ink_of(Seq::empty()) == Seq::<char>::empty(),
{
    lemma_parts_concat(a, b);
    lemma_words_of_one(line);
    lemma_ink_of_one(line);
    assert(words_of(Seq::empty()) =~= Seq::empty());
    assert(ink_of(Seq::empty()) =~= Seq::empty());
}

/// The ink of two texts one after the other is the ink of both; a character is its own
/// ink unless it is white space, which has none.
pub proof fn law_ink(a: Seq<char>, b: Seq<char>, c: char)
    ensures
        ink(a + b) == ink(a) + ink(b),
        ink(seq![c]) == (if is_space(c) {
            Seq::empty()
        } else {
            seq![c]
        }),
        ink(Seq::empty()) == Seq::<char>::empty(),
{
    lemma_ink_concat(a, b);
    reveal_with_fuel(ink, 2);
    assert(seq![c].drop_first() =~= Seq::<char>::empty());
    assert(ink(seq![c]) =~= if is_space(c) {
        Seq::empty()
    } else {
        seq![c]
    });
    assert(ink(Seq::empty()) =~= Seq::<char>::empty());
}

/// Parts joined in two goes, with the separator between them, are the parts joined in
/// one; a single part is itself.
pub proof fn law_joined(a: Seq<Seq<char>>, b: Seq<Seq<char>>, sep: Seq<char>, part: Seq<char>)
    requires
        a.len() > 0,
        b.len() > 0,
    ensures
        joined(a + b, sep) == joined(a, sep) + sep + joined(b, sep),
        joined(seq![part], sep) == part,
        joined(Seq::empty(), sep) == Seq::<char>::empty(),
    decreases a.len(),
{
    let t = a.drop_first();
    assert((a + b).drop_first() =~= t + b);
    if a.len() == 1 {
        assert(t + b =~= b);
    } else {
        law_joined(t, b, sep, part);
        assert(a[0] + sep + (joined(t, sep) + sep + joined(b, sep)) =~= (a[0] + sep + joined(t, sep))
            + sep + joined(b, sep));
    }
}

/// Trimmed text is a stretch of the text with nothing but white space before and behind
/// it, and itself neither begins nor ends with white space.
pub proof fn law_trimmed_is_a_stretch(s: Seq<char>)
    ensures
        exists|from: int, to: int|
            0 <= from <= to <= s.len() && trimmed(s) == #[trigger] s.subrange(from, to) && (
            forall|i: int| 0 <= i < from ==> is_space(#[trigger] s[i])) && (forall|i: int|
                to <= i < s.len() ==> is_space(#[trigger] s[i])),
        trimmed(s).len() > 0 ==> !is_space(trimmed(s)[0]) && !is_space(trimmed(s).last()),
{
    law_trimmed(s);
    let from = lemma_trim_start_at(s);
    let t = trim_start(s);
    let n = lemma_trim_end_at(t);
    let to = from + n;
    assert(t.take(n) =~= s.subrange(from, to));
    assert forall|i: int| to <= i < s.len() implies is_space(#[trigger] s[i]) by {
        assert(s[i] == t[i - from]);
    }
}

proof fn lemma_trim_start_at(s: Seq<char>) -> (from: int)
    ensures
        0 <= from <= s.len(),
        trim_start(s) == s.skip(from),
        forall|i: int| 0 <= i < from ==> is_space(#[trigger] s[i]),
    decreases s.len(),
{
    if s.len() > 0 && is_space(s[0]) {
        let t = s.drop_first();
        let n = lemma_trim_start_at(t);
        assert(t.skip(n) =~= s.skip(n + 1));
        assert forall|i: int| 0 <= i < n + 1 implies is_space(#[trigger] s[i]) by {
            if i > 0 {
                assert(s[i] == t[i - 1]);
            }
        }
        n + 1
    } else {
        assert(s.skip(0) =~= s);
        0
    }
}

proof fn lemma_trim_end_at(s: Seq<char>) -> (to: int)
    ensures
        0 <= to <= s.len(),
        trim_end(s) == s.take(to),
        forall|i: int| to <= i < s.len() ==> is_space(#[trigger] s[i]),
    decreases s.len(),
{
    if s.len() > 0 && is_space(s.last()) {
        let t = s.drop_last();
        let n = lemma_trim_end_at(t);
        assert(t.take(n) =~= s.take(n));
        assert forall|i: int| n <= i < s.len() implies is_space(#[trigger] s[i]) by {
            if i < t.len() {
                assert(s[i] == t[i]);
            }
        }
        n
    } else {
        assert(s.take(s.len() as int) =~= s);
        s.len() as int
    }
}

/// The number that a row of decimal digits stands for.
pub open spec fn number_of(row: Seq<char>) -> int
    decreases row.len(),
{
    if row.len() == 0 {
        0
    } else {
        10 * number_of(row.drop_last()) + (row.last() as int - '0' as int)
    }
}

/// The decimal of a number that is not negative is a row of digits that stands for it,
/// without leading zeros. That of a negative one is a minus sign and the decimal of its
/// opposite.
pub proof fn law_decimal(n: int)
    ensures
        n >= 0 ==> {
            &&& decimal(n).len() > 0
            &&& forall|i: int| 0 <= i < decimal(n).len() ==> '0' <= #[trigger] decimal(n)[i] <= '9'
            &&& number_of(decimal(n)) == n
            &&& decimal(n).len() > 1 ==> decimal(n)[0] != '0'
        },
        n < 0 ==> decimal(n) == seq!['-'] + decimal(-n),
{
    if n >= 0 {
        lemma_digits(n as nat);
    }
}

proof fn lemma_digits(n: nat)
    ensures
        digits(n).len() > 0,
        forall|i: int| 0 <= i < digits(n).len() ==> '0' <= #[trigger] digits(n)[i] <= '9',
        number_of(digits(n)) == n,
        n > 0 ==> digits(n)[0] != '0',
        n < 10 ==> digits(n).len() == 1,
    decreases n,
{
    let row = digits(n);
    if n < 10 {
        reveal_with_fuel(number_of, 2);
        assert(row.drop_last() =~= Seq::empty());
    } else {
        lemma_digits(n / 10);
        assert(row.drop_last() =~= digits(n / 10));
    }
}

/// Different numbers have different decimals.
pub proof fn law_decimals_differ(a: int, b: int)
    requires
        decimal(a) == decimal(b),
    ensures
        a == b,
{
    law_decimal(a);
    law_decimal(b);
    law_decimal(-a);
    law_decimal(-b);
    assert(decimal(a)[0] == decimal(b)[0]);
    if a < 0 && b < 0 {
        assert(decimal(-a) =~= decimal(a).skip(1));
        assert(decimal(-b) =~= decimal(b).skip(1));
    }
}

/// A byte range of a text is the stretch of characters whose bytes lie there; there is
/// one exactly where a character begins, or the text ends, at both of its ends.
pub proof fn law_byte_range(s: Seq<char>, from: int, to: int)
    requires
        from <= to,
    ensures
        forall|i: int, j: int|
            0 <= i <= j <= s.len() && #[trigger] encode_utf8(s.take(i)).len() == from
                && #[trigger] encode_utf8(s.take(j)).len() == to ==> byte_range(s, from, to) == Some(
                s.subrange(i, j),
            ),
        byte_range(s, from, to) is Some ==> exists|i: int, j: int|
            0 <= i <= j <= s.len() && #[trigger] encode_utf8(s.take(i)).len() == from
                && #[trigger] encode_utf8(s.take(j)).len() == to,
{
    assert forall|i: int, j: int|
        0 <= i <= j <= s.len() && #[trigger] encode_utf8(s.take(i)).len() == from
            && #[trigger] encode_utf8(s.take(j)).len() == to implies byte_range(s, from, to)
        == Some(s.subrange(i, j)) by {
        lemma_bytes_of_take(s, i);
        lemma_bytes_of_take(s, j);
        let part = s.subrange(i, j);
        assert(s.take(j) =~= s.take(i) + part);
        lemma_encode_concat(s.take(i), part);
        assert(encode_utf8(s).subrange(from, to) =~= encode_utf8(part));
        encode_utf8_decode_utf8(part);
    }
    if byte_range(s, from, to) is Some {
        let i = lemma_boundary_is_taken(s, from);
        let j = lemma_boundary_is_taken(s, to);
        if i > j {
            assert(s.take(i) =~= s.take(j) + s.subrange(j, i));
            lemma_encode_concat(s.take(j), s.subrange(j, i));
            lemma_encode_grows(s.subrange(j, i));
        }
    }
}

proof fn lemma_encode_concat(a: Seq<char>, b: Seq<char>)
    ensures
        encode_utf8(a + b) == encode_utf8(a) + encode_utf8(b),
    decreases a.len(),
{
    if a.len() == 0 {
        assert(a + b =~= b);
        assert(encode_utf8(a) + encode_utf8(b) =~= encode_utf8(b));
    } else {
        let t = a.drop_first();
        assert((a + b).drop_first() =~= t + b);
        lemma_encode_concat(t, b);
        assert(encode_scalar(a[0] as u32) + (encode_utf8(t) + encode_utf8(b)) =~= encode_utf8(a)
            + encode_utf8(b));
    }
}

proof fn lemma_encode_grows(s: Seq<char>)
    requires
        s.len() > 0,
    ensures
        encode_utf8(s).len() > 0,
{
    encode_utf8_first_scalar(s);
    char_is_scalar(s[0]);
}

/// A character boundary lies where a run of leading characters ends.
proof fn lemma_bytes_of_take(s: Seq<char>, i: int)
    requires
        0 <= i <= s.len(),
    ensures
        encode_utf8(s) == encode_utf8(s.take(i)) + encode_utf8(s.skip(i)),
        is_char_boundary(encode_utf8(s), encode_utf8(s.take(i)).len() as int),
    decreases i,
{
    assert(s =~= s.take(i) + s.skip(i));
    lemma_encode_concat(s.take(i), s.skip(i));
    encode_utf8_valid_utf8(s);
    if i > 0 {
        let t = s.drop_first();
        encode_utf8_first_scalar(s);
        lemma_encode_grows(s);
        lemma_bytes_of_take(t, i - 1);
        assert(s.take(i).drop_first() =~= t.take(i - 1));
        assert(pop_first_scalar(encode_utf8(s)) =~= encode_utf8(t));
        encode_utf8_valid_utf8(t);
        assert(encode_utf8(s.take(i)) == encode_scalar(s[0] as u32) + encode_utf8(t.take(i - 1)));
    }
}

proof fn lemma_boundary_is_taken(s: Seq<char>, at: int) -> (i: int)
    requires
        is_char_boundary(encode_utf8(s), at),
    ensures
        0 <= i <= s.len(),
        encode_utf8(s.take(i)).len() == at,
    decreases s.len(),
{
    let bytes = encode_utf8(s);
    encode_utf8_valid_utf8(s);
    if at == 0 {
        assert(s.take(0) =~= Seq::<char>::empty());
        0
    } else {
        assert(bytes.len() >= at > 0);
        assert(s.len() > 0);
        let t = s.drop_first();
        encode_utf8_first_scalar(s);
        assert(pop_first_scalar(bytes) =~= encode_utf8(t));
        let k = length_of_first_scalar(bytes);
        let n = lemma_boundary_is_taken(t, at - k);
        assert(s.take(n + 1).drop_first() =~= t.take(n));
        n + 1
    }
}

/// White space at an end makes no difference to trimmed text.
pub proof fn law_trimmed_ignores_outer_space(s: Seq<char>, c: char)
    requires
        is_space(c),
    ensures
        trimmed(s.push(c)) == trimmed(s),
        trimmed(seq![c] + s) == trimmed(s),
        trimmed(Seq::empty()) == Seq::<char>::empty(),
{
    lemma_trim_start_push(s, c);
    let t = trim_start(s);
    if t.len() > 0 {
        assert(t.push(c).drop_last() =~= t);
    } else {
        reveal_with_fuel(trim_start, 2);
        assert(seq![c].drop_first() =~= Seq::<char>::empty());
        assert(t =~= Seq::empty());
    }
    assert((seq![c] + s).drop_first() =~= s);
}

proof fn lemma_trim_start_push(s: Seq<char>, c: char)
    ensures
        trim_start(s.push(c)) == (if trim_start(s).len() > 0 {
            trim_start(s).push(c)
        } else {
            trim_start(seq![c])
        }),
    decreases s.len(),
{
    if s.len() == 0 {
        assert(s.push(c) =~= seq![c]);
    } else if is_space(s[0]) {
        assert(s.push(c).drop_first() =~= s.drop_first().push(c));
        lemma_trim_start_push(s.drop_first(), c);
    }
}

/// A line feed parts the lines on its two sides, whatever stands there; a text without
/// one is a single line.
pub proof fn law_lines(before: Seq<char>, after: Seq<char>, run: Seq<char>)
    requires
        forall|i: int| 0 <= i < run.len() ==> #[trigger] run[i] != '\n',
    ensures
        lines(before + seq!['\n'] + after) == lines(before) + lines(after),
        lines(run) == seq![run],
{
    lemma_line_len(run, run.len() as int);
    lemma_lines_around_feed(before, after);
}

proof fn lemma_lines_around_feed(a: Seq<char>, b: Seq<char>)
    ensures
        lines(a + seq!['\n'] + b) == lines(a) + lines(b),
    decreases a.len(),
{
    let s = a + seq!['\n'] + b;
    lemma_line_len_bounds(a);
    let n = line_len(a) as int;
    assert forall|i: int| 0 <= i < n implies #[trigger] s[i] != '\n' by {
        assert(s[i] == a[i]);
    }
    assert(s[n] == '\n');
    lemma_line_len(s, n);
    assert(s.take(n) =~= a.take(n));
    if n < a.len() {
        let t = a.skip(n + 1);
        lemma_lines_around_feed(t, b);
        assert(s.skip(n + 1) =~= t + seq!['\n'] + b);
        assert(seq![a.take(n)] + (lines(t) + lines(b)) =~= lines(a) + lines(b));
    } else {
        assert(a.take(n) =~= a);
        assert(s.skip(n + 1) =~= b);
    }
}

} // verus!
