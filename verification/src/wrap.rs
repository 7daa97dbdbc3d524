//! Greedy word wrapping.

use vstd::prelude::*;

use crate::text;

verus! {

/// `word` cut into pieces of `width` characters, of which the last may be shorter.
pub open spec fn chunks(word: Seq<char>, width: nat) -> Seq<Seq<char>>
    decreases word.len(),
{
    if width == 0 || word.len() <= width {
        seq![word]
    } else {
        seq![word.take(width as int)] + chunks(word.skip(width as int), width)
    }
}

/// A line that holds something, as a sequence of one line; nothing for an empty one.
pub open spec fn flushed(line: Seq<char>) -> Seq<Seq<char>> {
    if line.len() == 0 {
        Seq::empty()
    } else {
        seq![line]
    }
}

/// The lines that come of putting `words` one after another behind `line`.
///
/// A word goes on the line as long as it fits there behind a space, else it starts
/// the next line. A word that is wider than a line starts on a line of its own, is
/// cut every `width` characters, and what is left of it is the line to go on with.
pub open spec fn filled(line: Seq<char>, words: Seq<Seq<char>>, width: nat) -> Seq<Seq<char>>
    decreases words.len(),
{
    if words.len() == 0 {
        flushed(line)
    } else {
        let word = words[0];
        let rest = words.drop_first();
        if word.len() > width {
            let pieces = chunks(word, width);
            flushed(line) + pieces.drop_last() + filled(pieces.last(), rest, width)
        } else if line.len() == 0 {
            filled(word, rest, width)
        } else if line.len() + 1 + word.len() <= width {
            filled(line + seq![' '] + word, rest, width)
        } else {
            seq![line] + filled(word, rest, width)
        }
    }
}

/// The width that is wrapped to: at least one column.
pub open spec fn columns(width: nat) -> nat {
    if width == 0 {
        1
    } else {
        width
    }
}

/// `text` wrapped to lines of `width` characters; text without a word is one empty
/// line.
pub open spec fn wrapped(text: Seq<char>, width: nat) -> Seq<Seq<char>> {
    let lines = filled(Seq::empty(), text::words(text), columns(width));
    if lines.len() == 0 {
        seq![Seq::empty()]
    } else {
        lines
    }
}

/// Cuts `word` into pieces of `width` characters: all but the last go to `out`, the
/// last is returned.
fn push_chunks(word: &str, width: usize, out: &mut Vec<String>) -> (last: String)
    requires
        width > 0,
    ensures
        text::views(final(out)@) == text::views(old(out)@) + chunks(
            word@,
            width as nat,
        ).drop_last(),
        last@ == chunks(word@, width as nat).last(),
{
    let chars: Vec<char> = text::chars_of(word);
    let mut chunk: String = String::new();
    let mut i: usize = 0;
    let ghost base = text::views(out@);
    let ghost w = width as nat;
    proof {
        assert(chunk@ + chars@.skip(0) =~= chars@);
    }
    while i < chars.len()
        invariant
            i <= chars@.len(),
            chars@ == word@,
            w == width as nat,
            width > 0,
            chunk@.len() <= width,
            base + chunks(word@, w) == text::views(out@) + chunks(
                chunk@ + chars@.skip(i as int),
                w,
            ),
        decreases chars@.len() - i,
    {
        let ghost left = chars@.skip(i as int);
        if chunk.as_str().unicode_len() == width {
            let ghost whole = chunk@ + left;
            let ghost before = text::views(out@);
            proof {
                assert(whole.take(w as int) =~= chunk@);
                assert(whole.skip(w as int) =~= left);
                assert(before + (seq![chunk@] + chunks(left, w)) =~= (before + seq![chunk@])
                    + chunks(left, w));
                assert(Seq::<char>::empty() + left =~= left);
            }
            let ghost full = chunk;
            out.push(chunk);
            chunk = String::new();
            proof {
                assert(text::views(out@) =~= before + seq![full@]);
            }
        }
        proof {
            assert(chunk@ + left =~= chunk@.push(chars@[i as int]) + chars@.skip(i + 1));
        }
        chunk.push(chars[i]);
        i = i + 1;
    }
    proof {
        assert(chunk@ + chars@.skip(i as int) =~= chunk@);
        let all = chunks(word@, w);
        let here = text::views(out@) + seq![chunk@];
        lemma_chunks_nonempty(word@, w);
        assert(base + all == here);
        assert((base + all).drop_last() =~= base + all.drop_last());
        assert(here.drop_last() =~= text::views(out@));
        assert((base + all).last() == all.last());
        assert(here.last() == chunk@);
    }
    chunk
}

proof fn lemma_chunks_nonempty(word: Seq<char>, width: nat)
    ensures
        chunks(word, width).len() > 0,
{
}

/// Greedy word-wrap on white space; falls back to hard splits for long words.
pub fn wrap(text: &str, width: usize) -> (out: Vec<String>)
    ensures
        text::views(out@) == wrapped(text@, width as nat),
{
    let width: usize = if width == 0 {
        1
    } else {
        width
    };
    let words: Vec<String> = text::split_whitespace(text);
    let ghost all = text::words(text@);
    let ghost w = width as nat;
    let mut out: Vec<String> = Vec::new();
    let mut line: String = String::new();
    let mut i: usize = 0;
    proof {
        assert(all.skip(0) =~= all);
        assert(text::views(out@) + filled(line@, all, w) =~= filled(Seq::empty(), all, w));
    }
    while i < words.len()
        invariant
            i <= words@.len(),
            w == width as nat,
            width > 0,
            text::views(words@) == all,
            text::views(out@) + filled(line@, all.skip(i as int), w) == filled(
                Seq::empty(),
                all,
                w,
            ),
        decreases words@.len() - i,
    {
        let word: &str = words[i].as_str();
        let len: usize = word.unicode_len();
        let held: usize = line.as_str().unicode_len();
        let ghost left = all.skip(i as int);
        let ghost before = text::views(out@);
        let ghost start = line@;
        proof {
            assert(left[0] == word@);
            assert(left.drop_first() =~= all.skip(i + 1));
        }
        if len > width {
            if held > 0 {
                out.push(line);
            }
            proof {
                assert(text::views(out@) =~= before + flushed(start));
            }
            line = push_chunks(word, width, &mut out);
            proof {
                let pieces = chunks(word@, w);
                let rest = filled(pieces.last(), all.skip(i + 1), w);
                assert(before + (flushed(start) + pieces.drop_last() + rest) =~= (before
                    + flushed(start) + pieces.drop_last()) + rest);
            }
        } else {
            if held > 0 {
                if held < width && len <= width - held - 1 {
                    line.push(' ');
                } else {
                    out.push(line);
                    line = String::new();
                    proof {
                        assert(text::views(out@) =~= before + seq![start]);
                        let rest = filled(word@, all.skip(i + 1), w);
                        assert(before + (seq![start] + rest) =~= (before + seq![start])
                            + rest);
                    }
                }
            }
            line.append(word);
            proof {
                if held > 0 && held + 1 + len <= width {
                    assert(line@ =~= start + seq![' '] + word@);
                } else {
                    assert(line@ =~= word@);
                }
            }
        }
        i = i + 1;
    }
    let ghost before = text::views(out@);
    let ghost old_line = line@;
    if !line.as_str().is_empty() {
        out.push(line);
    }
    proof {
        assert(text::views(out@) =~= before + flushed(old_line));
    }
    if out.len() == 0 {
        out.push(String::new());
        proof {
            assert(text::views(out@) =~= seq![Seq::<char>::empty()]);
        }
    }
    out
}

/// Every piece of a cut word is a word that fits, and all but the last are full.
proof fn lemma_chunks(word: Seq<char>, width: nat)
    requires
        text::is_word(word),
        width > 0,
    ensures
        chunks(word, width).len() > 0,
        text::are_words(chunks(word, width)),
        forall|i: int|
            0 <= i < chunks(word, width).len() ==> (#[trigger] chunks(word, width)[i]).len()
                <= width,
        forall|i: int|
            0 <= i < chunks(word, width).len() - 1 ==> (#[trigger] chunks(word, width)[i]).len()
                == width,
        text::ink_of(chunks(word, width)) == word,
    decreases word.len(),
{
    let all = chunks(word, width);
    text::lemma_ink_of_word(word);
    if word.len() <= width {
        text::lemma_ink_of_one(word);
    } else {
        let head = word.take(width as int);
        let tail = word.skip(width as int);
        assert(text::is_word(head));
        assert(text::is_word(tail));
        lemma_chunks(tail, width);
        assert(all.drop_first() =~= chunks(tail, width));
        text::lemma_ink_of_word(head);
        assert(head + tail =~= word);
    }
}

/// What a line may hold while it is being filled.
spec fn is_line(line: Seq<char>, width: nat) -> bool {
    &&& line.len() <= width
    &&& line.len() > 0 ==> text::is_tidy(line)
}

proof fn lemma_filled_lines(line: Seq<char>, words: Seq<Seq<char>>, width: nat)
    requires
        width > 0,
        is_line(line, width),
        text::are_words(words),
    ensures
        forall|i: int|
            0 <= i < filled(line, words, width).len() ==> {
                &&& text::is_tidy(#[trigger] filled(line, words, width)[i])
                &&& filled(line, words, width)[i].len() <= width
            },
        line.len() + words.len() > 0 ==> filled(line, words, width).len() > 0,
        text::ink_of(filled(line, words, width)) == text::ink(line) + text::ink_of(words),
    decreases words.len(),
{
    let all = filled(line, words, width);
    text::lemma_ink_of_one(line);
    assert(text::ink_of(flushed(line)) == text::ink(line));
    if words.len() == 0 {
        assert(text::ink(line) + Seq::<char>::empty() =~= text::ink(line));
    } else {
        let word = words[0];
        let rest = words.drop_first();
        assert(text::is_word(word));
        assert(text::are_words(rest));
        text::lemma_ink_of_word(word);
        text::lemma_word_is_tidy(word);
        assert(text::ink_of(words) == word + text::ink_of(rest));
        if word.len() > width {
            let pieces = chunks(word, width);
            let last = pieces.last();
            lemma_chunks(word, width);
            assert(text::is_word(last));
            text::lemma_word_is_tidy(last);
            lemma_filled_lines(last, rest, width);
            let tail = filled(last, rest, width);
            assert forall|i: int| 0 <= i < all.len() implies {
                &&& text::is_tidy(#[trigger] all[i])
                &&& all[i].len() <= width
            } by {
                let k = i - flushed(line).len();
                if k >= 0 && k < pieces.len() - 1 {
                    assert(all[i] == pieces[k]);
                    text::lemma_word_is_tidy(pieces[k]);
                } else if k >= pieces.len() - 1 {
                    assert(all[i] == tail[k - (pieces.len() - 1)]);
                }
            }
            let cut = pieces.drop_last();
            text::lemma_parts_concat(flushed(line) + cut, tail);
            text::lemma_parts_concat(flushed(line), cut);
            text::lemma_parts_concat(cut, seq![last]);
            assert(cut + seq![last] =~= pieces);
            text::lemma_ink_of_one(last);
            assert(text::ink_of(cut) + text::ink(last) == word);
            assert(text::ink(line) + text::ink_of(cut) + (text::ink(last) + text::ink_of(rest))
                =~= text::ink(line) + ((text::ink_of(cut) + text::ink(last)) + text::ink_of(
                rest,
            )));
        } else if line.len() == 0 {
            lemma_filled_lines(word, rest, width);
            assert(text::ink(line) + (word + text::ink_of(rest)) =~= word + text::ink_of(rest));
        } else if line.len() + 1 + word.len() <= width {
            text::lemma_tidy_push(line, word);
            let longer = line + seq![' '] + word;
            lemma_filled_lines(longer, rest, width);
            text::lemma_ink_concat(line + seq![' '], word);
            text::lemma_ink_concat(line, seq![' ']);
            assert(text::ink(seq![' ']) =~= Seq::<char>::empty()) by {
                reveal_with_fuel(text::ink, 2);
                assert(seq![' '].drop_first() =~= Seq::<char>::empty());
            }
            assert(text::ink(line) + Seq::<char>::empty() + word + text::ink_of(rest)
                =~= text::ink(line) + (word + text::ink_of(rest)));
        } else {
            lemma_filled_lines(word, rest, width);
            let tail = filled(word, rest, width);
            assert forall|i: int| 0 <= i < all.len() implies {
                &&& text::is_tidy(#[trigger] all[i])
                &&& all[i].len() <= width
            } by {
                if i > 0 {
                    assert(all[i] == tail[i - 1]);
                }
            }
            assert(all.drop_first() =~= tail);
        }
    }
}

/// Every line fits: none is longer than the width (or than one character, for a
/// width of zero).
pub proof fn law_lines_fit(text: Seq<char>, width: nat)
    ensures
        forall|i: int|
            0 <= i < wrapped(text, width).len() ==> (#[trigger] wrapped(text, width)[i]).len()
                <= columns(width),
{
    text::lemma_words_are_words(text);
    lemma_filled_lines(Seq::empty(), text::words(text), columns(width));
}

/// Wrapping gives at least one line. Text without a word gives one empty line; other
/// text gives lines of words with one space between each two, and no empty line.
pub proof fn law_lines_are_tidy(text: Seq<char>, width: nat)
    ensures
        wrapped(text, width).len() > 0,
        text::words(text).len() == 0 ==> wrapped(text, width) == seq![Seq::<char>::empty()],
        text::words(text).len() > 0 ==> forall|i: int|
            0 <= i < wrapped(text, width).len() ==> text::is_tidy(
                #[trigger] wrapped(text, width)[i],
            ),
{
    text::lemma_words_are_words(text);
    lemma_filled_lines(Seq::empty(), text::words(text), columns(width));
}

/// Wrapping loses and reorders nothing: the lines hold the same characters other
/// than white space, in the same order, as the text.
pub proof fn law_wrap_keeps_ink(text: Seq<char>, width: nat)
    ensures
        text::ink_of(wrapped(text, width)) == text::ink(text),
{
    text::lemma_words_are_words(text);
    text::lemma_ink_of_words(text);
    lemma_filled_lines(Seq::empty(), text::words(text), columns(width));
    let lines = filled(Seq::empty(), text::words(text), columns(width));
    assert(text::ink(Seq::empty()) + text::ink(text) =~= text::ink(text));
    text::lemma_ink_of_one(Seq::empty());
}

proof fn lemma_filled_words(line: Seq<char>, words: Seq<Seq<char>>, width: nat)
    requires
        width > 0,
        is_line(line, width),
        text::are_words(words),
        forall|i: int| 0 <= i < words.len() ==> (#[trigger] words[i]).len() <= width,
    ensures
        text::words_of(filled(line, words, width)) == text::words(line) + words,
    decreases words.len(),
{
    let held = text::words(line);
    if words.len() == 0 {
        if line.len() > 0 {
            assert(flushed(line).drop_first() =~= Seq::empty());
            assert(held + text::words_of(Seq::empty()) =~= held + words);
        } else {
            assert(held + words =~= Seq::empty());
        }
    } else {
        let word = words[0];
        let rest = words.drop_first();
        assert(text::is_word(word));
        assert(text::are_words(rest));
        text::lemma_words_of_word(word);
        text::lemma_word_is_tidy(word);
        assert(seq![word] + rest =~= words);
        if line.len() == 0 {
            lemma_filled_words(word, rest, width);
            assert(held + words =~= words);
        } else if line.len() + 1 + word.len() <= width {
            text::lemma_tidy_push(line, word);
            lemma_filled_words(line + seq![' '] + word, rest, width);
            assert(held.push(word) + rest =~= held + words);
        } else {
            lemma_filled_words(word, rest, width);
            let tail = filled(word, rest, width);
            assert((seq![line] + tail).drop_first() =~= tail);
        }
    }
}

/// A word that fits on a line is never broken: where all do, the lines hold the
/// words of the text, in order.
pub proof fn law_short_words_stay_whole(text: Seq<char>, width: nat)
    requires
        forall|i: int|
            0 <= i < text::words(text).len() ==> (#[trigger] text::words(text)[i]).len()
                <= columns(width),
    ensures
        text::words_of(wrapped(text, width)) == text::words(text),
{
    let words = text::words(text);
    text::lemma_words_are_words(text);
    lemma_filled_words(Seq::empty(), words, columns(width));
    assert(text::words(Seq::empty()) + words =~= words);
    if words.len() == 0 {
        let blank = seq![Seq::<char>::empty()];
        assert(blank.drop_first() =~= Seq::empty());
        assert(text::words_of(blank) =~= Seq::empty());
    }
}

/// `s` begins with a word of at least `n` characters.
proof fn lemma_word_prefix(s: Seq<char>, n: nat)
    requires
        n <= s.len(),
        forall|i: int| 0 <= i < n ==> !text::is_space(#[trigger] s[i]),
    ensures
        text::word_len(s) >= n,
{
    text::lemma_word_len_bounds(s);
}

proof fn lemma_filled_greedy(line: Seq<char>, words: Seq<Seq<char>>, width: nat)
    requires
        width > 0,
        is_line(line, width),
        text::are_words(words),
    ensures
        line.len() > 0 ==> {
            &&& filled(line, words, width).len() > 0
            &&& line.len() <= filled(line, words, width)[0].len()
            &&& filled(line, words, width)[0].take(line.len() as int) == line
        },
        forall|i: int|
            0 <= i < filled(line, words, width).len() - 1 ==> (#[trigger] filled(
                line,
                words,
                width,
            )[i]).len() + 1 + text::word_len(filled(line, words, width)[i + 1]) > width,
    decreases words.len(),
{
    let all = filled(line, words, width);
    assert(line.take(line.len() as int) =~= line);
    if words.len() > 0 {
        let word = words[0];
        let rest = words.drop_first();
        assert(text::is_word(word));
        assert(text::are_words(rest));
        text::lemma_word_is_tidy(word);
        if word.len() > width {
            let pieces = chunks(word, width);
            let last = pieces.last();
            lemma_chunks(word, width);
            assert(text::is_word(last));
            text::lemma_word_is_tidy(last);
            lemma_filled_greedy(last, rest, width);
            let tail = filled(last, rest, width);
            let f = flushed(line).len() as int;
            let m = pieces.len() - 1;
            lemma_chunks_nonempty(word.skip(width as int), width);
            assert forall|i: int| 0 <= i < all.len() - 1 implies (#[trigger] all[i]).len() + 1
                + text::word_len(all[i + 1]) > width by {
                let k = i - f;
                if k < 0 {
                    assert(all[i + 1] == pieces[0]);
                    assert(pieces[0].len() == width);
                    assert(text::is_word(pieces[0]));
                    lemma_word_prefix(pieces[0], width);
                } else if k < m {
                    assert(all[i] == pieces[k]);
                    assert(pieces[k].len() == width);
                } else {
                    assert(all[i] == tail[k - m]);
                    assert(all[i + 1] == tail[k - m + 1]);
                }
            }
            if line.len() > 0 {
                assert(all[0] == line);
            }
        } else if line.len() == 0 {
            lemma_filled_greedy(word, rest, width);
        } else if line.len() + 1 + word.len() <= width {
            text::lemma_tidy_push(line, word);
            let longer = line + seq![' '] + word;
            lemma_filled_greedy(longer, rest, width);
            assert(all[0].take(line.len() as int) =~= longer.take(line.len() as int)) by {
                let head = all[0].take(longer.len() as int);
                assert(all[0].take(line.len() as int) =~= head.take(line.len() as int));
            }
            assert(longer.take(line.len() as int) =~= line);
        } else {
            lemma_filled_greedy(word, rest, width);
            let tail = filled(word, rest, width);
            let head = tail[0].take(word.len() as int);
            assert forall|i: int| 0 <= i < word.len() implies !text::is_space(
                #[trigger] tail[0][i],
            ) by {
                assert(tail[0][i] == head[i]);
                assert(!text::is_space(word[i]));
            }
            lemma_word_prefix(tail[0], word.len());
            assert forall|i: int| 0 <= i < all.len() - 1 implies (#[trigger] all[i]).len() + 1
                + text::word_len(all[i + 1]) > width by {
                assert(all[i + 1] == tail[i]);
                if i > 0 {
                    assert(all[i] == tail[i - 1]);
                }
            }
        }
    }
}

/// Wrapping is greedy: the first word of a line would not have fitted on the line
/// before it.
pub proof fn law_wrap_is_greedy(text: Seq<char>, width: nat)
    ensures
        forall|i: int|
            0 <= i < wrapped(text, width).len() - 1 ==> (#[trigger] wrapped(text, width)[i]).len()
                + 1 + text::word_len(wrapped(text, width)[i + 1]) > columns(width),
{
    text::lemma_words_are_words(text);
    lemma_filled_greedy(Seq::empty(), text::words(text), columns(width));
}

proof fn lemma_filled_fits(line: Seq<char>, words: Seq<Seq<char>>, width: nat)
    requires
        width > 0,
        line.len() > 0,
        text::are_words(words),
        words.len() > 0 ==> line.len() + 1 + text::joined(words, seq![' ']).len() <= width,
    ensures
        filled(line, words, width) == seq![
            if words.len() == 0 {
                line
            } else {
                line + seq![' '] + text::joined(words, seq![' '])
            },
        ],
    decreases words.len(),
{
    if words.len() > 0 {
        let word = words[0];
        let rest = words.drop_first();
        assert(text::are_words(rest));
        let tail = text::joined(rest, seq![' ']);
        let longer = line + seq![' '] + word;
        if rest.len() > 0 {
            assert(text::joined(words, seq![' ']) == word + seq![' '] + tail);
        }
        lemma_filled_fits(longer, rest, width);
        assert(longer + seq![' '] + tail =~= line + seq![' '] + (word + seq![' '] + tail));
    }
}

/// Text whose words fit on one line becomes that line: its words with one space
/// between each two.
pub proof fn law_short_text_is_one_line(text: Seq<char>, width: nat)
    requires
        text::joined(text::words(text), seq![' ']).len() <= columns(width),
    ensures
        wrapped(text, width) == seq![text::joined(text::words(text), seq![' '])],
{
    let words = text::words(text);
    text::lemma_words_are_words(text);
    if words.len() > 0 {
        let rest = words.drop_first();
        assert(text::is_word(words[0]));
        assert(text::are_words(rest));
        if rest.len() == 0 {
            assert(filled(words[0], rest, columns(width)) =~= seq![words[0]]);
        } else {
            assert(text::joined(words, seq![' ']) == words[0] + seq![' '] + text::joined(
                rest,
                seq![' '],
            ));
        }
        lemma_filled_fits(words[0], rest, columns(width));
    }
}

/// A line that came of wrapping is left as it is when it is wrapped again.
pub proof fn law_wrapped_line_is_stable(text: Seq<char>, width: nat, i: int)
    requires
        0 <= i < wrapped(text, width).len(),
    ensures
        wrapped(wrapped(text, width)[i], width) == seq![wrapped(text, width)[i]],
{
    let line = wrapped(text, width)[i];
    law_lines_fit(text, width);
    law_lines_are_tidy(text, width);
    if text::words(text).len() == 0 {
        assert(line =~= Seq::empty());
        assert(text::words(line) =~= Seq::empty());
    } else {
        assert(text::is_tidy(line));
        law_short_text_is_one_line(line, width);
    }
}

/// Each of `words` cut into the pieces that fit on a line.
spec fn cut_all(words: Seq<Seq<char>>, width: nat) -> Seq<Seq<char>>
    decreases words.len(),
{
    if words.len() == 0 {
        Seq::empty()
    } else {
        chunks(words[0], width) + cut_all(words.drop_first(), width)
    }
}

proof fn lemma_cut_all_concat(a: Seq<Seq<char>>, b: Seq<Seq<char>>, width: nat)
    ensures
        cut_all(a + b, width) == cut_all(a, width) + cut_all(b, width),
    decreases a.len(),
{
    if a.len() == 0 {
        assert(a + b =~= b);
        assert(cut_all(a, width) + cut_all(b, width) =~= cut_all(b, width));
    } else {
        let t = a.drop_first();
        assert((a + b).drop_first() =~= t + b);
        lemma_cut_all_concat(t, b, width);
        assert(chunks(a[0], width) + (cut_all(t, width) + cut_all(b, width)) =~= cut_all(a, width)
            + cut_all(b, width));
    }
}

proof fn lemma_filled_pieces(line: Seq<char>, words: Seq<Seq<char>>, width: nat)
    requires
        width > 0,
        is_line(line, width),
        text::are_words(words),
    ensures
        text::words_of(filled(line, words, width)) == text::words(line) + cut_all(words, width),
    decreases words.len(),
{
    let held = text::words(line);
    text::lemma_words_of_one(line);
    assert(text::words_of(flushed(line)) =~= held);
    if words.len() == 0 {
        assert(held + cut_all(words, width) =~= held);
    } else {
        let word = words[0];
        let rest = words.drop_first();
        assert(text::is_word(word));
        assert(text::are_words(rest));
        text::lemma_words_of_word(word);
        text::lemma_word_is_tidy(word);
        let more = cut_all(rest, width);
        if word.len() > width {
            let pieces = chunks(word, width);
            let cut = pieces.drop_last();
            let last = pieces.last();
            lemma_chunks(word, width);
            assert(text::is_word(last));
            text::lemma_word_is_tidy(last);
            text::lemma_words_of_word(last);
            lemma_filled_pieces(last, rest, width);
            assert(text::are_words(cut));
            text::lemma_words_of_words(cut);
            text::lemma_parts_concat(flushed(line) + cut, filled(last, rest, width));
            text::lemma_parts_concat(flushed(line), cut);
            assert(cut + seq![last] =~= pieces);
            assert(held + cut + (seq![last] + more) =~= held + ((cut + seq![last]) + more));
        } else if line.len() == 0 {
            lemma_filled_pieces(word, rest, width);
            assert(held + (seq![word] + more) =~= seq![word] + more);
        } else if line.len() + 1 + word.len() <= width {
            text::lemma_tidy_push(line, word);
            lemma_filled_pieces(line + seq![' '] + word, rest, width);
            assert(held.push(word) + more =~= held + (seq![word] + more));
        } else {
            lemma_filled_pieces(word, rest, width);
            text::lemma_parts_concat(seq![line], filled(word, rest, width));
        }
    }
}

proof fn lemma_wrapped_pieces(text: Seq<char>, width: nat)
    ensures
        text::words_of(wrapped(text, width)) == cut_all(text::words(text), columns(width)),
{
    let words = text::words(text);
    text::lemma_words_are_words(text);
    lemma_filled_pieces(Seq::empty(), words, columns(width));
    assert(text::words(Seq::empty()) + cut_all(words, columns(width)) =~= cut_all(
        words,
        columns(width),
    ));
    text::lemma_words_of_one(Seq::empty());
}

/// White space in the text is never lost between two words: what stands on the lines of
/// a text with white space in it is what stands on the lines of the two sides, one after
/// the other, with no word of the one joined to a word of the other. That holds for words
/// of any length.
pub proof fn law_separated_words_stay_apart(before: Seq<char>, c: char, after: Seq<char>, width: nat)
    requires
        text::is_space(c),
    ensures
        text::words_of(wrapped(before + seq![c] + after, width)) == text::words_of(
            wrapped(before, width),
        ) + text::words_of(wrapped(after, width)),
{
    text::lemma_words_around_space(before, c, after);
    lemma_wrapped_pieces(before + seq![c] + after, width);
    lemma_wrapped_pieces(before, width);
    lemma_wrapped_pieces(after, width);
    lemma_cut_all_concat(text::words(before), text::words(after), columns(width));
}

/// A word of at most `width` characters stands on the lines as it is. A longer one stands
/// there as its first `width` characters, followed by what wrapping makes of the others.
/// A width of zero counts as one.
pub proof fn law_words_are_cut_at_the_width(word: Seq<char>, width: nat)
    requires
        word.len() > 0,
        forall|i: int| 0 <= i < word.len() ==> !text::is_space(#[trigger] word[i]),
    ensures
        ({
            let w: nat = if width == 0 {
                1
            } else {
                width
            };
            if word.len() <= w {
                wrapped(word, width) == seq![word]
            } else {
                wrapped(word, width) == seq![word.take(w as int)] + wrapped(
                    word.skip(w as int),
                    width,
                )
            }
        }),
{
    let w = columns(width);
    lemma_wrapped_word(word, width);
    if word.len() > w {
        let tail = word.skip(w as int);
        assert(text::is_word(tail));
        lemma_wrapped_word(tail, width);
    }
}

proof fn lemma_wrapped_word(word: Seq<char>, width: nat)
    requires
        text::is_word(word),
    ensures
        wrapped(word, width) == chunks(word, columns(width)),
{
    let w = columns(width);
    text::lemma_words_of_word(word);
    let words = seq![word];
    let none = words.drop_first();
    assert(none =~= Seq::empty());
    reveal_with_fuel(filled, 2);
    let pieces = chunks(word, w);
    lemma_chunks(word, w);
    assert(text::is_word(pieces.last()));
    assert(filled(word, none, w) =~= seq![word]);
    assert(filled(pieces.last(), none, w) =~= seq![pieces.last()]);
    if word.len() > w {
        assert(filled(Seq::empty(), words, w) =~= pieces.drop_last() + seq![pieces.last()]);
        assert(pieces.drop_last() + seq![pieces.last()] =~= pieces);
    } else {
        assert(filled(Seq::empty(), words, w) =~= seq![word]);
    }
}

proof fn lemma_filled_before_long(
    line: Seq<char>,
    a: Seq<Seq<char>>,
    b: Seq<Seq<char>>,
    width: nat,
)
    requires
        b.len() > 0,
        b[0].len() > width,
    ensures
        filled(line, a + b, width) == filled(line, a, width) + filled(Seq::empty(), b, width),
    decreases a.len(),
{
    let end = filled(Seq::empty(), b, width);
    if a.len() == 0 {
        assert(a + b =~= b);
        let pieces = chunks(b[0], width);
        let rest = filled(pieces.last(), b.drop_first(), width);
        assert(flushed(line) + pieces.drop_last() + rest =~= flushed(line) + (Seq::empty()
            + pieces.drop_last() + rest));
    } else {
        let word = a[0];
        let rest = a.drop_first();
        assert((a + b).drop_first() =~= rest + b);
        if word.len() > width {
            let pieces = chunks(word, width);
            lemma_filled_before_long(pieces.last(), rest, b, width);
            let mid = filled(pieces.last(), rest, width);
            assert(flushed(line) + pieces.drop_last() + (mid + end) =~= (flushed(line)
                + pieces.drop_last() + mid) + end);
        } else if line.len() == 0 {
            lemma_filled_before_long(word, rest, b, width);
        } else if line.len() + 1 + word.len() <= width {
            lemma_filled_before_long(line + seq![' '] + word, rest, b, width);
        } else {
            lemma_filled_before_long(word, rest, b, width);
            let mid = filled(word, rest, width);
            assert(seq![line] + (mid + end) =~= (seq![line] + mid) + end);
        }
    }
}

/// A word that is wider than a line begins at the start of one: the text before it is
/// wrapped as if nothing followed, and the text from it on as if nothing came before.
pub proof fn law_long_word_starts_a_line(before: Seq<char>, c: char, after: Seq<char>, width: nat)
    requires
        text::is_space(c),
        text::words(before).len() > 0,
        text::words(after).len() > 0,
        text::words(after)[0].len() > width,
        text::words(after)[0].len() > 1,
    ensures
        wrapped(before + seq![c] + after, width) == wrapped(before, width) + wrapped(after, width),
{
    let w = columns(width);
    let a = text::words(before);
    let b = text::words(after);
    text::lemma_words_around_space(before, c, after);
    lemma_filled_before_long(Seq::empty(), a, b, w);
    text::lemma_words_are_words(before);
    text::lemma_words_are_words(after);
    lemma_filled_lines(Seq::empty(), a, w);
    lemma_filled_lines(Seq::empty(), b, w);
}

/// What every wrapping is: at least one line; none longer than the width (one character,
/// for a width of zero); each the words on it with one space between each two; and on no
/// line room, behind a space, for the first word of the next.
///
/// An empty line comes only of text without a word, and is then the only one.
pub proof fn law_wrapping(text: Seq<char>, width: nat)
    ensures
        ({
            let w: nat = if width == 0 {
                1
            } else {
                width
            };
            let lines = wrapped(text, width);
            &&& lines.len() > 0
            &&& forall|i: int|
                0 <= i < lines.len() ==> {
                    &&& (#[trigger] lines[i]).len() <= w
                    &&& text::joined(text::words(lines[i]), seq![' ']) == lines[i]
                    &&& lines[i].len() == 0 <==> text::words(text).len() == 0
                }
            &&& forall|i: int, j: int|
                0 <= i && j == i + 1 && j < lines.len() ==> (#[trigger] lines[i]).len() + 1
                    + text::words(#[trigger] lines[j])[0].len() > w
            &&& text::words(text).len() == 0 ==> lines == seq![Seq::<char>::empty()]
        }),
{
    let lines = wrapped(text, width);
    law_lines_fit(text, width);
    law_lines_are_tidy(text, width);
    law_wrap_is_greedy(text, width);
    if text::words(text).len() == 0 {
        assert(text::words(Seq::<char>::empty()) =~= Seq::empty());
        assert(lines[0] =~= Seq::empty());
    } else {
        assert forall|i: int, j: int| 0 <= i && j == i + 1 && j < lines.len() implies (
        #[trigger] lines[i]).len() + 1 + text::words(#[trigger] lines[j])[0].len() > columns(
            width,
        ) by {
            let next = lines[j];
            assert(text::is_tidy(next));
            text::lemma_tidy_chars(next);
            text::lemma_word_len_bounds(next);
            assert(text::words(next)[0] == next.take(text::word_len(next) as int));
        }
    }
}

/// Wrapping depends on nothing but the words of the text: how much white space, and of
/// which kind, is between them makes no difference.
pub proof fn law_wrap_depends_on_words(a: Seq<char>, b: Seq<char>, width: nat)
    requires
        text::words(a) == text::words(b),
    ensures
        wrapped(a, width) == wrapped(b, width),
{
}

/// Wrapping is determined by [`law_wrapping`] and the words that stand on the lines:
/// lines with the same words on them that keep to the width, hold single spaces and leave
/// no room for the next word are the lines of the wrapping.
pub proof fn law_wrapping_is_unique(text: Seq<char>, width: nat, lines: Seq<Seq<char>>)
    requires
        text::words(text).len() > 0,
        text::words_of(lines) == text::words_of(wrapped(text, width)),
        forall|i: int|
            0 <= i < lines.len() ==> {
                &&& 0 < (#[trigger] lines[i]).len()
                &&& lines[i].len() <= width || lines[i].len() == 1
                &&& text::joined(text::words(lines[i]), seq![' ']) == lines[i]
            },
        forall|i: int, j: int|
            0 <= i && j == i + 1 && j < lines.len() ==> (#[trigger] lines[i]).len() + 1
                + text::words(#[trigger] lines[j])[0].len() > width,
    ensures
        lines == wrapped(text, width),
{
    let w = columns(width);
    law_wrapping(text, width);
    assert(is_wrapping(lines, w)) by {
        reveal(is_wrapping);
        assert forall|i: int, j: int| 0 <= i && j == i + 1 && j < lines.len() implies (
        #[trigger] lines[i]).len() + 1 + text::words(#[trigger] lines[j])[0].len() > w by {
            assert(text::is_tidy(lines[j]));
        }
    }
    assert(is_wrapping(wrapped(text, width), w)) by {
        reveal(is_wrapping);
    }
    lemma_same_lines(lines, wrapped(text, width), w);
}

/// Lines as [`law_wrapping`] has them.
#[verifier::opaque]
spec fn is_wrapping(lines: Seq<Seq<char>>, width: nat) -> bool {
    &&& forall|i: int|
        0 <= i < lines.len() ==> text::is_tidy(#[trigger] lines[i]) && lines[i].len() <= width
    &&& forall|i: int, j: int|
        0 <= i && j == i + 1 && j < lines.len() ==> (#[trigger] lines[i]).len() + 1 + text::words(
            #[trigger] lines[j],
        )[0].len() > width
}

proof fn lemma_wrapping_line(lines: Seq<Seq<char>>, width: nat, i: int)
    requires
        is_wrapping(lines, width),
        0 <= i < lines.len(),
    ensures
        text::is_tidy(lines[i]),
        lines[i].len() <= width,
        text::words(lines[i]).len() > 0,
        i + 1 < lines.len() ==> lines[i].len() + 1 + text::words(lines[i + 1])[0].len() > width,
{
    reveal(is_wrapping);
}

proof fn lemma_wrapping_tail(a: Seq<Seq<char>>, width: nat)
    requires
        is_wrapping(a, width),
        a.len() > 0,
    ensures
        is_wrapping(a.drop_first(), width),
{
    reveal(is_wrapping);
    let t = a.drop_first();
    assert forall|i: int| 0 <= i < t.len() implies text::is_tidy(#[trigger] t[i]) && t[i].len()
        <= width by {
        assert(t[i] == a[i + 1]);
    }
    assert forall|i: int, j: int| 0 <= i && j == i + 1 && j < t.len() implies (
    #[trigger] t[i]).len() + 1 + text::words(#[trigger] t[j])[0].len() > width by {
        assert(t[i] == a[i + 1]);
        assert(t[j] == a[j + 1]);
    }
}

/// A line cannot stop short of a word that another line with the same start has room for.
proof fn lemma_first_line_not_shorter(a: Seq<Seq<char>>, b: Seq<Seq<char>>, width: nat)
    requires
        is_wrapping(a, width),
        is_wrapping(b, width),
        a.len() > 0,
        b.len() > 0,
        text::words_of(a) == text::words_of(b),
    ensures
        text::words(a[0]).len() >= text::words(b[0]).len(),
{
    let x = text::words(a[0]);
    let y = text::words(b[0]);
    lemma_wrapping_line(a, width, 0);
    lemma_wrapping_line(b, width, 0);
    if x.len() < y.len() {
        let all = text::words_of(a);
        let n = x.len() as int;
        let ta = a.drop_first();
        assert(all == x + text::words_of(ta));
        assert(all == y + text::words_of(b.drop_first()));
        assert(all[n] == y[n]);
        assert(ta.len() > 0);
        lemma_wrapping_line(a, width, 1);
        assert(ta[0] == a[1]);
        assert(all[n] == text::words_of(ta)[0]);
        assert(text::words_of(ta)[0] == text::words(a[1])[0]);
        assert(y.take(n) =~= x) by {
            assert(all.take(n) =~= x);
            assert(all.take(n) =~= y.take(n));
        }
        text::lemma_joined_push(x, seq![' '], y[n]);
        assert(y.take(n + 1) =~= x.push(y[n]));
        text::lemma_joined_prefix(y, seq![' '], n + 1);
    }
}

proof fn lemma_same_lines(a: Seq<Seq<char>>, b: Seq<Seq<char>>, width: nat)
    requires
        is_wrapping(a, width),
        is_wrapping(b, width),
        text::words_of(a) == text::words_of(b),
    ensures
        a == b,
    decreases a.len(),
{
    if a.len() > 0 {
        lemma_wrapping_line(a, width, 0);
        assert(text::words_of(a).len() > 0);
    }
    if b.len() > 0 {
        lemma_wrapping_line(b, width, 0);
        assert(text::words_of(b).len() > 0);
    }
    if a.len() == 0 {
        assert(a =~= b);
    } else {
        let n = text::words(a[0]).len() as int;
        let all = text::words_of(a);
        let ta = a.drop_first();
        let tb = b.drop_first();
        lemma_first_line_not_shorter(a, b, width);
        lemma_first_line_not_shorter(b, a, width);
        assert(all.take(n) =~= text::words(a[0]));
        assert(all.take(n) =~= text::words(b[0]));
        assert(all.skip(n) =~= text::words_of(ta));
        assert(all.skip(n) =~= text::words_of(tb));
        lemma_wrapping_tail(a, width);
        lemma_wrapping_tail(b, width);
        lemma_same_lines(ta, tb, width);
        assert(a =~= seq![a[0]] + ta);
        assert(b =~= seq![b[0]] + tb);
    }
}

} // verus!
