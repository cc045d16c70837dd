//! Splitting text into tokens.
//!
//! The text is read in two steps. [`scan`] gives each character its class.
//! [`split_words`] then groups the characters by their classes alone:
//! word characters between separators make up a word, everything else is
//! left out. What the words of a sequence of glyphs are is defined by
//! [`words`], and characterized by [`lemma_words_unbroken`] and
//! [`lemma_words_split`].

use vstd::prelude::*;
use crate::charclass::{class_of, classify, CharClass};
use crate::seqs::lemma_filter_push;

verus! {

/// A character together with its class.
#[derive(Clone, Copy, Debug)]
pub struct Glyph {
    pub ch: char,
    pub class: CharClass,
}

/// The glyph of a character: the character with the class that it has.
pub open spec fn glyph_of(c: char) -> Glyph {
    Glyph { ch: c, class: class_of(c) }
}

/// The glyphs of a text: one for each character, in order.
pub open spec fn glyphs_of(text: Seq<char>) -> Seq<Glyph> {
    text.map_values(|c: char| glyph_of(c))
}

/// Holds of the glyphs of class `Word`.
pub open spec fn is_word() -> spec_fn(Glyph) -> bool {
    |g: Glyph| g.class == CharClass::Word
}

/// Holds of the glyphs of class `Space`.
pub open spec fn is_space() -> spec_fn(Glyph) -> bool {
    |g: Glyph| g.class == CharClass::Space
}

/// Holds of the sequences that have an element.
pub open spec fn nonempty() -> spec_fn(Seq<char>) -> bool {
    |w: Seq<char>| w.len() > 0
}

/// The word characters among the glyphs, in order.
pub open spec fn word_chars(glyphs: Seq<Glyph>) -> Seq<char> {
    glyphs.filter(is_word()).map_values(|g: Glyph| g.ch)
}

/// The runs of word characters that the separators cut the glyphs into,
/// empty runs included. A separator ends a run and begins the next. A
/// character of class `Other` belongs to no run and ends none.
pub open spec fn pieces(glyphs: Seq<Glyph>) -> Seq<Seq<char>>
    decreases glyphs.len(),
{
    if glyphs.len() == 0 {
        seq![Seq::empty()]
    } else {
        let before = pieces(glyphs.drop_last());
        let g = glyphs.last();
        match g.class {
            CharClass::Space => before.push(Seq::empty()),
            CharClass::Word => before.drop_last().push(before.last().push(g.ch)),
            CharClass::Other => before,
        }
    }
}

/// The words of a sequence of glyphs: its non-empty pieces, in order.
pub open spec fn words(glyphs: Seq<Glyph>) -> Seq<Seq<char>> {
    pieces(glyphs).filter(nonempty())
}

/// The tokens of a text. The empty text has one token, the empty one. Any
/// other text has its words, which may be none.
pub open spec fn tokens_of(text: Seq<char>) -> Seq<Seq<char>> {
    if text.len() == 0 {
        seq![Seq::empty()]
    } else {
        words(glyphs_of(text))
    }
}

impl Glyph {
    /// Pairs a character with its class.
    pub fn new(c: char) -> (glyph: Glyph)
        ensures
            glyph == glyph_of(c),
    {
        Glyph { ch: c, class: classify(c) }
    }
}

/// Classifies every character of `text`, in order.
pub fn scan(text: &str) -> (glyphs: Vec<Glyph>)
    ensures
        glyphs@ == glyphs_of(text@),
{
    let mut glyphs: Vec<Glyph> = Vec::new();
    for c in it: text.chars()
        invariant
            it.seq() == text@,
            glyphs@ == glyphs_of(text@.take(it.index())),
    {
        glyphs.push(Glyph::new(c));
    }
    glyphs
}

/// Groups glyphs into words: the runs of word characters between
/// separators, with every other character left out. Only the classes
/// decide, whatever the characters are.
pub fn split_words(glyphs: &Vec<Glyph>) -> (result: Vec<String>)
    ensures
        result.deep_view() == words(glyphs@),
{
    let mut done: Vec<String> = Vec::new();
    let mut open = String::new();
    for i in 0..glyphs.len()
        invariant
            pieces(glyphs@.take(i as int)).len() >= 1,
            done.deep_view() == pieces(glyphs@.take(i as int)).drop_last().filter(nonempty()),
            open@ == pieces(glyphs@.take(i as int)).last(),
    {
        let g = glyphs[i];
        let ghost before = pieces(glyphs@.take(i as int));
        proof {
            assert(glyphs@.take(i + 1).drop_last() =~= glyphs@.take(i as int));
            lemma_pieces_len(glyphs@.take(i + 1));
        }
        match g.class {
            CharClass::Space => {
                proof {
                    assert(before.push(Seq::empty()).drop_last() =~= before);
                    assert(before =~= before.drop_last().push(before.last()));
                    lemma_filter_push(before.drop_last(), before.last(), nonempty());
                }
                if !open.as_str().is_empty() {
                    done.push(open);
                    open = String::new();
                }
            },
            CharClass::Word => {
                open.push(g.ch);
                assert(before.drop_last().push(before.last().push(g.ch)).drop_last()
                    =~= before.drop_last());
            },
            CharClass::Other => {},
        }
    }
    proof {
        let all = pieces(glyphs@);
        assert(glyphs@.take(glyphs.len() as int) =~= glyphs@);
        assert(all =~= all.drop_last().push(all.last()));
        lemma_filter_push(all.drop_last(), all.last(), nonempty());
    }
    if !open.as_str().is_empty() {
        done.push(open);
    }
    done
}

/// Splits `text` into tokens: punctuation is dropped, whitespace separates,
/// case is kept. The empty text gives one empty token.
pub fn tokenize(text: &str) -> (tokens: Vec<String>)
    ensures
        tokens.deep_view() == tokens_of(text@),
{
    if text.is_empty() {
        let mut tokens: Vec<String> = Vec::new();
        tokens.push(String::new());
        tokens
    } else {
        let glyphs = scan(text);
        split_words(&glyphs)
    }
}

/// There is one piece more than there are separators; so there is always a
/// last piece, the run that is still open.
pub proof fn lemma_pieces_len(glyphs: Seq<Glyph>)
    ensures
        pieces(glyphs).len() == glyphs.filter(is_space()).len() + 1,
    decreases glyphs.len(),
{
    reveal(Seq::filter);
    if glyphs.len() > 0 {
        lemma_pieces_len(glyphs.drop_last());
    }
}

/// Put end to end, the pieces are the word characters: splitting loses
/// none, adds none and keeps their order.
pub proof fn lemma_pieces_flatten(glyphs: Seq<Glyph>)
    ensures
        pieces(glyphs).flatten() == word_chars(glyphs),
    decreases glyphs.len(),
{
    if glyphs.len() == 0 {
        reveal(Seq::filter);
        seq![Seq::<char>::empty()].lemma_flatten_one_element();
    } else {
        let init = glyphs.drop_last();
        let g = glyphs.last();
        let before = pieces(init);
        let shut = before.drop_last();
        let open = before.last();
        lemma_pieces_flatten(init);
        lemma_pieces_len(init);
        assert(glyphs =~= init.push(g));
        lemma_filter_push(init, g, is_word());
        assert(before =~= shut.push(open));
        shut.lemma_flatten_push(open);
        match g.class {
            CharClass::Space => {
                before.lemma_flatten_push(Seq::empty());
            },
            CharClass::Word => {
                shut.lemma_flatten_push(open.push(g.ch));
                assert(shut.flatten() + open.push(g.ch) =~= (shut.flatten() + open).push(g.ch));
            },
            CharClass::Other => {},
        }
    }
}

/// Leaving out the empty sequences does not change what the rest make up
/// end to end.
proof fn lemma_nonempty_flatten(parts: Seq<Seq<char>>)
    ensures
        parts.filter(nonempty()).flatten() == parts.flatten(),
    decreases parts.len(),
{
    if parts.len() == 0 {
        reveal(Seq::filter);
    } else {
        let init = parts.drop_last();
        lemma_nonempty_flatten(init);
        assert(parts =~= init.push(parts.last()));
        lemma_filter_push(init, parts.last(), nonempty());
        init.lemma_flatten_push(parts.last());
        if parts.last().len() > 0 {
            init.filter(nonempty()).lemma_flatten_push(parts.last());
        }
    }
}

/// No word is empty, and put end to end the words are the word characters
/// of the glyphs, in order.
pub proof fn lemma_words(glyphs: Seq<Glyph>)
    ensures
        forall|i: int| 0 <= i < words(glyphs).len() ==> (#[trigger] words(glyphs)[i]).len() > 0,
        words(glyphs).flatten() == word_chars(glyphs),
{
    assert forall|i: int| 0 <= i < words(glyphs).len() implies (#[trigger] words(glyphs)[i]).len()
        > 0 by {
        pieces(glyphs).lemma_filter_pred(nonempty(), i);
    }
    lemma_nonempty_flatten(pieces(glyphs));
    lemma_pieces_flatten(glyphs);
}

/// Glyphs without a separator have at most one word: their word
/// characters, if there are any.
pub proof fn lemma_words_unbroken(glyphs: Seq<Glyph>)
    requires
        forall|i: int| 0 <= i < glyphs.len() ==> (#[trigger] glyphs[i]).class != CharClass::Space,
    ensures
        pieces(glyphs) == seq![word_chars(glyphs)],
        words(glyphs) == if word_chars(glyphs).len() > 0 {
            seq![word_chars(glyphs)]
        } else {
            Seq::empty()
        },
    decreases glyphs.len(),
{
    reveal(Seq::filter);
    if glyphs.len() == 0 {
        assert(pieces(glyphs) =~~= seq![word_chars(glyphs)]);
    } else {
        let init = glyphs.drop_last();
        let g = glyphs.last();
        assert forall|i: int| 0 <= i < init.len() implies (#[trigger] init[i]).class
            != CharClass::Space by {
            assert(init[i] == glyphs[i]);
        }
        lemma_words_unbroken(init);
        lemma_filter_push(init, g, is_word());
        assert(pieces(glyphs) =~~= seq![word_chars(glyphs)]);
    }
    let only = word_chars(glyphs);
    let none = Seq::<Seq<char>>::empty();
    lemma_filter_push(none, only, nonempty());
}

/// A separator splits the work: the pieces of what stands before it, then
/// the pieces of what stands after it.
pub proof fn lemma_pieces_split(before: Seq<Glyph>, separator: Glyph, after: Seq<Glyph>)
    requires
        separator.class == CharClass::Space,
    ensures
        pieces(before.push(separator) + after) == pieces(before) + pieces(after),
    decreases after.len(),
{
    let whole = before.push(separator) + after;
    if after.len() == 0 {
        assert(whole.drop_last() =~= before);
    } else {
        let init = after.drop_last();
        lemma_pieces_split(before, separator, init);
        lemma_pieces_len(init);
        assert(whole.drop_last() =~= before.push(separator) + init);
    }
}

/// The words of glyphs with a separator among them are the words before
/// it, then the words after it.
pub proof fn lemma_words_split(before: Seq<Glyph>, separator: Glyph, after: Seq<Glyph>)
    requires
        separator.class == CharClass::Space,
    ensures
        words(before.push(separator) + after) == words(before) + words(after),
{
    lemma_pieces_split(before, separator, after);
    Seq::filter_distributes_over_add(pieces(before), pieces(after), nonempty());
}

/// Put end to end, the tokens of a text are its word characters, in order
/// and as they are written: tokenizing drops everything else and changes
/// nothing. But for the one token of the empty text, no token is empty.
pub proof fn lemma_tokens_of(text: Seq<char>)
    ensures
        tokens_of(text).flatten() == word_chars(glyphs_of(text)),
        text.len() > 0 ==> forall|i: int|
            0 <= i < tokens_of(text).len() ==> (#[trigger] tokens_of(text)[i]).len() > 0,
{
    if text.len() == 0 {
        reveal(Seq::filter);
        seq![Seq::<char>::empty()].lemma_flatten_one_element();
    } else {
        lemma_words(glyphs_of(text));
    }
}

} // verus!
