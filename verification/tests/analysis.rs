use inverted_index::{classify, scan, split_words, stopword_filter, tokenize};
use inverted_index::{Analyzer, CharClass, Glyph};
use vstd::hash_set::StringHashSet;
use CharClass::{Other, Space, Word};

fn strings(words: &[&str]) -> Vec<String> {
    words.iter().map(|w| w.to_string()).collect()
}

fn glyphs(text: &str, classes: &[CharClass]) -> Vec<Glyph> {
    text.chars().zip(classes.iter()).map(|(ch, class)| Glyph { ch, class: *class }).collect()
}

#[test]
fn classify_letters_and_digits_are_word_characters() {
    assert_eq!(classify('a'), CharClass::Word);
    assert_eq!(classify('Z'), CharClass::Word);
    assert_eq!(classify('7'), CharClass::Word);
    assert_eq!(classify('é'), CharClass::Word);
    assert_eq!(classify('藏'), CharClass::Word);
    assert_eq!(classify('¾'), CharClass::Word);
}

#[test]
fn classify_whitespace_separates() {
    assert_eq!(classify(' '), CharClass::Space);
    assert_eq!(classify('\t'), CharClass::Space);
    assert_eq!(classify('\n'), CharClass::Space);
    assert_eq!(classify('\r'), CharClass::Space);
    assert_eq!(classify('\u{a0}'), CharClass::Space);
    assert_eq!(classify('\u{3000}'), CharClass::Space);
}

#[test]
fn classify_punctuation_is_dropped() {
    assert_eq!(classify('!'), CharClass::Other);
    assert_eq!(classify(','), CharClass::Other);
    assert_eq!(classify('-'), CharClass::Other);
    assert_eq!(classify('_'), CharClass::Other);
    assert_eq!(classify('\''), CharClass::Other);
    assert_eq!(classify('\u{0}'), CharClass::Other);
}

#[test]
fn scan_classifies_each_character_in_order() {
    let found = scan("a, 1");
    assert_eq!(found.len(), 4);
    assert_eq!(found[0].ch, 'a');
    assert_eq!(found[0].class, CharClass::Word);
    assert_eq!(found[1].ch, ',');
    assert_eq!(found[1].class, CharClass::Other);
    assert_eq!(found[2].ch, ' ');
    assert_eq!(found[2].class, CharClass::Space);
    assert_eq!(found[3].ch, '1');
    assert_eq!(found[3].class, CharClass::Word);
}

#[test]
fn scan_of_empty_text_is_empty() {
    assert_eq!(scan("").len(), 0);
}

#[test]
fn scan_counts_characters_not_bytes() {
    let found = scan("é藏");
    assert_eq!(found.len(), 2);
    assert_eq!(found[0].ch, 'é');
    assert_eq!(found[1].ch, '藏');
}

#[test]
fn split_words_goes_by_the_given_classes() {
    let given = glyphs("a!b  c", &[Word, Other, Word, Space, Space, Word]);
    assert_eq!(split_words(&given), strings(&["ab", "c"]));
    // the class decides, not the character
    let given = glyphs("a b", &[Word, Word, Word]);
    assert_eq!(split_words(&given), strings(&["a b"]));
    let given = glyphs("abc", &[Word, Space, Word]);
    assert_eq!(split_words(&given), strings(&["a", "c"]));
    let given = glyphs("abc", &[Word, Other, Word]);
    assert_eq!(split_words(&given), strings(&["ac"]));
}

#[test]
fn split_words_of_nothing_is_nothing() {
    assert_eq!(split_words(&Vec::new()), Vec::<String>::new());
    assert_eq!(split_words(&glyphs("   ", &[Space, Space, Space])), Vec::<String>::new());
    assert_eq!(split_words(&glyphs("!?", &[Other, Other])), Vec::<String>::new());
    assert_eq!(split_words(&glyphs(" ! ", &[Space, Other, Space])), Vec::<String>::new());
}

#[test]
fn split_words_ignores_separators_at_the_ends() {
    let given = glyphs(" ab ", &[Space, Word, Word, Space]);
    assert_eq!(split_words(&given), strings(&["ab"]));
}

#[test]
fn tokenize_empty_text_gives_one_empty_token() {
    assert_eq!(tokenize(""), vec![String::new()]);
}

#[test]
fn tokenize_strips_punctuation_and_splits_on_whitespace() {
    assert_eq!(
        tokenize("Aku sangat cinta dan sayang dia!"),
        strings(&["Aku", "sangat", "cinta", "dan", "sayang", "dia"])
    );
}

#[test]
fn tokenize_punctuation_does_not_separate() {
    assert_eq!(tokenize("can't"), strings(&["cant"]));
    assert_eq!(tokenize("a-b,c"), strings(&["abc"]));
    assert_eq!(tokenize("cinta!"), strings(&["cinta"]));
    assert_eq!(tokenize("cinta dia"), strings(&["cinta", "dia"]));
}

#[test]
fn tokenize_whitespace_runs_separate_once() {
    assert_eq!(tokenize("  a \t\n b  "), strings(&["a", "b"]));
    assert_eq!(tokenize("a\u{a0}b"), strings(&["a", "b"]));
}

#[test]
fn tokenize_text_without_words_has_no_tokens() {
    assert_eq!(tokenize("!!!"), Vec::<String>::new());
    assert_eq!(tokenize("   "), Vec::<String>::new());
    assert_eq!(tokenize(" . , "), Vec::<String>::new());
}

#[test]
fn tokenize_keeps_case_and_repeats() {
    assert_eq!(tokenize("Dia dia DIA dia"), strings(&["Dia", "dia", "DIA", "dia"]));
}

#[test]
fn tokenize_keeps_letters_and_digits_of_any_script() {
    assert_eq!(tokenize("héllo wörld 42"), strings(&["héllo", "wörld", "42"]));
    assert_eq!(tokenize("日本語、テスト"), strings(&["日本語テスト"]));
}

#[test]
fn tokens_put_together_are_the_word_characters() {
    let text = "Dia, adalah istriku -- yang 'paling' aku cinta!";
    let together: String = tokenize(text).concat();
    let word_characters: String =
        text.chars().filter(|c| c.is_alphanumeric() && !c.is_whitespace()).collect();
    assert_eq!(together, word_characters);
    assert!(tokenize(text).iter().all(|token| !token.is_empty()));
}

#[test]
fn stopword_filter_removes_exact_matches_only() {
    let mut stop_words = StringHashSet::new();
    stop_words.insert("the".to_string());
    stop_words.insert("of".to_string());
    let tokens = strings(&["the", "art", "of", "The", "thee", "of", "war"]);
    assert_eq!(stopword_filter(&tokens, &stop_words), strings(&["art", "The", "thee", "war"]));
}

#[test]
fn stopword_filter_with_no_stop_words_keeps_all() {
    let stop_words = StringHashSet::new();
    let tokens = strings(&["a", "dia", "a"]);
    assert_eq!(stopword_filter(&tokens, &stop_words), tokens);
    assert_eq!(stopword_filter(&Vec::new(), &stop_words), Vec::<String>::new());
}

#[test]
fn analyze_removes_lowercase_stop_word() {
    let analyzer = Analyzer::new();
    assert_eq!(
        analyzer.analyze("Aku sangat cinta dan sayang dia!"),
        strings(&["Aku", "sangat", "cinta", "dan", "sayang"])
    );
}

#[test]
fn analyze_keeps_capitalized_stop_word() {
    let analyzer = Analyzer::new();
    assert_eq!(
        analyzer.analyze("Dia, adalah istriku yang paling aku cinta dan sayang!"),
        strings(&["Dia", "adalah", "istriku", "yang", "paling", "aku", "cinta", "dan", "sayang"])
    );
}

#[test]
fn analyze_stop_words_are_a_and_dia() {
    let analyzer = Analyzer::new();
    assert_eq!(analyzer.analyze("a dia"), Vec::<String>::new());
    assert_eq!(
        analyzer.analyze("A DIA Dia aa di ia"),
        strings(&["A", "DIA", "Dia", "aa", "di", "ia"])
    );
    assert_eq!(analyzer.analyze("a b a dia c dia"), strings(&["b", "c"]));
    // punctuation goes first, so these are the stop words too
    assert_eq!(analyzer.analyze("a! d-i-a"), Vec::<String>::new());
}

#[test]
fn analyze_empty_text_gives_one_empty_token() {
    let analyzer = Analyzer::new();
    assert_eq!(analyzer.analyze(""), vec![String::new()]);
}

#[test]
fn analyze_keeps_repeated_tokens() {
    let analyzer = Analyzer::new();
    assert_eq!(analyzer.analyze("cinta cinta dia cinta"), strings(&["cinta", "cinta", "cinta"]));
}
