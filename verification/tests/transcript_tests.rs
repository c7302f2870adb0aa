use mega::transcript::{heard_wake_word, split_at_gaps, split_words, whitespace_mask, TranscriptTree};

fn strings(words: &[&str]) -> Vec<String> {
    words.iter().map(|word| word.to_string()).collect()
}

fn level(tree: &TranscriptTree, depth: usize) -> Vec<Option<String>> {
    tree.level(depth).unwrap().clone()
}

fn cells(words: &[Option<&str>]) -> Vec<Option<String>> {
    words.iter().map(|word| word.map(|text| text.to_string())).collect()
}

#[test]
fn split_words_at_single_spaces() {
    assert_eq!(split_words("mega open light"), strings(&["mega", "open", "light"]));
}

#[test]
fn split_words_skips_runs_of_whitespace() {
    assert_eq!(split_words("  mega \t open\n\nlight  "), strings(&["mega", "open", "light"]));
}

#[test]
fn split_words_of_nothing() {
    assert_eq!(split_words(""), Vec::<String>::new());
    assert_eq!(split_words(" \t\r\n"), Vec::<String>::new());
}

#[test]
fn split_words_of_one_word() {
    assert_eq!(split_words("mega"), strings(&["mega"]));
    assert_eq!(split_words("mega "), strings(&["mega"]));
    assert_eq!(split_words(" mega"), strings(&["mega"]));
}

#[test]
fn split_words_knows_whitespace_beyond_ascii() {
    assert_eq!(split_words("caf\u{e9}\u{2003}cr\u{e8}me\u{a0}br\u{fb}l\u{e9}e"), strings(&["caf\u{e9}", "cr\u{e8}me", "br\u{fb}l\u{e9}e"]));
    assert_eq!(split_words("a\u{3000}b"), strings(&["a", "b"]));
    assert_eq!(split_words("a\u{200b}b"), strings(&["a\u{200b}b"]));
    assert_eq!(split_words("a_b-c"), strings(&["a_b-c"]));
}

#[test]
fn split_words_agrees_with_the_standard_library() {
    for text in ["", "x", " x", "x ", "don't  stop", "\u{1680}a\u{2028}b\u{2029}c\u{205f}", "one\u{b}two\u{c}three\u{85}four"] {
        let expected: Vec<String> = text.split_whitespace().map(|word| word.to_string()).collect();
        assert_eq!(split_words(text), expected);
    }
}

#[test]
fn whitespace_mask_marks_each_character() {
    assert_eq!(whitespace_mask(""), Vec::<bool>::new());
    assert_eq!(whitespace_mask("a b"), vec![false, true, false]);
    assert_eq!(whitespace_mask(" \t\u{e9}\u{2003}z\n"), vec![true, true, false, true, false, true]);
}

#[test]
fn split_at_gaps_cuts_at_the_marked_characters() {
    assert_eq!(split_at_gaps("ab-cd", &vec![false, false, true, false, false]), strings(&["ab", "cd"]));
    assert_eq!(split_at_gaps("abcd", &vec![true, false, true, true]), strings(&["b"]));
    assert_eq!(split_at_gaps("abcd", &vec![false, false, false, false]), strings(&["abcd"]));
    assert_eq!(split_at_gaps("abcd", &vec![true, true, true, true]), Vec::<String>::new());
    assert_eq!(split_at_gaps("\u{e9}t\u{e9}", &vec![false, true, false]), strings(&["\u{e9}", "\u{e9}"]));
}

#[test]
fn split_at_gaps_takes_missing_marks_as_unmarked() {
    assert_eq!(split_at_gaps("a b c", &vec![false, true]), strings(&["a", "b c"]));
    assert_eq!(split_at_gaps("a b c", &Vec::new()), strings(&["a b c"]));
    assert_eq!(split_at_gaps("ab", &vec![false, false, true, true]), strings(&["ab"]));
    assert_eq!(split_at_gaps("", &vec![true]), Vec::<String>::new());
}

#[test]
fn wake_word_must_be_a_whole_hypothesis() {
    assert!(heard_wake_word(&strings(&["omega", "mega", "neda"])));
    assert!(heard_wake_word(&strings(&["mega"])));
    assert!(!heard_wake_word(&strings(&["mega open light", "omega", " mega", "mega "])));
    assert!(!heard_wake_word(&strings(&["Mega", "MEGA"])));
    assert!(!heard_wake_word(&strings(&[])));
}

#[test]
fn tree_of_three_hypotheses() {
    let tree = TranscriptTree::build(&strings(&["mega open light", "mega open light blue", "neda open light"]));
    assert_eq!(tree.depth(), 4);
    assert_eq!(tree.ranks(), 3);
    assert_eq!(level(&tree, 0), cells(&[Some("mega"), Some("mega"), Some("neda")]));
    assert_eq!(level(&tree, 1), cells(&[Some("open"), Some("open"), Some("open")]));
    assert_eq!(level(&tree, 2), cells(&[Some("light"), Some("light"), Some("light")]));
    assert_eq!(level(&tree, 3), cells(&[None, Some("blue"), None]));
    assert!(tree.level(4).is_none());
}

#[test]
fn tree_of_no_hypotheses_is_empty() {
    let tree = TranscriptTree::build(&Vec::new());
    assert_eq!(tree.depth(), 0);
    assert_eq!(tree.ranks(), 0);
    assert!(tree.level(0).is_none());
}

#[test]
fn tree_of_wordless_hypotheses_is_empty() {
    let tree = TranscriptTree::build(&strings(&["", "   "]));
    assert_eq!(tree.depth(), 0);
    assert_eq!(tree.ranks(), 2);
}

#[test]
fn tree_keeps_the_last_hypothesis_and_leaves_gaps() {
    let tree = TranscriptTree::build(&strings(&["a", "", "b c d", "e f"]));
    assert_eq!(tree.depth(), 3);
    assert_eq!(tree.ranks(), 4);
    assert_eq!(level(&tree, 0), cells(&[Some("a"), None, Some("b"), Some("e")]));
    assert_eq!(level(&tree, 1), cells(&[None, None, Some("c"), Some("f")]));
    assert_eq!(level(&tree, 2), cells(&[None, None, Some("d"), None]));
}
