use vocabulator::card::CardFromStrError;
use vocabulator::deck::load_cards;

#[test]
fn bad_line_is_skipped_with_one_warning() {
    let (cards, warnings) = load_cards("cat,gato\nbad\ndog,perro");
    assert_eq!(cards.len(), 2);
    assert_eq!(cards[0].word, "cat");
    assert_eq!(cards[1].word, "dog");
    assert_eq!(warnings.len(), 1);
    assert_eq!(warnings[0].line, 2);
    assert_eq!(warnings[0].error, CardFromStrError::MissingTranslation);
}

#[test]
fn empty_text_yields_empty_deck() {
    let (cards, warnings) = load_cards("");
    assert!(cards.is_empty());
    assert!(warnings.is_empty());
}

#[test]
fn trailing_newline_adds_no_line() {
    let (cards, warnings) = load_cards("cat,gato\n");
    assert_eq!(cards.len(), 1);
    assert!(warnings.is_empty());
}

#[test]
fn carriage_return_line_endings_are_line_endings() {
    let (cards, warnings) = load_cards("cat,gato\r\ndog,perro\r\n");
    assert_eq!(cards.len(), 2);
    assert_eq!(cards[1].translation, "perro");
    assert!(warnings.is_empty());
}

#[test]
fn warnings_are_numbered_from_one() {
    let (cards, warnings) = load_cards(",gato\ncat,gato");
    assert_eq!(cards.len(), 1);
    assert_eq!(warnings.len(), 1);
    assert_eq!(warnings[0].line, 1);
    assert_eq!(warnings[0].error, CardFromStrError::MissingWord);
}

#[test]
fn each_bad_line_warns_in_order() {
    let (cards, warnings) = load_cards("bad\n,x\na,1\nb,2,3");
    assert_eq!(cards.len(), 1);
    assert_eq!(cards[0].word, "a");
    assert_eq!(warnings.len(), 3);
    assert_eq!(warnings[0].line, 1);
    assert_eq!(warnings[0].error, CardFromStrError::MissingTranslation);
    assert_eq!(warnings[1].line, 2);
    assert_eq!(warnings[1].error, CardFromStrError::MissingWord);
    assert_eq!(warnings[2].line, 4);
    assert_eq!(warnings[2].error, CardFromStrError::TooManyFields);
}

#[test]
fn file_order_is_kept() {
    let (cards, _) = load_cards("a,1\nb,2\nc,3");
    let words: Vec<&str> = cards.iter().map(|c| c.word.as_str()).collect();
    assert_eq!(words, ["a", "b", "c"]);
}

#[test]
fn blank_middle_line_warns_missing_word() {
    let (cards, warnings) = load_cards("a,1\n\nb,2");
    assert_eq!(cards.len(), 2);
    assert_eq!(warnings.len(), 1);
    assert_eq!(warnings[0].line, 2);
    assert_eq!(warnings[0].error, CardFromStrError::MissingWord);
}
