use vocabulator::card::Card;
use vocabulator::card::CardFromStrError;

#[test]
fn parses_two_fields() {
    let card = Card::from_str("cat,gato").unwrap();
    assert_eq!(card.word, "cat");
    assert_eq!(card.translation, "gato");
}

#[test]
fn empty_line_is_missing_word() {
    assert_eq!(Card::from_str("").unwrap_err(), CardFromStrError::MissingWord);
}

#[test]
fn empty_first_field_is_missing_word() {
    assert_eq!(Card::from_str(",gato").unwrap_err(), CardFromStrError::MissingWord);
}

#[test]
fn lone_comma_is_missing_word() {
    assert_eq!(Card::from_str(",").unwrap_err(), CardFromStrError::MissingWord);
}

#[test]
fn missing_second_field_is_missing_translation() {
    assert_eq!(Card::from_str("cat,").unwrap_err(), CardFromStrError::MissingTranslation);
}

#[test]
fn single_field_is_missing_translation() {
    assert_eq!(Card::from_str("cat").unwrap_err(), CardFromStrError::MissingTranslation);
}

#[test]
fn empty_second_field_before_third_is_missing_translation() {
    assert_eq!(Card::from_str("cat,,extra").unwrap_err(), CardFromStrError::MissingTranslation);
}

#[test]
fn third_field_is_too_many_fields() {
    assert_eq!(Card::from_str("cat,gato,extra").unwrap_err(), CardFromStrError::TooManyFields);
}

#[test]
fn empty_third_field_is_too_many_fields() {
    assert_eq!(Card::from_str("cat,gato,").unwrap_err(), CardFromStrError::TooManyFields);
}

#[test]
fn fourth_field_is_still_too_many_fields() {
    assert_eq!(Card::from_str("a,b,c,d").unwrap_err(), CardFromStrError::TooManyFields);
}

#[test]
fn fields_may_hold_any_other_characters() {
    let card = Card::from_str("el niño,the child").unwrap();
    assert_eq!(card.word, "el niño");
    assert_eq!(card.translation, "the child");
}

#[test]
fn translation_is_stored_untrimmed() {
    let card = Card::from_str("cat, gato ").unwrap();
    assert_eq!(card.translation, " gato ");
}

#[test]
fn failure_messages_are_stable() {
    assert_eq!(CardFromStrError::MissingWord.message(), "missing word");
    assert_eq!(CardFromStrError::MissingTranslation.message(), "missing translation");
    assert_eq!(CardFromStrError::TooManyFields.message(), "too many fields");
}
