use vocabulator::card::Card;
use vocabulator::drill::answer_matches;
use vocabulator::drill::play_round;
use vocabulator::drill::Drill;

fn card(word: &str, translation: &str) -> Card {
    Card { word: word.to_string(), translation: translation.to_string() }
}

#[test]
fn surrounding_whitespace_in_answer_is_ignored() {
    let c = card("cat", "gato");
    assert!(answer_matches(&c, "  gato\n"));
    assert!(answer_matches(&c, "gato "));
    assert!(answer_matches(&c, "\tgato"));
    assert!(answer_matches(&c, "gato"));
}

#[test]
fn case_differences_do_not_match() {
    let c = card("cat", "gato");
    assert!(!answer_matches(&c, "Gato"));
    assert!(!answer_matches(&c, "GATO\n"));
}

#[test]
fn inner_whitespace_is_not_ignored() {
    let c = card("goodbye", "hasta luego");
    assert!(answer_matches(&c, " hasta luego\n"));
    assert!(!answer_matches(&c, "hasta  luego"));
}

#[test]
fn stored_translation_is_not_trimmed() {
    let c = card("cat", " gato");
    assert!(!answer_matches(&c, "gato"));
    assert!(!answer_matches(&c, " gato"));
}

#[test]
fn correct_answers_remove_their_cards_in_place() {
    let mut deck = vec![card("a", "1"), card("b", "2"), card("c", "3"), card("d", "4")];
    let answers: Vec<String> =
        ["wrong", "2", "wrong", "4"].iter().map(|a| a.to_string()).collect();
    play_round(&mut deck, &answers);
    let words: Vec<&str> = deck.iter().map(|c| c.word.as_str()).collect();
    assert_eq!(words, ["a", "c"]);
}

#[test]
fn wrong_answers_leave_the_deck_unchanged() {
    let mut deck = vec![card("a", "1"), card("b", "2")];
    let answers: Vec<String> = ["2", "1"].iter().map(|a| a.to_string()).collect();
    play_round(&mut deck, &answers);
    let words: Vec<&str> = deck.iter().map(|c| c.word.as_str()).collect();
    assert_eq!(words, ["a", "b"]);
}

#[test]
fn empty_deck_is_finished_before_any_round() {
    let drill = Drill::new(Vec::new());
    assert!(drill.finished());
    assert_eq!(drill.round_number, 1);
}

#[test]
fn nonempty_deck_takes_at_least_one_round() {
    let mut drill = Drill::new(vec![card("a", "1")]);
    assert!(!drill.finished());
    drill.begin_round();
    let answers = vec!["1".to_string()];
    drill.complete_round(&answers);
    assert!(drill.finished());
    assert_eq!(drill.round_number, 2);
}

#[test]
fn mastered_cards_never_return() {
    let deck = vec![card("a", "1"), card("b", "2"), card("c", "3")];
    let mut drill = Drill::new(deck);
    let mut mastered: Vec<String> = Vec::new();
    while !drill.finished() {
        drill.begin_round();
        let prompts: Vec<String> = drill.deck.iter().map(|c| c.word.clone()).collect();
        for word in &prompts {
            assert!(!mastered.contains(word));
        }
        let target = prompts[0].clone();
        let answers: Vec<String> = drill
            .deck
            .iter()
            .map(|c| if c.word == target { c.translation.clone() } else { "wrong".to_string() })
            .collect();
        drill.complete_round(&answers);
        mastered.push(target);
    }
    assert_eq!(mastered.len(), 3);
    assert_eq!(drill.round_number, 4);
}

#[test]
fn shuffling_keeps_the_same_cards() {
    let deck = vec![card("a", "1"), card("b", "2"), card("c", "3"), card("d", "4")];
    let mut drill = Drill::new(deck);
    for _ in 0..100 {
        drill.begin_round();
        let mut words: Vec<&str> = drill.deck.iter().map(|c| c.word.as_str()).collect();
        words.sort();
        assert_eq!(words, ["a", "b", "c", "d"]);
    }
}

#[test]
fn shuffling_reaches_every_permutation() {
    let deck = vec![card("a", "1"), card("b", "2"), card("c", "3")];
    let mut drill = Drill::new(deck);
    let mut seen: Vec<String> = Vec::new();
    for _ in 0..5000 {
        drill.begin_round();
        let order: String = drill.deck.iter().map(|c| c.word.as_str()).collect();
        if !seen.contains(&order) {
            seen.push(order);
        }
        if seen.len() == 6 {
            break;
        }
    }
    assert_eq!(seen.len(), 6);
}
