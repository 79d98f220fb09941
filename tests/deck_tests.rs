use mdp::deck::{Deck, Slide};

fn deck_of(n: usize) -> Deck {
    let mut slides = Vec::new();
    for i in 0..n {
        slides.push(Slide::new((i * 10, format!("slide {}", i))));
    }
    Deck::from_slides(slides)
}

#[test]
fn next_stops_at_last_slide() {
    let mut deck = deck_of(3);
    for _ in 0..3 {
        deck.next();
        assert!(deck.current_num() < 3);
    }
    assert_eq!(deck.current_num(), 2);
    deck.next();
    assert_eq!(deck.current_num(), 2);
    assert_eq!(deck.slide().unwrap().content(), "slide 2");
}

#[test]
fn previous_stops_at_first_slide() {
    let mut deck = deck_of(3);
    deck.previous();
    assert_eq!(deck.current_num(), 0);
    deck.next();
    deck.previous();
    assert_eq!(deck.current_num(), 0);
}

#[test]
fn goto_clamps_to_last_slide() {
    let mut deck = deck_of(4);
    deck.goto(2);
    assert_eq!(deck.current_num(), 2);
    deck.goto(9);
    assert_eq!(deck.current_num(), 3);
}

#[test]
fn empty_deck_has_no_slide() {
    let mut deck = deck_of(0);
    assert!(deck.slide().is_none());
    deck.next();
    deck.previous();
    deck.goto(5);
    assert_eq!(deck.current_num(), 0);
    assert_eq!(deck.total_num(), 0);
}

#[test]
fn add_appends_and_keeps_cursor() {
    let mut deck = deck_of(1);
    deck.add(Slide::new((50, "extra".to_string())));
    assert_eq!(deck.total_num(), 2);
    assert_eq!(deck.current_num(), 0);
    deck.next();
    assert_eq!(deck.slide().unwrap().content(), "extra");
    assert_eq!(deck.slide().unwrap().offset(), 50);
}
