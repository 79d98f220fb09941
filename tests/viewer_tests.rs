use mdp::deck::{Deck, Slide};
use mdp::viewer::{command_for, respond, resume, show_page_num, Action, Command, KeyPress};
use mdp::view::View;

fn deck_of(n: usize) -> Deck {
    let mut slides = Vec::new();
    for i in 0..n {
        slides.push(Slide::new((i, format!("{}", i))));
    }
    Deck::from_slides(slides)
}

#[test]
fn keys_map_to_commands() {
    assert!(matches!(command_for(KeyPress::Char('j')), Command::Next));
    assert!(matches!(command_for(KeyPress::Char(' ')), Command::Next));
    assert!(matches!(command_for(KeyPress::Right), Command::Next));
    assert!(matches!(command_for(KeyPress::Down), Command::Next));
    assert!(matches!(command_for(KeyPress::Char('k')), Command::Previous));
    assert!(matches!(command_for(KeyPress::Left), Command::Previous));
    assert!(matches!(command_for(KeyPress::Up), Command::Previous));
    assert!(matches!(command_for(KeyPress::Char('q')), Command::Quit));
    assert!(matches!(command_for(KeyPress::Char('r')), Command::Refresh));
    assert!(matches!(command_for(KeyPress::Char('l')), Command::Reload));
    assert!(matches!(command_for(KeyPress::Char('x')), Command::Ignore));
    assert!(matches!(command_for(KeyPress::Other), Command::Ignore));
}

#[test]
fn respond_moves_and_decides() {
    let mut deck = deck_of(2);
    assert!(matches!(respond(&mut deck, Command::Next), Action::Redraw));
    assert_eq!(deck.current_num(), 1);
    assert!(matches!(respond(&mut deck, Command::Next), Action::Redraw));
    assert_eq!(deck.current_num(), 1);
    assert!(matches!(respond(&mut deck, Command::Reload), Action::Reload(1)));
    assert!(matches!(respond(&mut deck, Command::Refresh), Action::Refit));
    assert!(matches!(respond(&mut deck, Command::Previous), Action::Redraw));
    assert_eq!(deck.current_num(), 0);
    assert!(matches!(respond(&mut deck, Command::Quit), Action::Quit));
}

#[test]
fn resume_keeps_position_within_deck() {
    let deck = resume(deck_of(5), 3);
    assert_eq!(deck.current_num(), 3);
    let deck = resume(deck_of(2), 3);
    assert_eq!(deck.current_num(), 1);
}

#[test]
fn page_number_is_right_aligned() {
    let mut deck = deck_of(3);
    deck.next();
    let mut view = View::new(100, 40, false);
    show_page_num(&deck, &mut view);
    assert_eq!(view.take_output(), "\u{1b}[36;85H\u{1b}[38;5;9m2 / 3\u{1b}[39m");
}

#[test]
fn page_number_that_fills_the_space_starts_at_its_edge() {
    let deck = deck_of(1);
    let mut view = View::new(7, 40, false);
    assert_eq!(view.right_bottom(), (5, 36));
    show_page_num(&deck, &mut view);
    assert_eq!(view.take_output(), "\u{1b}[36;0H\u{1b}[38;5;9m1 / 1\u{1b}[39m");
    let mut narrow = View::new(4, 40, false);
    assert_eq!(narrow.right_bottom(), (2, 36));
    show_page_num(&deck, &mut narrow);
    assert_eq!(narrow.take_output(), "\u{1b}[36;1H\u{1b}[38;5;9m1 / 1\u{1b}[39m");
}
