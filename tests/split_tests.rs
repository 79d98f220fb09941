use mdp::deck::Deck;
use mdp::markdown::{Block, Located, MdEvent};
use mdp::split::{split, split_events, SplitError};
use pulldown_cmark::{Event, Parser, Tag};

/// The headings and paragraphs of a piece of markdown, as (kind, text) pairs.
fn outline(text: &str) -> Vec<(String, String)> {
    let mut found = Vec::new();
    let mut current: Option<String> = None;
    for event in Parser::new(text) {
        match event {
            Event::Start(Tag::Heading(..)) => current = Some("heading".to_string()),
            Event::Start(Tag::Paragraph) => current = Some("paragraph".to_string()),
            Event::Text(t) => {
                if let Some(kind) = current.take() {
                    found.push((kind, t.to_string()));
                }
            }
            _ => {}
        }
    }
    found
}

fn rebuilt(doc: &str) -> String {
    let parts = split(doc).ok().unwrap();
    let mut out = String::new();
    let mut at = 0;
    for slide in parts.slides.iter() {
        assert!(slide.offset() >= at);
        out.push_str(&doc[at..slide.offset()]);
        out.push_str(slide.content());
        assert_eq!(&doc[slide.offset()..slide.offset() + slide.content().len()], slide.content());
        at = slide.offset() + slide.content().len();
    }
    out.push_str(&doc[at..]);
    out
}

#[test]
fn two_slides_with_headings() {
    let doc = "# Title\n\nBody text\n\n---\n\n# Slide2\n\nMore text";
    let parts = split(doc).ok().unwrap();
    assert_eq!(parts.slides.len(), 2);
    assert_eq!(
        outline(parts.slides[0].content()),
        vec![
            ("heading".to_string(), "Title".to_string()),
            ("paragraph".to_string(), "Body text".to_string())
        ]
    );
    assert_eq!(
        outline(parts.slides[1].content()),
        vec![
            ("heading".to_string(), "Slide2".to_string()),
            ("paragraph".to_string(), "More text".to_string())
        ]
    );
    assert_eq!(parts.slides[0].offset(), 0);
    assert!(parts.slides[0].content().starts_with("# Title"));
    assert!(!parts.slides[0].content().contains("---"));
    assert!(!parts.slides[1].content().contains("---"));
}

#[test]
fn no_break_is_one_slide() {
    let doc = "# Only\n\nOne slide here.\n";
    let parts = split(doc).ok().unwrap();
    assert_eq!(parts.slides.len(), 1);
    assert_eq!(parts.slides[0].content(), doc);
    assert_eq!(parts.slides[0].offset(), 0);
}

#[test]
fn empty_document_is_one_empty_slide() {
    let parts = split("").ok().unwrap();
    assert_eq!(parts.slides.len(), 1);
    assert_eq!(parts.slides[0].content(), "");
}

#[test]
fn trailing_break_gives_empty_last_slide() {
    let doc = "# A\n\ntext\n\n---\n";
    let parts = split(doc).ok().unwrap();
    assert_eq!(parts.slides.len(), 2);
    assert_eq!(parts.slides[1].content(), "");
    assert_eq!(parts.slides[1].offset(), doc.len());
}

#[test]
fn slides_and_breaks_rebuild_the_document() {
    let docs = [
        "# One\n\ntext\n\n---\n\n# Two\n\n***\n\n# Three é ü\n",
        "a\n\n---\n\n---\n\nb",
        "---\n",
        "plain text, no breaks at all",
    ];
    for doc in docs.iter() {
        assert_eq!(&rebuilt(doc), doc);
    }
    let parts = split(docs[1]).ok().unwrap();
    assert_eq!(parts.slides.len(), 3);
    let gap = &docs[1][parts.slides[0].content().len()..parts.slides[1].offset()];
    assert_eq!(gap.trim(), "---");
}

#[test]
fn images_are_listed_with_their_slides() {
    let doc = "![first](a.png)\n\n---\n\ntext ![second](https://example.com/b.png)\n";
    let parts = split(doc).ok().unwrap();
    assert_eq!(parts.images.len(), 2);
    assert_eq!(parts.images[0].slide, 0);
    assert_eq!(parts.images[0].path, "a.png");
    assert_eq!(parts.images[1].slide, 1);
    assert_eq!(parts.images[1].path, "https://example.com/b.png");
}

#[test]
fn misplaced_break_is_refused() {
    let events = vec![
        Located { event: MdEvent::Start(Block::Paragraph), start: 0, end: 4 },
        Located { event: MdEvent::Rule, start: 6, end: 3 },
    ];
    assert!(matches!(split_events("text\n\nmore", &events), Err(SplitError::MisplacedRule)));
    let beyond = vec![Located { event: MdEvent::Rule, start: 2, end: 40 }];
    assert!(matches!(split_events("short", &beyond), Err(SplitError::MisplacedRule)));
    let inside_char = vec![Located { event: MdEvent::Rule, start: 1, end: 2 }];
    assert!(matches!(split_events("é", &inside_char), Err(SplitError::MisplacedRule)));
}

#[test]
fn events_given_by_hand_split_at_their_breaks() {
    let doc = "ab---cd";
    let events = vec![
        Located { event: MdEvent::Text("ab".to_string()), start: 0, end: 2 },
        Located { event: MdEvent::Rule, start: 2, end: 5 },
        Located { event: MdEvent::Start(Block::Image("x.png".to_string())), start: 5, end: 7 },
    ];
    let parts = split_events(doc, &events).ok().unwrap();
    assert_eq!(parts.slides.len(), 2);
    assert_eq!(parts.slides[0].content(), "ab");
    assert_eq!(parts.slides[1].content(), "cd");
    assert_eq!(parts.slides[1].offset(), 5);
    assert_eq!(parts.images.len(), 1);
    assert_eq!(parts.images[0].slide, 1);
}

#[test]
fn deck_from_document_starts_on_first_slide() {
    let deck = Deck::new("# A\n\n---\n\n# B\n\n---\n\n# C\n").ok().unwrap();
    assert_eq!(deck.total_num(), 3);
    assert_eq!(deck.current_num(), 0);
    assert!(deck.slide().unwrap().content().contains("# A"));
}
