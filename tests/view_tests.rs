use mdp::deck::Slide;
use mdp::image::ImageCache;
use mdp::markdown::{Block, MdEvent};
use mdp::present::{show_slide, Present};
use mdp::view::{RenderError, View};

const NEWLINE: &str = "\n\u{1b}[8C";

fn render(markdown: &str) -> String {
    let mut view = View::new(100, 40, false);
    let images = ImageCache::new();
    let slide = Slide::new((0, markdown.to_string()));
    assert!(slide.present(&mut view, &images).is_ok());
    view.take_output()
}

#[test]
fn layout_follows_terminal_size() {
    let view = View::new(100, 40, false);
    assert_eq!(view.width(), 80);
    assert_eq!(view.right_bottom(), (90, 36));
    let narrow = View::new(50, 20, false);
    assert_eq!(narrow.width(), 46);
    assert_eq!(narrow.right_bottom(), (48, 18));
}

#[test]
fn update_takes_new_size() {
    let mut view = View::new(50, 20, false);
    view.update(120, 30);
    assert_eq!(view.width(), 80);
    assert_eq!(view.right_bottom(), (100, 27));
}

#[test]
fn newline_returns_to_content_column() {
    let mut view = View::new(100, 40, false);
    view.newline();
    assert_eq!(view.take_output(), NEWLINE);
}

#[test]
fn info_reports_size() {
    let mut view = View::new(100, 40, false);
    view.info();
    assert_eq!(view.take_output(), "Your terminal is 100x40");
}

#[test]
fn clear_and_quit_sequences() {
    let mut view = View::new(100, 40, false);
    view.clear();
    assert_eq!(view.take_output(), "\u{1b}[2J\u{1b}[2;9H");
    view.quit();
    assert_eq!(view.take_output(), "\u{1b}[2J\u{1b}[1;1H\u{1b}[?25h");
    view.hide_cursor();
    assert_eq!(view.take_output(), "\u{1b}[?25l");
}

#[test]
fn styles_come_from_terminal_sequences() {
    let mut view = View::new(100, 40, false);
    view.start_italic();
    view.end_italic();
    view.start_bold();
    view.end_bold();
    assert_eq!(view.take_output(), "\u{1b}[3m\u{1b}[23m\u{1b}[1m\u{1b}[m");
    view.start_code();
    view.end_code();
    assert_eq!(view.take_output(), "\u{1b}[48;5;15m\u{1b}[38;5;0m\u{1b}[39m\u{1b}[49m");
    view.start_header();
    view.end_header();
    assert_eq!(
        view.take_output(),
        format!("{}\u{1b}[38;5;14m\u{1b}[4m\u{1b}[24m\u{1b}[39m{}", NEWLINE, NEWLINE)
    );
}

#[test]
fn code_line_is_padded_to_width() {
    let mut view = View::new(100, 40, false);
    view.start_codeblock();
    let _ = view.take_output();
    view.show_text("fn main() {}\n");
    let out = view.take_output();
    let line = out.strip_suffix(NEWLINE).unwrap();
    assert_eq!(line.len(), 80);
    assert!(line.starts_with("fn main() {}"));
    assert!(line[12..].chars().all(|c| c == ' '));
    view.show_text("let x = ");
    view.show_text("1;\n");
    let out = view.take_output();
    assert_eq!(out.strip_suffix(NEWLINE).unwrap().len(), 80);
    assert!(view.end_codeblock().is_ok());
}

#[test]
fn code_line_longer_than_width_is_not_padded() {
    let mut view = View::new(20, 40, false);
    view.start_codeblock();
    let _ = view.take_output();
    let long = "x".repeat(30);
    view.show_text(&format!("{}\n", long));
    let out = view.take_output();
    assert_eq!(out.strip_suffix("\n\u{1b}[0C").unwrap(), long);
}

#[test]
fn nested_list_is_indented_by_depth() {
    let out = render("- one\n  more one\n  - two\n    more two\n");
    assert!(out.contains("+- one"));
    assert!(out.contains(&format!("{}   more one", NEWLINE)));
    assert!(out.contains("   +- two"));
    assert!(out.contains(&format!("{}      more two", NEWLINE)));
    assert!(!out.contains("      +- two"));
}

#[test]
fn quote_text_has_bar() {
    let out = render("> quoted");
    assert!(out.contains("\u{1b}[48;5;15m \u{1b}[49m quoted"));
}

#[test]
fn image_falls_back_to_alt_text() {
    let out = render("![the alt](missing.png)");
    assert!(out.contains("the alt"));
}

#[test]
fn stored_image_is_shown_inline() {
    let mut view = View::new(100, 40, true);
    let mut images = ImageCache::new();
    images.put_image("pic.png".to_string(), b"hello");
    let slide = Slide::new((0, "![the alt](pic.png)".to_string()));
    assert!(slide.present(&mut view, &images).is_ok());
    let out = view.take_output();
    assert!(out.contains("\u{1b}]1337;File=inline=1:aGVsbG8=\u{7}\n"));
    assert!(!out.contains("the alt"));
}

#[test]
fn unbalanced_ends_are_errors() {
    let mut view = View::new(100, 40, false);
    let images = ImageCache::new();
    let unmatched = vec![
        MdEvent::End(Block::BlockQuote),
        MdEvent::End(Block::List),
        MdEvent::End(Block::Item),
        MdEvent::Start(Block::Item),
        MdEvent::End(Block::CodeBlock),
        MdEvent::End(Block::Image("x.png".to_string())),
    ];
    for event in unmatched.iter() {
        assert!(matches!(event.present(&mut view, &images), Err(RenderError::Unbalanced)));
    }
    assert_eq!(view.take_output(), "");
}

#[test]
fn html_is_unsupported() {
    let mut view = View::new(100, 40, false);
    let images = ImageCache::new();
    let slide = Slide::new((0, "text\n\n<div>raw</div>\n".to_string()));
    assert!(matches!(show_slide(&mut view, &slide, &images), Err(RenderError::Unsupported)));
    assert_eq!(view.take_output(), "");
    let inline = Slide::new((0, "some <b>bold</b> text".to_string()));
    assert!(matches!(show_slide(&mut view, &inline, &images), Err(RenderError::Unsupported)));
    let plain = Slide::new((0, "just *text*".to_string()));
    assert!(show_slide(&mut view, &plain, &images).is_ok());
    assert!(view.take_output().contains("\u{1b}[3mtext\u{1b}[23m"));
}

#[test]
fn list_inside_quote_returns_to_quote() {
    let mut view = View::new(100, 40, false);
    let images = ImageCache::new();
    let events = vec![
        MdEvent::Start(Block::BlockQuote),
        MdEvent::Start(Block::List),
        MdEvent::Start(Block::Item),
        MdEvent::Text("item".to_string()),
        MdEvent::End(Block::Item),
        MdEvent::End(Block::List),
        MdEvent::Text("after".to_string()),
        MdEvent::End(Block::BlockQuote),
    ];
    for event in events.iter() {
        assert!(event.present(&mut view, &images).is_ok());
    }
    let out = view.take_output();
    assert!(out.contains("+- item"));
    assert!(out.contains("\u{1b}[48;5;15m \u{1b}[49m after"));
}

#[test]
fn hard_break_is_two_newlines() {
    let mut view = View::new(100, 40, false);
    let images = ImageCache::new();
    assert!(MdEvent::HardBreak.present(&mut view, &images).is_ok());
    assert_eq!(view.take_output(), format!("{}{}", NEWLINE, NEWLINE));
}

#[test]
fn text_presents_verbatim() {
    let mut view = View::new(100, 40, false);
    let images = ImageCache::new();
    assert!("plain *text*".to_string().present(&mut view, &images).is_ok());
    assert_eq!(view.take_output(), "plain *text*");
}

#[test]
fn view_presents_a_slide() {
    let mut view = View::new(100, 40, false);
    let images = ImageCache::new();
    let slide = Slide::new((0, "# Head\n\n*it* and **bold**".to_string()));
    assert!(view.present(&slide, &images).is_ok());
    let out = view.take_output();
    assert!(out.contains("\u{1b}[38;5;14m\u{1b}[4mHead\u{1b}[24m\u{1b}[39m"));
    assert!(out.contains("\u{1b}[3mit\u{1b}[23m and \u{1b}[1mbold\u{1b}[m"));
    view.write_text("raw");
    assert_eq!(view.take_output(), "raw");
}
