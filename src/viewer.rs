//! The presenter's decisions: what a key asks for, what the deck does in answer,
//! and the page number in the corner. Reading keys and the terminal is the
//! caller's part.
use crate::deck::{clamp_index, step_back, step_forward, Deck};
use crate::escape::{cursor_goto, decimal, fg_light_red, fg_light_red_seq, fg_reset, fg_reset_seq, goto_seq, push_decimal};
use crate::view::{written, View};
use vstd::prelude::*;
use vstd::view::View as _;

verus! {

/// A key as the presenter tells keys apart.
#[derive(Clone, Copy, Debug)]
pub enum KeyPress {
    Char(char),
    Left,
    Right,
    Up,
    Down,
    Other,
}

/// What the user asks for.
#[derive(Clone, Copy, Debug)]
pub enum Command {
    /// The next slide.
    Next,
    /// The previous slide.
    Previous,
    /// Leave the presentation.
    Quit,
    /// Take the terminal's size again.
    Refresh,
    /// Read the document again, staying on the same slide.
    Reload,
    /// Nothing.
    Ignore,
}

/// What the caller does next.
#[derive(Clone, Copy, Debug)]
pub enum Action {
    /// Draw the current slide again.
    Redraw,
    /// Take the terminal's size, then draw the current slide again.
    Refit,
    /// Read the document again and go to this slide.
    Reload(usize),
    /// Restore the terminal and stop.
    Quit,
}

/// The command a key stands for: `j`, space, right and down go forward; `k`, left
/// and up go back; `q` quits; `r` takes the terminal's size again; `l` reads the
/// document again.
pub open spec fn command_spec(key: KeyPress) -> Command {
    match key {
        KeyPress::Char(c) => if c == 'q' {
            Command::Quit
        } else if c == 'r' {
            Command::Refresh
        } else if c == 'l' {
            Command::Reload
        } else if c == 'j' || c == ' ' {
            Command::Next
        } else if c == 'k' {
            Command::Previous
        } else {
            Command::Ignore
        },
        KeyPress::Right => Command::Next,
        KeyPress::Down => Command::Next,
        KeyPress::Left => Command::Previous,
        KeyPress::Up => Command::Previous,
        KeyPress::Other => Command::Ignore,
    }
}

/// The command a key stands for.
pub fn command_for(key: KeyPress) -> (r: Command)
    ensures
        r == command_spec(key),
{
    match key {
        KeyPress::Char(c) => if c == 'q' {
            Command::Quit
        } else if c == 'r' {
            Command::Refresh
        } else if c == 'l' {
            Command::Reload
        } else if c == 'j' || c == ' ' {
            Command::Next
        } else if c == 'k' {
            Command::Previous
        } else {
            Command::Ignore
        },
        KeyPress::Right => Command::Next,
        KeyPress::Down => Command::Next,
        KeyPress::Left => Command::Previous,
        KeyPress::Up => Command::Previous,
        KeyPress::Other => Command::Ignore,
    }
}

/// Carries out a command on the deck and says what the caller does next: moves
/// the cursor for `Next` and `Previous`, and leaves it for the others.
pub fn respond(deck: &mut Deck, command: Command) -> (r: Action)
    requires
        old(deck).wf(),
    ensures
        final(deck).wf(),
        final(deck).slides() == old(deck).slides(),
        final(deck).cursor() == match command {
            Command::Next => step_forward(old(deck).cursor(), old(deck).slides().len()),
            Command::Previous => step_back(old(deck).cursor()),
            _ => old(deck).cursor(),
        },
        r == match command {
            Command::Quit => Action::Quit,
            Command::Refresh => Action::Refit,
            Command::Reload => Action::Reload(old(deck).cursor() as usize),
            _ => Action::Redraw,
        },
{
    match command {
        Command::Next => {
            deck.next();
            Action::Redraw
        },
        Command::Previous => {
            deck.previous();
            Action::Redraw
        },
        Command::Quit => Action::Quit,
        Command::Refresh => Action::Refit,
        Command::Reload => Action::Reload(deck.current_num()),
        Command::Ignore => Action::Redraw,
    }
}

/// The deck for a reloaded document, on the slide the old one was on, or on its
/// last slide where it has fewer.
pub fn resume(deck: Deck, at: usize) -> (r: Deck)
    requires
        deck.wf(),
    ensures
        r.wf(),
        r.slides() == deck.slides(),
        r.cursor() == clamp_index(at as nat, deck.slides().len()),
{
    let mut deck = deck;
    deck.goto(at);
    deck
}

/// The page number: the slide counted from one, a slash, the number of slides.
pub open spec fn page_status(current: nat, total: nat) -> Seq<char> {
    decimal(current + 1) + seq![' ', '/', ' '] + decimal(total)
}

/// The column where the page number starts, so that it ends at `right`; column
/// one where the number is longer than that.
pub open spec fn status_column(right: nat, len: nat) -> nat {
    if right >= len {
        (right - len) as nat
    } else {
        1
    }
}

/// Writes the page number, right-aligned at the bottom of the content area, in an
/// accent colour.
pub fn show_page_num(deck: &Deck, view: &mut View)
    requires
        deck.wf(),
        old(view).wf(),
    ensures
        final(view).keeps(old(view)),
        ({
            let g = old(view).geometry();
            let status = page_status(deck.cursor(), deck.slides().len());
            let x = status_column((g.term_width - g.right_margin) as nat, status.len());
            let y = (g.term_height - g.bottom_margin) as nat;
            final(view).frame() == written(
                old(view).frame(),
                goto_seq(x, y) + fg_light_red_seq() + status + fg_reset_seq(),
            )
        }),
{
    let total = deck.total_num();
    let current = deck.current_num();
    let mut status = String::new();
    push_decimal(&mut status, current as u64 + 1);
    proof {
        reveal_strlit(" / ");
    }
    status.append(" / ");
    push_decimal(&mut status, total as u64);
    proof {
        assert(status@ =~= page_status(deck.cursor(), deck.slides().len()));
    }
    let (right, bottom) = view.right_bottom();
    let len = status.as_str().unicode_len();
    let x: u16 = if (right as usize) >= len {
        right - len as u16
    } else {
        1
    };
    let goto = cursor_goto(x, bottom);
    view.write_text(goto.as_str());
    view.write_text(fg_light_red());
    view.write_text(status.as_str());
    view.write_text(fg_reset());
    proof {
        let g = old(view).geometry();
        assert(view.frame().out =~= old(view).frame().out + (goto_seq(x as nat, bottom as nat)
            + fg_light_red_seq() + status@ + fg_reset_seq()));
    }
}

} // verus!
