//! Terminal control sequences, as termion writes them, and decimal numbers.
use termion::{clear, color, cursor, style};
use vstd::prelude::*;

verus! {

/// A control sequence: `ESC [` and its body.
pub open spec fn csi(body: Seq<char>) -> Seq<char> {
    seq!['\u{1b}', '['] + body
}

/// The decimal digits.
pub open spec fn digit(d: nat) -> char {
    seq!['0', '1', '2', '3', '4', '5', '6', '7', '8', '9'][d as int]
}

/// A number in decimal, without leading zeros.
pub open spec fn decimal(n: nat) -> Seq<char>
    decreases n,
{
    if n < 10 {
        seq![digit(n)]
    } else {
        decimal(n / 10).push(digit(n % 10))
    }
}

fn digit_text(d: u64) -> (r: &'static str)
    requires
        d < 10,
    ensures
        r@ == seq![digit(d as nat)],
{
    proof {
        reveal_strlit("0");
        reveal_strlit("1");
        reveal_strlit("2");
        reveal_strlit("3");
        reveal_strlit("4");
        reveal_strlit("5");
        reveal_strlit("6");
        reveal_strlit("7");
        reveal_strlit("8");
        reveal_strlit("9");
    }
    match d {
        0 => "0",
        1 => "1",
        2 => "2",
        3 => "3",
        4 => "4",
        5 => "5",
        6 => "6",
        7 => "7",
        8 => "8",
        _ => "9",
    }
}

/// Writes a number in decimal.
pub fn push_decimal(out: &mut String, n: u64)
    ensures
        final(out)@ == old(out)@ + decimal(n as nat),
    decreases n,
{
    if n >= 10 {
        push_decimal(out, n / 10);
    }
    out.append(digit_text(n % 10));
    proof {
        if n >= 10 {
            assert(decimal(n as nat) == decimal((n / 10) as nat).push(digit((n % 10) as nat)));
        }
    }
}

/// Moving the cursor `n` columns right.
pub open spec fn right_seq(n: nat) -> Seq<char> {
    csi(decimal(n) + seq!['C'])
}

/// Placing the cursor at column `x` of row `y`, both counted from one.
pub open spec fn goto_seq(x: nat, y: nat) -> Seq<char> {
    csi(decimal(y) + seq![';'] + decimal(x) + seq!['H'])
}

pub open spec fn clear_all_seq() -> Seq<char> {
    csi(seq!['2', 'J'])
}

pub open spec fn hide_cursor_seq() -> Seq<char> {
    csi(seq!['?', '2', '5', 'l'])
}

pub open spec fn show_cursor_seq() -> Seq<char> {
    csi(seq!['?', '2', '5', 'h'])
}

pub open spec fn italic_seq() -> Seq<char> {
    csi(seq!['3', 'm'])
}

pub open spec fn no_italic_seq() -> Seq<char> {
    csi(seq!['2', '3', 'm'])
}

pub open spec fn bold_seq() -> Seq<char> {
    csi(seq!['1', 'm'])
}

pub open spec fn underline_seq() -> Seq<char> {
    csi(seq!['4', 'm'])
}

pub open spec fn no_underline_seq() -> Seq<char> {
    csi(seq!['2', '4', 'm'])
}

/// Resetting all text attributes.
pub open spec fn style_reset_seq() -> Seq<char> {
    csi(seq!['m'])
}

pub open spec fn fg_black_seq() -> Seq<char> {
    csi(seq!['3', '8', ';', '5', ';', '0', 'm'])
}

pub open spec fn fg_light_red_seq() -> Seq<char> {
    csi(seq!['3', '8', ';', '5', ';', '9', 'm'])
}

pub open spec fn fg_light_cyan_seq() -> Seq<char> {
    csi(seq!['3', '8', ';', '5', ';', '1', '4', 'm'])
}

pub open spec fn fg_reset_seq() -> Seq<char> {
    csi(seq!['3', '9', 'm'])
}

pub open spec fn bg_light_white_seq() -> Seq<char> {
    csi(seq!['4', '8', ';', '5', ';', '1', '5', 'm'])
}

pub open spec fn bg_reset_seq() -> Seq<char> {
    csi(seq!['4', '9', 'm'])
}

/// Relies on termion's `From<cursor::Right> for String`: `ESC [`, the count in
/// decimal, `C`.
#[verifier::external_body]
pub(crate) fn cursor_right(n: u16) -> (r: String)
    ensures
        r@ == right_seq(n as nat),
{
    String::from(cursor::Right(n))
}

/// Relies on termion's `From<cursor::Goto> for String`: `ESC [`, the row, `;`, the
/// column, both in decimal, `H`.
#[verifier::external_body]
pub(crate) fn cursor_goto(x: u16, y: u16) -> (r: String)
    ensures
        r@ == goto_seq(x as nat, y as nat),
{
    String::from(cursor::Goto(x, y))
}

/// Relies on termion's `AsRef<str>` for clear::All: `ESC [ 2 J`.
#[verifier::external_body]
pub(crate) fn clear_all() -> (r: &'static str)
    ensures
        r@ == clear_all_seq(),
{
    <clear::All as AsRef<str>>::as_ref(&clear::All)
}

/// Relies on termion's `AsRef<str>` for cursor::Hide: `ESC [ ? 2 5 l`.
#[verifier::external_body]
pub(crate) fn hide_cursor() -> (r: &'static str)
    ensures
        r@ == hide_cursor_seq(),
{
    <cursor::Hide as AsRef<str>>::as_ref(&cursor::Hide)
}

/// Relies on termion's `AsRef<str>` for cursor::Show: `ESC [ ? 2 5 h`.
#[verifier::external_body]
pub(crate) fn show_cursor() -> (r: &'static str)
    ensures
        r@ == show_cursor_seq(),
{
    <cursor::Show as AsRef<str>>::as_ref(&cursor::Show)
}

/// Relies on termion's `AsRef<str>` for style::Italic: `ESC [ 3 m`.
#[verifier::external_body]
pub(crate) fn italic() -> (r: &'static str)
    ensures
        r@ == italic_seq(),
{
    <style::Italic as AsRef<str>>::as_ref(&style::Italic)
}

/// Relies on termion's `AsRef<str>` for style::NoItalic: `ESC [ 2 3 m`.
#[verifier::external_body]
pub(crate) fn no_italic() -> (r: &'static str)
    ensures
        r@ == no_italic_seq(),
{
    <style::NoItalic as AsRef<str>>::as_ref(&style::NoItalic)
}

/// Relies on termion's `AsRef<str>` for style::Bold: `ESC [ 1 m`.
#[verifier::external_body]
pub(crate) fn bold() -> (r: &'static str)
    ensures
        r@ == bold_seq(),
{
    <style::Bold as AsRef<str>>::as_ref(&style::Bold)
}

/// Relies on termion's `AsRef<str>` for style::Underline: `ESC [ 4 m`.
#[verifier::external_body]
pub(crate) fn underline() -> (r: &'static str)
    ensures
        r@ == underline_seq(),
{
    <style::Underline as AsRef<str>>::as_ref(&style::Underline)
}

/// Relies on termion's `AsRef<str>` for style::NoUnderline: `ESC [ 2 4 m`.
#[verifier::external_body]
pub(crate) fn no_underline() -> (r: &'static str)
    ensures
        r@ == no_underline_seq(),
{
    <style::NoUnderline as AsRef<str>>::as_ref(&style::NoUnderline)
}

/// Relies on termion's `AsRef<str>` for style::Reset: `ESC [ m`.
#[verifier::external_body]
pub(crate) fn style_reset() -> (r: &'static str)
    ensures
        r@ == style_reset_seq(),
{
    <style::Reset as AsRef<str>>::as_ref(&style::Reset)
}

/// Relies on termion's color::Black::fg_str: `ESC [ 3 8 ; 5 ; 0 m`.
#[verifier::external_body]
pub(crate) fn fg_black() -> (r: &'static str)
    ensures
        r@ == fg_black_seq(),
{
    color::Black.fg_str()
}

/// Relies on termion's color::LightRed::fg_str: `ESC [ 3 8 ; 5 ; 9 m`.
#[verifier::external_body]
pub(crate) fn fg_light_red() -> (r: &'static str)
    ensures
        r@ == fg_light_red_seq(),
{
    color::LightRed.fg_str()
}

/// Relies on termion's color::LightCyan::fg_str: `ESC [ 3 8 ; 5 ; 1 4 m`.
#[verifier::external_body]
pub(crate) fn fg_light_cyan() -> (r: &'static str)
    ensures
        r@ == fg_light_cyan_seq(),
{
    color::LightCyan.fg_str()
}

/// Relies on termion's color::Reset::fg_str: `ESC [ 3 9 m`.
#[verifier::external_body]
pub(crate) fn fg_reset() -> (r: &'static str)
    ensures
        r@ == fg_reset_seq(),
{
    color::Reset.fg_str()
}

/// Relies on termion's color::LightWhite::bg_str: `ESC [ 4 8 ; 5 ; 1 5 m`.
#[verifier::external_body]
pub(crate) fn bg_light_white() -> (r: &'static str)
    ensures
        r@ == bg_light_white_seq(),
{
    color::LightWhite.bg_str()
}

/// Relies on termion's color::Reset::bg_str: `ESC [ 4 9 m`.
#[verifier::external_body]
pub(crate) fn bg_reset() -> (r: &'static str)
    ensures
        r@ == bg_reset_seq(),
{
    color::Reset.bg_str()
}

} // verus!
