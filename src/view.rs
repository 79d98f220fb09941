//! The terminal view: layout from the terminal's size, and the rendering state that
//! turns markdown elements into terminal text.
use crate::escape::{
    bg_light_white, bg_light_white_seq, bg_reset, bg_reset_seq, bold, bold_seq, clear_all,
    clear_all_seq, cursor_goto, cursor_right, decimal, fg_black, fg_black_seq, fg_light_cyan,
    fg_light_cyan_seq, fg_reset, fg_reset_seq, goto_seq, hide_cursor, hide_cursor_seq, italic,
    italic_seq, no_italic, no_italic_seq, no_underline, no_underline_seq, push_decimal, right_seq,
    show_cursor, show_cursor_seq, style_reset, style_reset_seq, underline, underline_seq,
};
use crate::image::{inline_image, inline_seq, ImageCache};
use crate::present::Present;
use crate::split::bytes_of;
use vstd::prelude::*;
use vstd::view::View as _;

verus! {

/// Where a list item stands.
#[derive(Clone, Copy, Debug)]
pub enum ListState {
    /// Before the item's first text, which is not indented.
    ParagraphFirst,
    /// Later text of the item, indented one level deeper than the list.
    ItemContinue,
    /// The item has ended.
    JustEnd,
}

/// How incoming text is shown.
#[derive(Clone, Copy, Debug)]
pub enum Context {
    Default,
    Quote,
    /// Inside a code block, with the columns already used on the current line.
    CodeBlock(usize),
    /// Inside an image, and whether it was shown inline.
    Image(bool),
    /// Inside a list, with its nesting depth counted from zero.
    List(usize, ListState),
}

/// An element was closed that is not open, or a construct that slides do not
/// support came up.
#[derive(Clone, Copy, Debug)]
pub enum RenderError {
    /// An end that does not match the element being rendered.
    Unbalanced,
    /// Raw HTML or a footnote reference.
    Unsupported,
    /// Lists nested deeper than a counter can hold.
    TooDeep,
}

/// The geometry of the view, from the terminal's size.
#[derive(Clone, Copy, Debug)]
pub struct Layout {
    pub term_width: u16,
    pub term_height: u16,
    /// The width of the content column.
    pub width: u16,
    pub left_margin: u16,
    pub right_margin: u16,
    pub top_margin: u16,
    pub bottom_margin: u16,
    /// Whether the terminal shows inline images.
    pub images: bool,
}

/// The geometry for a terminal of the given size: a content column of at most
/// eighty columns, centred, and a bottom margin of a tenth of the height.
pub open spec fn layout_for(term_width: u16, term_height: u16, images: bool) -> Layout {
    let width = if term_width - 4 < 80 {
        (term_width - 4) as u16
    } else {
        80u16
    };
    Layout {
        term_width,
        term_height,
        width,
        left_margin: ((term_width - width) / 2 - 1) as u16,
        right_margin: ((term_width - width) / 2) as u16,
        top_margin: 2,
        bottom_margin: (term_height / 10) as u16,
        images,
    }
}

/// The rendering state: the active context, the contexts it will return to, and
/// what has been written.
pub struct Frame {
    pub ctx: Context,
    pub saved: Seq<Context>,
    pub out: Seq<char>,
}

/// The frame with `s` written.
pub open spec fn written(f: Frame, s: Seq<char>) -> Frame {
    Frame { ctx: f.ctx, saved: f.saved, out: f.out + s }
}

/// The frame with `s` written and context `c` entered, the current one saved.
pub open spec fn enter(f: Frame, c: Context, s: Seq<char>) -> Frame {
    Frame { ctx: c, saved: f.saved.push(f.ctx), out: f.out + s }
}

/// The frame with `s` written and the saved context restored.
pub open spec fn leave(f: Frame, s: Seq<char>) -> Frame {
    Frame { ctx: f.saved.last(), saved: f.saved.drop_last(), out: f.out + s }
}

/// The frame with `s` written and context `c` in place of the current one.
pub open spec fn switch(f: Frame, c: Context, s: Seq<char>) -> Frame {
    Frame { ctx: c, saved: f.saved, out: f.out + s }
}

/// `n` spaces.
pub open spec fn spaces(n: nat) -> Seq<char> {
    Seq::new(n, |i: int| ' ')
}

/// `n` levels of list indentation, three spaces each.
pub open spec fn indent(n: nat) -> Seq<char>
    decreases n,
{
    if n == 0 {
        seq![]
    } else {
        indent((n - 1) as nat) + seq![' ', ' ', ' ']
    }
}

/// The text without its trailing line feeds.
pub open spec fn trim_newlines(s: Seq<char>) -> Seq<char>
    decreases s.len(),
{
    if s.len() > 0 && s.last() == '\n' {
        trim_newlines(s.drop_last())
    } else {
        s
    }
}

/// The spaces that fill a code line of `len` bytes, after `used` columns, to `cols`.
pub open spec fn pad(cols: nat, len: nat, used: nat) -> nat {
    if len + used <= cols {
        (cols - len - used) as nat
    } else {
        0
    }
}

/// The quote bar written before quoted text.
pub open spec fn quote_bar() -> Seq<char> {
    bg_light_white_seq() + seq![' '] + bg_reset_seq() + seq![' ']
}

/// The call succeeded with the frame `expected` gives, or failed with its error and
/// left the frame as it was.
pub open spec fn outcome(
    before: Frame,
    after: Frame,
    r: Result<(), RenderError>,
    expected: Result<Frame, RenderError>,
) -> bool {
    match expected {
        Ok(f) => r == Ok::<(), RenderError>(()) && after == f,
        Err(e) => r == Err::<(), RenderError>(e) && after == before,
    }
}

impl Layout {
    /// The geometry is the one for the terminal's size.
    pub open spec fn wf(self) -> bool {
        &&& self.term_width >= 4
        &&& self == layout_for(self.term_width, self.term_height, self.images)
    }

    /// A line break, back to the content column.
    pub open spec fn newline_seq(self) -> Seq<char> {
        seq!['\n'] + right_seq((self.left_margin - 1) as nat)
    }

    /// Text shown in the frame's context.
    pub open spec fn text_shown(self, f: Frame, text: Seq<char>) -> Frame {
        match f.ctx {
            Context::Default => written(f, text),
            Context::CodeBlock(used) => if text.len() > 0 && text.last() == '\n' {
                let content = trim_newlines(text);
                switch(
                    f,
                    Context::CodeBlock(0),
                    content + spaces(pad(self.width as nat, bytes_of(content).len(), used as nat))
                        + self.newline_seq(),
                )
            } else {
                let next = if used + bytes_of(text).len() <= usize::MAX {
                    (used + bytes_of(text).len()) as usize
                } else {
                    usize::MAX
                };
                switch(f, Context::CodeBlock(next), text)
            },
            Context::Quote => written(f, quote_bar() + text),
            Context::List(depth, state) => match state {
                ListState::ParagraphFirst => switch(
                    f,
                    Context::List(depth, ListState::ItemContinue),
                    text,
                ),
                ListState::ItemContinue => written(f, indent(depth as nat + 1) + text),
                ListState::JustEnd => written(f, text),
            },
            Context::Image(shown) => if shown {
                f
            } else {
                written(f, text)
            },
        }
    }

    pub open spec fn paragraph_started(self, f: Frame) -> Frame {
        if f.ctx matches Context::List(_, ListState::ParagraphFirst) {
            f
        } else {
            written(f, self.newline_seq())
        }
    }

    pub open spec fn codeblock_ended(self, f: Frame) -> Result<Frame, RenderError> {
        if f.ctx is CodeBlock && f.saved.len() > 0 {
            Ok(leave(f, self.newline_seq() + fg_reset_seq() + bg_reset_seq()))
        } else {
            Err(RenderError::Unbalanced)
        }
    }

    pub open spec fn quote_ended(self, f: Frame) -> Result<Frame, RenderError> {
        if f.ctx is Quote && f.saved.len() > 0 {
            Ok(leave(f, self.newline_seq()))
        } else {
            Err(RenderError::Unbalanced)
        }
    }

    pub open spec fn list_started(self, f: Frame) -> Result<Frame, RenderError> {
        match f.ctx {
            Context::List(depth, _) => if depth < usize::MAX {
                Ok(
                    switch(
                        f,
                        Context::List((depth + 1) as usize, ListState::ParagraphFirst),
                        self.newline_seq(),
                    ),
                )
            } else {
                Err(RenderError::TooDeep)
            },
            _ => Ok(enter(f, Context::List(0, ListState::ParagraphFirst), self.newline_seq())),
        }
    }

    pub open spec fn list_ended(self, f: Frame) -> Result<Frame, RenderError> {
        match f.ctx {
            Context::List(depth, state) => if depth > 0 {
                Ok(switch(f, Context::List((depth - 1) as usize, state), self.newline_seq()))
            } else if f.saved.len() > 0 {
                Ok(leave(f, self.newline_seq()))
            } else {
                Err(RenderError::Unbalanced)
            },
            _ => Err(RenderError::Unbalanced),
        }
    }

    pub open spec fn item_started(self, f: Frame) -> Result<Frame, RenderError> {
        match f.ctx {
            Context::List(depth, _) => Ok(
                switch(
                    f,
                    Context::List(depth, ListState::ParagraphFirst),
                    indent(depth as nat) + seq!['+', '-', ' '],
                ),
            ),
            _ => Err(RenderError::Unbalanced),
        }
    }

    pub open spec fn item_ended(self, f: Frame) -> Result<Frame, RenderError> {
        match f.ctx {
            Context::List(depth, state) => match state {
                ListState::JustEnd => Ok(f),
                _ => Ok(switch(f, Context::List(depth, ListState::JustEnd), self.newline_seq())),
            },
            _ => Err(RenderError::Unbalanced),
        }
    }

    /// Whether the image under `path` is shown inline.
    pub open spec fn image_shown(self, images: Map<Seq<char>, Seq<char>>, path: Seq<char>) -> bool {
        self.images && images.contains_key(path)
    }

    pub open spec fn image_started(
        self,
        f: Frame,
        images: Map<Seq<char>, Seq<char>>,
        path: Seq<char>,
    ) -> Frame {
        let shown = self.image_shown(images, path);
        enter(
            f,
            Context::Image(shown),
            (if shown {
                inline_seq(images[path])
            } else {
                seq![]
            }) + self.newline_seq(),
        )
    }

    pub open spec fn image_ended(self, f: Frame) -> Result<Frame, RenderError> {
        if f.ctx is Image && f.saved.len() > 0 {
            Ok(leave(f, seq![]))
        } else {
            Err(RenderError::Unbalanced)
        }
    }
}

/// A terminal view: its layout and its rendering state. What it writes collects in
/// a buffer that the caller sends to the terminal.
pub struct View {
    layout: Layout,
    ctx: Context,
    saved: Vec<Context>,
    out: String,
}

impl View {
    pub closed spec fn geometry(&self) -> Layout {
        self.layout
    }

    pub closed spec fn frame(&self) -> Frame {
        Frame { ctx: self.ctx, saved: self.saved@, out: self.out@ }
    }

    pub open spec fn wf(&self) -> bool {
        self.geometry().wf()
    }

    /// The view keeps its layout and stays well formed.
    pub open spec fn keeps(&self, old_view: &View) -> bool {
        &&& self.wf()
        &&& self.geometry() == old_view.geometry()
    }

    /// A view of a terminal of the given size, with nothing written.
    pub fn new(term_width: u16, term_height: u16, images: bool) -> (r: View)
        requires
            term_width >= 4,
        ensures
            r.wf(),
            r.geometry() == layout_for(term_width, term_height, images),
            r.frame() == (Frame { ctx: Context::Default, saved: seq![], out: seq![] }),
    {
        View {
            layout: Self::layout_of(term_width, term_height, images),
            ctx: Context::Default,
            saved: Vec::new(),
            out: String::new(),
        }
    }

    fn layout_of(term_width: u16, term_height: u16, images: bool) -> (r: Layout)
        requires
            term_width >= 4,
        ensures
            r == layout_for(term_width, term_height, images),
            r.wf(),
    {
        let width: u16 = if term_width - 4 < 80 {
            term_width - 4
        } else {
            80
        };
        Layout {
            term_width,
            term_height,
            width,
            left_margin: (term_width - width) / 2 - 1,
            right_margin: (term_width - width) / 2,
            top_margin: 2,
            bottom_margin: term_height / 10,
            images,
        }
    }

    /// Takes a new terminal size; what was written and the context stay.
    pub fn update(&mut self, term_width: u16, term_height: u16)
        requires
            term_width >= 4,
        ensures
            final(self).wf(),
            final(self).geometry() == layout_for(term_width, term_height, old(self).geometry().images),
            final(self).frame() == old(self).frame(),
    {
        self.layout = Self::layout_of(term_width, term_height, self.layout.images);
    }

    /// Hands out what was written and empties the buffer.
    pub fn take_output(&mut self) -> (r: String)
        requires
            old(self).wf(),
        ensures
            final(self).keeps(old(self)),
            r@ == old(self).frame().out,
            final(self).frame() == (Frame { ctx: old(self).frame().ctx, saved: old(self).frame().saved, out: seq![] }),
    {
        let taken = self.out.clone();
        self.out = String::new();
        taken
    }

    /// Writes text as it is.
    pub fn write_text(&mut self, text: &str)
        requires
            old(self).wf(),
        ensures
            final(self).keeps(old(self)),
            final(self).frame() == written(old(self).frame(), text@),
    {
        self.out.append(text);
    }

    /// Shows anything that can be presented.
    pub fn present<P: Present>(&mut self, p: &P, images: &ImageCache) -> (r: Result<(), RenderError>)
        requires
            old(self).wf(),
            p.presentable(),
        ensures
            final(self).keeps(old(self)),
            (final(self).frame(), r) == p.presented(old(self).geometry(), old(self).frame(), images@),
    {
        p.present(self, images)
    }

    /// The context that incoming text is shown in.
    pub fn context(&self) -> (r: Context)
        ensures
            r == self.frame().ctx,
    {
        self.ctx
    }

    /// The width of the content column.
    pub fn width(&self) -> (r: u16)
        ensures
            r == self.geometry().width,
    {
        self.layout.width
    }

    /// The column and row where the content area ends.
    pub fn right_bottom(&self) -> (r: (u16, u16))
        requires
            self.wf(),
        ensures
            r.0 == self.geometry().term_width - self.geometry().right_margin,
            r.1 == self.geometry().term_height - self.geometry().bottom_margin,
    {
        (
            self.layout.term_width - self.layout.right_margin,
            self.layout.term_height - self.layout.bottom_margin,
        )
    }

    /// Breaks the line and moves back to the content column.
    pub fn newline(&mut self)
        requires
            old(self).wf(),
        ensures
            final(self).keeps(old(self)),
            final(self).frame() == written(old(self).frame(), old(self).geometry().newline_seq()),
    {
        proof {
            reveal_strlit("\n");
        }
        self.out.append("\n");
        let right = cursor_right(self.layout.left_margin - 1);
        self.out.append(right.as_str());
        proof {
            assert(self.out@ =~= old(self).out@ + old(self).geometry().newline_seq());
        }
    }

    /// Clears the screen and moves to the top of the content column.
    pub fn clear(&mut self)
        requires
            old(self).wf(),
        ensures
            final(self).keeps(old(self)),
            final(self).frame() == written(
                old(self).frame(),
                clear_all_seq() + goto_seq(
                    old(self).geometry().left_margin as nat,
                    old(self).geometry().top_margin as nat,
                ),
            ),
    {
        self.out.append(clear_all());
        let goto = cursor_goto(self.layout.left_margin, self.layout.top_margin);
        self.out.append(goto.as_str());
        proof {
            assert(self.out@ =~= old(self).out@ + (clear_all_seq() + goto_seq(
                old(self).geometry().left_margin as nat,
                old(self).geometry().top_margin as nat,
            )));
        }
    }

    /// Clears the screen and moves to its top left corner.
    pub fn reset(&mut self)
        requires
            old(self).wf(),
        ensures
            final(self).keeps(old(self)),
            final(self).frame() == written(old(self).frame(), clear_all_seq() + goto_seq(1, 1)),
    {
        self.out.append(clear_all());
        let goto = cursor_goto(1, 1);
        self.out.append(goto.as_str());
        proof {
            assert(self.out@ =~= old(self).out@ + (clear_all_seq() + goto_seq(1, 1)));
        }
    }

    /// Leaves the screen clear, with the cursor shown.
    pub fn quit(&mut self)
        requires
            old(self).wf(),
        ensures
            final(self).keeps(old(self)),
            final(self).frame() == written(
                old(self).frame(),
                clear_all_seq() + goto_seq(1, 1) + show_cursor_seq(),
            ),
    {
        self.reset();
        self.show_cursor();
        proof {
            assert(self.out@ =~= old(self).out@ + (clear_all_seq() + goto_seq(1, 1)
                + show_cursor_seq()));
        }
    }

    /// Tells the terminal's size.
    pub fn info(&mut self)
        requires
            old(self).wf(),
        ensures
            final(self).keeps(old(self)),
            final(self).frame() == written(
                old(self).frame(),
                "Your terminal is "@ + decimal(old(self).geometry().term_width as nat) + seq!['x']
                    + decimal(old(self).geometry().term_height as nat),
            ),
    {
        proof {
            reveal_strlit("Your terminal is ");
            reveal_strlit("x");
        }
        self.out.append("Your terminal is ");
        push_decimal(&mut self.out, self.layout.term_width as u64);
        self.out.append("x");
        push_decimal(&mut self.out, self.layout.term_height as u64);
        proof {
            assert(self.out@ =~= old(self).out@ + ("Your terminal is "@ + decimal(
                old(self).geometry().term_width as nat,
            ) + seq!['x'] + decimal(old(self).geometry().term_height as nat)));
        }
    }

    pub fn hide_cursor(&mut self)
        requires
            old(self).wf(),
        ensures
            final(self).keeps(old(self)),
            final(self).frame() == written(old(self).frame(), hide_cursor_seq()),
    {
        self.out.append(hide_cursor());
    }

    pub fn show_cursor(&mut self)
        requires
            old(self).wf(),
        ensures
            final(self).keeps(old(self)),
            final(self).frame() == written(old(self).frame(), show_cursor_seq()),
    {
        self.out.append(show_cursor());
    }

    /// Starts inline code: dark text on a light background.
    pub fn start_code(&mut self)
        requires
            old(self).wf(),
        ensures
            final(self).keeps(old(self)),
            final(self).frame() == written(old(self).frame(), bg_light_white_seq() + fg_black_seq()),
    {
        self.out.append(bg_light_white());
        self.out.append(fg_black());
        proof {
            assert(self.out@ =~= old(self).out@ + (bg_light_white_seq() + fg_black_seq()));
        }
    }

    pub fn end_code(&mut self)
        requires
            old(self).wf(),
        ensures
            final(self).keeps(old(self)),
            final(self).frame() == written(old(self).frame(), fg_reset_seq() + bg_reset_seq()),
    {
        self.out.append(fg_reset());
        self.out.append(bg_reset());
        proof {
            assert(self.out@ =~= old(self).out@ + (fg_reset_seq() + bg_reset_seq()));
        }
    }

    pub fn start_italic(&mut self)
        requires
            old(self).wf(),
        ensures
            final(self).keeps(old(self)),
            final(self).frame() == written(old(self).frame(), italic_seq()),
    {
        self.out.append(italic());
    }

    pub fn end_italic(&mut self)
        requires
            old(self).wf(),
        ensures
            final(self).keeps(old(self)),
            final(self).frame() == written(old(self).frame(), no_italic_seq()),
    {
        self.out.append(no_italic());
    }

    pub fn start_bold(&mut self)
        requires
            old(self).wf(),
        ensures
            final(self).keeps(old(self)),
            final(self).frame() == written(old(self).frame(), bold_seq()),
    {
        self.out.append(bold());
    }

    pub fn end_bold(&mut self)
        requires
            old(self).wf(),
        ensures
            final(self).keeps(old(self)),
            final(self).frame() == written(old(self).frame(), style_reset_seq()),
    {
        self.out.append(style_reset());
    }

    /// Starts a header on a new line, underlined in an accent colour.
    pub fn start_header(&mut self)
        requires
            old(self).wf(),
        ensures
            final(self).keeps(old(self)),
            final(self).frame() == written(
                old(self).frame(),
                old(self).geometry().newline_seq() + fg_light_cyan_seq() + underline_seq(),
            ),
    {
        self.newline();
        self.out.append(fg_light_cyan());
        self.out.append(underline());
        proof {
            assert(self.out@ =~= old(self).out@ + (old(self).geometry().newline_seq()
                + fg_light_cyan_seq() + underline_seq()));
        }
    }

    pub fn end_header(&mut self)
        requires
            old(self).wf(),
        ensures
            final(self).keeps(old(self)),
            final(self).frame() == written(
                old(self).frame(),
                no_underline_seq() + fg_reset_seq() + old(self).geometry().newline_seq(),
            ),
    {
        self.out.append(no_underline());
        self.out.append(fg_reset());
        self.newline();
        proof {
            assert(self.out@ =~= old(self).out@ + (no_underline_seq() + fg_reset_seq() + old(
                self,
            ).geometry().newline_seq()));
        }
    }
}

impl View {
    fn push_context(&mut self, next: Context)
        requires
            old(self).wf(),
        ensures
            final(self).keeps(old(self)),
            final(self).frame() == enter(old(self).frame(), next, seq![]),
    {
        self.saved.push(self.ctx);
        self.ctx = next;
        proof {
            assert(self.out@ =~= old(self).out@ + seq![]);
        }
    }

    /// Restores the saved context, where there is one.
    fn pop_context(&mut self) -> (r: bool)
        requires
            old(self).wf(),
        ensures
            final(self).keeps(old(self)),
            r == (old(self).frame().saved.len() > 0),
            r ==> final(self).frame() == leave(old(self).frame(), seq![]),
            !r ==> final(self).frame() == old(self).frame(),
    {
        match self.saved.pop() {
            Some(c) => {
                self.ctx = c;
                proof {
                    assert(self.out@ =~= old(self).out@ + seq![]);
                }
                true
            },
            None => false,
        }
    }

    fn push_spaces(&mut self, n: usize)
        requires
            old(self).wf(),
        ensures
            final(self).keeps(old(self)),
            final(self).frame() == written(old(self).frame(), spaces(n as nat)),
    {
        let mut i: usize = 0;
        while i < n
            invariant
                i <= n,
                self.keeps(old(self)),
                self.ctx == old(self).ctx,
                self.saved@ == old(self).saved@,
                self.out@ == old(self).out@ + spaces(i as nat),
            decreases n - i,
        {
            proof {
                reveal_strlit(" ");
            }
            self.out.append(" ");
            i = i + 1;
            proof {
                assert(self.out@ =~= old(self).out@ + spaces(i as nat));
            }
        }
    }

    fn push_indent(&mut self, depth: usize)
        requires
            old(self).wf(),
        ensures
            final(self).keeps(old(self)),
            final(self).frame() == written(old(self).frame(), indent(depth as nat)),
    {
        let mut i: usize = 0;
        while i < depth
            invariant
                i <= depth,
                self.keeps(old(self)),
                self.ctx == old(self).ctx,
                self.saved@ == old(self).saved@,
                self.out@ == old(self).out@ + indent(i as nat),
            decreases depth - i,
        {
            proof {
                reveal_strlit("   ");
            }
            self.out.append("   ");
            i = i + 1;
            proof {
                assert(self.out@ =~= old(self).out@ + indent(i as nat));
            }
        }
    }

    /// Shows text as the current context asks: verbatim; in a code block padded to
    /// the content width at each line's end; indented when it continues a list
    /// item; behind a bar in a quote; not at all in an image that was shown.
    pub fn show_text(&mut self, text: &str)
        requires
            old(self).wf(),
        ensures
            final(self).keeps(old(self)),
            final(self).frame() == old(self).geometry().text_shown(old(self).frame(), text@),
    {
        match self.ctx {
            Context::Default => {
                self.out.append(text);
            },
            Context::CodeBlock(used) => {
                let n = text.unicode_len();
                if n > 0 && text.get_char(n - 1) == '\n' {
                    let mut k = n;
                    proof {
                        assert(text@.subrange(0, n as int) =~= text@);
                    }
                    while k > 0 && text.get_char(k - 1) == '\n'
                        invariant
                            k <= n,
                            n == text@.len(),
                            trim_newlines(text@.subrange(0, k as int)) == trim_newlines(text@),
                        decreases k,
                    {
                        proof {
                            assert(text@.subrange(0, k as int).drop_last() =~= text@.subrange(
                                0,
                                k - 1,
                            ));
                        }
                        k = k - 1;
                    }
                    let content = text.substring_char(0, k);
                    let len = content.as_bytes().len();
                    let cols = self.layout.width as usize;
                    let fill: usize = if len <= cols && used <= cols - len {
                        cols - len - used
                    } else {
                        0
                    };
                    self.out.append(content);
                    self.push_spaces(fill);
                    self.newline();
                    self.ctx = Context::CodeBlock(0);
                    proof {
                        assert(content@ == trim_newlines(text@));
                        assert(self.out@ =~= old(self).out@ + (content@ + spaces(fill as nat)
                            + old(self).geometry().newline_seq()));
                    }
                } else {
                    self.out.append(text);
                    let len = text.as_bytes().len();
                    let next = if used <= usize::MAX - len {
                        used + len
                    } else {
                        usize::MAX
                    };
                    self.ctx = Context::CodeBlock(next);
                }
            },
            Context::Quote => {
                proof {
                    reveal_strlit(" ");
                }
                self.out.append(bg_light_white());
                self.out.append(" ");
                self.out.append(bg_reset());
                self.out.append(" ");
                self.out.append(text);
                proof {
                    assert(self.out@ =~= old(self).out@ + (quote_bar() + text@));
                }
            },
            Context::List(depth, state) => {
                match state {
                    ListState::ParagraphFirst => {
                        self.ctx = Context::List(depth, ListState::ItemContinue);
                        self.out.append(text);
                    },
                    ListState::ItemContinue => {
                        proof {
                            reveal_strlit("   ");
                        }
                        self.out.append("   ");
                        self.push_indent(depth);
                        self.out.append(text);
                        proof {
                            assert(indent(depth as nat + 1) =~= indent(depth as nat) + seq![' ', ' ', ' ']);
                            lemma_indent_front(depth as nat);
                            assert(self.out@ =~= old(self).out@ + (indent(depth as nat + 1)
                                + text@));
                        }
                    },
                    ListState::JustEnd => {
                        self.out.append(text);
                    },
                }
            },
            Context::Image(shown) => {
                if !shown {
                    self.out.append(text);
                }
            },
        }
    }

    /// Starts a paragraph on a new line, except as the first line of a list item.
    pub fn start_paragraph(&mut self)
        requires
            old(self).wf(),
        ensures
            final(self).keeps(old(self)),
            final(self).frame() == old(self).geometry().paragraph_started(old(self).frame()),
    {
        match self.ctx {
            Context::List(_, ListState::ParagraphFirst) => {},
            _ => self.newline(),
        }
    }

    pub fn end_paragraph(&mut self)
        requires
            old(self).wf(),
        ensures
            final(self).keeps(old(self)),
            final(self).frame() == written(old(self).frame(), old(self).geometry().newline_seq()),
    {
        self.newline();
    }

    /// Enters a quote on a new line.
    pub fn start_quote(&mut self)
        requires
            old(self).wf(),
        ensures
            final(self).keeps(old(self)),
            final(self).frame() == enter(
                old(self).frame(),
                Context::Quote,
                old(self).geometry().newline_seq(),
            ),
    {
        self.push_context(Context::Quote);
        self.newline();
        proof {
            assert(self.out@ =~= old(self).out@ + old(self).geometry().newline_seq());
        }
    }

    /// Leaves a quote, back to the context around it.
    pub fn end_quote(&mut self) -> (r: Result<(), RenderError>)
        requires
            old(self).wf(),
            old(self).frame().ctx is Quote,
        ensures
            final(self).keeps(old(self)),
            outcome(old(self).frame(), final(self).frame(), r, old(self).geometry().quote_ended(old(self).frame())),
    {
        if !matches!(self.ctx, Context::Quote) || self.saved.len() == 0 {
            return Err(RenderError::Unbalanced);
        }
        self.pop_context();
        self.newline();
        proof {
            assert(self.out@ =~= old(self).out@ + old(self).geometry().newline_seq());
        }
        Ok(())
    }

    /// Enters a code block on a new line: dark text on a light background.
    pub fn start_codeblock(&mut self)
        requires
            old(self).wf(),
        ensures
            final(self).keeps(old(self)),
            final(self).frame() == enter(
                old(self).frame(),
                Context::CodeBlock(0),
                old(self).geometry().newline_seq() + bg_light_white_seq() + fg_black_seq(),
            ),
    {
        self.push_context(Context::CodeBlock(0));
        self.newline();
        self.out.append(bg_light_white());
        self.out.append(fg_black());
        proof {
            assert(self.out@ =~= old(self).out@ + (old(self).geometry().newline_seq()
                + bg_light_white_seq() + fg_black_seq()));
        }
    }

    /// Leaves a code block and its colours.
    pub fn end_codeblock(&mut self) -> (r: Result<(), RenderError>)
        requires
            old(self).wf(),
            old(self).frame().ctx is CodeBlock,
        ensures
            final(self).keeps(old(self)),
            outcome(old(self).frame(), final(self).frame(), r, old(self).geometry().codeblock_ended(old(self).frame())),
    {
        if !matches!(self.ctx, Context::CodeBlock(_)) || self.saved.len() == 0 {
            return Err(RenderError::Unbalanced);
        }
        self.pop_context();
        self.newline();
        self.out.append(fg_reset());
        self.out.append(bg_reset());
        proof {
            assert(self.out@ =~= old(self).out@ + (old(self).geometry().newline_seq()
                + fg_reset_seq() + bg_reset_seq()));
        }
        Ok(())
    }

    /// Enters a list, one level deeper where a list is open.
    pub fn start_list(&mut self) -> (r: Result<(), RenderError>)
        requires
            old(self).wf(),
        ensures
            final(self).keeps(old(self)),
            outcome(old(self).frame(), final(self).frame(), r, old(self).geometry().list_started(old(self).frame())),
    {
        match self.ctx {
            Context::List(depth, _) => {
                if depth == usize::MAX {
                    return Err(RenderError::TooDeep);
                }
                self.ctx = Context::List(depth + 1, ListState::ParagraphFirst);
            },
            _ => {
                self.push_context(Context::List(0, ListState::ParagraphFirst));
            },
        }
        self.newline();
        proof {
            assert(self.out@ =~= old(self).out@ + old(self).geometry().newline_seq());
        }
        Ok(())
    }

    /// Leaves a list: one level up, or out of the outermost one.
    pub fn end_list(&mut self) -> (r: Result<(), RenderError>)
        requires
            old(self).wf(),
            old(self).frame().ctx is List,
        ensures
            final(self).keeps(old(self)),
            outcome(old(self).frame(), final(self).frame(), r, old(self).geometry().list_ended(old(self).frame())),
    {
        match self.ctx {
            Context::List(depth, state) => {
                if depth > 0 {
                    self.ctx = Context::List(depth - 1, state);
                } else if !self.pop_context() {
                    return Err(RenderError::Unbalanced);
                }
            },
            _ => {
                return Err(RenderError::Unbalanced);
            },
        }
        self.newline();
        proof {
            assert(self.out@ =~= old(self).out@ + old(self).geometry().newline_seq());
        }
        Ok(())
    }

    /// Starts a list item: its bullet, indented by the list's depth.
    pub fn start_item(&mut self) -> (r: Result<(), RenderError>)
        requires
            old(self).wf(),
            old(self).frame().ctx is List,
        ensures
            final(self).keeps(old(self)),
            outcome(old(self).frame(), final(self).frame(), r, old(self).geometry().item_started(old(self).frame())),
    {
        match self.ctx {
            Context::List(depth, _) => {
                self.push_indent(depth);
                proof {
                    reveal_strlit("+- ");
                }
                self.out.append("+- ");
                self.ctx = Context::List(depth, ListState::ParagraphFirst);
                proof {
                    assert(self.out@ =~= old(self).out@ + (indent(depth as nat) + seq!['+', '-', ' ']));
                }
                Ok(())
            },
            _ => Err(RenderError::Unbalanced),
        }
    }

    /// Ends a list item on a new line, once.
    pub fn end_item(&mut self) -> (r: Result<(), RenderError>)
        requires
            old(self).wf(),
            old(self).frame().ctx is List,
        ensures
            final(self).keeps(old(self)),
            outcome(old(self).frame(), final(self).frame(), r, old(self).geometry().item_ended(old(self).frame())),
    {
        match self.ctx {
            Context::List(_, ListState::JustEnd) => Ok(()),
            Context::List(depth, _) => {
                self.ctx = Context::List(depth, ListState::JustEnd);
                self.newline();
                Ok(())
            },
            _ => Err(RenderError::Unbalanced),
        }
    }

    /// Enters an image: shown inline where the terminal can and the image is
    /// stored, otherwise left to its alternative text.
    pub fn start_image(&mut self, path: &str, images: &ImageCache)
        requires
            old(self).wf(),
        ensures
            final(self).keeps(old(self)),
            final(self).frame() == old(self).geometry().image_started(
                old(self).frame(),
                images@,
                path@,
            ),
    {
        let shown = inline_image(&mut self.out, images, path, self.layout.images).is_ok();
        self.push_context(Context::Image(shown));
        self.newline();
        proof {
            let g = old(self).geometry();
            assert(self.out@ =~= old(self).out@ + ((if shown {
                inline_seq(images@[path@])
            } else {
                seq![]
            }) + g.newline_seq()));
        }
    }

    /// Leaves an image, back to the context around it.
    pub fn end_image(&mut self) -> (r: Result<(), RenderError>)
        requires
            old(self).wf(),
            old(self).frame().ctx is Image,
        ensures
            final(self).keeps(old(self)),
            outcome(old(self).frame(), final(self).frame(), r, old(self).geometry().image_ended(old(self).frame())),
    {
        if !matches!(self.ctx, Context::Image(_)) || self.saved.len() == 0 {
            return Err(RenderError::Unbalanced);
        }
        self.pop_context();
        Ok(())
    }
}

/// In a code block, a line that fits is padded to exactly the content width: the
/// columns used before it, its own bytes and the spaces after it add up to the
/// width, and the line break follows.
pub proof fn lemma_code_line_fills_width(g: Layout, f: Frame, text: Seq<char>)
    requires
        f.ctx is CodeBlock,
        text.len() > 0,
        text.last() == '\n',
        f.ctx->CodeBlock_0 + bytes_of(trim_newlines(text)).len() <= g.width,
    ensures
        ({
            let content = trim_newlines(text);
            let fill = (g.width - f.ctx->CodeBlock_0 - bytes_of(content).len()) as nat;
            &&& g.text_shown(f, text).out == f.out + content + spaces(fill) + g.newline_seq()
            &&& f.ctx->CodeBlock_0 + bytes_of(content).len() + spaces(fill).len() == g.width
            &&& g.text_shown(f, text).ctx == Context::CodeBlock(0)
        }),
{
    let content = trim_newlines(text);
    let fill = (g.width - f.ctx->CodeBlock_0 - bytes_of(content).len()) as nat;
    let used = f.ctx->CodeBlock_0;
    assert(f.ctx == Context::CodeBlock(used));
    assert(pad(g.width as nat, bytes_of(content).len(), used as nat) == fill);
    assert(g.text_shown(f, text) == switch(
        f,
        Context::CodeBlock(0),
        content + spaces(fill) + g.newline_seq(),
    ));
    assert(g.text_shown(f, text).out =~= f.out + content + spaces(fill) + g.newline_seq());
}

proof fn lemma_indent_front(n: nat)
    ensures
        indent(n + 1) == seq![' ', ' ', ' '] + indent(n),
    decreases n,
{
    if n > 0 {
        lemma_indent_front((n - 1) as nat);
        assert(indent(n + 1) =~= seq![' ', ' ', ' '] + indent(n));
    } else {
        assert(indent(1) =~= seq![' ', ' ', ' '] + indent(0));
    }
}

} // verus!
