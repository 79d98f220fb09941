//! Feeding markdown events to the view.
use crate::deck::Slide;
use crate::escape::{
    bg_light_white_seq, bold_seq, fg_black_seq, fg_light_cyan_seq, fg_reset_seq, bg_reset_seq,
    italic_seq, no_italic_seq, no_underline_seq, style_reset_seq, underline_seq,
};
use crate::image::ImageCache;
use crate::markdown::{markdown_events, markdown_of, Block, Located, MdEvent};
use crate::view::{enter, written, Context, Frame, Layout, RenderError, View};
use vstd::prelude::*;
use vstd::view::View as _;

verus! {

/// What one event does to the frame.
pub open spec fn step(
    g: Layout,
    f: Frame,
    ev: MdEvent,
    images: Map<Seq<char>, Seq<char>>,
) -> Result<Frame, RenderError> {
    match ev {
        MdEvent::Start(block) => match block {
            Block::Emphasis => Ok(written(f, italic_seq())),
            Block::Strong => Ok(written(f, bold_seq())),
            Block::Heading => Ok(written(f, g.newline_seq() + fg_light_cyan_seq() + underline_seq())),
            Block::CodeBlock => Ok(
                enter(
                    f,
                    Context::CodeBlock(0),
                    g.newline_seq() + bg_light_white_seq() + fg_black_seq(),
                ),
            ),
            Block::Paragraph => Ok(g.paragraph_started(f)),
            Block::BlockQuote => Ok(enter(f, Context::Quote, g.newline_seq())),
            Block::List => g.list_started(f),
            Block::Item => g.item_started(f),
            Block::Image(path) => Ok(g.image_started(f, images, path@)),
            _ => Ok(f),
        },
        MdEvent::End(block) => match block {
            Block::Emphasis => Ok(written(f, no_italic_seq())),
            Block::Strong => Ok(written(f, style_reset_seq())),
            Block::Heading => Ok(written(f, no_underline_seq() + fg_reset_seq() + g.newline_seq())),
            Block::CodeBlock => g.codeblock_ended(f),
            Block::Paragraph => Ok(written(f, g.newline_seq())),
            Block::BlockQuote => g.quote_ended(f),
            Block::List => g.list_ended(f),
            Block::Item => g.item_ended(f),
            Block::Image(_) => g.image_ended(f),
            _ => Ok(f),
        },
        MdEvent::Text(text) => Ok(g.text_shown(f, text@)),
        MdEvent::Code(text) => Ok(
            written(
                g.text_shown(written(f, bg_light_white_seq() + fg_black_seq()), text@),
                fg_reset_seq() + bg_reset_seq(),
            ),
        ),
        MdEvent::Html(_) => Err(RenderError::Unsupported),
        MdEvent::FootnoteReference(_) => Err(RenderError::Unsupported),
        MdEvent::SoftBreak => Ok(written(f, g.newline_seq())),
        MdEvent::HardBreak => Ok(written(f, g.newline_seq() + g.newline_seq())),
        MdEvent::Rule => Ok(f),
        MdEvent::TaskListMarker(_) => Ok(f),
    }
}

/// The frame that a step leaves, and whether it succeeded: a failed step leaves
/// the frame as it was.
pub open spec fn settle(f: Frame, r: Result<Frame, RenderError>) -> (Frame, Result<(), RenderError>) {
    match r {
        Ok(next) => (next, Ok(())),
        Err(e) => (f, Err(e)),
    }
}

/// What a run of events does to the frame: each in turn, up to the first failure,
/// which ends the run with what was shown before it.
pub open spec fn run(
    g: Layout,
    f: Frame,
    events: Seq<Located>,
    images: Map<Seq<char>, Seq<char>>,
) -> (Frame, Result<(), RenderError>)
    decreases events.len(),
{
    if events.len() == 0 {
        (f, Ok(()))
    } else {
        match step(g, f, events[0].event, images) {
            Ok(next) => run(g, next, events.drop_first(), images),
            Err(e) => (f, Err(e)),
        }
    }
}

/// An event that slides can show: raw HTML and footnote references are outside
/// the markdown that slides are written in.
pub open spec fn supported(ev: MdEvent) -> bool {
    !(ev is Html) && !(ev is FootnoteReference)
}

/// Every event of the run is one that slides can show.
pub open spec fn all_supported(events: Seq<Located>) -> bool {
    forall|i: int| 0 <= i < events.len() ==> #[trigger] supported(events[i].event)
}

/// Something that can be shown in a view.
pub trait Present {
    /// It holds nothing that slides cannot show.
    spec fn presentable(&self) -> bool;

    /// What presenting it does to the frame of a view with layout `g`.
    spec fn presented(
        &self,
        g: Layout,
        f: Frame,
        images: Map<Seq<char>, Seq<char>>,
    ) -> (Frame, Result<(), RenderError>);

    /// Shows it, with the stored images at hand.
    fn present(&self, view: &mut View, images: &ImageCache) -> (r: Result<(), RenderError>)
        requires
            old(view).wf(),
            self.presentable(),
        ensures
            final(view).keeps(old(view)),
            (final(view).frame(), r) == self.presented(
                old(view).geometry(),
                old(view).frame(),
                images@,
            ),
    ;
}

impl Present for MdEvent {
    open spec fn presentable(&self) -> bool {
        supported(*self)
    }

    open spec fn presented(
        &self,
        g: Layout,
        f: Frame,
        images: Map<Seq<char>, Seq<char>>,
    ) -> (Frame, Result<(), RenderError>) {
        settle(f, step(g, f, *self, images))
    }

    fn present(&self, view: &mut View, images: &ImageCache) -> (r: Result<(), RenderError>) {
        match self {
            MdEvent::Start(block) => match block {
                Block::Emphasis => {
                    view.start_italic();
                    Ok(())
                },
                Block::Strong => {
                    view.start_bold();
                    Ok(())
                },
                Block::Heading => {
                    view.start_header();
                    Ok(())
                },
                Block::CodeBlock => {
                    view.start_codeblock();
                    Ok(())
                },
                Block::Paragraph => {
                    view.start_paragraph();
                    Ok(())
                },
                Block::BlockQuote => {
                    view.start_quote();
                    Ok(())
                },
                Block::List => view.start_list(),
                Block::Item => if matches!(view.context(), Context::List(..)) {
                    view.start_item()
                } else {
                    Err(RenderError::Unbalanced)
                },
                Block::Image(path) => {
                    view.start_image(path.as_str(), images);
                    Ok(())
                },
                _ => Ok(()),
            },
            MdEvent::End(block) => match block {
                Block::Emphasis => {
                    view.end_italic();
                    Ok(())
                },
                Block::Strong => {
                    view.end_bold();
                    Ok(())
                },
                Block::Heading => {
                    view.end_header();
                    Ok(())
                },
                Block::CodeBlock => if matches!(view.context(), Context::CodeBlock(_)) {
                    view.end_codeblock()
                } else {
                    Err(RenderError::Unbalanced)
                },
                Block::Paragraph => {
                    view.end_paragraph();
                    Ok(())
                },
                Block::BlockQuote => if matches!(view.context(), Context::Quote) {
                    view.end_quote()
                } else {
                    Err(RenderError::Unbalanced)
                },
                Block::List => if matches!(view.context(), Context::List(..)) {
                    view.end_list()
                } else {
                    Err(RenderError::Unbalanced)
                },
                Block::Item => if matches!(view.context(), Context::List(..)) {
                    view.end_item()
                } else {
                    Err(RenderError::Unbalanced)
                },
                Block::Image(_) => if matches!(view.context(), Context::Image(_)) {
                    view.end_image()
                } else {
                    Err(RenderError::Unbalanced)
                },
                _ => Ok(()),
            },
            MdEvent::Text(text) => {
                view.show_text(text.as_str());
                Ok(())
            },
            MdEvent::Code(text) => {
                view.start_code();
                view.show_text(text.as_str());
                view.end_code();
                Ok(())
            },
            MdEvent::Html(_) => Err(RenderError::Unsupported),
            MdEvent::FootnoteReference(_) => Err(RenderError::Unsupported),
            MdEvent::SoftBreak => {
                view.newline();
                Ok(())
            },
            MdEvent::HardBreak => {
                view.newline();
                view.newline();
                proof {
                    let g = old(view).geometry();
                    assert(final(view).frame().out =~= old(view).frame().out + (g.newline_seq()
                        + g.newline_seq()));
                }
                Ok(())
            },
            MdEvent::Rule => Ok(()),
            MdEvent::TaskListMarker(_) => Ok(()),
        }
    }
}

/// Shows the events in turn, stopping at the first that cannot be shown.
pub fn present_events(view: &mut View, events: &Vec<Located>, images: &ImageCache) -> (r: Result<
    (),
    RenderError,
>)
    requires
        old(view).wf(),
        all_supported(events@),
    ensures
        final(view).keeps(old(view)),
        (final(view).frame(), r) == run(old(view).geometry(), old(view).frame(), events@, images@),
{
    let ghost g = view.geometry();
    let mut i: usize = 0;
    proof {
        assert(events@.subrange(0, events@.len() as int) =~= events@);
    }
    while i < events.len()
        invariant
            i <= events.len(),
            all_supported(events@),
            view.keeps(old(view)),
            g == old(view).geometry(),
            run(g, old(view).frame(), events@, images@) == run(
                g,
                view.frame(),
                events@.subrange(i as int, events@.len() as int),
                images@,
            ),
        decreases events.len() - i,
    {
        let ghost rest = events@.subrange(i as int, events@.len() as int);
        proof {
            assert(rest[0] == events@[i as int]);
            assert(rest.drop_first() =~= events@.subrange(i + 1, events@.len() as int));
        }
        proof {
            assert(supported(events@[i as int].event));
        }
        match events[i].event.present(view, images) {
            Ok(()) => {},
            Err(e) => {
                return Err(e);
            },
        }
        i = i + 1;
    }
    proof {
        assert(events@.subrange(i as int, events@.len() as int) =~= Seq::<Located>::empty());
    }
    Ok(())
}

impl Present for Slide {
    open spec fn presentable(&self) -> bool {
        all_supported(markdown_of(self.text()))
    }

    open spec fn presented(
        &self,
        g: Layout,
        f: Frame,
        images: Map<Seq<char>, Seq<char>>,
    ) -> (Frame, Result<(), RenderError>) {
        run(g, f, markdown_of(self.text()), images)
    }

    /// Reads the slide's markdown and shows its events in turn.
    fn present(&self, view: &mut View, images: &ImageCache) -> (r: Result<(), RenderError>) {
        let events = markdown_events(self.content());
        present_events(view, &events, images)
    }
}

impl Present for String {
    open spec fn presentable(&self) -> bool {
        true
    }

    open spec fn presented(
        &self,
        g: Layout,
        f: Frame,
        images: Map<Seq<char>, Seq<char>>,
    ) -> (Frame, Result<(), RenderError>) {
        (written(f, self@), Ok(()))
    }

    /// Writes the text as it is.
    fn present(&self, view: &mut View, images: &ImageCache) -> (r: Result<(), RenderError>) {
        view.write_text(self.as_str());
        Ok(())
    }
}

} // verus!

verus! {

/// Reads a slide's markdown and shows it, where it holds only what slides can
/// show; otherwise refuses it as unsupported and shows nothing.
pub fn show_slide(view: &mut View, slide: &Slide, images: &ImageCache) -> (r: Result<
    (),
    RenderError,
>)
    requires
        old(view).wf(),
    ensures
        final(view).keeps(old(view)),
        slide.presentable() ==> (final(view).frame(), r) == slide.presented(
            old(view).geometry(),
            old(view).frame(),
            images@,
        ),
        !slide.presentable() ==> r == Err::<(), RenderError>(RenderError::Unsupported)
            && final(view).frame() == old(view).frame(),
{
    let events = markdown_events(slide.content());
    let mut i: usize = 0;
    while i < events.len()
        invariant
            i <= events.len(),
            events@ == markdown_of(slide.text()),
            *view == *old(view),
            old(view).wf(),
            forall|k: int| 0 <= k < i ==> #[trigger] supported(events@[k].event),
        decreases events.len() - i,
    {
        match &events[i].event {
            MdEvent::Html(_) => {
                proof {
                    assert(!supported(events@[i as int].event));
                }
                return Err(RenderError::Unsupported);
            },
            MdEvent::FootnoteReference(_) => {
                proof {
                    assert(!supported(events@[i as int].event));
                }
                return Err(RenderError::Unsupported);
            },
            _ => {},
        }
        i = i + 1;
    }
    present_events(view, &events, images)
}

} // verus!
