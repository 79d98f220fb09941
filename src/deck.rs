//! Slides and the deck that holds them, with a clamped cursor.
use crate::markdown::markdown_of;
use crate::split::{bytes_of, rule_spans, slides_are, spans_fit, split, SplitError};
use vstd::prelude::*;

verus! {

/// One slide: a piece of the document and the byte offset where it starts.
pub struct Slide {
    content: String,
    offset: usize,
}

impl Slide {
    /// The slide's text.
    pub closed spec fn text(&self) -> Seq<char> {
        self.content@
    }

    /// Where the slide starts in the document, in bytes.
    pub closed spec fn start(&self) -> nat {
        self.offset as nat
    }

    /// A slide from its offset and its text.
    pub fn new(part: (usize, String)) -> (r: Slide)
        ensures
            r.start() == part.0,
            r.text() == part.1@,
    {
        Slide { content: part.1, offset: part.0 }
    }

    /// The slide's text.
    pub fn content(&self) -> (r: &str)
        ensures
            r@ == self.text(),
    {
        self.content.as_str()
    }

    /// Where the slide starts in the document, in bytes.
    pub fn offset(&self) -> (r: usize)
        ensures
            r == self.start(),
    {
        self.offset
    }
}

/// The cursor after one step forward among `n` slides.
pub open spec fn step_forward(cur: nat, n: nat) -> nat {
    if cur + 1 < n {
        cur + 1
    } else {
        cur
    }
}

/// The cursor after one step back.
pub open spec fn step_back(cur: nat) -> nat {
    if cur > 0 {
        (cur - 1) as nat
    } else {
        cur
    }
}

/// The cursor that `goto(index)` leaves among `n` slides.
pub open spec fn clamp_index(index: nat, n: nat) -> nat {
    if index < n {
        index
    } else if n == 0 {
        0
    } else {
        (n - 1) as nat
    }
}

/// The cursor after `k` steps forward from `cur` among `n` slides.
pub open spec fn steps_forward(cur: nat, n: nat, k: nat) -> nat
    decreases k,
{
    if k == 0 {
        cur
    } else {
        step_forward(steps_forward(cur, n, (k - 1) as nat), n)
    }
}

/// Steps forward and back keep the cursor on a slide; from the first slide, `k`
/// steps forward reach slide `k`, or the last one, where they stay.
pub proof fn lemma_navigation_in_range(n: nat, cur: nat, k: nat)
    requires
        0 < n,
        cur < n,
    ensures
        step_forward(cur, n) < n,
        step_back(cur) < n,
        steps_forward(0, n, k) == if k < n {
            k
        } else {
            (n - 1) as nat
        },
    decreases k,
{
    if k > 0 {
        lemma_navigation_in_range(n, cur, (k - 1) as nat);
    }
}

/// Slides in order and a cursor on one of them.
pub struct Deck {
    slides: Vec<Slide>,
    current: usize,
}

impl Deck {
    /// The slides, in order.
    pub closed spec fn slides(&self) -> Seq<Slide> {
        self.slides@
    }

    /// The cursor.
    pub closed spec fn cursor(&self) -> nat {
        self.current as nat
    }

    /// The cursor is on a slide, or at zero when there is none.
    pub open spec fn wf(&self) -> bool {
        if self.slides().len() == 0 {
            self.cursor() == 0
        } else {
            self.cursor() < self.slides().len()
        }
    }

    /// The deck of a document's slides, cut at its thematic breaks, on the first
    /// slide.
    pub fn new(content: &str) -> (r: Result<Deck, SplitError>)
        ensures
            r is Ok <==> spans_fit(bytes_of(content@), rule_spans(markdown_of(content@))),
            r matches Ok(d) ==> {
                &&& d.wf()
                &&& d.cursor() == 0
                &&& slides_are(d.slides(), bytes_of(content@), rule_spans(markdown_of(content@)))
            },
    {
        match split(content) {
            Ok(parts) => Ok(Deck::from_slides(parts.slides)),
            Err(e) => Err(e),
        }
    }

    /// A deck of the given slides, on the first one.
    pub fn from_slides(slides: Vec<Slide>) -> (r: Deck)
        ensures
            r.wf(),
            r.slides() == slides@,
            r.cursor() == 0,
    {
        Deck { slides, current: 0 }
    }

    /// Appends a slide; the cursor stays where it was.
    pub fn add(&mut self, slide: Slide)
        requires
            old(self).wf(),
        ensures
            final(self).wf(),
            final(self).slides() == old(self).slides().push(slide),
            final(self).cursor() == old(self).cursor(),
    {
        self.slides.push(slide);
    }

    /// Moves to the next slide; stays on the last one.
    pub fn next(&mut self)
        requires
            old(self).wf(),
        ensures
            final(self).wf(),
            final(self).slides() == old(self).slides(),
            final(self).cursor() == step_forward(old(self).cursor(), old(self).slides().len()),
    {
        if self.slides.len() > 0 && self.current < self.slides.len() - 1 {
            self.current = self.current + 1;
        }
    }

    /// Moves to the previous slide; stays on the first one.
    pub fn previous(&mut self)
        requires
            old(self).wf(),
        ensures
            final(self).wf(),
            final(self).slides() == old(self).slides(),
            final(self).cursor() == step_back(old(self).cursor()),
    {
        if self.current > 0 {
            self.current = self.current - 1;
        }
    }

    /// Moves to the slide at `index`, or to the last one where there are fewer.
    pub fn goto(&mut self, index: usize)
        requires
            old(self).wf(),
        ensures
            final(self).wf(),
            final(self).slides() == old(self).slides(),
            final(self).cursor() == clamp_index(index as nat, old(self).slides().len()),
    {
        if index < self.slides.len() {
            self.current = index;
        } else if self.slides.len() == 0 {
            self.current = 0;
        } else {
            self.current = self.slides.len() - 1;
        }
    }

    /// The slide under the cursor; none in an empty deck.
    pub fn slide(&self) -> (r: Option<&Slide>)
        requires
            self.wf(),
        ensures
            self.slides().len() == 0 ==> r.is_none(),
            self.slides().len() > 0 ==> r == Some(&self.slides()[self.cursor() as int]),
    {
        if self.current < self.slides.len() {
            Some(&self.slides[self.current])
        } else {
            None
        }
    }

    /// The cursor, counted from zero.
    pub fn current_num(&self) -> (r: usize)
        ensures
            r == self.cursor(),
    {
        self.current
    }

    /// How many slides the deck holds.
    pub fn total_num(&self) -> (r: usize)
        ensures
            r == self.slides().len(),
    {
        self.slides.len()
    }
}

} // verus!
