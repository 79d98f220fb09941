//! Splitting a document into slides at its thematic breaks.
use crate::deck::Slide;
use crate::markdown::{markdown_events, markdown_of, Block, Located, MdEvent};
use vstd::prelude::*;
use vstd::string::StringSliceAdditionalSpecFns;
use vstd::utf8::*;

verus! {

broadcast use {
    encode_utf8_valid_utf8,
    valid_utf8_split,
    is_char_boundary_start_end_of_seq,
    is_char_boundary_iff_not_is_continuation_byte,
};

/// The UTF-8 bytes of a text.
pub open spec fn bytes_of(text: Seq<char>) -> Seq<u8> {
    encode_utf8(text)
}

/// The source ranges of the thematic breaks among the events, in order.
pub open spec fn rule_spans(events: Seq<Located>) -> Seq<(int, int)>
    decreases events.len(),
{
    if events.len() == 0 {
        seq![]
    } else {
        let rest = rule_spans(events.drop_last());
        let last = events.last();
        if last.event is Rule {
            rest.push((last.start as int, last.end as int))
        } else {
            rest
        }
    }
}

/// Where slide `i` starts: at the document's start, or where break `i - 1` ends.
pub open spec fn slide_start(spans: Seq<(int, int)>, i: int) -> int {
    if i == 0 {
        0
    } else {
        spans[i - 1].1
    }
}

/// Where slide `i` ends: where break `i` starts, or at the document's end.
pub open spec fn slide_end(len: int, spans: Seq<(int, int)>, i: int) -> int {
    if i < spans.len() {
        spans[i].0
    } else {
        len
    }
}

/// Break `i` lies after the previous one, inside the document, on character boundaries.
pub open spec fn span_fits(bytes: Seq<u8>, spans: Seq<(int, int)>, i: int) -> bool {
    &&& 0 <= slide_start(spans, i) <= spans[i].0
    &&& spans[i].0 <= spans[i].1 <= bytes.len()
    &&& is_char_boundary(bytes, spans[i].0)
    &&& is_char_boundary(bytes, spans[i].1)
}

/// Every break lies after the previous one, inside the document, on character boundaries.
pub open spec fn spans_fit(bytes: Seq<u8>, spans: Seq<(int, int)>) -> bool {
    forall|i: int| 0 <= i < spans.len() ==> #[trigger] span_fits(bytes, spans, i)
}

/// Slide `i` of the document: its start and its bytes.
pub open spec fn piece(bytes: Seq<u8>, spans: Seq<(int, int)>, i: int) -> (int, Seq<u8>) {
    (
        slide_start(spans, i),
        bytes.subrange(slide_start(spans, i), slide_end(bytes.len() as int, spans, i)),
    )
}

/// The slides of the document: one more than there are breaks, the last one
/// running to the end (and empty where a break ends the document).
pub open spec fn pieces(bytes: Seq<u8>, spans: Seq<(int, int)>) -> Seq<(int, Seq<u8>)> {
    Seq::new(spans.len() + 1, |i: int| piece(bytes, spans, i))
}

/// The source text of each break.
pub open spec fn markers(bytes: Seq<u8>, spans: Seq<(int, int)>) -> Seq<Seq<u8>> {
    Seq::new(spans.len(), |i: int| bytes.subrange(spans[i].0, spans[i].1))
}

/// The first `k + 1` slides with the `k` breaks between them, joined.
pub open spec fn joined(slides: Seq<(int, Seq<u8>)>, breaks: Seq<Seq<u8>>, k: nat) -> Seq<u8>
    decreases k,
{
    if k == 0 {
        slides[0].1
    } else {
        joined(slides, breaks, (k - 1) as nat) + breaks[k - 1] + slides[k as int].1
    }
}

/// The images that the events name, each with the slide it stands on (the number
/// of breaks before it).
pub open spec fn image_refs(events: Seq<Located>) -> Seq<(int, Seq<char>)>
    decreases events.len(),
{
    if events.len() == 0 {
        seq![]
    } else {
        let rest = image_refs(events.drop_last());
        match events.last().event {
            MdEvent::Start(Block::Image(path)) => rest.push(
                (rule_spans(events.drop_last()).len() as int, path@),
            ),
            _ => rest,
        }
    }
}

/// An image that a slide shows, to be fetched ahead of time.
pub struct ImageRef {
    /// The slide it stands on.
    pub slide: usize,
    /// Its path or URL.
    pub path: String,
}

/// The slides of a document and the images they show.
pub struct Split {
    pub slides: Vec<Slide>,
    pub images: Vec<ImageRef>,
}

/// A thematic break that the parser placed where no slide boundary can be.
pub enum SplitError {
    MisplacedRule,
}

/// The slides are the pieces of the document between its breaks.
pub open spec fn slides_are(slides: Seq<Slide>, bytes: Seq<u8>, spans: Seq<(int, int)>) -> bool {
    &&& slides.len() == spans.len() + 1
    &&& forall|i: int|
        0 <= i < slides.len() ==> {
            &&& (#[trigger] slides[i]).start() == pieces(bytes, spans)[i].0
            &&& bytes_of(slides[i].text()) == pieces(bytes, spans)[i].1
        }
}

/// The image references are those of the events, in order.
pub open spec fn images_are(images: Seq<ImageRef>, refs: Seq<(int, Seq<char>)>) -> bool {
    &&& images.len() == refs.len()
    &&& forall|i: int|
        0 <= i < images.len() ==> {
            &&& (#[trigger] images[i]).slide == refs[i].0
            &&& images[i].path@ == refs[i].1
        }
}

/// What splitting a document with the given events yields.
pub open spec fn split_result(
    text: Seq<char>,
    events: Seq<Located>,
    r: Result<Split, SplitError>,
) -> bool {
    let bytes = bytes_of(text);
    let spans = rule_spans(events);
    &&& (r is Ok <==> spans_fit(bytes, spans))
    &&& r matches Ok(s) ==> {
        &&& slides_are(s.slides@, bytes, spans)
        &&& images_are(s.images@, image_refs(events))
    }
}

proof fn lemma_rule_spans_prefix(events: Seq<Located>, j: int)
    requires
        0 <= j <= events.len(),
    ensures
        rule_spans(events.subrange(0, j)).len() <= rule_spans(events).len(),
        rule_spans(events.subrange(0, j)) == rule_spans(events).subrange(
            0,
            rule_spans(events.subrange(0, j)).len() as int,
        ),
    decreases events.len(),
{
    if j == events.len() {
        assert(events.subrange(0, j) == events);
    } else {
        lemma_rule_spans_prefix(events.drop_last(), j);
        assert(events.drop_last().subrange(0, j) == events.subrange(0, j));
    }
}

proof fn lemma_joined_prefix(bytes: Seq<u8>, spans: Seq<(int, int)>, k: nat)
    requires
        spans_fit(bytes, spans),
        k <= spans.len(),
    ensures
        joined(pieces(bytes, spans), markers(bytes, spans), k) == bytes.subrange(
            0,
            slide_end(bytes.len() as int, spans, k as int),
        ),
    decreases k,
{
    let len = bytes.len() as int;
    if k == 0 {
        if spans.len() > 0 {
            assert(span_fits(bytes, spans, 0));
        }
    } else {
        lemma_joined_prefix(bytes, spans, (k - 1) as nat);
        assert(span_fits(bytes, spans, k - 1));
        if k < spans.len() {
            assert(span_fits(bytes, spans, k as int));
        }
        let a = spans[k - 1].0;
        let b = spans[k - 1].1;
        let c = slide_end(len, spans, k as int);
        assert(pieces(bytes, spans)[k as int].1 == bytes.subrange(b, c));
        assert(markers(bytes, spans)[k - 1] == bytes.subrange(a, b));
        assert(bytes.subrange(0, a) + bytes.subrange(a, b) + bytes.subrange(b, c) =~= bytes.subrange(
            0,
            c,
        ));
    }
}

/// Putting the slides back in order, each at its recorded offset, with the source
/// text of each thematic break between two of them, gives the document again.
pub proof fn lemma_slides_rebuild_document(text: Seq<char>, events: Seq<Located>)
    requires
        spans_fit(bytes_of(text), rule_spans(events)),
    ensures
        ({
            let bytes = bytes_of(text);
            let spans = rule_spans(events);
            let slides = pieces(bytes, spans);
            let breaks = markers(bytes, spans);
            &&& joined(slides, breaks, spans.len()) == bytes
            &&& slides[0].0 == 0
            &&& forall|i: int|
                0 <= i < spans.len() ==> #[trigger] slides[i + 1].0 == slides[i].0
                    + slides[i].1.len() + breaks[i].len()
        }),
{
    let bytes = bytes_of(text);
    let spans = rule_spans(events);
    lemma_joined_prefix(bytes, spans, spans.len());
    assert(bytes.subrange(0, bytes.len() as int) =~= bytes);
    assert forall|i: int| 0 <= i < spans.len() implies #[trigger] pieces(bytes, spans)[i + 1].0
        == pieces(bytes, spans)[i].0 + pieces(bytes, spans)[i].1.len() + markers(
        bytes,
        spans,
    )[i].len() by {
        assert(span_fits(bytes, spans, i));
    }
}

/// A document without thematic breaks is a single slide: the whole document.
pub proof fn lemma_no_break_one_slide(text: Seq<char>, events: Seq<Located>)
    requires
        rule_spans(events).len() == 0,
    ensures
        spans_fit(bytes_of(text), rule_spans(events)),
        pieces(bytes_of(text), rule_spans(events)).len() == 1,
        pieces(bytes_of(text), rule_spans(events))[0] == (0int, bytes_of(text)),
{
    assert(bytes_of(text).subrange(0, bytes_of(text).len() as int) =~= bytes_of(text));
}

/// A document that ends in a thematic break ends in an empty slide.
pub proof fn lemma_trailing_break_empty_slide(text: Seq<char>, events: Seq<Located>)
    requires
        spans_fit(bytes_of(text), rule_spans(events)),
        rule_spans(events).len() > 0,
        rule_spans(events).last().1 == bytes_of(text).len(),
    ensures
        pieces(bytes_of(text), rule_spans(events)).len() == rule_spans(events).len() + 1,
        pieces(bytes_of(text), rule_spans(events)).last().1.len() == 0,
{
}

/// The text of `doc` between two character boundaries.
fn substring(doc: &str, from: usize, to: usize) -> (r: String)
    requires
        from <= to <= doc.spec_bytes().len(),
        is_char_boundary(doc.spec_bytes(), from as int),
        is_char_boundary(doc.spec_bytes(), to as int),
    ensures
        bytes_of(r@) == doc.spec_bytes().subrange(from as int, to as int),
{
    let (_, tail) = doc.split_at(from);
    proof {
        let bytes = doc.spec_bytes();
        let tb = tail.spec_bytes();
        assert(valid_utf8(bytes));
        assert(valid_utf8(tb));
        if to < bytes.len() {
            assert(tb[to - from] == bytes[to as int]);
            is_char_boundary_iff_not_is_continuation_byte(bytes, to as int);
            is_char_boundary_iff_not_is_continuation_byte(tb, to - from);
        } else {
            assert(tb.len() == to - from);
        }
    }
    let (piece, _) = tail.split_at(to - from);
    piece.to_owned()
}

/// Splits a document into slides at the thematic breaks among its events, and
/// lists the images that each slide shows.
pub fn split_events(doc: &str, events: &Vec<Located>) -> (r: Result<Split, SplitError>)
    ensures
        split_result(doc@, events@, r),
{
    let ghost bytes = doc.spec_bytes();
    let len = doc.as_bytes().len();
    let mut slides: Vec<Slide> = Vec::new();
    let mut images: Vec<ImageRef> = Vec::new();
    let mut cut: usize = 0;
    let mut i: usize = 0;
    proof {
        assert(events@.subrange(0, 0) =~= Seq::<Located>::empty());
    }
    while i < events.len()
        invariant
            0 <= i <= events.len(),
            bytes == doc.spec_bytes(),
            len == bytes.len(),
            bytes == bytes_of(doc@),
            spans_fit(bytes, rule_spans(events@.subrange(0, i as int))),
            slides@.len() == rule_spans(events@.subrange(0, i as int)).len(),
            forall|k: int|
                0 <= k < slides@.len() ==> {
                    &&& (#[trigger] slides@[k]).start() == piece(
                        bytes,
                        rule_spans(events@.subrange(0, i as int)),
                        k,
                    ).0
                    &&& bytes_of(slides@[k].text()) == piece(
                        bytes,
                        rule_spans(events@.subrange(0, i as int)),
                        k,
                    ).1
                },
            cut == slide_start(
                rule_spans(events@.subrange(0, i as int)),
                slides@.len() as int,
            ),
            cut <= len,
            is_char_boundary(bytes, cut as int),
            images_are(images@, image_refs(events@.subrange(0, i as int))),
        decreases events.len() - i,
    {
        let ghost before = events@.subrange(0, i as int);
        let ghost after = events@.subrange(0, i + 1);
        let ghost spans = rule_spans(before);
        proof {
            assert(after.drop_last() =~= before);
            assert(after.last() == events@[i as int]);
        }
        let ev = &events[i];
        match &ev.event {
            MdEvent::Rule => {
                let s = ev.start;
                let e = ev.end;
                assert(rule_spans(after) == spans.push((s as int, e as int)));
                if !(cut <= s && s <= e && e <= len && doc.is_char_boundary(s)
                    && doc.is_char_boundary(e)) {
                    proof {
                        assert(!span_fits(bytes, rule_spans(after), spans.len() as int));
                        lemma_rule_spans_prefix(events@, i + 1);
                        assert(events@.subrange(0, events@.len() as int) =~= events@);
                        assert(rule_spans(events@)[spans.len() as int] == rule_spans(
                            after,
                        )[spans.len() as int]);
                        if spans.len() > 0 {
                            assert(rule_spans(events@)[spans.len() - 1] == rule_spans(
                                after,
                            )[spans.len() - 1]);
                        }
                        assert(!span_fits(bytes, rule_spans(events@), spans.len() as int));
                    }
                    return Err(SplitError::MisplacedRule);
                }
                let text = substring(doc, cut, s);
                let ghost old_slides = slides@;
                slides.push(Slide::new((cut, text)));
                cut = e;
                proof {
                    let ns = rule_spans(after);
                    assert forall|k: int| 0 <= k < ns.len() implies #[trigger] span_fits(
                        bytes,
                        ns,
                        k,
                    ) by {
                        if k < spans.len() {
                            assert(span_fits(bytes, spans, k));
                            if k > 0 {
                                assert(ns[k - 1] == spans[k - 1]);
                            }
                            assert(ns[k] == spans[k]);
                        }
                    }
                    assert forall|k: int| 0 <= k < slides@.len() implies {
                        &&& (#[trigger] slides@[k]).start() == piece(bytes, ns, k).0
                        &&& bytes_of(slides@[k].text()) == piece(bytes, ns, k).1
                    } by {
                        if k < old_slides.len() {
                            assert(slides@[k] == old_slides[k]);
                            if k > 0 {
                                assert(ns[k - 1] == spans[k - 1]);
                            }
                            assert(ns[k] == spans[k]);
                        }
                    }
                    assert(image_refs(after) == image_refs(before));
                }
            },
            MdEvent::Start(Block::Image(path)) => {
                let ghost old_images = images@;
                images.push(ImageRef { slide: slides.len(), path: path.clone() });
                proof {
                    assert(rule_spans(after) == spans);
                    assert(image_refs(after) == image_refs(before).push(
                        (spans.len() as int, path@),
                    ));
                    assert forall|k: int| 0 <= k < images@.len() implies {
                        &&& (#[trigger] images@[k]).slide == image_refs(after)[k].0
                        &&& images@[k].path@ == image_refs(after)[k].1
                    } by {
                        if k < old_images.len() {
                            assert(images@[k] == old_images[k]);
                        }
                    }
                }
            },
            _ => {
                proof {
                    assert(rule_spans(after) == spans);
                    assert(image_refs(after) == image_refs(before));
                }
            },
        }
        i = i + 1;
    }
    let text = substring(doc, cut, len);
    let ghost old_slides = slides@;
    slides.push(Slide::new((cut, text)));
    proof {
        let spans = rule_spans(events@);
        assert(events@.subrange(0, i as int) =~= events@);
        assert forall|k: int| 0 <= k < slides@.len() implies {
            &&& (#[trigger] slides@[k]).start() == pieces(bytes, spans)[k].0
            &&& bytes_of(slides@[k].text()) == pieces(bytes, spans)[k].1
        } by {
            if k < old_slides.len() {
                assert(slides@[k] == old_slides[k]);
            }
        }
    }
    Ok(Split { slides, images })
}

/// Splits a document into slides at its thematic breaks, as pulldown-cmark reads
/// them, and lists the images that each slide shows.
pub fn split(doc: &str) -> (r: Result<Split, SplitError>)
    ensures
        split_result(doc@, markdown_of(doc@), r),
{
    let events = markdown_events(doc);
    split_events(doc, &events)
}

} // verus!
