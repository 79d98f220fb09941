//! Filling text into lines of a given width.
use crate::split::bytes_of;
use vstd::prelude::*;
use vstd::utf8::{encode_scalar, encode_utf8, has_width_1_encoding};
use vstd::view::View as _;

verus! {

/// The words of a text: the pieces between single spaces, empty ones included.
pub open spec fn words(s: Seq<char>) -> Seq<Seq<char>>
    decreases s.len(),
{
    if s.len() == 0 {
        seq![seq![]]
    } else {
        let w = words(s.drop_last());
        if s.last() == ' ' {
            w.push(seq![])
        } else {
            w.update(w.len() - 1, w.last().push(s.last()))
        }
    }
}

/// The state after one more word: the finished lines, the line being filled and
/// its width in bytes before its trailing space. A word joins the line where the
/// line, one space and the word fit in the width; otherwise it begins a new line.
/// The first word of a line always stands on it.
pub open spec fn fill_step(
    state: (Seq<Seq<char>>, Seq<char>, nat),
    word: Seq<char>,
    column_width: nat,
) -> (Seq<Seq<char>>, Seq<char>, nat) {
    let (done, line, width) = state;
    let len = bytes_of(word).len();
    if line.len() == 0 {
        (done, word + seq![' '], len)
    } else if width + 1 + len <= column_width {
        (done, line + word + seq![' '], width + 1 + len)
    } else {
        (done.push(line), word + seq![' '], len)
    }
}

/// The state after the given words.
pub open spec fn fill(ws: Seq<Seq<char>>, column_width: nat) -> (Seq<Seq<char>>, Seq<char>, nat)
    decreases ws.len(),
{
    if ws.len() == 0 {
        (seq![], seq![], 0)
    } else {
        fill_step(fill(ws.drop_last(), column_width), ws.last(), column_width)
    }
}

/// The lines of a text filled to a width: each word followed by a space, a new
/// line started where a word would pass the width.
pub open spec fn filled(text: Seq<char>, column_width: nat) -> Seq<Seq<char>> {
    let (done, line, _) = fill(words(text), column_width);
    done.push(line)
}

proof fn lemma_words_nonempty(s: Seq<char>)
    ensures
        words(s).len() >= 1,
    decreases s.len(),
{
    if s.len() > 0 {
        lemma_words_nonempty(s.drop_last());
    }
}

/// A word holds no space.
pub open spec fn no_space(w: Seq<char>) -> bool {
    forall|i: int| 0 <= i < w.len() ==> #[trigger] w[i] != ' '
}

/// A filled line ends in its space, and holds at most `column_width` bytes before
/// it unless it is a single word.
pub open spec fn line_fits(line: Seq<char>, column_width: nat) -> bool {
    &&& line.len() > 0
    &&& line.last() == ' '
    &&& (bytes_of(line).len() <= column_width + 1 || no_space(line.drop_last()))
}

proof fn lemma_bytes_concat(a: Seq<char>, b: Seq<char>)
    ensures
        bytes_of(a + b) == bytes_of(a) + bytes_of(b),
    decreases a.len(),
{
    if a.len() == 0 {
        assert(a + b =~= b);
        assert(bytes_of(a) + bytes_of(b) =~= bytes_of(b));
    } else {
        lemma_bytes_concat(a.drop_first(), b);
        assert((a + b).drop_first() =~= a.drop_first() + b);
        assert((a + b)[0] == a[0]);
        assert(bytes_of(a + b) =~= bytes_of(a) + bytes_of(b));
    }
}

proof fn lemma_space_one_byte()
    ensures
        bytes_of(seq![' ']).len() == 1,
{
    let sp = seq![' '];
    assert(sp.drop_first() =~= Seq::<char>::empty());
    assert((sp[0] as u32) == 32);
    assert(has_width_1_encoding(32u32));
    assert(encode_scalar(32u32).len() == 1);
    assert(encode_utf8(sp) == encode_scalar(sp[0] as u32) + encode_utf8(sp.drop_first()));
}

proof fn lemma_words_have_no_space(s: Seq<char>)
    ensures
        forall|k: int| 0 <= k < words(s).len() ==> no_space(#[trigger] words(s)[k]),
    decreases s.len(),
{
    if s.len() > 0 {
        lemma_words_have_no_space(s.drop_last());
        lemma_words_nonempty(s.drop_last());
        let w = words(s.drop_last());
        if s.last() != ' ' {
            let last = w.last().push(s.last());
            assert(no_space(w[w.len() - 1]));
            assert(no_space(last));
            assert forall|k: int| 0 <= k < words(s).len() implies no_space(#[trigger] words(s)[k]) by {
                if k < w.len() - 1 {
                    assert(words(s)[k] == w[k]);
                }
            }
        } else {
            assert forall|k: int| 0 <= k < words(s).len() implies no_space(#[trigger] words(s)[k]) by {
                if k < w.len() {
                    assert(words(s)[k] == w[k]);
                } else {
                    assert(words(s)[k] =~= Seq::<char>::empty());
                }
            }
        }
    }
}

proof fn lemma_fill_invariant(ws: Seq<Seq<char>>, column_width: nat)
    requires
        forall|k: int| 0 <= k < ws.len() ==> no_space(#[trigger] ws[k]),
    ensures
        ({
            let (done, line, width) = fill(ws, column_width);
            &&& forall|k: int| 0 <= k < done.len() ==> line_fits(#[trigger] done[k], column_width)
            &&& ws.len() > 0 ==> line_fits(line, column_width)
            &&& ws.len() > 0 ==> bytes_of(line).len() == width + 1
            &&& ws.len() > 0 ==> (width <= column_width || no_space(line.drop_last()))
            &&& ws.len() == 0 ==> line.len() == 0
        }),
    decreases ws.len(),
{
    if ws.len() > 0 {
        let rest = ws.drop_last();
        assert forall|k: int| 0 <= k < rest.len() implies no_space(#[trigger] rest[k]) by {
            assert(rest[k] == ws[k]);
        }
        lemma_fill_invariant(rest, column_width);
        let (done, line, width) = fill(rest, column_width);
        let word = ws.last();
        assert(no_space(ws[ws.len() - 1]));
        let len = bytes_of(word).len();
        lemma_space_one_byte();
        lemma_bytes_concat(word, seq![' ']);
        let fresh = word + seq![' '];
        assert(fresh.drop_last() =~= word);
        assert(fresh.last() == ' ');
        if line.len() == 0 {
        } else if width + 1 + len <= column_width {
            let joined = line + word + seq![' '];
            lemma_bytes_concat(line, word);
            lemma_bytes_concat(line + word, seq![' ']);
            assert(joined.last() == ' ');
        } else {
            let (d2, _, _) = fill(ws, column_width);
            assert(d2 == done.push(line));
            assert forall|k: int| 0 <= k < d2.len() implies line_fits(#[trigger] d2[k], column_width) by {
                if k < done.len() {
                    assert(d2[k] == done[k]);
                }
            }
        }
    }
}

/// Each line that filling gives ends in a space and, unless it is a single word,
/// holds at most `column_width` bytes before that space.
pub proof fn lemma_filled_lines_fit(text: Seq<char>, column_width: nat)
    ensures
        forall|i: int|
            0 <= i < filled(text, column_width).len() ==> line_fits(
                #[trigger] filled(text, column_width)[i],
                column_width,
            ),
{
    lemma_words_have_no_space(text);
    lemma_words_nonempty(text);
    lemma_fill_invariant(words(text), column_width);
    let (done, line, _) = fill(words(text), column_width);
    assert forall|i: int| 0 <= i < filled(text, column_width).len() implies line_fits(
        #[trigger] filled(text, column_width)[i],
        column_width,
    ) by {
        if i < done.len() {
            assert(filled(text, column_width)[i] == done[i]);
        }
    }
}

fn add_word(
    result: &mut Vec<String>,
    line: &mut String,
    width: &mut usize,
    word: &str,
    column_width: usize,
)
    ensures
        (final(result)@.map_values(|s: String| s@), final(line)@, *final(width) as nat)
            == fill_step(
            (old(result)@.map_values(|s: String| s@), old(line)@, *old(width) as nat),
            word@,
            column_width as nat,
        ),
{
    let len = word.as_bytes().len();
    let joins = !line.as_str().is_empty() && len < column_width && *width < column_width - len;
    if line.as_str().is_empty() {
        *width = len;
    } else if joins {
        *width = *width + 1 + len;
    } else {
        result.push(line.clone());
        *line = String::new();
        *width = len;
    }
    proof {
        reveal_strlit(" ");
    }
    line.append(word);
    line.append(" ");
    proof {
        assert(final(result)@.map_values(|s: String| s@) =~= (if old(line)@.len() == 0 || joins {
            old(result)@.map_values(|s: String| s@)
        } else {
            old(result)@.map_values(|s: String| s@).push(old(line)@)
        }));
    }
}

/// Splits a text at its spaces into lines, each word followed by a space. A line
/// of two or more words holds at most `column_width` bytes before its trailing
/// space: a word that would pass the width, with the space before it, begins a new
/// line. Only a single word longer than the width makes a longer line.
pub fn text_fill_column(text: &str, column_width: usize) -> (r: Vec<String>)
    ensures
        r@.len() == filled(text@, column_width as nat).len(),
        forall|i: int| 0 <= i < r@.len() ==> #[trigger] r@[i]@ == filled(text@, column_width as nat)[i],
{
    let n = text.unicode_len();
    let mut result: Vec<String> = Vec::new();
    let mut line = String::new();
    let mut width: usize = 0;
    let mut start: usize = 0;
    let mut i: usize = 0;
    proof {
        assert(text@.subrange(0, 0) =~= Seq::<char>::empty());
    }
    while i < n
        invariant
            n == text@.len(),
            start <= i <= n,
            ({
                let ws = words(text@.subrange(0, i as int));
                &&& ws.len() >= 1
                &&& ws.last() == text@.subrange(start as int, i as int)
                &&& fill(ws.drop_last(), column_width as nat) == (
                    result@.map_values(|s: String| s@),
                    line@,
                    width as nat,
                )
            }),
        decreases n - i,
    {
        let ghost before = text@.subrange(0, i as int);
        let ghost ws = words(before);
        let ghost next = text@.subrange(0, i + 1);
        proof {
            lemma_words_nonempty(before);
            assert(next.drop_last() =~= before);
            assert(next.last() == text@[i as int]);
        }
        if text.get_char(i) == ' ' {
            let word = text.substring_char(start, i);
            add_word(&mut result, &mut line, &mut width, word, column_width);
            proof {
                assert(ws.drop_last().push(ws.last()) =~= ws);
                assert(words(next) == ws.push(seq![]));
                assert(words(next).drop_last() =~= ws);
                assert(text@.subrange(i + 1, i + 1) =~= Seq::<char>::empty());
            }
            start = i + 1;
        } else {
            proof {
                assert(words(next).drop_last() =~= ws.drop_last());
                assert(text@.subrange(start as int, i + 1) =~= ws.last().push(text@[i as int]));
            }
        }
        i = i + 1;
    }
    let word = text.substring_char(start, n);
    add_word(&mut result, &mut line, &mut width, word, column_width);
    result.push(line);
    proof {
        let ws = words(text@.subrange(0, n as int));
        assert(text@.subrange(0, n as int) =~= text@);
        assert(ws.drop_last().push(ws.last()) =~= ws);
        assert(result@.map_values(|s: String| s@) =~= filled(text@, column_width as nat));
        assert forall|k: int| 0 <= k < result@.len() implies #[trigger] result@[k]@ == filled(
            text@,
            column_width as nat,
        )[k] by {
            assert(result@.map_values(|s: String| s@)[k] == result@[k]@);
        }
    }
    result
}

} // verus!
