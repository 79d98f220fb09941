//! The store of fetched images, and the inline-image escape sequence that shows one.
//!
//! An image is shown with `ESC ] 1337 ; File = inline=1 : <base64 contents> BEL`.
use base64::Engine;
use vstd::prelude::*;

verus! {

/// The base64 text of some bytes, as the standard alphabet with padding writes it.
pub uninterp spec fn base64_of(bytes: Seq<u8>) -> Seq<char>;

/// Relies on base64's STANDARD engine `encode`: the padded base64 text of the
/// bytes, four characters for every started group of three. It panics only where
/// that length does not fit in usize.
#[verifier::external_body]
fn encode_base64(bytes: &[u8]) -> (r: String)
    requires
        (bytes@.len() + 2) / 3 * 4 <= usize::MAX,
    ensures
        r@ == base64_of(bytes@),
        r@.len() == (bytes@.len() + 2) / 3 * 4,
{
    base64::engine::general_purpose::STANDARD.encode(bytes)
}

/// What the entries map each path to, the later entry of a path winning.
pub open spec fn entries_map(entries: Seq<(String, String)>) -> Map<Seq<char>, Seq<char>>
    decreases entries.len(),
{
    if entries.len() == 0 {
        Map::empty()
    } else {
        entries_map(entries.drop_last()).insert(entries.last().0@, entries.last().1@)
    }
}

/// The map after a series of stores, in order.
pub open spec fn after_puts(
    m: Map<Seq<char>, Seq<char>>,
    puts: Seq<(Seq<char>, Seq<char>)>,
) -> Map<Seq<char>, Seq<char>>
    decreases puts.len(),
{
    if puts.len() == 0 {
        m
    } else {
        after_puts(m, puts.drop_last()).insert(puts.last().0, puts.last().1)
    }
}

/// Images by path or URL, each as the base64 text of its bytes. Entries are only
/// ever added; a later one for the same path wins.
pub struct ImageCache {
    entries: Vec<(String, String)>,
}

impl View for ImageCache {
    type V = Map<Seq<char>, Seq<char>>;

    closed spec fn view(&self) -> Map<Seq<char>, Seq<char>> {
        entries_map(self.entries@)
    }
}

proof fn lemma_entries_tail(entries: Seq<(String, String)>, i: int, key: Seq<char>)
    requires
        0 <= i <= entries.len(),
        forall|j: int| i <= j < entries.len() ==> (#[trigger] entries[j]).0@ != key,
    ensures
        entries_map(entries).contains_key(key) == entries_map(entries.subrange(0, i)).contains_key(
            key,
        ),
        entries_map(entries)[key] == entries_map(entries.subrange(0, i))[key],
    decreases entries.len(),
{
    if i == entries.len() {
        assert(entries.subrange(0, i) =~= entries);
    } else {
        let last = entries.len() - 1;
        assert(entries[last].0@ != key);
        lemma_entries_tail(entries.drop_last(), i, key);
        assert(entries.drop_last().subrange(0, i) =~= entries.subrange(0, i));
    }
}

impl ImageCache {
    /// An empty store.
    pub fn new() -> (r: ImageCache)
        ensures
            r@ == Map::<Seq<char>, Seq<char>>::empty(),
    {
        ImageCache { entries: Vec::new() }
    }

    /// Stores `value` under `key`, in place of any earlier value.
    pub fn put(&mut self, key: String, value: String)
        ensures
            final(self)@ == old(self)@.insert(key@, value@),
    {
        self.entries.push((key, value));
        proof {
            assert(self.entries@.drop_last() =~= old(self).entries@);
        }
    }

    /// Stores the base64 text of an image's bytes under its path.
    pub fn put_image(&mut self, path: String, content: &[u8])
        requires
            (content@.len() + 2) / 3 * 4 <= usize::MAX,
        ensures
            final(self)@ == old(self)@.insert(path@, base64_of(content@)),
    {
        let encoded = encode_base64(content);
        self.put(path, encoded);
    }

    /// The value stored under `key`, if any.
    pub fn get(&self, key: &str) -> (r: Option<&String>)
        ensures
            r is Some <==> self@.contains_key(key@),
            r matches Some(v) ==> v@ == self@[key@],
    {
        let wanted = key.to_owned();
        let mut i = self.entries.len();
        while i > 0
            invariant
                i <= self.entries@.len(),
                wanted@ == key@,
                forall|j: int| i <= j < self.entries@.len() ==> (#[trigger] self.entries@[j]).0@ != key@,
            decreases i,
        {
            if self.entries[i - 1].0 == wanted {
                proof {
                    lemma_entries_tail(self.entries@, i as int, key@);
                    assert(self.entries@.subrange(0, i as int).drop_last() =~= self.entries@.subrange(0, i - 1));
                }
                return Some(&self.entries[i - 1].1);
            }
            i = i - 1;
        }
        proof {
            lemma_entries_tail(self.entries@, 0, key@);
            assert(self.entries@.subrange(0, 0) =~= Seq::<(String, String)>::empty());
        }
        None
    }
}

/// Stores with distinct keys lose nothing, in whatever order they come: after all
/// of them, each key holds its own value.
pub proof fn lemma_distinct_puts_all_kept(
    m: Map<Seq<char>, Seq<char>>,
    puts: Seq<(Seq<char>, Seq<char>)>,
)
    requires
        forall|i: int, j: int| 0 <= i < j < puts.len() ==> (#[trigger] puts[i]).0 != (#[trigger] puts[j]).0,
    ensures
        forall|i: int|
            0 <= i < puts.len() ==> {
                &&& after_puts(m, puts).contains_key((#[trigger] puts[i]).0)
                &&& after_puts(m, puts)[puts[i].0] == puts[i].1
            },
    decreases puts.len(),
{
    if puts.len() > 0 {
        let rest = puts.drop_last();
        lemma_distinct_puts_all_kept(m, rest);
        assert forall|i: int| 0 <= i < puts.len() implies {
            &&& after_puts(m, puts).contains_key((#[trigger] puts[i]).0)
            &&& after_puts(m, puts)[puts[i].0] == puts[i].1
        } by {
            if i < puts.len() - 1 {
                assert(rest[i] == puts[i]);
                assert(puts[i].0 != puts[puts.len() - 1].0);
            }
        }
    }
}

/// Why an image could not be shown inline.
pub enum ImageError {
    /// The terminal does not show inline images.
    NotSupported,
    /// No image is stored under that path.
    NotFound,
}

/// The operating system command introducer, `ESC ]`.
pub open spec fn osc_seq() -> Seq<char> {
    seq!['\u{1b}', ']']
}

/// The string terminator that ends it, `BEL`.
pub open spec fn st_seq() -> Seq<char> {
    seq!['\u{7}']
}

/// The text that shows an image, from its base64 contents.
pub open spec fn inline_seq(encoded: Seq<char>) -> Seq<char> {
    osc_seq() + "1337;File=inline=1:"@ + encoded + st_seq() + seq!['\n']
}

/// Writes the operating system command introducer.
pub fn print_osc(buf: &mut String)
    ensures
        final(buf)@ == old(buf)@ + osc_seq(),
{
    proof {
        reveal_strlit("\u{1b}]");
    }
    buf.append("\u{1b}]");
}

/// Writes the string terminator.
pub fn print_st(buf: &mut String)
    ensures
        final(buf)@ == old(buf)@ + st_seq(),
{
    proof {
        reveal_strlit("\u{7}");
    }
    buf.append("\u{7}");
}

/// Writes the image stored under `name` as an inline image, where the terminal
/// shows such images and the image is there; otherwise writes nothing.
pub fn inline_image(buf: &mut String, images: &ImageCache, name: &str, supported: bool) -> (r:
    Result<(), ImageError>)
    ensures
        r is Ok <==> supported && images@.contains_key(name@),
        r == Err::<(), ImageError>(ImageError::NotSupported) <==> !supported,
        r == Err::<(), ImageError>(ImageError::NotFound) <==> supported && !images@.contains_key(
            name@,
        ),
        r is Ok ==> final(buf)@ == old(buf)@ + inline_seq(images@[name@]),
        r is Err ==> final(buf)@ == old(buf)@,
{
    if !supported {
        return Err(ImageError::NotSupported);
    }
    let image = match images.get(name) {
        Some(image) => image,
        None => return Err(ImageError::NotFound),
    };
    print_osc(buf);
    proof {
        reveal_strlit("1337;File=");
        reveal_strlit("inline=1");
        reveal_strlit(":");
        reveal_strlit("\n");
        reveal_strlit("1337;File=inline=1:");
    }
    buf.append("1337;File=");
    buf.append("inline=1");
    buf.append(":");
    buf.append(image.as_str());
    print_st(buf);
    buf.append("\n");
    proof {
        assert(final(buf)@ =~= old(buf)@ + inline_seq(images@[name@]));
    }
    Ok(())
}

} // verus!
