//! Splits text into chunks of bounded UTF-8 size, cutting at delimiters in order of preference.
//!
//! The model of a chunking is a layout: the text read left to right as a sequence of spans, each
//! either an emitted chunk or a delimiter character that was dropped where the text was cut.

use vstd::prelude::*;
use crate::text::{char_width_utf8, chars_of, lemma_utf8_len_concat, str_len, string_from_chars, utf8_len};

verus! {

/// One span of a layout.
pub enum Span {
    /// Text that is emitted as (part of) a chunk.
    Chunk(Seq<char>),
    /// A delimiter that was dropped at a cut.
    Cut(char),
}

/// The characters a span stands for.
pub open spec fn span_text(s: Span) -> Seq<char> {
    match s {
        Span::Chunk(c) => c,
        Span::Cut(d) => seq![d],
    }
}

/// The text a layout reads back as.
pub open spec fn layout_text(l: Seq<Span>) -> Seq<char>
    decreases l.len(),
{
    if l.len() == 0 {
        Seq::empty()
    } else {
        layout_text(l.drop_last()) + span_text(l.last())
    }
}

/// The chunks of a layout, in order.
pub open spec fn layout_chunks(l: Seq<Span>) -> Seq<Seq<char>>
    decreases l.len(),
{
    if l.len() == 0 {
        Seq::empty()
    } else {
        match l.last() {
            Span::Chunk(c) => layout_chunks(l.drop_last()).push(c),
            Span::Cut(_) => layout_chunks(l.drop_last()),
        }
    }
}

/// Every chunk occupies at most `max` bytes.
pub open spec fn chunks_fit(cs: Seq<Seq<char>>, max: nat) -> bool {
    forall|i: int| 0 <= i < cs.len() ==> utf8_len(#[trigger] cs[i]) <= max
}

/// Position `i` of `t` is a place where a chunk may end: at a delimiter, or at the end.
pub open spec fn is_break(t: Seq<char>, d: char, i: int) -> bool {
    i == t.len() || (0 <= i < t.len() && t[i] == d)
}

/// The prefix of `t` that ends at `i` occupies at most `max` bytes.
pub open spec fn fits(t: Seq<char>, i: int, max: nat) -> bool {
    utf8_len(t.take(i)) <= max
}

/// `b` is the last break whose prefix fits in `max` bytes, or, when no break fits, the first break.
pub open spec fn is_next_break(t: Seq<char>, d: char, max: nat, b: int) -> bool {
    &&& 0 <= b <= t.len()
    &&& is_break(t, d, b)
    &&& if fits(t, b, max) {
        forall|j: int| b < j <= t.len() && #[trigger] is_break(t, d, j) ==> !fits(t, j, max)
    } else {
        forall|j: int| 0 <= j < b ==> !#[trigger] is_break(t, d, j)
    }
}

/// Where the next chunk of `t` ends.
pub open spec fn next_break(t: Seq<char>, d: char, max: nat) -> int {
    choose|b: int| is_next_break(t, d, max, b)
}

/// Greedy chunking at one delimiter: each chunk runs to the next break, and the delimiter at the
/// break is dropped. An empty chunk is never emitted.
pub open spec fn greedy_layout(t: Seq<char>, d: char, max: nat) -> Seq<Span>
    decreases t.len(),
{
    if t.len() == 0 {
        Seq::empty()
    } else {
        let b = next_break(t, d, max);
        let head: Seq<Span> = if b > 0 {
            seq![Span::Chunk(t.take(b))]
        } else {
            Seq::empty()
        };
        if 0 <= b < t.len() {
            head + seq![Span::Cut(d)] + greedy_layout(t.skip(b + 1), d, max)
        } else {
            head
        }
    }
}

/// A chunk that is too large is chunked again at `d`; anything else stays.
pub open spec fn refine_span(s: Span, d: char, max: nat) -> Seq<Span> {
    match s {
        Span::Chunk(c) => if utf8_len(c) > max {
            greedy_layout(c, d, max)
        } else {
            seq![s]
        },
        Span::Cut(_) => seq![s],
    }
}

/// Each span of `l` refined at `d`, in order.
pub open spec fn refine(l: Seq<Span>, d: char, max: nat) -> Seq<Span>
    decreases l.len(),
{
    if l.len() == 0 {
        Seq::empty()
    } else {
        refine(l.drop_last(), d, max) + refine_span(l.last(), d, max)
    }
}

/// The layout of `t` chunked at the first delimiter, then refined at each following one.
pub open spec fn layout_with(t: Seq<char>, delims: Seq<char>, max: nat) -> Seq<Span>
    decreases delims.len(),
{
    if delims.len() <= 1 {
        greedy_layout(t, delims[0], max)
    } else {
        refine(layout_with(t, delims.drop_last(), max), delims.last(), max)
    }
}

/// The delimiters used for English text: paragraphs, then colons, then sentences, then clauses.
pub open spec fn english_delimiters() -> Seq<char> {
    seq!['\n', ':', '.', ',']
}

/// The reason text could not be chunked.
#[derive(Clone, Copy, Debug, PartialEq, Eq, Structural)]
pub enum ChunkError {
    /// A span without any delimiter is larger than the size limit.
    Unbreakable,
}

// ---------------------------------------------------------------------------------------------
// Facts about byte lengths of prefixes

proof fn lemma_utf8_len_take_mono(t: Seq<char>, i: int, j: int)
    requires
        0 <= i <= j <= t.len(),
    ensures
        utf8_len(t.take(i)) <= utf8_len(t.take(j)),
{
    assert(t.take(j) =~= t.take(i) + t.subrange(i, j));
    lemma_utf8_len_concat(t.take(i), t.subrange(i, j));
}

/// Only one break satisfies `is_next_break`, so it is the one `next_break` names.
pub proof fn lemma_next_break_unique(t: Seq<char>, d: char, max: nat, b: int)
    requires
        is_next_break(t, d, max, b),
    ensures
        next_break(t, d, max) == b,
{
    let c = next_break(t, d, max);
    assert(is_next_break(t, d, max, c));
    if c != b {
        let (lo, hi) = if c < b { (c, b) } else { (b, c) };
        assert(is_next_break(t, d, max, lo) && is_next_break(t, d, max, hi));
        lemma_utf8_len_take_mono(t, lo, hi);
        if fits(t, hi, max) {
            assert(fits(t, lo, max));
            assert(is_break(t, d, hi));
        } else {
            assert(is_break(t, d, lo));
        }
    }
}

// ---------------------------------------------------------------------------------------------
// Facts about layouts

proof fn lemma_layout_text_concat(a: Seq<Span>, b: Seq<Span>)
    ensures
        layout_text(a + b) == layout_text(a) + layout_text(b),
    decreases b.len(),
{
    if b.len() == 0 {
        assert(a + b =~= a);
        assert(layout_text(a) + layout_text(b) =~= layout_text(a));
    } else {
        assert((a + b).drop_last() =~= a + b.drop_last());
        lemma_layout_text_concat(a, b.drop_last());
        assert(layout_text(a + b) =~= layout_text(a) + layout_text(b));
    }
}

proof fn lemma_layout_chunks_concat(a: Seq<Span>, b: Seq<Span>)
    ensures
        layout_chunks(a + b) == layout_chunks(a) + layout_chunks(b),
    decreases b.len(),
{
    if b.len() == 0 {
        assert(a + b =~= a);
        assert(layout_chunks(a) + layout_chunks(b) =~= layout_chunks(a));
    } else {
        assert((a + b).drop_last() =~= a + b.drop_last());
        lemma_layout_chunks_concat(a, b.drop_last());
        match b.last() {
            Span::Chunk(c) => {
                assert(layout_chunks(a + b) =~= layout_chunks(a) + layout_chunks(b));
            },
            Span::Cut(_) => {},
        }
    }
}

proof fn lemma_layout_text_single(s: Span)
    ensures
        layout_text(seq![s]) == span_text(s),
{
    assert(seq![s].drop_last() =~= Seq::<Span>::empty());
    assert(layout_text(Seq::<Span>::empty()) == Seq::<char>::empty());
    assert(seq![s].last() == s);
    assert(Seq::<char>::empty() + span_text(s) =~= span_text(s));
}

proof fn lemma_find_last_fitting(t: Seq<char>, d: char, max: nat, k: int) -> (b: int)
    requires
        -1 <= k <= t.len(),
        forall|j: int| k < j <= t.len() && #[trigger] is_break(t, d, j) ==> !fits(t, j, max),
    ensures
        b == -1 ==> forall|j: int| 0 <= j <= t.len() && #[trigger] is_break(t, d, j) ==> !fits(
            t,
            j,
            max,
        ),
        b != -1 ==> is_next_break(t, d, max, b),
    decreases k + 1,
{
    if k == -1 {
        -1
    } else if is_break(t, d, k) && fits(t, k, max) {
        k
    } else {
        lemma_find_last_fitting(t, d, max, k - 1)
    }
}

proof fn lemma_find_first_break(t: Seq<char>, d: char, i: int) -> (b: int)
    requires
        0 <= i <= t.len(),
        forall|j: int| 0 <= j < i ==> !#[trigger] is_break(t, d, j),
    ensures
        0 <= b <= t.len(),
        is_break(t, d, b),
        forall|j: int| 0 <= j < b ==> !#[trigger] is_break(t, d, j),
    decreases t.len() - i,
{
    if is_break(t, d, i) {
        i
    } else {
        lemma_find_first_break(t, d, i + 1)
    }
}

/// The break that `next_break` names exists, so it has the properties of `is_next_break`.
pub proof fn lemma_next_break(t: Seq<char>, d: char, max: nat)
    ensures
        is_next_break(t, d, max, next_break(t, d, max)),
{
    let b = lemma_find_last_fitting(t, d, max, t.len() as int);
    if b == -1 {
        let f = lemma_find_first_break(t, d, 0);
        assert(is_next_break(t, d, max, f));
    } else {
        assert(is_next_break(t, d, max, b));
    }
}

proof fn lemma_greedy_text(t: Seq<char>, d: char, max: nat)
    ensures
        layout_text(greedy_layout(t, d, max)) == t,
    decreases t.len(),
{
    if t.len() > 0 {
        let b = next_break(t, d, max);
        lemma_next_break(t, d, max);
        let head: Seq<Span> = if b > 0 {
            seq![Span::Chunk(t.take(b))]
        } else {
            Seq::empty()
        };
        assert(layout_text(head) =~= t.take(b)) by {
            if b > 0 {
                lemma_layout_text_single(Span::Chunk(t.take(b)));
            } else {
                assert(t.take(b) =~= Seq::<char>::empty());
            }
        }
        if b < t.len() {
            let rest = greedy_layout(t.skip(b + 1), d, max);
            lemma_greedy_text(t.skip(b + 1), d, max);
            lemma_layout_text_single(Span::Cut(d));
            lemma_layout_text_concat(head, seq![Span::Cut(d)]);
            lemma_layout_text_concat(head + seq![Span::Cut(d)], rest);
            assert(t =~= t.take(b) + seq![d] + t.skip(b + 1));
        } else {
            assert(t.take(b) =~= t);
        }
    }
}

proof fn lemma_refine_text(l: Seq<Span>, d: char, max: nat)
    ensures
        layout_text(refine(l, d, max)) == layout_text(l),
    decreases l.len(),
{
    if l.len() > 0 {
        lemma_refine_text(l.drop_last(), d, max);
        lemma_layout_text_concat(refine(l.drop_last(), d, max), refine_span(l.last(), d, max));
        match l.last() {
            Span::Chunk(c) => {
                if utf8_len(c) > max {
                    lemma_greedy_text(c, d, max);
                } else {
                    lemma_layout_text_single(l.last());
                }
            },
            Span::Cut(_) => {
                lemma_layout_text_single(l.last());
            },
        }
    }
}

/// Reading a layout back, chunks and dropped delimiters in order, gives the text it was made
/// from: no character is lost, added or moved.
pub proof fn lemma_layout_reconstructs(t: Seq<char>, delims: Seq<char>, max: nat)
    requires
        delims.len() >= 1,
    ensures
        layout_text(layout_with(t, delims, max)) == t,
    decreases delims.len(),
{
    if delims.len() <= 1 {
        lemma_greedy_text(t, delims[0], max);
    } else {
        lemma_layout_reconstructs(t, delims.drop_last(), max);
        lemma_refine_text(layout_with(t, delims.drop_last(), max), delims.last(), max);
    }
}

proof fn lemma_layout_chunks_single(s: Span)
    ensures
        layout_chunks(seq![s]) == match s {
            Span::Chunk(c) => seq![c],
            Span::Cut(_) => Seq::<Seq<char>>::empty(),
        },
{
    assert(seq![s].drop_last() =~= Seq::<Span>::empty());
    assert(seq![s].last() == s);
    assert(layout_chunks(Seq::<Span>::empty()) == Seq::<Seq<char>>::empty());
    assert(Seq::<Seq<char>>::empty().push(span_text(s)) =~= seq![span_text(s)]);
}

/// A text that fits in `max` bytes is one chunk: itself.
pub proof fn lemma_short_text_single_chunk(t: Seq<char>, delims: Seq<char>, max: nat)
    requires
        delims.len() >= 1,
        t.len() > 0,
        utf8_len(t) <= max,
    ensures
        layout_with(t, delims, max) == seq![Span::Chunk(t)],
        layout_chunks(layout_with(t, delims, max)) == seq![t],
    decreases delims.len(),
{
    if delims.len() <= 1 {
        let d = delims[0];
        assert(t.take(t.len() as int) =~= t);
        assert(is_next_break(t, d, max, t.len() as int));
        lemma_next_break_unique(t, d, max, t.len() as int);
    } else {
        lemma_short_text_single_chunk(t, delims.drop_last(), max);
        let l = seq![Span::Chunk(t)];
        assert(l.drop_last() =~= Seq::<Span>::empty());
        assert(l.last() == Span::Chunk(t));
        assert(refine(Seq::<Span>::empty(), delims.last(), max) == Seq::<Span>::empty());
        assert(refine_span(Span::Chunk(t), delims.last(), max) == seq![Span::Chunk(t)]);
        assert(refine(l, delims.last(), max) =~= Seq::<Span>::empty() + seq![Span::Chunk(t)]);
    }
    lemma_layout_chunks_single(Span::Chunk(t));
}

/// The empty text has no chunks.
pub proof fn lemma_empty_text_no_chunks(delims: Seq<char>, max: nat)
    requires
        delims.len() >= 1,
    ensures
        layout_chunks(layout_with(Seq::empty(), delims, max)) == Seq::<Seq<char>>::empty(),
        layout_with(Seq::empty(), delims, max) == Seq::<Span>::empty(),
    decreases delims.len(),
{
    if delims.len() > 1 {
        lemma_empty_text_no_chunks(delims.drop_last(), max);
    }
}

/// No chunk is empty.
pub open spec fn chunks_nonempty(cs: Seq<Seq<char>>) -> bool {
    forall|i: int| 0 <= i < cs.len() ==> (#[trigger] cs[i]).len() > 0
}

proof fn lemma_greedy_nonempty(t: Seq<char>, d: char, max: nat)
    ensures
        chunks_nonempty(layout_chunks(greedy_layout(t, d, max))),
    decreases t.len(),
{
    if t.len() > 0 {
        let b = next_break(t, d, max);
        lemma_next_break(t, d, max);
        let head: Seq<Span> = if b > 0 {
            seq![Span::Chunk(t.take(b))]
        } else {
            Seq::empty()
        };
        assert(chunks_nonempty(layout_chunks(head))) by {
            if b > 0 {
                lemma_layout_chunks_single(Span::Chunk(t.take(b)));
            }
        }
        if b < t.len() {
            let rest = greedy_layout(t.skip(b + 1), d, max);
            lemma_greedy_nonempty(t.skip(b + 1), d, max);
            lemma_layout_chunks_single(Span::Cut(d));
            lemma_layout_chunks_concat(head, seq![Span::Cut(d)]);
            lemma_layout_chunks_concat(head + seq![Span::Cut(d)], rest);
            let cs = layout_chunks(greedy_layout(t, d, max));
            assert(cs =~= layout_chunks(head) + layout_chunks(rest));
        }
    }
}

proof fn lemma_refine_nonempty(l: Seq<Span>, d: char, max: nat)
    requires
        chunks_nonempty(layout_chunks(l)),
    ensures
        chunks_nonempty(layout_chunks(refine(l, d, max))),
    decreases l.len(),
{
    if l.len() > 0 {
        assert(l =~= l.drop_last() + seq![l.last()]);
        lemma_layout_chunks_concat(l.drop_last(), seq![l.last()]);
        lemma_layout_chunks_single(l.last());
        let pre = layout_chunks(l.drop_last());
        assert forall|i: int| 0 <= i < pre.len() implies (#[trigger] pre[i]).len() > 0 by {
            assert(layout_chunks(l)[i] == pre[i]);
        }
        lemma_refine_nonempty(l.drop_last(), d, max);
        let tail = refine_span(l.last(), d, max);
        lemma_layout_chunks_concat(refine(l.drop_last(), d, max), tail);
        match l.last() {
            Span::Chunk(c) => {
                if utf8_len(c) > max {
                    lemma_greedy_nonempty(c, d, max);
                } else {
                    assert(layout_chunks(l)[pre.len() as int] == c);
                }
            },
            Span::Cut(_) => {},
        }
    }
}

/// No chunk of a layout is empty: a delimiter at a cut, even at the very start, never leaves an
/// empty chunk behind.
pub proof fn lemma_chunks_nonempty(t: Seq<char>, delims: Seq<char>, max: nat)
    requires
        delims.len() >= 1,
    ensures
        chunks_nonempty(layout_chunks(layout_with(t, delims, max))),
    decreases delims.len(),
{
    if delims.len() <= 1 {
        lemma_greedy_nonempty(t, delims[0], max);
    } else {
        lemma_chunks_nonempty(t, delims.drop_last(), max);
        lemma_refine_nonempty(layout_with(t, delims.drop_last(), max), delims.last(), max);
    }
}

// ---------------------------------------------------------------------------------------------
// Executable chunking over character indices

/// The characters of a text with the byte offset at which each one starts.
struct IndexedText {
    chars: Vec<char>,
    offsets: Vec<usize>,
}

impl IndexedText {
    spec fn wf(&self) -> bool {
        &&& self.offsets@.len() == self.chars@.len() + 1
        &&& forall|i: int|
            0 <= i <= self.chars@.len() ==> #[trigger] self.offsets@[i] == utf8_len(
                self.chars@.take(i),
            )
    }

    spec fn n(&self) -> int {
        self.chars@.len() as int
    }
}

proof fn lemma_sub_len(ix: &IndexedText, s: int, e: int)
    requires
        ix.wf(),
        0 <= s <= e <= ix.n(),
    ensures
        utf8_len(ix.chars@.subrange(s, e)) == ix.offsets@[e] - ix.offsets@[s],
{
    assert(ix.chars@.take(e) =~= ix.chars@.take(s) + ix.chars@.subrange(s, e));
    lemma_utf8_len_concat(ix.chars@.take(s), ix.chars@.subrange(s, e));
    assert(ix.offsets@[e] == utf8_len(ix.chars@.take(e)));
    assert(ix.offsets@[s] == utf8_len(ix.chars@.take(s)));
}

/// `fits` on the text `chars[s..e]`, read off the offsets.
proof fn lemma_fits_offsets(ix: &IndexedText, s: int, e: int, k: int, max: nat)
    requires
        ix.wf(),
        0 <= s <= e <= ix.n(),
        0 <= k <= e - s,
    ensures
        fits(ix.chars@.subrange(s, e), k, max) == (ix.offsets@[s + k] - ix.offsets@[s] <= max),
        ix.offsets@[s] <= ix.offsets@[s + k],
{
    assert(ix.chars@.subrange(s, e).take(k) =~= ix.chars@.subrange(s, s + k));
    lemma_sub_len(ix, s, s + k);
}

fn index_text(text: &str) -> (ix: IndexedText)
    ensures
        ix.wf(),
        ix.chars@ == text@,
{
    let chars = chars_of(text);
    let total = str_len(text);
    let mut offsets: Vec<usize> = Vec::new();
    offsets.push(0);
    proof {
        assert(chars@.take(0) =~= Seq::<char>::empty());
    }
    let mut i: usize = 0;
    while i < chars.len()
        invariant
            i <= chars@.len(),
            chars@ == text@,
            total == utf8_len(text@),
            offsets@.len() == i + 1,
            forall|j: int| 0 <= j <= i ==> #[trigger] offsets@[j] == utf8_len(chars@.take(j)),
        decreases chars@.len() - i,
    {
        let w = char_width_utf8(chars[i]);
        proof {
            assert(chars@.take(i + 1) =~= chars@.take(i as int) + seq![chars@[i as int]]);
            lemma_utf8_len_concat(chars@.take(i as int), seq![chars@[i as int]]);
            assert(seq![chars@[i as int]].drop_first() =~= Seq::<char>::empty());
            assert(utf8_len(Seq::<char>::empty()) == 0);
            assert(utf8_len(seq![chars@[i as int]]) == w);
            assert(chars@ =~= chars@.take(i + 1) + chars@.skip(i + 1));
            lemma_utf8_len_concat(chars@.take(i + 1), chars@.skip(i + 1));
        }
        let ghost prev = offsets@;
        offsets.push(offsets[i] + w);
        proof {
            assert(forall|j: int| 0 <= j <= i ==> offsets@[j] == prev[j]);
        }
        i = i + 1;
    }
    IndexedText { chars, offsets }
}

/// Where the next chunk of `chars[s..e]` ends, as an index into `chars`.
fn next_break_in(ix: &IndexedText, s: usize, e: usize, delim: char, max: usize) -> (b: usize)
    requires
        ix.wf(),
        s <= e <= ix.n(),
    ensures
        s <= b <= e,
        is_next_break(ix.chars@.subrange(s as int, e as int), delim, max as nat, b - s),
{
    let ghost t = ix.chars@.subrange(s as int, e as int);
    let mut last: Option<usize> = None;
    let mut i: usize = s;
    while i < e
        invariant
            ix.wf(),
            s <= i <= e <= ix.n(),
            t == ix.chars@.subrange(s as int, e as int),
            forall|j: int| s <= j < i && #[trigger] ix.chars@[j] == delim ==> fits(t, j - s, max as nat),
            match last {
                Some(l) => {
                    &&& s <= l < i
                    &&& ix.chars@[l as int] == delim
                    &&& forall|j: int| l < j < i ==> #[trigger] ix.chars@[j] != delim
                },
                None => forall|j: int| s <= j < i ==> #[trigger] ix.chars@[j] != delim,
            },
        decreases e - i,
    {
        if ix.chars[i] == delim {
            proof {
                lemma_fits_offsets(ix, s as int, e as int, i - s, max as nat);
            }
            if ix.offsets[i] - ix.offsets[s] <= max {
                last = Some(i);
            } else {
                proof {
                    assert forall|j: int| (i - s) < j <= t.len() && #[trigger] is_break(t, delim, j)
                        implies !fits(t, j, max as nat) by {
                        lemma_fits_offsets(ix, s as int, e as int, j, max as nat);
                        lemma_fits_offsets(ix, s as int, e as int, i - s, max as nat);
                        lemma_utf8_len_take_mono(t, i - s, j);
                    }
                }
                match last {
                    Some(l) => {
                        proof {
                            assert(is_break(t, delim, l - s));
                            assert forall|j: int| (l - s) < j <= t.len() && #[trigger] is_break(
                                t,
                                delim,
                                j,
                            ) implies !fits(t, j, max as nat) by {
                                if j < i - s {
                                    assert(ix.chars@[s + j] != delim);
                                }
                            }
                        }
                        return l;
                    },
                    None => {
                        proof {
                            assert forall|j: int| 0 <= j < i - s implies !#[trigger] is_break(
                                t,
                                delim,
                                j,
                            ) by {
                                assert(ix.chars@[s + j] != delim);
                            }
                        }
                        return i;
                    },
                }
            }
        }
        i = i + 1;
    }
    proof {
        lemma_fits_offsets(ix, s as int, e as int, e - s, max as nat);
    }
    if ix.offsets[e] - ix.offsets[s] <= max {
        proof {
            assert(is_break(t, delim, e - s));
        }
        e
    } else {
        match last {
            Some(l) => {
                proof {
                    assert(is_break(t, delim, l - s));
                    assert forall|j: int| (l - s) < j <= t.len() && #[trigger] is_break(t, delim, j)
                        implies !fits(t, j, max as nat) by {
                        if j < e - s {
                            assert(ix.chars@[s + j] != delim);
                        }
                    }
                }
                l
            },
            None => {
                proof {
                    assert forall|j: int| 0 <= j < e - s implies !#[trigger] is_break(t, delim, j) by {
                        assert(ix.chars@[s + j] != delim);
                    }
                }
                e
            },
        }
    }
}

/// A span of a layout as indices into the characters of the text.
#[derive(Clone, Copy)]
enum Piece {
    /// The characters `start..end`.
    Chunk(usize, usize),
    /// The delimiter at the given index.
    Cut(usize),
}

spec fn piece_ok(p: Piece, n: int) -> bool {
    match p {
        Piece::Chunk(a, b) => a <= b <= n,
        Piece::Cut(i) => i < n,
    }
}

spec fn piece_span(p: Piece, t: Seq<char>) -> Span {
    match p {
        Piece::Chunk(a, b) => Span::Chunk(t.subrange(a as int, b as int)),
        Piece::Cut(i) => Span::Cut(t[i as int]),
    }
}

spec fn pieces_ok(ps: Seq<Piece>, n: int) -> bool {
    forall|i: int| 0 <= i < ps.len() ==> piece_ok(#[trigger] ps[i], n)
}

spec fn pieces_view(ps: Seq<Piece>, t: Seq<char>) -> Seq<Span> {
    ps.map_values(|p: Piece| piece_span(p, t))
}

/// Appends to `out` the greedy layout of `chars[s..e]` at `delim`.
fn greedy_into(
    ix: &IndexedText,
    s: usize,
    e: usize,
    delim: char,
    max: usize,
    out: &mut Vec<Piece>,
)
    requires
        ix.wf(),
        s <= e <= ix.n(),
        pieces_ok(old(out)@, ix.n()),
    ensures
        pieces_ok(final(out)@, ix.n()),
        pieces_view(final(out)@, ix.chars@) == pieces_view(old(out)@, ix.chars@) + greedy_layout(
            ix.chars@.subrange(s as int, e as int),
            delim,
            max as nat,
        ),
{
    let ghost t = ix.chars@;
    let mut cur: usize = s;
    assert(pieces_view(out@, t) =~= pieces_view(old(out)@, t) + Seq::<Span>::empty());
    while cur < e
        invariant
            ix.wf(),
            t == ix.chars@,
            s <= cur <= e <= ix.n(),
            pieces_ok(out@, ix.n()),
            pieces_view(out@, t) + greedy_layout(t.subrange(cur as int, e as int), delim, max as nat)
                == pieces_view(old(out)@, t) + greedy_layout(
                t.subrange(s as int, e as int),
                delim,
                max as nat,
            ),
        decreases e - cur,
    {
        let b = next_break_in(ix, cur, e, delim, max);
        let ghost r = t.subrange(cur as int, e as int);
        let ghost before = pieces_view(out@, t);
        proof {
            lemma_next_break_unique(r, delim, max as nat, b - cur);
            assert(r.take(b - cur) =~= t.subrange(cur as int, b as int));
        }
        let ghost head: Seq<Span> = if b > cur {
            seq![Span::Chunk(t.subrange(cur as int, b as int))]
        } else {
            Seq::empty()
        };
        if b > cur {
            out.push(Piece::Chunk(cur, b));
        }
        proof {
            assert(pieces_view(out@, t) =~= before + head);
        }
        if b < e {
            let ghost mid = pieces_view(out@, t);
            out.push(Piece::Cut(b));
            proof {
                assert(r[b - cur] == delim);
                assert(pieces_view(out@, t) =~= mid + seq![Span::Cut(delim)]);
                assert(r.skip(b - cur + 1) =~= t.subrange(b + 1, e as int));
                assert(greedy_layout(r, delim, max as nat) == head + seq![Span::Cut(delim)]
                    + greedy_layout(t.subrange(b + 1, e as int), delim, max as nat));
                assert(before + greedy_layout(r, delim, max as nat) =~= pieces_view(out@, t)
                    + greedy_layout(t.subrange(b + 1, e as int), delim, max as nat));
            }
            cur = b + 1;
        } else {
            proof {
                assert(greedy_layout(r, delim, max as nat) == head);
                assert(t.subrange(e as int, e as int) =~= Seq::<char>::empty());
                assert(pieces_view(out@, t) + greedy_layout(
                    t.subrange(e as int, e as int),
                    delim,
                    max as nat,
                ) =~= pieces_view(out@, t));
            }
            cur = e;
        }
    }
    proof {
        assert(t.subrange(cur as int, e as int) =~= Seq::<char>::empty());
        assert(pieces_view(out@, t) + Seq::<Span>::empty() =~= pieces_view(out@, t));
    }
}

/// The pieces of `ps` refined at `delim`.
fn refine_pieces(ix: &IndexedText, ps: &Vec<Piece>, delim: char, max: usize) -> (r: Vec<Piece>)
    requires
        ix.wf(),
        pieces_ok(ps@, ix.n()),
    ensures
        pieces_ok(r@, ix.n()),
        pieces_view(r@, ix.chars@) == refine(pieces_view(ps@, ix.chars@), delim, max as nat),
{
    let ghost t = ix.chars@;
    let ghost l = pieces_view(ps@, t);
    let mut r: Vec<Piece> = Vec::new();
    let mut j: usize = 0;
    proof {
        assert(l.take(0) =~= Seq::<Span>::empty());
        assert(pieces_view(r@, t) =~= Seq::<Span>::empty());
    }
    while j < ps.len()
        invariant
            ix.wf(),
            t == ix.chars@,
            l == pieces_view(ps@, t),
            pieces_ok(ps@, ix.n()),
            j <= ps@.len(),
            pieces_ok(r@, ix.n()),
            pieces_view(r@, t) == refine(l.take(j as int), delim, max as nat),
        decreases ps@.len() - j,
    {
        let p = ps[j];
        let ghost before = pieces_view(r@, t);
        proof {
            assert(l.take(j + 1).drop_last() =~= l.take(j as int));
            assert(l.take(j + 1).last() == piece_span(p, t));
            assert(piece_ok(ps@[j as int], ix.n()));
        }
        match p {
            Piece::Chunk(a, b) => {
                proof {
                    lemma_sub_len(ix, a as int, b as int);
                }
                if ix.offsets[b] - ix.offsets[a] > max {
                    greedy_into(ix, a, b, delim, max, &mut r);
                } else {
                    r.push(p);
                    proof {
                        assert(pieces_view(r@, t) =~= before + seq![piece_span(p, t)]);
                    }
                }
            },
            Piece::Cut(_) => {
                r.push(p);
                proof {
                    assert(pieces_view(r@, t) =~= before + seq![piece_span(p, t)]);
                }
            },
        }
        j = j + 1;
    }
    proof {
        assert(l.take(j as int) =~= l);
    }
    r
}

/// The strings of the chunks among `ps`; `None` as soon as one exceeds `limit` bytes.
fn collect_chunks(ix: &IndexedText, ps: &Vec<Piece>, limit: Option<usize>) -> (r: Option<Vec<String>>)
    requires
        ix.wf(),
        pieces_ok(ps@, ix.n()),
    ensures
        ({
            let cs = layout_chunks(pieces_view(ps@, ix.chars@));
            match limit {
                None => r is Some && r->0@.map_values(|s: String| s@) == cs,
                Some(m) => match r {
                    Some(v) => chunks_fit(cs, m as nat) && v@.map_values(|s: String| s@) == cs,
                    None => !chunks_fit(cs, m as nat),
                },
            }
        }),
{
    let ghost t = ix.chars@;
    let ghost l = pieces_view(ps@, t);
    let mut out: Vec<String> = Vec::new();
    let mut j: usize = 0;
    proof {
        assert(l.take(0) =~= Seq::<Span>::empty());
        assert(out@.map_values(|s: String| s@) =~= Seq::<Seq<char>>::empty());
    }
    while j < ps.len()
        invariant
            ix.wf(),
            t == ix.chars@,
            l == pieces_view(ps@, t),
            pieces_ok(ps@, ix.n()),
            j <= ps@.len(),
            out@.map_values(|s: String| s@) == layout_chunks(l.take(j as int)),
            limit is Some ==> chunks_fit(layout_chunks(l.take(j as int)), limit->0 as nat),
        decreases ps@.len() - j,
    {
        let ghost before = layout_chunks(l.take(j as int));
        proof {
            assert(l.take(j + 1).drop_last() =~= l.take(j as int));
            assert(l.take(j + 1).last() == piece_span(ps@[j as int], t));
            assert(piece_ok(ps@[j as int], ix.n()));
        }
        match ps[j] {
            Piece::Chunk(a, b) => {
                proof {
                    lemma_sub_len(ix, a as int, b as int);
                }
                match limit {
                    Some(m) => {
                        if ix.offsets[b] - ix.offsets[a] > m {
                            proof {
                                let cs = layout_chunks(l);
                                lemma_layout_chunks_concat(l.take(j + 1), l.skip(j + 1));
                                assert(l =~= l.take(j + 1) + l.skip(j + 1));
                                assert(cs[before.len() as int] == t.subrange(a as int, b as int));
                            }
                            return None;
                        }
                    },
                    None => {},
                }
                let c = string_from_chars(&ix.chars, a, b);
                out.push(c);
                proof {
                    assert(out@.map_values(|s: String| s@) =~= before.push(t.subrange(a as int, b as int)));
                }
            },
            Piece::Cut(_) => {},
        }
        j = j + 1;
    }
    proof {
        assert(l.take(j as int) =~= l);
    }
    Some(out)
}

/// Breaks `text` into chunks of at most `max_chunk_size` bytes where it can, cutting only at
/// `delim` and dropping the delimiter at each cut. Chunks are as large as possible; one that has
/// no delimiter to cut at may stay larger than the limit.
pub fn break_greedily_at_delim(text: &str, delim: char, max_chunk_size: usize) -> (r: Vec<String>)
    ensures
        r@.map_values(|s: String| s@) == layout_chunks(
            greedy_layout(text@, delim, max_chunk_size as nat),
        ),
{
    let ix = index_text(text);
    let mut pieces: Vec<Piece> = Vec::new();
    greedy_into(&ix, 0, ix.chars.len(), delim, max_chunk_size, &mut pieces);
    proof {
        assert(ix.chars@.subrange(0, ix.n()) =~= text@);
        assert(Seq::<Span>::empty() + greedy_layout(text@, delim, max_chunk_size as nat)
            =~= greedy_layout(text@, delim, max_chunk_size as nat));
    }
    let r = collect_chunks(&ix, &pieces, None);
    match r {
        Some(v) => v,
        None => Vec::new(),
    }
}

/// Breaks `text` into chunks of at most `max_chunk_size` bytes, cutting at the delimiters in
/// order of preference: first at `delims[0]` everywhere, then each chunk that is still too large
/// at the next delimiter, and so on. Fails when a chunk is still too large after the last one.
pub fn break_greedily_at_delims(text: &str, max_chunk_size: usize, delims: &[char]) -> (r: Result<
    Vec<String>,
    ChunkError,
>)
    requires
        delims@.len() >= 1,
    ensures
        ({
            let cs = layout_chunks(layout_with(text@, delims@, max_chunk_size as nat));
            match r {
                Ok(v) => chunks_fit(cs, max_chunk_size as nat) && v@.map_values(|s: String| s@)
                    == cs,
                Err(e) => !chunks_fit(cs, max_chunk_size as nat) && e == ChunkError::Unbreakable,
            }
        }),
{
    let ix = index_text(text);
    let mut pieces: Vec<Piece> = Vec::new();
    greedy_into(&ix, 0, ix.chars.len(), delims[0], max_chunk_size, &mut pieces);
    proof {
        assert(ix.chars@.subrange(0, ix.n()) =~= text@);
        assert(pieces_view(pieces@, ix.chars@) =~= greedy_layout(text@, delims@[0], max_chunk_size as nat));
        assert(delims@.take(1).len() == 1 && delims@.take(1)[0] == delims@[0]);
    }
    let mut k: usize = 1;
    while k < delims.len()
        invariant
            ix.wf(),
            ix.chars@ == text@,
            1 <= k <= delims@.len(),
            pieces_ok(pieces@, ix.n()),
            pieces_view(pieces@, ix.chars@) == layout_with(text@, delims@.take(k as int), max_chunk_size as nat),
        decreases delims@.len() - k,
    {
        pieces = refine_pieces(&ix, &pieces, delims[k], max_chunk_size);
        proof {
            assert(delims@.take(k + 1).drop_last() =~= delims@.take(k as int));
            assert(delims@.take(k + 1).last() == delims@[k as int]);
        }
        k = k + 1;
    }
    proof {
        assert(delims@.take(k as int) =~= delims@);
    }
    match collect_chunks(&ix, &pieces, Some(max_chunk_size)) {
        Some(v) => Ok(v),
        None => Err(ChunkError::Unbreakable),
    }
}

/// Breaks English text into chunks of at most `max_chunk_size` bytes, cutting at newlines, then
/// if necessary at colons, then periods, then commas.
pub fn break_english_text(text: &str, max_chunk_size: usize) -> (r: Result<Vec<String>, ChunkError>)
    ensures
        ({
            let cs = layout_chunks(layout_with(text@, english_delimiters(), max_chunk_size as nat));
            match r {
                Ok(v) => chunks_fit(cs, max_chunk_size as nat) && v@.map_values(|s: String| s@)
                    == cs,
                Err(e) => !chunks_fit(cs, max_chunk_size as nat) && e == ChunkError::Unbreakable,
            }
        }),
{
    let delims: [char; 4] = ['\n', ':', '.', ','];
    proof {
        assert(delims@ =~= english_delimiters());
    }
    break_greedily_at_delims(text, max_chunk_size, &delims)
}

} // verus!
