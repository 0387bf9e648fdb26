//! Text that still grows: wrapped piece by piece as it arrives.

use crate::anim::{AnimKind, AnimSlot};
use crate::render_line::{
    lemma_rows_push, law_wrap_incremental, plain, rows, wrap_feed, wrap_start, wrap_step,
    wrapped, RenderLine, SpanView, WrapModel, WrapState,
};
use crate::render_transcript::{plain_rows, stream_lines, stream_slot, without_last};
use crate::text::texts;
use crate::width::{str_width, text_columns};
use std::sync::Arc;
use vstd::prelude::*;
use vstd::utf8::{
    decode_utf8, encode_utf8, encode_utf8_decode_utf8, encode_utf8_first_scalar,
    encode_utf8_valid_utf8, is_char_boundary, length_of_first_scalar, pop_first_scalar, valid_utf8,
};

verus! {

broadcast use lemma_rows_push;

/// Growing text: how it is wrapped so far and how many bytes of it were read.
#[verifier::ext_equal]
pub struct StreamView {
    pub model: WrapModel,
    pub width: nat,
    pub consumed: nat,
}

/// The characters of `text` from byte `b` on.
pub open spec fn chars_from(text: Seq<char>, b: nat) -> Seq<char> {
    let bytes = encode_utf8(text);
    decode_utf8(bytes.subrange(b as int, bytes.len() as int))
}

/// All of `text` read at once.
pub open spec fn stream_new(text: Seq<char>, width: nat) -> StreamView {
    StreamView {
        model: wrap_feed(wrap_start(), text, width),
        width,
        consumed: encode_utf8(text).len(),
    }
}

/// What was not read yet of `text`, read too; nothing where the width is
/// another, the text has become shorter, or its old end falls inside a
/// character.
pub open spec fn stream_fed(s: StreamView, text: Seq<char>, width: nat) -> Option<StreamView> {
    if width != s.width || encode_utf8(text).len() < s.consumed || !is_char_boundary(
        encode_utf8(text),
        s.consumed as int,
    ) {
        None
    } else {
        Some(
            StreamView {
                model: wrap_feed(s.model, chars_from(text, s.consumed), width),
                width,
                consumed: encode_utf8(text).len(),
            },
        )
    }
}

/// The finished lines.
pub open spec fn stream_prefix(s: StreamView) -> Seq<Seq<SpanView>> {
    plain_rows(s.model.sealed)
}

/// The text with the cursor behind it.
pub open spec fn with_cursor(s: StreamView) -> WrapModel {
    wrap_step(s.model, '▌', s.width)
}

/// The lines behind the finished ones: what the cursor pushes out, and the
/// line that it ends, with a space in its place.
pub open spec fn stream_tail(s: StreamView) -> Seq<Seq<SpanView>> {
    let m = with_cursor(s);
    plain_rows(m.sealed.skip(s.model.sealed.len() as int)).push(plain(m.line.drop_last().push(' ')))
}

/// The cursor's cell.
pub open spec fn stream_cursor(s: StreamView) -> AnimSlot {
    let m = with_cursor(s);
    AnimSlot {
        row: m.sealed.len() as u16,
        col: text_columns(m.line.drop_last()) as u16,
        kind: AnimKind::Cursor,
    }
}

/// Growing text.
#[derive(Clone, Debug)]
pub struct StreamState {
    wrap: WrapState,
    consumed_bytes: usize,
}

impl View for StreamState {
    type V = StreamView;

    closed spec fn view(&self) -> StreamView {
        StreamView {
            model: self.wrap@,
            width: self.wrap.limit(),
            consumed: self.consumed_bytes as nat,
        }
    }
}

fn byte_len(text: &str) -> (n: usize)
    ensures
        n == encode_utf8(text@).len(),
{
    text.as_bytes().len()
}

impl StreamState {
    /// The wrapping in progress is well formed.
    pub closed spec fn wf(&self) -> bool {
        self.wrap.wf()
    }

    /// Reads all of `text`.
    pub fn new(text: &str, width: usize) -> (s: Self)
        requires
            width > 0,
        ensures
            s.wf(),
            s@ == stream_new(text@, width as nat),
    {
        let mut wrap = WrapState::new(width);
        wrap.push_str(text);
        StreamState { wrap, consumed_bytes: byte_len(text) }
    }

    /// Reads what was not read yet of `text`; says whether it could.
    pub fn feed(&mut self, text: &str, width: usize) -> (fed: bool)
        requires
            old(self).wf(),
        ensures
            final(self).wf(),
            fed == (stream_fed(old(self)@, text@, width as nat) is Some),
            fed ==> stream_fed(old(self)@, text@, width as nat) == Some(final(self)@),
            !fed ==> final(self)@ == old(self)@,
    {
        let n = byte_len(text);
        if width != self.wrap.width() || n < self.consumed_bytes {
            return false;
        }
        if !text.is_char_boundary(self.consumed_bytes) {
            return false;
        }
        let parts = text.split_at(self.consumed_bytes);
        proof {
            encode_utf8_decode_utf8(parts.1@);
        }
        self.wrap.push_str(parts.1);
        self.consumed_bytes = n;
        true
    }

    /// Appends to `prefix` the finished lines that it lacks.
    pub fn extend_prefix(&self, prefix: &mut Vec<RenderLine>)
        requires
            self.wf(),
            old(prefix)@.len() <= self@.model.sealed.len(),
            rows(old(prefix)@) == stream_prefix(self@).take(old(prefix)@.len() as int),
        ensures
            rows(final(prefix)@) == stream_prefix(self@),
    {
        let sealed = self.wrap.sealed_slice();
        let ghost want = stream_prefix(self@);
        let mut i: usize = prefix.len();
        while i < sealed.len()
            invariant
                i == prefix@.len(),
                i <= sealed@.len(),
                texts(sealed@) == self@.model.sealed,
                want == stream_prefix(self@),
                rows(prefix@) == want.take(i as int),
            decreases sealed@.len() - i,
        {
            let l = RenderLine::plain(sealed[i].as_str());
            assert(l@ == want[i as int]);
            prefix.push(l);
            i += 1;
            assert(want.take(i as int) =~= want.take(i - 1).push(want[i - 1]));
        }
        assert(texts(sealed@).len() == sealed@.len());
        assert(want.take(i as int) =~= want);
    }

    /// All finished lines: `prefix` itself where none was finished since.
    pub fn shared_prefix(&self, prefix: Arc<Vec<RenderLine>>) -> (r: Arc<Vec<RenderLine>>)
        requires
            self.wf(),
            prefix@.len() <= self@.model.sealed.len(),
            rows(prefix@) == stream_prefix(self@).take(prefix@.len() as int),
        ensures
            rows(r@) == stream_prefix(self@),
    {
        if prefix.len() == self.wrap.sealed_len() {
            assert(stream_prefix(self@).take(prefix@.len() as int) =~= stream_prefix(self@));
            return prefix;
        }
        let mut all: Vec<RenderLine> = Vec::new();
        assert(rows(all@) =~= stream_prefix(self@).take(0));
        self.extend_prefix(&mut all);
        Arc::new(all)
    }

    /// The lines behind the finished ones and the cursor's cell.
    pub fn tail_and_cursor(&self) -> (r: (Vec<RenderLine>, AnimSlot))
        requires
            self.wf(),
        ensures
            rows(r.0@) == stream_tail(self@),
            r.1 == stream_cursor(self@),
    {
        let (overflow, cur) = self.wrap.cursor_view();
        let ghost m = with_cursor(self@);
        let ghost n = self@.model.sealed.len() as int;
        let mut tail: Vec<RenderLine> = Vec::new();
        assert(rows(tail@) =~= Seq::empty());
        let mut row: u128 = self.wrap.sealed_len() as u128;
        match overflow {
            Some(head) => {
                tail.push(RenderLine::plain(head.as_str()));
                assert(m.sealed.skip(n) =~= seq![head@]);
                assert(rows(tail@) =~= plain_rows(m.sealed.skip(n)));
                row = row + 1;
            },
            None => {
                assert(m.sealed.skip(n) =~= Seq::empty());
                assert(rows(tail@) =~= plain_rows(m.sealed.skip(n)));
            },
        }
        let col: usize = str_width(cur.as_str()).saturating_sub(1);
        let mut shown = without_last(cur.as_str());
        shown.push(' ');
        tail.push(RenderLine::plain(shown.as_str()));
        (tail, AnimSlot { row: row as u16, col: col as u16, kind: AnimKind::Cursor })
    }
}

proof fn lemma_encode_add(a: Seq<char>, b: Seq<char>)
    ensures
        encode_utf8(a + b) == encode_utf8(a) + encode_utf8(b),
    decreases a.len(),
{
    if a.len() == 0 {
        assert(a + b =~= b);
        assert(encode_utf8(a) + encode_utf8(b) =~= encode_utf8(b));
    } else {
        assert((a + b).drop_first() =~= a.drop_first() + b);
        lemma_encode_add(a.drop_first(), b);
        assert(encode_utf8(a + b) =~= encode_utf8(a) + encode_utf8(b));
    }
}

proof fn lemma_boundary(a: Seq<char>, b: Seq<char>)
    ensures
        is_char_boundary(encode_utf8(a + b), encode_utf8(a).len() as int),
    decreases a.len(),
{
    let bytes = encode_utf8(a + b);
    encode_utf8_valid_utf8(a + b);
    if a.len() > 0 {
        let rest = a.drop_first();
        encode_utf8_first_scalar(a + b);
        assert((a + b).drop_first() =~= rest + b);
        lemma_boundary(rest, b);
        lemma_encode_add(a, b);
        assert(pop_first_scalar(bytes) =~= encode_utf8(rest + b));
        assert(encode_utf8(a).len() == length_of_first_scalar(bytes) + encode_utf8(rest).len());
    }
}

/// Reading text piece by piece is reading it at once.
pub proof fn law_stream_incremental(a: Seq<char>, more: Seq<char>, width: nat)
    ensures
        stream_fed(stream_new(a, width), a + more, width) == Some(stream_new(a + more, width)),
{
    let bytes = encode_utf8(a + more);
    let b = encode_utf8(a).len();
    lemma_encode_add(a, more);
    lemma_boundary(a, more);
    assert(bytes.subrange(b as int, bytes.len() as int) =~= encode_utf8(more));
    encode_utf8_decode_utf8(more);
    law_wrap_incremental(wrap_start(), a, more, width);
}

/// Growing text shows the lines that wrapping it at once gives, with the
/// cursor in the same cell.
pub proof fn law_stream_shows_wrapped_text(text: Seq<char>, width: nat)
    requires
        width > 0,
    ensures
        ({
            let s = stream_new(text, width);
            &&& stream_prefix(s) + stream_tail(s) == plain_rows(stream_lines(text, width, None))
            &&& stream_cursor(s) == stream_slot(text, width)
        }),
{
    let s = stream_new(text, width);
    let m = with_cursor(s);
    let n = s.model.sealed.len() as int;
    assert(text.push('▌').drop_last() =~= text);
    assert(wrapped(text.push('▌'), width) =~= m.sealed.push(m.line));
    lemma_step_keeps_sealed(s.model, '▌', width);
    let ls = m.sealed.push(m.line);
    assert(ls.drop_last() =~= m.sealed);
    let shown = m.sealed.push(m.line.drop_last().push(' '));
    assert(shown =~= stream_lines(text, width, None));
    assert(stream_prefix(s) + stream_tail(s) =~= plain_rows(shown));
}

/// Reading a character changes no finished line.
pub proof fn lemma_step_keeps_sealed(m: WrapModel, c: char, width: nat)
    ensures
        ({
            let k = wrap_step(m, c, width);
            &&& k.sealed.len() >= m.sealed.len()
            &&& forall|i: int| 0 <= i < m.sealed.len() ==> k.sealed[i] == m.sealed[i]
        }),
{
}

/// Reading text changes no finished line.
pub proof fn lemma_feed_keeps_sealed(m: WrapModel, s: Seq<char>, width: nat)
    ensures
        ({
            let k = wrap_feed(m, s, width);
            &&& k.sealed.len() >= m.sealed.len()
            &&& k.sealed.take(m.sealed.len() as int) == m.sealed
        }),
    decreases s.len(),
{
    if s.len() == 0 {
        assert(m.sealed.take(m.sealed.len() as int) =~= m.sealed);
    } else {
        let p = wrap_feed(m, s.drop_last(), width);
        lemma_feed_keeps_sealed(m, s.drop_last(), width);
        lemma_step_keeps_sealed(p, s.last(), width);
        let k = wrap_feed(m, s, width);
        assert(k.sealed.take(m.sealed.len() as int) =~= m.sealed) by {
            assert forall|i: int| 0 <= i < m.sealed.len() implies k.sealed[i] == m.sealed[i] by {
                assert(p.sealed.take(m.sealed.len() as int)[i] == m.sealed[i]);
            }
        }
    }
}

} // verus!
