//! Animation frames: which glyph a frame number shows.

use vstd::prelude::*;

verus! {

/// What an animated cell shows.
#[derive(Clone, Copy, Debug, PartialEq, Eq, Structural)]
pub enum AnimKind {
    /// The wheel of a running tool.
    Spinner,
    /// The block cursor behind streaming text.
    Cursor,
    /// The ring of a thinking head line.
    Thinking,
    /// A progress bar without a known end; it needs more than one cell, so a
    /// cell alone shows nothing of it.
    ProgressIndeterminate,
}

/// An animated cell of a block: its line and column there.
#[derive(Clone, Copy, Debug, PartialEq, Eq, Structural)]
pub struct AnimSlot {
    pub row: u16,
    pub col: u16,
    pub kind: AnimKind,
}

/// Where the renderer puts animated glyphs: straight into the lines for one
/// frame, or aside as slots, with a space of the same width in the line.
#[derive(Clone, Debug)]
pub enum AnimSink {
    Bake(u64),
    Slots(Vec<AnimSlot>),
}

/// What stands in the line for an animated cell: the glyph of the baked frame,
/// or a space.
pub open spec fn cell_text(bake: Option<u64>, kind: AnimKind) -> Seq<char> {
    match bake {
        Some(frame) => match glyph(kind, frame as int) {
            Some(g) => g,
            None => "█"@,
        },
        None => " "@,
    }
}

impl AnimSink {
    /// The frame that glyphs are baked for.
    pub open spec fn bake(&self) -> Option<u64> {
        match *self {
            AnimSink::Bake(frame) => Some(frame),
            AnimSink::Slots(_) => None,
        }
    }

    /// The slots put aside.
    pub open spec fn slots(&self) -> Seq<AnimSlot> {
        match *self {
            AnimSink::Bake(_) => Seq::empty(),
            AnimSink::Slots(v) => v@,
        }
    }

    /// This sink with more slots put aside; baking takes none.
    pub open spec fn takes(&self, more: Seq<AnimSlot>, after: &AnimSink) -> bool {
        &&& after.bake() == self.bake()
        &&& after.slots() == if self.bake() is Some {
            Seq::empty()
        } else {
            self.slots() + more
        }
    }

    /// The text for an animated cell; its slot goes aside unless it is baked.
    pub fn cell(&mut self, kind: AnimKind, row: u16, col: u16) -> (r: &'static str)
        ensures
            r@ == cell_text(old(self).bake(), kind),
            old(self).takes(seq![AnimSlot { row, col, kind }], final(self)),
    {
        match self {
            AnimSink::Bake(frame) => match anim_glyph(kind, *frame) {
                Some(g) => g,
                None => "█",
            },
            AnimSink::Slots(out) => {
                out.push(AnimSlot { row, col, kind });
                proof {
                    assert(out@ =~= old(self).slots() + seq![AnimSlot { row, col, kind }]);
                }
                " "
            },
        }
    }

    /// The slots put aside.
    pub fn into_vec(self) -> (v: Vec<AnimSlot>)
        ensures
            v@ == self.slots(),
    {
        match self {
            AnimSink::Bake(_) => Vec::new(),
            AnimSink::Slots(v) => v,
        }
    }
}

/// The frame `ms` milliseconds after the epoch: five per second.
pub fn frame_at(ms: u64) -> (f: u64)
    ensures
        f == ms / 200,
{
    ms / 200
}

/// The six-frame star of the thinking line.
pub open spec fn claude_spinner(frame: int) -> Seq<char> {
    if frame % 6 == 0 {
        "·"@
    } else if frame % 6 == 1 {
        "✢"@
    } else if frame % 6 == 2 {
        "✳"@
    } else if frame % 6 == 3 {
        "✶"@
    } else if frame % 6 == 4 {
        "✻"@
    } else {
        "✽"@
    }
}

/// The six-frame star of the thinking line.
pub fn claude_spinner_glyph(frame: u64) -> (g: &'static str)
    ensures
        g@ == claude_spinner(frame as int),
{
    match frame % 6 {
        0 => "·",
        1 => "✢",
        2 => "✳",
        3 => "✶",
        4 => "✻",
        _ => "✽",
    }
}

/// The eight-frame wheel of a running tool.
pub open spec fn spinner(frame: int) -> Seq<char> {
    if frame % 8 == 0 {
        "⣾"@
    } else if frame % 8 == 1 {
        "⣽"@
    } else if frame % 8 == 2 {
        "⣻"@
    } else if frame % 8 == 3 {
        "⢿"@
    } else if frame % 8 == 4 {
        "⡿"@
    } else if frame % 8 == 5 {
        "⣟"@
    } else if frame % 8 == 6 {
        "⣯"@
    } else {
        "⣷"@
    }
}

/// The eight-frame wheel of a running tool.
pub fn spinner_glyph(frame: u64) -> (g: &'static str)
    ensures
        g@ == spinner(frame as int),
{
    match frame % 8 {
        0 => "⣾",
        1 => "⣽",
        2 => "⣻",
        3 => "⢿",
        4 => "⡿",
        5 => "⣟",
        6 => "⣯",
        _ => "⣷",
    }
}

/// The four-frame ring of a thinking head line.
pub open spec fn thinking(frame: int) -> Seq<char> {
    if frame % 4 == 0 {
        "◐"@
    } else if frame % 4 == 1 {
        "◓"@
    } else if frame % 4 == 2 {
        "◑"@
    } else {
        "◒"@
    }
}

/// The four-frame ring of a thinking head line.
pub fn thinking_glyph(frame: u64) -> (g: &'static str)
    ensures
        g@ == thinking(frame as int),
{
    match frame % 4 {
        0 => "◐",
        1 => "◓",
        2 => "◑",
        _ => "◒",
    }
}

/// What an animated cell shows in a frame.
pub open spec fn glyph(kind: AnimKind, frame: int) -> Option<Seq<char>> {
    match kind {
        AnimKind::Spinner => Some(spinner(frame)),
        AnimKind::Thinking => Some(thinking(frame)),
        AnimKind::Cursor => Some("▌"@),
        AnimKind::ProgressIndeterminate => None,
    }
}

/// What an animated cell shows in a frame.
pub fn anim_glyph(kind: AnimKind, frame: u64) -> (g: Option<&'static str>)
    ensures
        match g {
            Some(s) => glyph(kind, frame as int) == Some(s@),
            None => glyph(kind, frame as int) is None,
        },
{
    match kind {
        AnimKind::Spinner => Some(spinner_glyph(frame)),
        AnimKind::Thinking => Some(thinking_glyph(frame)),
        AnimKind::Cursor => Some("▌"),
        AnimKind::ProgressIndeterminate => None,
    }
}

/// Every frame sequence repeats.
pub proof fn law_frames_repeat(frame: int)
    requires
        frame >= 0,
    ensures
        claude_spinner(frame + 6) == claude_spinner(frame),
        spinner(frame + 8) == spinner(frame),
        thinking(frame + 4) == thinking(frame),
{
}

} // verus!
