//! The information line below the tabs.

use crate::render_line::{sp, RenderLine, SpanStyle, SpanView};
use crate::session::{ConversationMode, SessionState};
use crate::text::{cat2, cat3, chars_of, dec, dec_u64, dec_usize, repeat_char, repeated};
use vstd::prelude::*;

verus! {

/// A label and its style.
#[verifier::ext_equal]
pub struct LabelView {
    pub text: Seq<char>,
    pub style: SpanStyle,
}

/// A label and its style.
#[derive(Debug)]
pub struct Label {
    pub text: String,
    pub style: SpanStyle,
}

impl View for Label {
    type V = LabelView;

    open spec fn view(&self) -> LabelView {
        LabelView { text: self.text@, style: self.style }
    }
}

/// What labels say.
pub open spec fn labels_view(v: Seq<Label>) -> Seq<LabelView> {
    Seq::new(v.len(), |i: int| v[i]@)
}

proof fn lemma_labels_push(v: Seq<Label>, l: Label)
    ensures
        labels_view(v.push(l)) == labels_view(v).push(l@),
{
    assert(labels_view(v.push(l)) =~= labels_view(v).push(l@));
}

/// One label where `shown`.
pub open spec fn label_if(shown: bool, text: Seq<char>, style: SpanStyle) -> Seq<LabelView> {
    if shown {
        seq![LabelView { text, style }]
    } else {
        Seq::empty()
    }
}

/// The compaction label: the bar, what is kept of how much, and the last
/// progress note.
pub open spec fn compact_label(session: SessionState, bar: Seq<char>) -> Seq<LabelView> {
    match session.compact {
        Some(c) => label_if(
            true,
            "≈"@ + bar + " 压缩中 "@ + dec(c.turns_keeping as nat) + "/"@ + dec(
                c.turns_total as nat,
            ) + " · "@ + match c.last_delta {
                Some(d) => d@,
                None => "估算"@,
            },
            SpanStyle::Warn,
        ),
        None => Seq::empty(),
    }
}

/// The labels of a session, the most important first.
pub open spec fn info_labels(session: SessionState, bar: Seq<char>) -> Seq<LabelView> {
    let touched = session.code_added > 0 || session.code_removed > 0;
    let shown = session.timeline.turns@.len();
    label_if(session.model is Some, session.model->0@, SpanStyle::Accent) + match session.mode {
        ConversationMode::Plan => label_if(true, "plan"@, SpanStyle::Warn),
        ConversationMode::Code => label_if(true, "code"@, SpanStyle::Dim),
    } + label_if(touched, "+"@ + dec(session.code_added as nat), SpanStyle::DiffAdd) + label_if(
        touched,
        "−"@ + dec(session.code_removed as nat),
        SpanStyle::DiffDel,
    ) + compact_label(session, bar) + label_if(
        session.last_error is Some,
        "err:"@ + session.last_error->0.code@,
        SpanStyle::Error,
    ) + label_if(
        shown < session.timeline.total(),
        dec(shown) + "/"@ + dec(session.timeline.total() as nat),
        SpanStyle::Dim,
    )
}

/// The columns of the first `k` labels, the margin counted.
pub open spec fn used_by(labels: Seq<LabelView>, k: int) -> int
    decreases k,
{
    if k <= 0 {
        2
    } else {
        used_by(labels, k - 1) + labels[k - 1].text.len() + 2
    }
}

/// How many labels fit in `width`, counted from the first up to one that does
/// not.
pub open spec fn labels_that_fit(labels: Seq<LabelView>, k: int, width: int) -> int
    decreases labels.len() - k,
{
    if k < labels.len() && used_by(labels, k + 1) <= width {
        labels_that_fit(labels, k + 1, width)
    } else {
        k
    }
}

/// The information line: the labels that fit, and the session's seed at the
/// right edge where it fits too.
pub open spec fn info_row(labels: Seq<LabelView>, seed: Seq<char>, width: int) -> Seq<SpanView> {
    let k = labels_that_fit(labels, 0, width);
    let used = used_by(labels, k);
    let seed_w = seed.len() + 2;
    let shown = seq![sp(" "@, SpanStyle::Dim)] + Seq::new(
        k as nat,
        |i: int| sp(labels[i].text + "  "@, labels[i].style),
    );
    if used + seed_w <= width {
        shown + seq![
            sp(repeated(' ', (width - used - seed_w) as nat), SpanStyle::Dim),
            sp("#"@ + seed, SpanStyle::Dim),
        ]
    } else {
        shown
    }
}

fn push_label(out: &mut Vec<Label>, text: String, style: SpanStyle)
    ensures
        labels_view(final(out)@) == labels_view(old(out)@) + label_if(true, text@, style),
{
    let l = Label { text, style };
    proof {
        lemma_labels_push(out@, l);
    }
    out.push(l);
    assert(labels_view(out@) =~= labels_view(old(out)@) + label_if(true, text@, style));
}

/// The labels of a session; `bar` is the compaction bar.
pub fn session_labels(session: &SessionState, bar: &str) -> (out: Vec<Label>)
    ensures
        labels_view(out@) == info_labels(*session, bar@),
{
    let mut out: Vec<Label> = Vec::new();
    let ghost none = Seq::<LabelView>::empty();
    assert(labels_view(out@) =~= none);
    match &session.model {
        Some(m) => push_label(&mut out, m.clone(), SpanStyle::Accent),
        None => {},
    }
    assert(labels_view(out@) =~= label_if(
        session.model is Some,
        session.model->0@,
        SpanStyle::Accent,
    ));
    match session.mode {
        ConversationMode::Plan => push_label(&mut out, "plan".to_owned(), SpanStyle::Warn),
        ConversationMode::Code => push_label(&mut out, "code".to_owned(), SpanStyle::Dim),
    }
    let ghost r1 = labels_view(out@);
    assert(r1 + none + none =~= r1);
    if session.code_added > 0 || session.code_removed > 0 {
        let a = dec_u64(session.code_added);
        push_label(&mut out, cat2("+", a.as_str()), SpanStyle::DiffAdd);
        let r = dec_u64(session.code_removed);
        push_label(&mut out, cat2("−", r.as_str()), SpanStyle::DiffDel);
    }
    let ghost r2 = labels_view(out@);
    assert(r2 + none =~= r2);
    match &session.compact {
        Some(c) => {
            let keep = dec_u64(c.turns_keeping);
            let of = dec_u64(c.turns_total);
            let mut text = cat3("≈", bar, " 压缩中 ");
            text.push_str(keep.as_str());
            text.push_str("/");
            text.push_str(of.as_str());
            text.push_str(" · ");
            match &c.last_delta {
                Some(d) => text.push_str(d.as_str()),
                None => text.push_str("估算"),
            }
            push_label(&mut out, text, SpanStyle::Warn);
        },
        None => {},
    }
    let ghost r3 = labels_view(out@);
    assert(r3 + none =~= r3);
    match &session.last_error {
        Some(e) => push_label(&mut out, cat2("err:", e.code.as_str()), SpanStyle::Error),
        None => {},
    }
    let ghost r4 = labels_view(out@);
    assert(r4 + none =~= r4);
    let shown: usize = session.timeline.turns.len();
    let total = session.timeline.turn_total();
    if (shown as u64) < total {
        let a = dec_usize(shown);
        let b = dec_u64(total);
        push_label(&mut out, cat3(a.as_str(), "/", b.as_str()), SpanStyle::Dim);
    }
    out
}

/// Lays labels out on a line.
pub fn lay_out_labels(labels: &Vec<Label>, seed: &str, width: u16) -> (line: RenderLine)
    ensures
        line@ == info_row(labels_view(labels@), seed@, width as int),
{
    let ghost all = labels_view(labels@);
    let limit: usize = width as usize;
    let mut line = RenderLine::new().span(" ", SpanStyle::Dim);
    let mut used: usize = 2;
    let mut i: usize = 0;
    let mut room: bool = true;
    assert(line@ =~= seq![sp(" "@, SpanStyle::Dim)] + Seq::new(
        0,
        |j: int| sp(all[j].text + "  "@, all[j].style),
    ));
    while room && i < labels.len()
        invariant
            i <= labels@.len(),
            all == labels_view(labels@),
            limit == width,
            i > 0 ==> used <= limit,
            used == used_by(all, i as int),
            labels_that_fit(all, 0, limit as int) == if room {
                labels_that_fit(all, i as int, limit as int)
            } else {
                i as int
            },
            line@ =~= seq![sp(" "@, SpanStyle::Dim)] + Seq::new(
                i as nat,
                |j: int| sp(all[j].text + "  "@, all[j].style),
            ),
        decreases labels@.len() - i,
            if room {
                1int
            } else {
                0
            },
    {
        let n: usize = chars_of(labels[i].text.as_str()).len();
        assert(all[i as int] == labels@[i as int]@);
        if used > limit || limit - used < 2 || n > limit - used - 2 {
            assert(used_by(all, i + 1) > limit);
            room = false;
        } else {
            let text = cat2(labels[i].text.as_str(), "  ");
            line = line.span(text.as_str(), labels[i].style);
            used = used + n + 2;
            i += 1;
        }
    }
    let ghost k = labels_that_fit(all, 0, limit as int);
    assert(k == i);
    let n: usize = chars_of(seed).len();
    if used <= limit && limit - used >= 2 && n <= limit - used - 2 {
        let pad = repeat_char(' ', limit - used - 2 - n);
        let label = cat2("#", seed);
        line = line.span(pad.as_str(), SpanStyle::Dim).span(label.as_str(), SpanStyle::Dim);
    }
    assert(line@ =~= info_row(all, seed@, width as int));
    line
}

/// The information line of a session; `bar` is the compaction bar.
pub fn render_session_info(session: &SessionState, width: u16, bar: &str) -> (out: Vec<RenderLine>)
    ensures
        out@.len() == 1,
        out@[0]@ == info_row(info_labels(*session, bar@), session.seed@, width as int),
{
    let labels = session_labels(session, bar);
    let mut out: Vec<RenderLine> = Vec::new();
    out.push(lay_out_labels(&labels, session.seed.as_str(), width));
    out
}

} // verus!
