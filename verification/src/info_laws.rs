//! What the information line of a session tells.

use crate::render_line::{sp, SpanStyle};
use crate::session::{ConversationMode, SessionState};
use crate::session_info::{
    compact_label, info_labels, info_row, label_if, labels_that_fit, used_by, LabelView,
};
use crate::text::{dec, occurs};
use crate::text_laws::law_finding_text;
use vstd::prelude::*;

verus! {

/// Some label says `text` in `style`.
pub open spec fn labelled(v: Seq<LabelView>, text: Seq<char>, style: SpanStyle) -> bool {
    v.contains(LabelView { text, style })
}

proof fn lemma_in_left(a: Seq<LabelView>, b: Seq<LabelView>, l: LabelView)
    requires
        a.contains(l),
    ensures
        (a + b).contains(l),
{
    let k = choose|k: int| 0 <= k < a.len() && a[k] == l;
    assert((a + b)[k] == l);
}

proof fn lemma_in_right(a: Seq<LabelView>, b: Seq<LabelView>, l: LabelView)
    requires
        b.contains(l),
    ensures
        (a + b).contains(l),
{
    let k = choose|k: int| 0 <= k < b.len() && b[k] == l;
    assert((a + b)[a.len() + k] == l);
}

proof fn lemma_label(text: Seq<char>, style: SpanStyle)
    ensures
        label_if(true, text, style).contains(LabelView { text, style }),
{
    assert(label_if(true, text, style)[0] == (LabelView { text, style }));
}

/// A session's labels tell its model and mode; how many lines were added, with
/// a plus in the colour of added lines, and how many removed, with a minus in
/// that of removed ones; what went wrong; and how many of all turns are
/// loaded.
#[verifier::spinoff_prover]
#[verifier::rlimit(50)]
pub proof fn law_labels_tell_the_session(s: SessionState, bar: Seq<char>)
    ensures
        ({
            let v = info_labels(s, bar);
            let shown = s.timeline.turns@.len();
            &&& s.model is Some ==> v[0] == (LabelView {
                text: s.model->0@,
                style: SpanStyle::Accent,
            })
            &&& s.mode is Plan ==> labelled(v, seq!['p', 'l', 'a', 'n'], SpanStyle::Warn)
            &&& s.mode is Code ==> labelled(v, seq!['c', 'o', 'd', 'e'], SpanStyle::Dim)
            &&& s.code_added > 0 ==> labelled(
                v,
                seq!['+'] + dec(s.code_added as nat),
                SpanStyle::DiffAdd,
            )
            &&& s.code_removed > 0 ==> labelled(
                v,
                seq!['−'] + dec(s.code_removed as nat),
                SpanStyle::DiffDel,
            )
            &&& s.last_error is Some ==> labelled(
                v,
                seq!['e', 'r', 'r', ':'] + s.last_error->0.code@,
                SpanStyle::Error,
            )
            &&& shown < s.timeline.total() ==> labelled(
                v,
                dec(shown) + seq!['/'] + dec(s.timeline.total() as nat),
                SpanStyle::Dim,
            )
        }),
{
    reveal_strlit("plan");
    reveal_strlit("code");
    reveal_strlit("+");
    reveal_strlit("−");
    reveal_strlit("err:");
    reveal_strlit("/");
    assert("plan"@ =~= seq!['p', 'l', 'a', 'n']);
    assert("code"@ =~= seq!['c', 'o', 'd', 'e']);
    assert("+"@ =~= seq!['+']);
    assert("−"@ =~= seq!['−']);
    assert("err:"@ =~= seq!['e', 'r', 'r', ':']);
    assert("/"@ =~= seq!['/']);
    let touched = s.code_added > 0 || s.code_removed > 0;
    let shown = s.timeline.turns@.len();
    let total = s.timeline.total() as nat;
    let a = label_if(s.model is Some, s.model->0@, SpanStyle::Accent);
    let b = match s.mode {
        ConversationMode::Plan => label_if(true, "plan"@, SpanStyle::Warn),
        ConversationMode::Code => label_if(true, "code"@, SpanStyle::Dim),
    };
    let c = label_if(touched, "+"@ + dec(s.code_added as nat), SpanStyle::DiffAdd);
    let d = label_if(touched, "−"@ + dec(s.code_removed as nat), SpanStyle::DiffDel);
    let e = compact_label(s, bar);
    let f = label_if(
        s.last_error is Some,
        "err:"@ + s.last_error->0.code@,
        SpanStyle::Error,
    );
    let g = label_if(shown < s.timeline.total(), dec(shown) + "/"@ + dec(total), SpanStyle::Dim);
    assert(info_labels(s, bar) == a + b + c + d + e + f + g);
    lemma_chain(a, b, c, d, e, f, g);
    lemma_label("plan"@, SpanStyle::Warn);
    lemma_label("code"@, SpanStyle::Dim);
    lemma_label("+"@ + dec(s.code_added as nat), SpanStyle::DiffAdd);
    lemma_label("−"@ + dec(s.code_removed as nat), SpanStyle::DiffDel);
    lemma_label("err:"@ + s.last_error->0.code@, SpanStyle::Error);
    lemma_label(dec(shown) + "/"@ + dec(total), SpanStyle::Dim);
    if s.model is Some {
        assert((a + b + c + d + e + f + g)[0] == a[0]);
    }
}

proof fn lemma_chain(
    a: Seq<LabelView>,
    b: Seq<LabelView>,
    c: Seq<LabelView>,
    d: Seq<LabelView>,
    e: Seq<LabelView>,
    f: Seq<LabelView>,
    g: Seq<LabelView>,
)
    ensures
        forall|l: LabelView|
            (#[trigger] b.contains(l)) ==> (a + b + c + d + e + f + g).contains(l),
        forall|l: LabelView|
            (#[trigger] c.contains(l)) ==> (a + b + c + d + e + f + g).contains(l),
        forall|l: LabelView|
            (#[trigger] d.contains(l)) ==> (a + b + c + d + e + f + g).contains(l),
        forall|l: LabelView|
            (#[trigger] f.contains(l)) ==> (a + b + c + d + e + f + g).contains(l),
        forall|l: LabelView|
            (#[trigger] g.contains(l)) ==> (a + b + c + d + e + f + g).contains(l),
{
    let ab = a + b;
    let abc = ab + c;
    let abcd = abc + d;
    let abcde = abcd + e;
    let abcdef = abcde + f;
    assert forall|l: LabelView| (#[trigger] b.contains(l)) implies (abcdef + g).contains(l) by {
        lemma_in_right(a, b, l);
        lemma_in_left(ab, c, l);
        lemma_in_left(abc, d, l);
        lemma_in_left(abcd, e, l);
        lemma_in_left(abcde, f, l);
        lemma_in_left(abcdef, g, l);
    }
    assert forall|l: LabelView| (#[trigger] c.contains(l)) implies (abcdef + g).contains(l) by {
        lemma_in_right(ab, c, l);
        lemma_in_left(abc, d, l);
        lemma_in_left(abcd, e, l);
        lemma_in_left(abcde, f, l);
        lemma_in_left(abcdef, g, l);
    }
    assert forall|l: LabelView| (#[trigger] d.contains(l)) implies (abcdef + g).contains(l) by {
        lemma_in_right(abc, d, l);
        lemma_in_left(abcd, e, l);
        lemma_in_left(abcde, f, l);
        lemma_in_left(abcdef, g, l);
    }
    assert forall|l: LabelView| (#[trigger] f.contains(l)) implies (abcdef + g).contains(l) by {
        lemma_in_right(abcde, f, l);
        lemma_in_left(abcdef, g, l);
    }
    assert forall|l: LabelView| (#[trigger] g.contains(l)) implies (abcdef + g).contains(l) by {
        lemma_in_right(abcdef, g, l);
    }
}

/// While a session is compacted, a label tells how many of its turns are kept
/// of how many, and the last note.
pub proof fn law_compaction_is_told(s: SessionState, bar: Seq<char>)
    requires
        s.compact is Some,
    ensures
        ({
            let c = s.compact->0;
            exists|l: LabelView| #[trigger]
                info_labels(s, bar).contains(l) && l.style == SpanStyle::Warn && occurs(l.text, bar)
                    && occurs(
                    l.text,
                    dec(c.turns_keeping as nat) + seq!['/'] + dec(c.turns_total as nat),
                ) && (c.last_delta is Some ==> occurs(l.text, c.last_delta->0@))
        }),
{
    let c = s.compact->0;
    let e = compact_label(s, bar);
    let l = e[0];
    reveal_strlit("/");
    assert("/"@ =~= seq!['/']);
    let note = match c.last_delta {
        Some(d) => d@,
        None => "估算"@,
    };
    let x = "≈"@;
    let y = " 压缩中 "@;
    let k = dec(c.turns_keeping as nat);
    let t = dec(c.turns_total as nat);
    let z = " · "@;
    assert(l.text == x + bar + y + k + "/"@ + t + z + note);
    assert(l.text =~= x + bar + (y + k + "/"@ + t + z + note));
    assert(l.text =~= (x + bar + y) + (k + seq!['/'] + t) + (z + note));
    assert(l.text =~= (x + bar + y + k + "/"@ + t + z) + note + Seq::<char>::empty());
    law_finding_text(l.text, bar);
    law_finding_text(l.text, k + seq!['/'] + t);
    law_finding_text(l.text, note);
    let touched = s.code_added > 0 || s.code_removed > 0;
    let shown = s.timeline.turns@.len();
    let a = label_if(s.model is Some, s.model->0@, SpanStyle::Accent);
    let b = match s.mode {
        ConversationMode::Plan => label_if(true, "plan"@, SpanStyle::Warn),
        ConversationMode::Code => label_if(true, "code"@, SpanStyle::Dim),
    };
    let p = label_if(touched, "+"@ + dec(s.code_added as nat), SpanStyle::DiffAdd);
    let q = label_if(touched, "−"@ + dec(s.code_removed as nat), SpanStyle::DiffDel);
    let f = label_if(
        s.last_error is Some,
        "err:"@ + s.last_error->0.code@,
        SpanStyle::Error,
    );
    let g = label_if(
        shown < s.timeline.total(),
        dec(shown) + "/"@ + dec(s.timeline.total() as nat),
        SpanStyle::Dim,
    );
    assert(info_labels(s, bar) == a + b + p + q + e + f + g);
    assert(e.contains(l));
    lemma_in_right(a + b + p + q, e, l);
    lemma_in_left(a + b + p + q + e, f, l);
    lemma_in_left(a + b + p + q + e + f, g, l);
}

proof fn lemma_fit(labels: Seq<LabelView>, k: int, width: int)
    requires
        0 <= k <= labels.len(),
    ensures
        k <= labels_that_fit(labels, k, width) <= labels.len(),
        labels_that_fit(labels, k, width) > k ==> used_by(
            labels,
            labels_that_fit(labels, k, width),
        ) <= width,
        labels_that_fit(labels, k, width) < labels.len() ==> used_by(
            labels,
            labels_that_fit(labels, k, width) + 1,
        ) > width,
    decreases labels.len() - k,
{
    if k < labels.len() && used_by(labels, k + 1) <= width {
        lemma_fit(labels, k + 1, width);
    }
}

/// The line shows the first labels, in order and each whole, as many as there
/// is room for; behind them, at the right edge, stands the seed where it fits.
pub proof fn law_line_shows_the_first_labels(labels: Seq<LabelView>, seed: Seq<char>, width: int)
    ensures
        exists|k: int|
            0 <= k <= labels.len() && (#[trigger] used_by(labels, k) <= width || k == 0) && (k
                < labels.len() ==> used_by(labels, k + 1) > width) && ({
                let row = info_row(labels, seed, width);
                let seeded = used_by(labels, k) + seed.len() + 2 <= width;
                &&& row.len() == k + 1 + (if seeded {
                    2int
                } else {
                    0
                })
                &&& forall|i: int|
                    0 <= i < k ==> #[trigger] row[i + 1] == sp(
                        labels[i].text + seq![' ', ' '],
                        labels[i].style,
                    )
                &&& seeded ==> row.last() == sp(seq!['#'] + seed, SpanStyle::Dim)
            }),
{
    let k = labels_that_fit(labels, 0, width);
    lemma_fit(labels, 0, width);
    reveal_strlit("  ");
    reveal_strlit("#");
    assert("  "@ =~= seq![' ', ' ']);
    assert("#"@ =~= seq!['#']);
    let row = info_row(labels, seed, width);
    assert forall|i: int| 0 <= i < k implies #[trigger] row[i + 1] == sp(
        labels[i].text + seq![' ', ' '],
        labels[i].style,
    ) by {}
    assert(used_by(labels, k) <= width || k == 0);
}

} // verus!
