//! The layers over the transcript, and which session each belongs to.

use crate::keymap::{KeyCode, KeyEvent};
use crate::text::{blank, str_eq, string_of, trim, trimmed};
use vstd::prelude::*;

verus! {

/// A line being typed.
#[verifier::ext_equal]
pub struct Line {
    pub input: Seq<char>,
    pub cursor: int,
}

/// Whether a line can take a key: a cursor past the end deletes nothing
/// backwards.
pub open spec fn line_takes(l: Line, key: KeyEvent) -> bool {
    key.code is Backspace ==> l.cursor <= l.input.len()
}

/// The line after a key. With the cursor past the end, typing goes to the end.
pub open spec fn line_after(l: Line, key: KeyEvent) -> Line {
    match key.code {
        KeyCode::Backspace => if l.cursor > 0 {
            Line { input: l.input.remove(l.cursor - 1), cursor: l.cursor - 1 }
        } else {
            l
        },
        KeyCode::Delete => if l.cursor < l.input.len() {
            Line { input: l.input.remove(l.cursor), ..l }
        } else {
            l
        },
        KeyCode::Left => if l.cursor > 0 {
            Line { cursor: l.cursor - 1, ..l }
        } else {
            l
        },
        KeyCode::Right => if l.cursor < l.input.len() {
            Line { cursor: l.cursor + 1, ..l }
        } else {
            l
        },
        KeyCode::Home => Line { cursor: 0, ..l },
        KeyCode::End => Line { cursor: l.input.len() as int, ..l },
        KeyCode::Char(c) => if !key.modifiers.control {
            let at = if l.cursor < l.input.len() {
                l.cursor
            } else {
                l.input.len() as int
            };
            let cursor = if l.cursor < usize::MAX {
                l.cursor + 1
            } else {
                l.cursor
            };
            Line { input: l.input.insert(at, c), cursor }
        } else {
            l
        },
        _ => l,
    }
}

/// Edits a line by a key.
pub fn edit_line(input: &mut Vec<char>, cursor: &mut usize, key: KeyEvent)
    requires
        line_takes(Line { input: old(input)@, cursor: *old(cursor) as int }, key),
    ensures
        *old(cursor) <= old(input)@.len() ==> *final(cursor) <= final(input)@.len(),
        (Line { input: final(input)@, cursor: *final(cursor) as int }) == line_after(
            Line { input: old(input)@, cursor: *old(cursor) as int },
            key,
        ),
{
    let n: usize = input.len();
    match key.code {
        KeyCode::Backspace => {
            if *cursor > 0 {
                *cursor = *cursor - 1;
                input.remove(*cursor);
            }
        },
        KeyCode::Delete => {
            if *cursor < n {
                input.remove(*cursor);
            }
        },
        KeyCode::Left => {
            if *cursor > 0 {
                *cursor = *cursor - 1;
            }
        },
        KeyCode::Right => {
            if *cursor < n {
                *cursor = *cursor + 1;
            }
        },
        KeyCode::Home => {
            *cursor = 0;
        },
        KeyCode::End => {
            *cursor = n;
        },
        KeyCode::Char(c) => {
            if !key.modifiers.control {
                let at: usize = if *cursor < n {
                    *cursor
                } else {
                    n
                };
                input.insert(at, c);
                *cursor = (*cursor).saturating_add(1);
            }
        },
        _ => {},
    }
}

/// Typing a character and deleting backwards gives the line back.
pub proof fn law_line_backspace_undoes_typing(l: Line, c: char, typed: KeyEvent, back: KeyEvent)
    requires
        0 <= l.cursor <= l.input.len() < usize::MAX,
        typed.code == KeyCode::Char(c),
        !typed.modifiers.control,
        back.code is Backspace,
    ensures
        line_after(line_after(l, typed), back) == l,
{
    assert(l.input.insert(l.cursor, c).remove(l.cursor) =~= l.input);
}

/// How a setting is edited.
#[derive(Clone, Copy, Debug, PartialEq, Eq, Structural)]
pub enum FieldKind {
    Text,
    Secret,
    Number,
    Float,
    Enum,
    Toggle,
    Port,
}

/// A setting's value being typed.
#[derive(Clone, Debug)]
pub struct EditBuf {
    pub buf: Vec<char>,
    pub cursor: usize,
}

/// The settings page: the row it is on, and the value being typed there.
#[derive(Clone, Debug)]
pub struct SettingsState {
    pub kind: FieldKind,
    /// The row is the permission level.
    pub on_permission_level: bool,
    pub editing: Option<EditBuf>,
}

/// The settings page.
#[verifier::ext_equal]
pub struct SettingsView {
    pub kind: FieldKind,
    pub on_permission_level: bool,
    pub editing: Option<Line>,
}

impl View for SettingsState {
    type V = SettingsView;

    open spec fn view(&self) -> SettingsView {
        SettingsView {
            kind: self.kind,
            on_permission_level: self.on_permission_level,
            editing: match self.editing {
                Some(b) => Some(Line { input: b.buf@, cursor: b.cursor as int }),
                None => None,
            },
        }
    }
}

impl Default for SettingsState {
    fn default() -> (s: Self)
        ensures
            s@.editing is None,
            s@.kind is Text,
            !s@.on_permission_level,
    {
        SettingsState { kind: FieldKind::Text, on_permission_level: false, editing: None }
    }
}

/// What a confirmation is about.
#[derive(Clone, Debug)]
pub enum ConfirmAction {
    DeleteSession(String),
    ArchiveSession(String),
    CloseTab(String),
    UndoTurn { seed: String, turn_id: String },
}

/// What a confirmation is about.
#[verifier::ext_equal]
pub enum ConfirmView {
    DeleteSession(Seq<char>),
    ArchiveSession(Seq<char>),
    CloseTab(Seq<char>),
    UndoTurn { seed: Seq<char>, turn_id: Seq<char> },
}

impl View for ConfirmAction {
    type V = ConfirmView;

    open spec fn view(&self) -> ConfirmView {
        match self {
            ConfirmAction::DeleteSession(s) => ConfirmView::DeleteSession(s@),
            ConfirmAction::ArchiveSession(s) => ConfirmView::ArchiveSession(s@),
            ConfirmAction::CloseTab(s) => ConfirmView::CloseTab(s@),
            ConfirmAction::UndoTurn { seed, turn_id } => ConfirmView::UndoTurn {
                seed: seed@,
                turn_id: turn_id@,
            },
        }
    }
}

/// The session a confirmed action falls on.
pub open spec fn confirm_seed(a: ConfirmView) -> Seq<char> {
    match a {
        ConfirmView::DeleteSession(s) => s,
        ConfirmView::ArchiveSession(s) => s,
        ConfirmView::CloseTab(s) => s,
        ConfirmView::UndoTurn { seed, .. } => seed,
    }
}

impl ConfirmAction {
    /// The session the action falls on.
    pub fn seed(&self) -> (r: &str)
        ensures
            r@ == confirm_seed(self@),
    {
        match self {
            ConfirmAction::DeleteSession(s) => s.as_str(),
            ConfirmAction::ArchiveSession(s) => s.as_str(),
            ConfirmAction::CloseTab(s) => s.as_str(),
            ConfirmAction::UndoTurn { seed, .. } => seed.as_str(),
        }
    }
}

/// A layer over the transcript.
#[derive(Clone, Debug)]
pub enum Overlay {
    SessionList { selected: usize, show_archived: bool },
    Settings(SettingsState),
    Help,
    AttachPath { input: Vec<char>, cursor: usize, seed: String },
    Confirm { action: ConfirmAction },
    /// Where a new session is to work.
    CwdInput { input: Vec<char>, cursor: usize },
    /// The session turn by turn.
    History { selected: usize, detail: bool, scroll: usize },
    /// The thinking of the running turn, as it was when asked for.
    Thinking { seed: String, scroll: usize, body: String },
}

/// A layer over the transcript.
#[verifier::ext_equal]
pub enum OverlayView {
    SessionList { selected: usize, show_archived: bool },
    Settings(SettingsView),
    Help,
    AttachPath { line: Line, seed: Seq<char> },
    Confirm { action: ConfirmView },
    CwdInput { line: Line },
    History { selected: usize, detail: bool, scroll: usize },
    Thinking { seed: Seq<char>, scroll: usize, body: Seq<char> },
}

impl View for Overlay {
    type V = OverlayView;

    open spec fn view(&self) -> OverlayView {
        match self {
            Overlay::SessionList { selected, show_archived } => OverlayView::SessionList {
                selected: *selected,
                show_archived: *show_archived,
            },
            Overlay::Settings(s) => OverlayView::Settings(s@),
            Overlay::Help => OverlayView::Help,
            Overlay::AttachPath { input, cursor, seed } => OverlayView::AttachPath {
                line: Line { input: input@, cursor: *cursor as int },
                seed: seed@,
            },
            Overlay::Confirm { action } => OverlayView::Confirm { action: action@ },
            Overlay::CwdInput { input, cursor } => OverlayView::CwdInput {
                line: Line { input: input@, cursor: *cursor as int },
            },
            Overlay::History { selected, detail, scroll } => OverlayView::History {
                selected: *selected,
                detail: *detail,
                scroll: *scroll,
            },
            Overlay::Thinking { seed, scroll, body } => OverlayView::Thinking {
                seed: seed@,
                scroll: *scroll,
                body: body@,
            },
        }
    }
}

/// Layers.
pub open spec fn overlays_view(v: Seq<Overlay>) -> Seq<OverlayView> {
    Seq::new(v.len(), |i: int| v[i]@)
}

/// A cursor within its line.
pub open spec fn line_ok(l: Line) -> bool {
    0 <= l.cursor <= l.input.len()
}

/// The cursors of a layer stand within their lines. That of a directory may stand
/// past the end: it starts at the number of bytes.
pub open spec fn overlay_ok(o: OverlayView) -> bool {
    match o {
        OverlayView::AttachPath { line, .. } => line_ok(line),
        OverlayView::Settings(s) => s.editing matches Some(l) ==> line_ok(l),
        _ => true,
    }
}

/// The session a layer belongs to: the one its action falls on.
pub open spec fn bound(o: OverlayView) -> Option<Seq<char>> {
    match o {
        OverlayView::Confirm { action } => Some(confirm_seed(action)),
        OverlayView::AttachPath { seed, .. } => Some(seed),
        OverlayView::Thinking { seed, .. } => Some(seed),
        _ => None,
    }
}

/// A layer that stays when session `seed` is shown.
pub open spec fn stays(o: OverlayView, seed: Option<Seq<char>>) -> bool {
    bound(o) is None || bound(o) == seed
}

/// The layers that stay when session `seed` is shown.
pub open spec fn pruned(v: Seq<OverlayView>, seed: Option<Seq<char>>) -> Seq<OverlayView>
    decreases v.len(),
{
    if v.len() == 0 {
        v
    } else {
        let rest = pruned(v.drop_last(), seed);
        if stays(v.last(), seed) {
            rest.push(v.last())
        } else {
            rest
        }
    }
}

impl Overlay {
    /// The session the layer belongs to, if any.
    pub fn bound_seed(&self) -> (r: Option<&str>)
        ensures
            match r {
                Some(s) => bound(self@) == Some(s@),
                None => bound(self@) is None,
            },
    {
        match self {
            Overlay::Confirm { action } => Some(action.seed()),
            Overlay::AttachPath { seed, .. } => Some(seed.as_str()),
            Overlay::Thinking { seed, .. } => Some(seed.as_str()),
            Overlay::SessionList { .. } => None,
            Overlay::Settings(_) => None,
            Overlay::Help => None,
            Overlay::History { .. } => None,
            Overlay::CwdInput { .. } => None,
        }
    }

    /// What a typed path asks for: nothing if it is blank.
    pub fn attach_submit(input: &Vec<char>, seed: &str) -> (r: Option<AttachSubmit>)
        ensures
            match r {
                Some(s) => !blank(input@) && s@ == (seed@, trim(input@)),
                None => blank(input@),
            },
    {
        let n: usize = input.len();
        let typed = string_of(input, 0, n);
        assert(typed@ =~= input@);
        if crate::text::is_blank(typed.as_str()) {
            None
        } else {
            Some(AttachSubmit { target_seed: seed.to_owned(), path: trimmed(typed.as_str()) })
        }
    }
}

/// A file to attach, and the session to attach it to. It comes from
/// [`Overlay::attach_submit`] only.
#[derive(Clone, Debug, PartialEq, Eq)]
pub struct AttachSubmit {
    target_seed: String,
    path: String,
}

impl View for AttachSubmit {
    type V = (Seq<char>, Seq<char>);

    closed spec fn view(&self) -> (Seq<char>, Seq<char>) {
        (self.target_seed@, self.path@)
    }
}

impl AttachSubmit {
    /// The session and the path.
    pub fn into_parts(self) -> (r: (String, String))
        ensures
            (r.0@, r.1@) == self@,
    {
        (self.target_seed, self.path)
    }
}

/// A file goes to the session that its layer belongs to.
pub proof fn law_attachment_goes_to_its_layer(line: Line, seed: Seq<char>, submit: AttachSubmit)
    requires
        submit@ == (seed, trim(line.input)),
    ensures
        bound(OverlayView::AttachPath { line, seed }) == Some(submit@.0),
{
}

/// Removes the layers that belong to another session than `seed`.
pub fn prune_seed_bound_overlays(overlays: &mut Vec<Overlay>, seed: Option<&str>)
    ensures
        overlays_view(final(overlays)@) == pruned(
            overlays_view(old(overlays)@),
            match seed {
                Some(s) => Some(s@),
                None => None,
            },
        ),
{
    let ghost all = overlays_view(overlays@);
    let ghost active: Option<Seq<char>> = match seed {
        Some(s) => Some(s@),
        None => None,
    };
    let ghost mut seen: int = 0;
    let mut i: usize = 0;
    assert(all.take(0) =~= Seq::empty());
    assert(overlays_view(overlays@) =~= pruned(all.take(0), active) + all.skip(0));
    while i < overlays.len()
        invariant
            active == match seed {
                Some(s) => Some(s@),
                None => None,
            },
            0 <= seen <= all.len(),
            i == pruned(all.take(seen), active).len(),
            overlays_view(overlays@) == pruned(all.take(seen), active) + all.skip(seen),
        decreases all.len() - seen,
    {
        let keep = match overlays[i].bound_seed() {
            None => true,
            Some(b) => match seed {
                Some(s) => str_eq(b, s),
                None => false,
            },
        };
        proof {
            assert(overlays_view(overlays@)[i as int] == all.skip(seen)[0]);
            assert(overlays_view(overlays@)[i as int] == overlays@[i as int]@);
            assert(all.take(seen + 1).drop_last() =~= all.take(seen));
            assert(all.take(seen + 1).last() == all[seen]);
            assert(keep == stays(all[seen], active));
        }
        let ghost before = overlays@;
        let ghost kept = pruned(all.take(seen), active);
        if keep {
            i += 1;
            assert(kept + all.skip(seen) =~= kept.push(all[seen]) + all.skip(seen + 1));
        } else {
            overlays.remove(i);
            assert(overlays_view(overlays@) =~= overlays_view(before).remove(i as int));
            assert((kept + all.skip(seen)).remove(kept.len() as int) =~= kept + all.skip(seen + 1));
        }
        proof {
            seen = seen + 1;
        }
    }
    proof {
        assert(overlays_view(overlays@).len() == overlays@.len());
        assert(all.skip(seen).len() == 0);
        assert(all.take(seen) =~= all);
        assert(overlays_view(overlays@) =~= pruned(all, active));
    }
}

/// The layers that belong to no session.
pub open spec fn global_layers(v: Seq<OverlayView>) -> Seq<OverlayView>
    decreases v.len(),
{
    if v.len() == 0 {
        v
    } else {
        let rest = global_layers(v.drop_last());
        if bound(v.last()) is None {
            rest.push(v.last())
        } else {
            rest
        }
    }
}

/// Switching sessions keeps every layer that belongs to none, in order; no
/// layer of another session stays; doing it twice changes nothing more.
pub proof fn law_pruning(v: Seq<OverlayView>, seed: Option<Seq<char>>)
    ensures
        global_layers(pruned(v, seed)) == global_layers(v),
        forall|i: int|
            0 <= i < pruned(v, seed).len() ==> stays(#[trigger] pruned(v, seed)[i], seed),
        pruned(pruned(v, seed), seed) == pruned(v, seed),
    decreases v.len(),
{
    if v.len() > 0 {
        law_pruning(v.drop_last(), seed);
        let rest = pruned(v.drop_last(), seed);
        if stays(v.last(), seed) {
            assert(rest.push(v.last()).drop_last() =~= rest);
        }
    }
}

/// Pruning keeps layers well formed.
pub proof fn lemma_pruned_ok(v: Seq<OverlayView>, seed: Option<Seq<char>>)
    requires
        forall|i: int| 0 <= i < v.len() ==> overlay_ok(#[trigger] v[i]),
    ensures
        forall|i: int| 0 <= i < pruned(v, seed).len() ==> overlay_ok(#[trigger] pruned(v, seed)[i]),
    decreases v.len(),
{
    if v.len() > 0 {
        assert forall|i: int| 0 <= i < v.drop_last().len() implies overlay_ok(
            #[trigger] v.drop_last()[i],
        ) by {
            assert(v.drop_last()[i] == v[i]);
        }
        lemma_pruned_ok(v.drop_last(), seed);
        assert(overlay_ok(v[v.len() - 1]));
        let rest = pruned(v.drop_last(), seed);
        let p = pruned(v, seed);
        assert forall|i: int| 0 <= i < p.len() implies overlay_ok(#[trigger] p[i]) by {
            if i < rest.len() {
                assert(p[i] == rest[i]);
                assert(overlay_ok(rest[i]));
            }
        }
    }
}

} // verus!
