//! What the layers over the transcript do with their keys.

use crate::app::AppView;
use crate::app_overlay::{thinking_in_blocks, thinking_in_rounds};
use crate::app_tabs::{in_tree, listed, listed_to};
use crate::keymap::{KeyCode, KeyEvent};
use crate::message::{EffectView, EntryView, NoticeLevel, SettingsOpView};
use crate::overlay::{line_after, line_ok, ConfirmView, Line, OverlayView, SettingsView};
use crate::slash::expanded;
use crate::tab_laws::{law_opening_shows_and_attaches, lemma_default_cwd};
use crate::text::{blank, lines, occurs, starts_with, trim};
use crate::text_laws::law_finding_text;
use crate::timeline::{Block, Round, TimelineBlockKind};
use vstd::prelude::*;

verus! {

/// Nothing but the top layer is taken off.
pub open spec fn only_uncovered(v: AppView, w: AppView) -> bool {
    w == (AppView { overlays: v.overlays.drop_last(), ..v })
}

/// Nothing but the top layer differs.
pub open spec fn only_top(v: AppView, w: AppView) -> bool {
    &&& w == (AppView { overlays: w.overlays, ..v })
    &&& w.overlays.len() == v.overlays.len()
    &&& w.overlays.drop_last() == v.overlays.drop_last()
}

proof fn lemma_covered(v: AppView, o: OverlayView)
    requires
        v.overlays.len() > 0,
    ensures
        only_top(v, v.uncovered().covered(o)),
        v.uncovered().covered(o).overlays.last() == o,
        v.uncovered().covered(v.overlays.last()) == v,
{
    assert(v.overlays.drop_last().push(o).drop_last() =~= v.overlays.drop_last());
    assert(v.overlays.drop_last().push(v.overlays.last()) =~= v.overlays);
    assert(v.uncovered().covered(v.overlays.last()) =~= v);
}

/// A confirmed action is done, and to the session it was asked about; any key
/// but `y` does nothing but take the question away.
#[verifier::rlimit(50)]
pub proof fn law_only_yes_confirms(v: AppView, action: ConfirmView, key: KeyEvent)
    requires
        v.overlays.len() > 0,
        v.overlays.last() == (OverlayView::Confirm { action }),
    ensures
        ({
            let w = v.overlay_keyed(key);
            let yes = key.code == KeyCode::Char('y') || key.code == KeyCode::Char('Y');
            &&& !yes ==> only_uncovered(v, w)
            &&& (yes && !(action is CloseTab)) ==> {
                &&& w == (AppView { overlays: v.overlays.drop_last(), effects: w.effects, ..v })
                &&& w.effects.len() == v.effects.len() + 1
                &&& w.effects.drop_last() == v.effects
            }
            &&& (yes && action is DeleteSession) ==> w.effects.last() == EffectView::DeleteSession(
                action->DeleteSession_0,
            )
            &&& (yes && action is ArchiveSession) ==> w.effects.last()
                == EffectView::ArchiveSession(action->ArchiveSession_0)
            &&& (yes && action is UndoTurn) ==> w.effects.last() == (EffectView::UndoTurn {
                seed: action->seed,
                turn_id: action->turn_id,
            })
            &&& (yes && action is CloseTab) ==> w == (AppView {
                overlays: v.overlays.drop_last(),
                ..v
            }).closed(action->CloseTab_0)
        }),
{
    let w = v.overlay_keyed(key);
    if w.effects.len() == v.effects.len() + 1 {
        assert(w.effects.drop_last() =~= v.effects);
    }
}

proof fn lemma_listed(
    list: Seq<EntryView>,
    show_archived: bool,
    filter: Option<Seq<char>>,
    n: nat,
)
    requires
        n <= list.len() <= usize::MAX,
    ensures
        forall|k: int|
            #![trigger listed_to(list, show_archived, filter, n)[k]]
            0 <= k < listed_to(list, show_archived, filter, n).len() ==> {
                let at = listed_to(list, show_archived, filter, n)[k];
                at < n && listed(list[at as int], show_archived, filter)
            },
        forall|a: int, b: int|
            0 <= a < b < listed_to(list, show_archived, filter, n).len() ==> (
            #[trigger] listed_to(list, show_archived, filter, n)[a]) < (
            #[trigger] listed_to(list, show_archived, filter, n)[b]),
        forall|i: int|
            0 <= i < n && #[trigger] listed(list[i], show_archived, filter) ==> listed_to(
                list,
                show_archived,
                filter,
                n,
            ).contains(i as usize),
    decreases n,
{
    if n > 0 {
        let m = (n - 1) as nat;
        lemma_listed(list, show_archived, filter, m);
        let rest = listed_to(list, show_archived, filter, m);
        let all = listed_to(list, show_archived, filter, n);
        assert forall|k: int| 0 <= k < all.len() implies (#[trigger] all[k]) < n && listed(
            list[all[k] as int],
            show_archived,
            filter,
        ) by {
            if k < rest.len() {
                assert(all[k] == rest[k]);
            }
        }
        assert forall|i: int|
            0 <= i < n && #[trigger] listed(list[i], show_archived, filter) implies all.contains(
            i as usize,
        ) by {
            if i < m {
                assert(rest.contains(i as usize));
                let k = choose|k: int| 0 <= k < rest.len() && rest[k] == i as usize;
                assert(all[k] == i as usize);
            } else {
                assert(all.last() == i as usize);
            }
        }
        assert forall|a: int, b: int| 0 <= a < b < all.len() implies (#[trigger] all[a]) < (
        #[trigger] all[b]) by {
            assert(all[a] == rest[a]);
            if b < rest.len() {
                assert(all[b] == rest[b]);
            }
        }
    }
}

/// A session is in the list shown exactly where it is not hidden: not one
/// that was put away, unless those are asked for; not a passing one; and none
/// of another directory, where the list is kept to one. The order stays.
#[verifier::rlimit(50)]
pub proof fn law_list_hides_what_is_put_away(v: AppView, show_archived: bool, i: int)
    requires
        v.list.len() <= usize::MAX,
        0 <= i < v.list.len(),
    ensures
        v.shown_list(show_archived).contains(i as usize) <==> ({
            let e = v.list[i];
            &&& !e.ephemeral
            &&& show_archived || !e.archived
            &&& v.cwd_filter matches Some(f) ==> (e.cwd matches Some(d) && (d == f || starts_with(
                d,
                f.push('/'),
            )))
        }),
        forall|a: int, b: int|
            0 <= a < b < v.shown_list(show_archived).len() ==> (#[trigger] v.shown_list(
                show_archived,
            )[a]) < (#[trigger] v.shown_list(show_archived)[b]),
{
    lemma_listed(v.list, show_archived, v.cwd_filter, v.list.len());
    reveal_strlit("/");
    if v.cwd_filter is Some {
        assert(v.cwd_filter->0 + "/"@ =~= v.cwd_filter->0.push('/'));
    }
    let shown = listed(v.list[i], show_archived, v.cwd_filter);
    assert(shown ==> in_tree(v.list[i].cwd, v.cwd_filter));
    let all = v.shown_list(show_archived);
    if all.contains(i as usize) {
        let k = choose|k: int| 0 <= k < all.len() && all[k] == i as usize;
        assert(listed(v.list[all[k] as int], show_archived, v.cwd_filter));
    }
}

/// In the list of sessions the enter key opens the marked one: it is the one
/// shown, and it is attached to.
#[verifier::rlimit(50)]
pub proof fn law_enter_opens_the_marked(
    v: AppView,
    selected: usize,
    show_archived: bool,
    key: KeyEvent,
)
    requires
        v.overlays.len() > 0,
        v.overlays.last() == (OverlayView::SessionList { selected, show_archived }),
        v.tabs.len() < usize::MAX,
        key.code is Enter,
        selected < v.shown_list(show_archived).len(),
    ensures
        ({
            let seed = v.list[v.shown_list(show_archived)[selected as int] as int].seed;
            let w = v.overlay_keyed(key);
            &&& w.active_seed() == Some(seed)
            &&& w.effects.contains(EffectView::Attach(seed))
            &&& w.session_at(seed) is Some
        }),
{
    let seed = v.list[v.shown_list(show_archived)[selected as int] as int].seed;
    let b = v.uncovered();
    assert(b.shown_list(show_archived) == v.shown_list(show_archived));
    law_opening_shows_and_attaches(b, seed);
}

/// The keys of the list of sessions: the arrows move the mark by one and stay
/// in the list, `a` shows those put away or hides them, `r` fetches the list
/// again, `n` asks for a new session, escape and `q` close the list.
#[verifier::rlimit(50)]
pub proof fn law_list_keys(v: AppView, selected: usize, show_archived: bool, key: KeyEvent)
    requires
        v.overlays.len() > 0,
        v.overlays.last() == (OverlayView::SessionList { selected, show_archived }),
        v.list.len() <= usize::MAX,
    ensures
        ({
            let w = v.overlay_keyed(key);
            let n = v.shown_list(show_archived).len();
            let up = key.code is Up || key.code == KeyCode::Char('k');
            let down = key.code is Down || key.code == KeyCode::Char('j');
            &&& (key.code is Esc || key.code == KeyCode::Char('q')) ==> only_uncovered(v, w)
            &&& up ==> only_top(v, w) && w.overlays.last() == (OverlayView::SessionList {
                selected: (if selected == 0 {
                    0
                } else {
                    selected - 1
                }) as usize,
                show_archived,
            })
            &&& (down && selected + 1 < n) ==> only_top(v, w) && w.overlays.last() == (
            OverlayView::SessionList { selected: (selected + 1) as usize, show_archived })
            &&& (down && selected + 1 == n) ==> only_top(v, w) && w.overlays.last()
                == v.overlays.last()
            &&& key.code == KeyCode::Char('a') ==> only_top(v, w) && w.overlays.last() == (
            OverlayView::SessionList { selected, show_archived: !show_archived })
            &&& key.code == KeyCode::Char('r') ==> w == v.asking(EffectView::FetchSessionList)
            &&& key.code == KeyCode::Char('n') ==> {
                &&& w.overlays == v.overlays.drop_last()
                &&& w.effects == v.effects.push(
                    EffectView::CreateSession { command_id: v.fresh_id, cwd: v.default_cwd() },
                )
            }
        }),
{
    let b = v.uncovered();
    assert(b.shown_list(show_archived) == v.shown_list(show_archived));
    lemma_few_listed(v.list, show_archived, v.cwd_filter, v.list.len());
    lemma_covered(v, v.overlays.last());
    lemma_covered(v, OverlayView::SessionList { selected, show_archived: !show_archived });
    lemma_covered(
        v,
        OverlayView::SessionList {
            selected: (if selected == 0 {
                0
            } else {
                selected - 1
            }) as usize,
            show_archived,
        },
    );
    if selected < usize::MAX {
        lemma_covered(
            v,
            OverlayView::SessionList { selected: (selected + 1) as usize, show_archived },
        );
    }
    lemma_default_cwd(v, b);
}

/// A letter acts on the marked session: `x` asks whether to put it away, `D`
/// whether to delete it, `u` takes it back. None of them does more at once.
#[verifier::rlimit(50)]
pub proof fn law_list_letters_act_on_the_marked(
    v: AppView,
    selected: usize,
    show_archived: bool,
    key: KeyEvent,
)
    requires
        v.overlays.len() > 0,
        v.overlays.last() == (OverlayView::SessionList { selected, show_archived }),
        selected < v.shown_list(show_archived).len(),
    ensures
        ({
            let seed = v.list[v.shown_list(show_archived)[selected as int] as int].seed;
            let w = v.overlay_keyed(key);
            &&& key.code == KeyCode::Char('x') ==> w == v.covered(
                OverlayView::Confirm { action: ConfirmView::ArchiveSession(seed) },
            )
            &&& key.code == KeyCode::Char('D') ==> w == v.covered(
                OverlayView::Confirm { action: ConfirmView::DeleteSession(seed) },
            )
            &&& key.code == KeyCode::Char('u') ==> w == v.asking(EffectView::UnarchiveSession(seed))
        }),
{
    let b = v.uncovered();
    assert(b.shown_list(show_archived) == v.shown_list(show_archived));
    lemma_covered(v, v.overlays.last());
}

/// The home screen takes the same letters for its marked session, and its
/// arrows go round the list.
#[verifier::rlimit(50)]
pub proof fn law_home_keys(v: AppView, key: KeyEvent)
    requires
        v.tabs.len() < usize::MAX,
        v.list.len() <= usize::MAX,
        v.flags.home_selected < v.shown_list(v.flags.home_show_archived).len(),
    ensures
        ({
            let f = v.flags;
            let n = v.shown_list(f.home_show_archived).len();
            let seed = v.list[v.shown_list(f.home_show_archived)[f.home_selected as int] as int].seed;
            let w = v.home_keyed(key);
            &&& key.code is Enter ==> w.active_seed() == Some(seed) && w.effects.contains(
                EffectView::Attach(seed),
            )
            &&& (key.code is Up || key.code == KeyCode::Char('k')) ==> w.flags.home_selected == (
            if f.home_selected == 0 {
                n - 1
            } else {
                f.home_selected - 1
            }) && w.effects == v.effects
            &&& (key.code is Down || key.code == KeyCode::Char('j')) ==> w.flags.home_selected == (
            if f.home_selected + 1 == n {
                0
            } else {
                f.home_selected + 1
            }) && w.effects == v.effects
            &&& key.code == KeyCode::Char('x') ==> w == v.covered(
                OverlayView::Confirm { action: ConfirmView::ArchiveSession(seed) },
            )
            &&& key.code == KeyCode::Char('D') ==> w == v.covered(
                OverlayView::Confirm { action: ConfirmView::DeleteSession(seed) },
            )
            &&& key.code == KeyCode::Char('u') ==> w == v.asking(EffectView::UnarchiveSession(seed))
            &&& key.code == KeyCode::Char('r') ==> w == v.asking(EffectView::FetchSessionList)
            &&& key.code == KeyCode::Char('a') ==> {
                &&& w.flags.home_show_archived == !f.home_show_archived
                &&& w.flags.home_selected == 0
                &&& w.effects == v.effects
            }
        }),
{
    let f = v.flags;
    let n = v.shown_list(f.home_show_archived).len();
    let seed = v.list[v.shown_list(f.home_show_archived)[f.home_selected as int] as int].seed;
    lemma_listed(v.list, f.home_show_archived, v.cwd_filter, v.list.len());
    lemma_few_listed(v.list, f.home_show_archived, v.cwd_filter, v.list.len());
    law_opening_shows_and_attaches(v, seed);
    let at = f.home_selected as int;
    if at + 1 == n {
        assert((at + 1) % (n as int) == 0) by (nonlinear_arith)
            requires
                at + 1 == n,
                n > 0,
        ;
    } else {
        assert((at + 1) % (n as int) == at + 1) by (nonlinear_arith)
            requires
                0 <= at + 1 < n,
        ;
    }
}

proof fn lemma_few_listed(
    list: Seq<EntryView>,
    show_archived: bool,
    filter: Option<Seq<char>>,
    n: nat,
)
    ensures
        listed_to(list, show_archived, filter, n).len() <= n,
    decreases n,
{
    if n > 0 {
        lemma_few_listed(list, show_archived, filter, (n - 1) as nat);
    }
}

/// What a key does to a line being typed: a character comes to stand before
/// the cursor, the deleting keys take one character, the others only move.
pub proof fn law_line_keys(l: Line, key: KeyEvent)
    requires
        line_ok(l),
        l.cursor < usize::MAX,
    ensures
        ({
            let m = line_after(l, key);
            let left = l.input.take(l.cursor);
            let right = l.input.skip(l.cursor);
            &&& (key.code is Char && !key.modifiers.control) ==> {
                &&& m.input.take(m.cursor) == left.push(key.code->Char_0)
                &&& m.input.skip(m.cursor) == right
            }
            &&& (key.code is Backspace && left.len() > 0) ==> {
                &&& m.input.take(m.cursor) == left.drop_last()
                &&& m.input.skip(m.cursor) == right
            }
            &&& (key.code is Delete && right.len() > 0) ==> {
                &&& m.input.take(m.cursor) == left
                &&& m.input.skip(m.cursor) == right.skip(1)
            }
            &&& key.code is Left ==> m.input == l.input && m.cursor == (if l.cursor == 0 {
                0
            } else {
                l.cursor - 1
            })
            &&& key.code is Right ==> m.input == l.input && m.cursor == (if l.cursor
                == l.input.len() {
                l.cursor
            } else {
                l.cursor + 1
            })
            &&& key.code is Home ==> m == (Line { input: l.input, cursor: 0 })
            &&& key.code is End ==> m == (Line { input: l.input, cursor: l.input.len() as int })
        }),
{
    let m = line_after(l, key);
    let left = l.input.take(l.cursor);
    let right = l.input.skip(l.cursor);
    if key.code is Char && !key.modifiers.control {
        assert(m.input.take(m.cursor) =~= left.push(key.code->Char_0));
        assert(m.input.skip(m.cursor) =~= right);
    }
    if key.code is Backspace && left.len() > 0 {
        assert(m.input.take(m.cursor) =~= left.drop_last());
        assert(m.input.skip(m.cursor) =~= right);
    }
    if key.code is Delete && right.len() > 0 {
        assert(m.input.take(m.cursor) =~= left);
        assert(m.input.skip(m.cursor) =~= right.skip(1));
    }
}

/// A path typed for an attachment is uploaded to the session whose layer it
/// was typed in: not before enter, not when blank, and not once the session
/// is gone.
#[verifier::rlimit(50)]
pub proof fn law_attachment_is_uploaded(v: AppView, line: Line, seed: Seq<char>, key: KeyEvent)
    requires
        v.overlays.len() > 0,
        v.overlays.last() == (OverlayView::AttachPath { line, seed }),
    ensures
        ({
            let w = v.overlay_keyed(key);
            &&& key.code is Esc ==> only_uncovered(v, w)
            &&& (key.code is Enter && blank(line.input)) ==> only_uncovered(v, w)
            &&& (key.code is Enter && !blank(line.input) && v.session_at(seed) is Some) ==> {
                &&& w == (AppView { overlays: v.overlays.drop_last(), effects: w.effects, ..v })
                &&& w.effects.len() == v.effects.len() + 1
                &&& w.effects.drop_last() == v.effects
                &&& w.effects.last() is Upload
                &&& w.effects.last()->Upload_seed == seed
                &&& w.effects.last()->Upload_path == trim(line.input)
            }
            &&& (key.code is Enter && !blank(line.input) && v.session_at(seed) is None) ==> {
                &&& w.effects == v.effects
                &&& w.toasts.last().level == NoticeLevel::Error
                &&& occurs(w.toasts.last().text, seed)
            }
            &&& !(key.code is Esc || key.code is Enter) ==> {
                &&& only_top(v, w)
                &&& w.overlays.last() == (OverlayView::AttachPath {
                    line: line_after(line, key),
                    seed,
                })
            }
        }),
{
    let w = v.overlay_keyed(key);
    lemma_covered(v, OverlayView::AttachPath { line: line_after(line, key), seed });
    if w.effects.len() == v.effects.len() + 1 {
        assert(w.effects.drop_last() =~= v.effects);
    }
    lemma_held("附件目标会话已关闭："@, seed);
}

/// A directory typed for a new session is where it is asked for, if that is
/// absolute; a blank line asks for the usual place, and a relative one is
/// refused.
#[verifier::rlimit(50)]
pub proof fn law_typed_directory_is_used(v: AppView, line: Line, key: KeyEvent)
    requires
        v.overlays.len() > 0,
        v.overlays.last() == (OverlayView::CwdInput { line }),
    ensures
        ({
            let w = v.overlay_keyed(key);
            let dir = expanded(trim(line.input), v.home_dir);
            let absolute = dir.len() > 0 && dir[0] == '/';
            &&& key.code is Esc ==> only_uncovered(v, w)
            &&& (key.code is Enter && blank(line.input)) ==> w.effects == v.effects.push(
                EffectView::CreateSession { command_id: v.fresh_id, cwd: v.default_cwd() },
            )
            &&& (key.code is Enter && !blank(line.input) && absolute) ==> w.effects
                == v.effects.push(
                EffectView::CreateSession { command_id: v.fresh_id, cwd: Some(dir) },
            )
            &&& (key.code is Enter && !blank(line.input) && !absolute) ==> {
                &&& w.effects == v.effects
                &&& w.toasts.last().level == NoticeLevel::Error
                &&& occurs(w.toasts.last().text, dir)
            }
            &&& key.code is Enter ==> w.overlays == v.overlays.drop_last()
        }),
{
    let b = v.uncovered();
    lemma_default_cwd(v, b);
    let dir = expanded(trim(line.input), v.home_dir);
    lemma_absolute(dir);
    lemma_held("cwd 需为绝对路径："@, dir);
}

proof fn lemma_absolute(dir: Seq<char>)
    ensures
        starts_with(dir, "/"@) == (dir.len() > 0 && dir[0] == '/'),
{
    reveal_strlit("/");
    if dir.len() > 0 {
        assert(dir.take(1)[0] == dir[0]);
        if dir[0] == '/' {
            assert(dir.take(1) =~= "/"@);
        }
    }
}

proof fn lemma_held(a: Seq<char>, b: Seq<char>)
    ensures
        occurs(a + b, b),
{
    law_finding_text(a + b, b);
    assert(a + b =~= a + b + Seq::<char>::empty());
}

/// While a setting is typed, enter hands over what was typed and escape drops
/// it; the other keys edit it.
#[verifier::rlimit(50)]
pub proof fn law_typed_setting_is_handed_over(v: AppView, st: SettingsView, key: KeyEvent)
    requires
        v.overlays.len() > 0,
        v.overlays.last() == OverlayView::Settings(st),
        st.editing is Some,
    ensures
        ({
            let w = v.overlay_keyed(key);
            let l = st.editing->0;
            &&& key.code is Esc ==> only_top(v, w) && w.overlays.last() == OverlayView::Settings(
                SettingsView { editing: None, ..st },
            )
            &&& key.code is Enter ==> {
                &&& w.effects == v.effects.push(
                    EffectView::Settings(SettingsOpView::Commit(l.input)),
                )
                &&& w.overlays.last() == OverlayView::Settings(SettingsView { editing: None, ..st })
            }
            &&& !(key.code is Esc || key.code is Enter) ==> only_top(v, w) && w.overlays.last()
                == OverlayView::Settings(
                SettingsView { editing: Some(line_after(l, key)), ..st },
            )
        }),
{
    let l = st.editing->0;
    lemma_covered(v, OverlayView::Settings(SettingsView { editing: None, ..st }));
    lemma_covered(
        v,
        OverlayView::Settings(SettingsView { editing: Some(line_after(l, key)), ..st }),
    );
}

/// The keys of the settings page while nothing is typed: each asks for its
/// change, and for nothing else; escape and `q` close the page.
#[verifier::rlimit(50)]
pub proof fn law_settings_keys(v: AppView, st: SettingsView, key: KeyEvent)
    requires
        v.overlays.len() > 0,
        v.overlays.last() == OverlayView::Settings(st),
        st.editing is None,
    ensures
        ({
            let w = v.overlay_keyed(key);
            let asks = |op: SettingsOpView| w == v.asking(EffectView::Settings(op));
            &&& (key.code is Esc || key.code == KeyCode::Char('q')) ==> only_uncovered(v, w)
            &&& (key.code is Up || key.code == KeyCode::Char('k')) ==> asks(
                SettingsOpView::MoveUp(1),
            )
            &&& (key.code is Down || key.code == KeyCode::Char('j')) ==> asks(
                SettingsOpView::MoveDown(1),
            )
            &&& (key.code is Enter && st.kind is Toggle) ==> asks(SettingsOpView::Flip)
            &&& (key.code is Enter && st.kind is Enum) ==> asks(SettingsOpView::CycleOn)
            &&& (key.code is Enter && st.kind is Port) ==> asks(SettingsOpView::PortActivate)
            &&& (key.code is Enter && (st.kind is Text || st.kind is Secret || st.kind is Number
                || st.kind is Float)) ==> asks(SettingsOpView::StartEdit)
            &&& (key.code is Left && !(st.kind is Port)) ==> asks(SettingsOpView::CycleBack)
            &&& (key.code is Right && !(st.kind is Port)) ==> asks(SettingsOpView::CycleOn)
            &&& (key.code is Left && st.kind is Port) ==> asks(SettingsOpView::PortBack)
            &&& (key.code is Right && st.kind is Port) ==> asks(SettingsOpView::PortOn)
            &&& (key.code == KeyCode::Char('s') || key.code == KeyCode::Char('S')) ==> asks(
                SettingsOpView::Save,
            )
            &&& key.code == KeyCode::Char('r') ==> w == v.asking(EffectView::FetchConfig)
            &&& (key.code == KeyCode::Char('1') && st.on_permission_level) ==> asks(
                SettingsOpView::PermissionLevel(1),
            )
            &&& (key.code == KeyCode::Char('4') && st.on_permission_level) ==> asks(
                SettingsOpView::PermissionLevel(4),
            )
            &&& (key.code == KeyCode::Char('2') && st.on_permission_level) ==> asks(
                SettingsOpView::PermissionLevel(2),
            )
            &&& (key.code == KeyCode::Char('3') && st.on_permission_level) ==> asks(
                SettingsOpView::PermissionLevel(3),
            )
            &&& (key.code == KeyCode::Char('1') && !st.on_permission_level) ==> w == v
        }),
{
    lemma_covered(v, OverlayView::Settings(st));
}

/// The thinking layer scrolls by its keys, never past its last line, and `e`
/// hands its text to the pager; escape closes it.
#[verifier::rlimit(50)]
pub proof fn law_thinking_scrolls(
    v: AppView,
    seed: Seq<char>,
    scroll: usize,
    body: Seq<char>,
    key: KeyEvent,
)
    requires
        v.overlays.len() > 0,
        v.overlays.last() == (OverlayView::Thinking { seed, scroll, body }),
        scroll < lines(body).len() <= usize::MAX,
    ensures
        ({
            let w = v.overlay_keyed(key);
            let last = lines(body).len() - 1;
            let at = |n: int|
                w == v.uncovered().covered(
                    OverlayView::Thinking { seed, scroll: n as usize, body },
                );
            &&& key.code is Esc ==> only_uncovered(v, w)
            &&& (key.code is Up || key.code == KeyCode::Char('k')) ==> at(
                if scroll == 0 {
                    0
                } else {
                    scroll - 1
                },
            )
            &&& (key.code is Down || key.code == KeyCode::Char('j')) ==> at(
                if scroll == last {
                    last
                } else {
                    scroll + 1
                },
            )
            &&& key.code is PageUp ==> at(
                if scroll < 20 {
                    0
                } else {
                    scroll - 20
                },
            )
            &&& key.code is PageDown ==> at(
                if scroll + 20 > last {
                    last
                } else {
                    scroll + 20
                },
            )
            &&& key.code == KeyCode::Char('e') ==> w.pager == Some(body) && w.overlays == v.overlays
        }),
{
    lemma_covered(v, v.overlays.last());
}

/// The history opens and closes the details of its marked turn.
#[verifier::rlimit(50)]
pub proof fn law_history_opens_its_turn(
    v: AppView,
    selected: usize,
    detail: bool,
    scroll: usize,
    key: KeyEvent,
)
    requires
        v.overlays.len() > 0,
        v.overlays.last() == (OverlayView::History { selected, detail, scroll }),
    ensures
        ({
            let w = v.overlay_keyed(key);
            &&& key.code is Enter ==> only_top(v, w) && w.overlays.last() == (OverlayView::History {
                selected,
                detail: true,
                scroll,
            })
            &&& (key.code is Esc && detail) ==> only_top(v, w) && w.overlays.last() == (
            OverlayView::History { selected, detail: false, scroll })
            &&& (key.code is Esc && !detail) ==> only_uncovered(v, w)
        }),
{
    lemma_covered(v, OverlayView::History { selected, detail: true, scroll });
    lemma_covered(v, OverlayView::History { selected, detail: false, scroll });
}

/// Any key closes the help.
#[verifier::rlimit(50)]
pub proof fn law_any_key_closes_help(v: AppView, key: KeyEvent)
    requires
        v.overlays.len() > 0,
        v.overlays.last() is Help,
    ensures
        only_uncovered(v, v.overlay_keyed(key)),
{
}

/// What is thought in a round is gathered: the text of every block of
/// thinking that says something, and of no other block.
pub proof fn law_thinking_is_gathered(blocks: Seq<Block>, n: nat, text: Seq<char>)
    requires
        n <= blocks.len(),
    ensures
        thinking_in_blocks(blocks, n).contains(text) <==> (text.len() > 0 && exists|i: int|
            0 <= i < n && (#[trigger] blocks[i]).kind == TimelineBlockKind::Reasoning
                && blocks[i].text@ == text),
    decreases n,
{
    if n > 0 {
        let m = (n - 1) as nat;
        law_thinking_is_gathered(blocks, m, text);
        let rest = thinking_in_blocks(blocks, m);
        let all = thinking_in_blocks(blocks, n);
        let b = blocks[n - 1];
        if rest.contains(text) {
            let k = choose|k: int| 0 <= k < rest.len() && rest[k] == text;
            assert(all[k] == text);
        }
        if all.contains(text) && !rest.contains(text) {
            let k = choose|k: int| 0 <= k < all.len() && all[k] == text;
            assert(k == rest.len());
            assert(blocks[n - 1].text@ == text);
        }
        if b.kind == TimelineBlockKind::Reasoning && b.text@.len() > 0 {
            assert(all.last() == b.text@);
        }
    }
}

/// The thinking of several rounds is that of each, in their order.
pub proof fn law_thinking_keeps_the_order(rounds: Seq<Round>, r: Round)
    ensures
        thinking_in_rounds(rounds.push(r), rounds.len() + 1) == thinking_in_rounds(
            rounds,
            rounds.len(),
        ) + thinking_in_blocks(r.blocks@, r.blocks@.len()),
        thinking_in_rounds(rounds, 0) == Seq::<Seq<char>>::empty(),
{
    lemma_thinking_front(rounds, rounds.push(r), rounds.len());
}

proof fn lemma_thinking_front(a: Seq<Round>, b: Seq<Round>, n: nat)
    requires
        n <= a.len(),
        n <= b.len(),
        forall|i: int| 0 <= i < n ==> #[trigger] a[i] == b[i],
    ensures
        thinking_in_rounds(a, n) == thinking_in_rounds(b, n),
    decreases n,
{
    if n > 0 {
        lemma_thinking_front(a, b, (n - 1) as nat);
        assert(a[n - 1] == b[n - 1]);
    }
}

} // verus!
