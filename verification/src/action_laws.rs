//! What the answers to what was asked for change, and what pasting, the mouse
//! and the clock do.

use crate::app::AppView;
use crate::app_actions::{newest_to, reject_reason, state_name};
use crate::app_events::{creates_without, is_creating};
use crate::app_input::{fresh_creates, fresh_toasts, unbroken};
use crate::composer::ContentRef;
use crate::composer_laws::{before, behind, law_inserted_text_is_kept};
use crate::dialog_laws::shows_session;
use crate::event_laws::{is_session, lemma_held_last, lemma_held_more, lemma_texts};
use crate::message::{
    AckStatus, ActionResult, CommandAck, CommandState, EffectView, EntryView, MouseEvent,
    InteractionKind, NoticeLevel, PendingInteraction, SessionBootstrap, ToastView,
};
use crate::path::named_file;
use crate::session::{queued, Dashboard, SessionView};
use crate::tab_laws::law_opening_shows_and_attaches;
use crate::text::occurs;
use crate::text_laws::law_finding_text;
use crate::timeline::TimelineModel;
use vstd::prelude::*;

verus! {

proof fn lemma_text_within(a: Seq<char>, b: Seq<char>, c: Seq<char>)
    ensures
        occurs(a + b + c, a),
        occurs(a + b + c, b),
        occurs(a + b + c, c),
        occurs(a + b, a),
        occurs(a + b, b),
{
    law_finding_text(a + b + c, a);
    law_finding_text(a + b + c, c);
    assert(a + b + c =~= Seq::<char>::empty() + a + (b + c));
    assert(a + b + c =~= a + b + c + Seq::<char>::empty());
    law_finding_text(a + b + c, b);
    law_finding_text(a + b, a);
    law_finding_text(a + b, b);
    assert(a + b =~= a + b + Seq::<char>::empty());
    assert(a + b =~= Seq::<char>::empty() + a + b);
}

/// What is known of a session from its snapshot: what it is doing, its model
/// and what it used. The side panel is fetched with it.
#[verifier::rlimit(50)]
pub proof fn law_snapshot_is_taken(v: AppView, seed: Seq<char>, i: int, b: SessionBootstrap)
    requires
        is_session(v, seed, i),
        b.interactions@.len() == 0,
    ensures
        ({
            let w = v.bootstrap_seen(seed, b);
            let t = w.sessions[i];
            &&& t.activity == Some(b.activity)
            &&& t.usage == b.usage
            &&& (b.model matches Some(m) ==> t.model == Some(m@))
            &&& b.model is None ==> t.model is None
            &&& t.block_cache is None
            &&& t.timeline == v.sessions[i].timeline
            &&& t.composer == v.sessions[i].composer
            &&& t.permissions == v.sessions[i].permissions
            &&& w.effects == (if v.fetching.contains(seed) {
                v.effects
            } else {
                v.effects.push(EffectView::FetchDashboard(seed))
            })
        }),
{
}

/// A permission that a snapshot tells of is asked, unless it was answered here
/// or is asked already.
#[verifier::rlimit(50)]
pub proof fn law_snapshot_permission_is_asked(
    v: AppView,
    seed: Seq<char>,
    i: int,
    p: PendingInteraction,
)
    requires
        is_session(v, seed, i),
        p.kind == InteractionKind::Permission,
        p.call_id@.len() > 0,
        !v.suppressed.contains(p.interaction_id@),
        !v.suppressed.contains(p.call_id@),
    ensures
        ({
            let s = v.sessions[i];
            let t = v.interaction_restored(seed, p).sessions[i];
            &&& queued(s.permissions, p.call_id@) ==> t == s
            &&& !queued(s.permissions, p.call_id@) ==> {
                &&& t.permissions.len() == s.permissions.len() + 1
                &&& t.permissions.drop_last() == s.permissions
                &&& t.permissions.last().tool_call_id == p.call_id@
                &&& !t.permissions.last().trust_folder
            }
        }),
{
    let s = v.sessions[i];
    let t = v.interaction_restored(seed, p).sessions[i];
    if !queued(s.permissions, p.call_id@) {
        assert(t.permissions.drop_last() =~= s.permissions);
    }
}

/// A rejected command is told of with its reason. One to a session leaves the
/// note in its line; one that was to make a session gives the draft back.
#[verifier::rlimit(50)]
pub proof fn law_rejection_is_told(
    v: AppView,
    seed: Option<Seq<char>>,
    i: int,
    label: Seq<char>,
    ack: CommandAck,
)
    requires
        v.draft.ok(),
        seed is Some ==> is_session(v, seed->0, i),
    ensures
        ({
            let w = v.command_rejected(seed, label, ack);
            let note = w.toasts.last();
            &&& note.level == NoticeLevel::Error
            &&& occurs(note.text, label)
            &&& occurs(note.text, reject_reason(ack))
            &&& ack.message is Some ==> reject_reason(ack) == ack.message->0@
            &&& (ack.message is None && ack.code is Some) ==> reject_reason(ack) == ack.code->0@
            &&& seed is Some ==> {
                &&& w.sessions[i].composer.input == note.text
                &&& w.creates == v.creates
                &&& w.prompt == v.prompt
            }
            &&& seed is None ==> {
                &&& !is_creating(w.creates, ack.command_id@)
                &&& w.prompt is None
                &&& w.sessions == v.sessions
                &&& v.prompt is Some ==> before(w.draft) == before(v.draft) + v.prompt->0
                &&& v.prompt is Some ==> behind(w.draft) == behind(v.draft)
                &&& v.prompt is None ==> w.draft == v.draft
            }
            &&& w.effects == v.effects
        }),
{
    let w = v.command_rejected(seed, label, ack);
    let r = reject_reason(ack);
    let tail = if seed is None {
        "（会话未创建）"@
    } else {
        Seq::<char>::empty()
    };
    let mid = " 被拒绝："@;
    lemma_text_within(label + mid, r, tail);
    lemma_text_within(label, mid + r + tail, Seq::empty());
    assert(label + mid + r + tail =~= label + (mid + r + tail));
    lemma_created(v.creates, ack.command_id@);
    if v.prompt is Some {
        law_inserted_text_is_kept(v.draft, v.prompt->0);
    }
}

proof fn lemma_created(v: Seq<(Seq<char>, u64)>, id: Seq<char>)
    ensures
        !is_creating(creates_without(v, id), id),
    decreases v.len(),
{
    let all = creates_without(v, id);
    if v.len() > 0 {
        lemma_created(v.drop_last(), id);
        let rest = creates_without(v.drop_last(), id);
        assert forall|k: int| 0 <= k < all.len() implies (#[trigger] all[k]).0 != id by {
            if k < rest.len() {
                assert(all[k] == rest[k]);
            }
        }
    }
}

/// A command that was taken changes nothing by itself.
#[verifier::rlimit(50)]
pub proof fn law_accepted_command_changes_nothing(
    v: AppView,
    seed: Option<String>,
    label: String,
    ack: CommandAck,
)
    requires
        ack.status != AckStatus::Rejected,
    ensures
        v.action_seen(ActionResult::CommandAck { seed, label, result: Ok(ack) }) == v,
{
}

proof fn lemma_newest(list: Seq<EntryView>, n: nat)
    requires
        0 < n <= list.len(),
    ensures
        0 <= newest_to(list, n) < n,
        forall|k: int|
            0 <= k < n ==> (#[trigger] list[k]).created_at <= list[newest_to(list, n)].created_at,
    decreases n,
{
    if n > 1 {
        lemma_newest(list, (n - 1) as nat);
    }
}

/// The list that comes is the list shown. While a session of ours is being
/// made, the newest in the list, if it has no tab yet, is taken for it and
/// opened; otherwise no tab opens.
#[verifier::rlimit(50)]
pub proof fn law_list_is_shown(v: AppView, list: Seq<EntryView>)
    requires
        v.tabs.len() < usize::MAX,
    ensures
        ({
            let w = v.list_seen(list);
            &&& w.list == list
            &&& w.flags.list_at == Some(v.flags.now)
            &&& (v.creates.len() == 0 || list.len() == 0) ==> {
                &&& w.tabs == v.tabs
                &&& w.effects == v.effects
                &&& w.sessions == v.sessions
            }
            &&& (v.creates.len() > 0 && list.len() > 0) ==> exists|k: int|
                #![trigger list[k]]
                0 <= k < list.len() && (forall|j: int|
                    0 <= j < list.len() ==> (#[trigger] list[j]).created_at <= list[k].created_at)
                    && (!v.tabs.contains(list[k].seed) ==> w.active_seed() == Some(list[k].seed)
                    && w.creates.len() == 0) && (v.tabs.contains(list[k].seed) ==> w.tabs == v.tabs)
        }),
{
    let w = v.list_seen(list);
    if v.creates.len() > 0 && list.len() > 0 {
        let n = newest_to(list, list.len());
        lemma_newest(list, list.len());
        let seed = list[n].seed;
        let b = AppView { creates: Seq::empty(), ..v };
        law_opening_shows_and_attaches(b, seed);
        let o = b.opened(seed);
        assert(o.prompt_transferred().tabs == o.tabs);
        assert(o.prompt_transferred().flags == o.flags);
        assert(o.creates == b.creates);
        assert(w.creates == v.newest_adopted(list).creates);
        assert(list[n].seed == seed);
    }
}

/// An uploaded file is attached to the message being written in its session,
/// by its name; the user is told where the session is gone.
#[verifier::rlimit(50)]
pub proof fn law_uploaded_file_is_attached(
    v: AppView,
    seed: Seq<char>,
    path: Seq<char>,
    content: ContentRef,
    i: int,
)
    ensures
        ({
            let w = v.uploaded(seed, path, content);
            &&& is_session(v, seed, i) ==> {
                let c = v.sessions[i].composer;
                let d = w.sessions[i].composer;
                &&& d.attachments.len() == c.attachments.len() + 1
                &&& d.attachments.drop_last() == c.attachments
                &&& d.attachments.last().content == content
                &&& named_file(path) is Some ==> d.attachments.last().path == named_file(path)->0
                &&& named_file(path) is None ==> d.attachments.last().path == path
                &&& d.input == c.input
                &&& w.toasts.last().level == NoticeLevel::Info
            }
            &&& v.session_at(seed) is None ==> {
                &&& w.sessions == v.sessions
                &&& w.toasts.last().level == NoticeLevel::Error
                &&& occurs(w.toasts.last().text, seed)
            }
        }),
{
    let w = v.uploaded(seed, path, content);
    if is_session(v, seed, i) {
        let c = v.sessions[i].composer;
        assert(w.sessions[i].composer.attachments.drop_last() =~= c.attachments);
    }
    lemma_text_within("附件已上传但目标会话已关闭："@, seed, Seq::empty());
}

/// Saved settings are told of, and read again; those that were not saved are
/// told of with the reason. Either way nothing is being saved any more.
#[verifier::rlimit(50)]
pub proof fn law_saved_settings_are_read_again(v: AppView, result: Result<(), String>)
    ensures
        ({
            let label = "设置"@;
            let w = v.config_written(label, result);
            &&& !w.flags.settings_saving
            &&& result is Ok ==> {
                &&& w.effects.last() == EffectView::FetchConfig
                &&& w.toasts.last().level == NoticeLevel::Info
            }
            &&& result matches Err(e) ==> {
                &&& w.effects == v.effects
                &&& w.toasts.last().level == NoticeLevel::Error
                &&& occurs(w.toasts.last().text, e@)
            }
        }),
{
    if let Err(e) = result {
        lemma_text_within("设置"@ + ": "@, e@, Seq::empty());
    }
}

/// A command that succeeded has its session's transcript read again; one that
/// did not is told of.
#[verifier::rlimit(50)]
pub proof fn law_receipt_is_told(
    v: AppView,
    label: Seq<char>,
    seed: Option<Seq<char>>,
    result: Result<CommandState, String>,
)
    ensures
        ({
            let w = v.receipt_seen(label, seed, result);
            let note = w.toasts.last();
            &&& occurs(note.text, label)
            &&& (result matches Ok(st) ==> (st is Succeeded ==> note.level == NoticeLevel::Info))
            &&& (result matches Ok(st) ==> (st is Succeeded && seed is Some ==> w.effects
                == v.effects.push(EffectView::Rebaseline(seed->0))))
            &&& (result matches Ok(st) ==> (!(st is Succeeded) ==> note.level == NoticeLevel::Warn
                && w.effects == v.effects))
            &&& (result matches Err(e) ==> note.level == NoticeLevel::Error && w.effects
                == v.effects && occurs(note.text, e@))
            &&& w.sessions == v.sessions
        }),
{
    match result {
        Ok(st) => {
            if st is Succeeded {
                lemma_text_within(label, " 完成"@, Seq::empty());
            } else {
                lemma_text_within(label, ": "@, state_name(st));
            }
        },
        Err(e) => {
            lemma_text_within(label, ": "@, e@);
        },
    }
}

/// A side panel that came is shown if it says anything, else the old one
/// stays; it may be fetched again either way.
#[verifier::rlimit(50)]
pub proof fn law_side_panel_is_shown(
    v: AppView,
    seed: Seq<char>,
    i: int,
    result: Result<Dashboard, String>,
)
    requires
        is_session(v, seed, i),
    ensures
        ({
            let w = v.dashboard_seen(seed, result);
            &&& !w.fetching.contains(seed)
            &&& forall|x: Seq<char>| v.fetching.contains(x) && x != seed ==> #[trigger]
                w.fetching.contains(x)
            &&& (result matches Ok(d) ==> (d.tasks@.len() > 0 ==> w.sessions[i].dashboard
                == Some(d)))
            &&& (result matches Ok(d) ==> (d.recent_edits@.len() > 0 ==> w.sessions[i].dashboard
                == Some(d)))
            &&& (result matches Ok(d) ==> (d.documents@.len() > 0 ==> w.sessions[i].dashboard
                == Some(d)))
            &&& (result matches Ok(d) ==> (d.tasks@.len() == 0 && d.recent_edits@.len() == 0
                && d.documents@.len() == 0 ==> w.sessions[i] == v.sessions[i]))
            &&& result is Err ==> w.sessions == v.sessions
        }),
{
    let gone = seq![seed];
    assert(gone[0] == seed);
    lemma_texts(v.fetching, gone, seed);
    let w = v.dashboard_seen(seed, result);
    assert forall|x: Seq<char>| v.fetching.contains(x) && x != seed implies #[trigger]
        w.fetching.contains(x) by {
        lemma_texts(v.fetching, gone, x);
    }
}

/// Older turns that came make the timeline longer in front; either way no
/// more are being loaded, and the scrolling stays.
#[verifier::rlimit(50)]
pub proof fn law_older_turns_are_taken(
    v: AppView,
    seed: Seq<char>,
    i: int,
    result: Result<TimelineModel, String>,
)
    requires
        is_session(v, seed, i),
    ensures
        ({
            let t = v.older_seen(seed, result).sessions[i];
            &&& !t.loading_older
            &&& (result matches Ok(m) ==> t.timeline == m@ && t.block_cache is None)
            &&& result is Err ==> t.timeline == v.sessions[i].timeline
            &&& t.scroll == v.sessions[i].scroll
            &&& t.composer == v.sessions[i].composer
        }),
{
}

/// A transcript read again is taken, and shown from its end.
#[verifier::rlimit(50)]
pub proof fn law_transcript_read_again_is_taken(
    v: AppView,
    seed: String,
    i: int,
    timeline: TimelineModel,
    e: String,
)
    requires
        is_session(v, seed@, i),
    ensures
        ({
            let w = v.action_seen(ActionResult::Rebaseline { seed, result: Ok(timeline) });
            let t = w.sessions[i];
            &&& t.timeline == timeline@
            &&& t.scroll.follow
            &&& t.block_cache is None
            &&& t.composer == v.sessions[i].composer
            &&& w.effects == v.effects
        }),
        v.action_seen(ActionResult::Rebaseline { seed, result: Err(e) }) == v,
{
}

/// An export that was written is told of with its path, and one that was not
/// with the reason.
#[verifier::rlimit(50)]
pub proof fn law_export_is_told(v: AppView, path: String, turn: bool, e: String)
    ensures
        ({
            let w = v.action_seen(ActionResult::Written { path, turn, result: Ok(()) });
            &&& w.toasts.last().level == NoticeLevel::Info
            &&& occurs(w.toasts.last().text, path@)
            &&& w.effects == v.effects
        }),
        ({
            let w = v.action_seen(ActionResult::Written { path, turn, result: Err(e) });
            &&& w.toasts.last().level == NoticeLevel::Error
            &&& occurs(w.toasts.last().text, e@)
            &&& w.effects == v.effects
        }),
{
    lemma_text_within("已导出回合："@, path@, Seq::empty());
    lemma_text_within("已导出："@, path@, Seq::empty());
    lemma_text_within("导出失败："@, e@, Seq::empty());
}

/// The configuration that was read is kept as it is.
#[verifier::rlimit(50)]
pub proof fn law_configuration_is_kept(v: AppView, text: String)
    ensures
        v.action_seen(ActionResult::ConfigLoaded(Ok(text))) == (AppView {
            config: Some(text@),
            ..v
        }),
{
}

/// Without line breaks a text keeps every other character, in order.
pub proof fn law_unbroken_keeps_the_rest(s: Seq<char>, c: char)
    ensures
        unbroken(Seq::empty()) == Seq::<char>::empty(),
        (c == '\n' || c == '\r') ==> unbroken(s.push(c)) == unbroken(s),
        (c != '\n' && c != '\r') ==> unbroken(s.push(c)) == unbroken(s).push(c),
{
    assert(s.push(c).drop_last() =~= s);
}

/// Pasted text goes to what takes text: the path or the setting being typed,
/// without line breaks; the answer being typed; else the message, before the
/// cursor and as it is. On the home screen it goes to the draft. It never
/// sends anything.
#[verifier::rlimit(50)]
pub proof fn law_pasted_text_is_typed(v: AppView, i: int, text: Seq<char>)
    requires
        v.draft.ok(),
        shows_session(v, i) ==> v.sessions[i].composer.ok(),
    ensures
        ({
            let w = v.pasted(text);
            let free = v.overlays.len() == 0 && v.inspect is None;
            &&& w.effects == v.effects
            &&& w.toasts == v.toasts
            &&& (free && shows_session(v, i)) ==> {
                let s = v.sessions[i];
                let t = w.sessions[i];
                &&& (s.ask is Some && s.ask->0.editing is Some) ==> t.ask->0.input == s.ask->0.input
                    + text && t.composer == s.composer
                &&& (s.ask is None && s.plan is Some && s.plan->0.entering) ==> t.plan->0.message
                    == s.plan->0.message + text && t.composer == s.composer
                &&& (s.ask is None && s.plan is None) ==> {
                    &&& before(t.composer) == before(s.composer) + text
                    &&& behind(t.composer) == behind(s.composer)
                }
            }
            &&& (v.overlays.len() == 0 && v.tabs.len() == 0) ==> {
                &&& before(w.draft) == before(v.draft) + text
                &&& behind(w.draft) == behind(v.draft)
            }
            &&& (v.overlays.len() > 0 && v.overlays.last() is AttachPath) ==> {
                let o = v.overlays.last();
                &&& w.sessions == v.sessions
                &&& w.overlays.last() is AttachPath
                &&& w.overlays.last()->AttachPath_seed == o->AttachPath_seed
                &&& w.overlays.last()->AttachPath_line.input == o->AttachPath_line.input + unbroken(
                    text,
                )
            }
        }),
{
    law_inserted_text_is_kept(v.draft, text);
    if shows_session(v, i) {
        law_inserted_text_is_kept(v.sessions[i].composer, text);
    }
}

/// The wheel scrolls the transcript the way it is turned, and a click on the
/// first row is one on the tabs; nothing else happens.
#[verifier::rlimit(50)]
pub proof fn law_mouse_scrolls(v: AppView, m: MouseEvent)
    ensures
        m.kind is ScrollUp ==> v.moused(m) == v.asking(EffectView::ScrollUp(3)),
        m.kind is ScrollDown ==> v.moused(m) == v.asking(EffectView::ScrollDown(3)),
        (m.kind is LeftDown && m.row == 0) ==> v.moused(m) == v.asking(
            EffectView::ClickTab(m.column),
        ),
        (m.kind is LeftDown && m.row > 0) ==> v.moused(m) == v,
        m.kind is Other ==> v.moused(m) == v,
{
}

/// Notices go when they are older than six seconds and nothing older is
/// before them; the newer ones stay, in order.
pub proof fn law_old_notices_go(v: Seq<ToastView>, now: u64)
    ensures
        exists|k: int|
            0 <= k <= v.len() && fresh_toasts(v, now) == #[trigger] v.skip(k) && (forall|j: int|
                0 <= j < k ==> now - (#[trigger] v[j]).at > 6000) && (k < v.len() ==> now - v[k].at
                <= 6000),
    decreases v.len(),
{
    if v.len() > 0 && now - v[0].at > 6000 {
        let r = v.drop_first();
        law_old_notices_go(r, now);
        let k = choose|k: int|
            0 <= k <= r.len() && fresh_toasts(r, now) == #[trigger] r.skip(k) && (forall|j: int|
                0 <= j < k ==> now - (#[trigger] r[j]).at > 6000) && (k < r.len() ==> now - r[k].at
                <= 6000);
        assert(r.skip(k) =~= v.skip(k + 1));
        assert forall|j: int| 0 <= j < k + 1 implies now - (#[trigger] v[j]).at > 6000 by {
            if j > 0 {
                assert(v[j] == r[j - 1]);
            }
        }
        if k + 1 < v.len() {
            assert(v[k + 1] == r[k]);
        }
        assert(fresh_toasts(v, now) == v.skip(k + 1));
    } else {
        assert(v.skip(0) =~= v);
    }
}

/// A session is waited for as long as fifteen seconds have not gone by.
pub proof fn law_waiting_ends(v: Seq<(Seq<char>, u64)>, now: u64, x: (Seq<char>, u64))
    ensures
        fresh_creates(v, now).contains(x) <==> (v.contains(x) && now - x.1 < 15000),
    decreases v.len(),
{
    if v.len() > 0 {
        law_waiting_ends(v.drop_last(), now, x);
        lemma_held_last(v, x);
        lemma_held_more(fresh_creates(v.drop_last(), now), v.last(), x);
    }
}

/// As the clock goes on, the quit key is forgotten after three seconds, and
/// the list of sessions is fetched where it is shown and is old.
#[verifier::rlimit(50)]
pub proof fn law_clock_goes_on(v: AppView)
    ensures
        ({
            let w = v.ticked();
            &&& (v.flags.quit_armed matches Some(t) ==> (v.flags.now - t > 3000
                ==> w.flags.quit_armed is None))
            &&& (v.flags.quit_armed matches Some(t) ==> (v.flags.now - t <= 3000
                ==> w.flags.quit_armed == Some(t)))
            &&& w.flags.last_tick == v.flags.now
            &&& w.flags.quit == v.flags.quit
            &&& w.sessions == v.sessions
            &&& w.tabs == v.tabs
            &&& (v.tabs.len() == 0 && (v.flags.list_at is None || v.flags.now - v.flags.list_at->0
                > 3000)) ==> w.effects == v.effects.push(EffectView::FetchSessionList)
            &&& (v.tabs.len() == 0 && v.flags.list_at is Some && v.flags.now - v.flags.list_at->0
                <= 3000) ==> w.effects == v.effects
            &&& (v.tabs.len() > 0 && v.creates.len() == 0) ==> w.effects == v.effects
        }),
{
    assert(v.creates.len() == 0 ==> fresh_creates(v.creates, v.flags.now).len() == 0);
}

/// A new size throws the drawn blocks away, and nothing else.
#[verifier::rlimit(50)]
pub proof fn law_new_size_draws_again(v: AppView, i: int)
    requires
        0 <= i < v.sessions.len(),
    ensures
        v.caches_dropped().sessions[i] == (SessionView { block_cache: None, ..v.sessions[i] }),
        v.caches_dropped().sessions.len() == v.sessions.len(),
        v.caches_dropped() == (AppView { sessions: v.caches_dropped().sessions, ..v }),
{
}

} // verus!
