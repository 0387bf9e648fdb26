//! What typing does: where a key puts its character, what it deletes, and how
//! far it moves.

use crate::app::AppView;
use crate::app_composer::{composed, ComposerOp};
use crate::composer::{space_end, space_start, word_end, word_start, ComposerView};
use crate::dialog_laws::shows_session;
use crate::keymap::{KeyCode, KeyEvent};
use crate::message::{EffectView, NoticeLevel};
use crate::paste_guard::is_flood;
use crate::text::{blank, starts_with, trim, white_space};
use vstd::prelude::*;

verus! {

/// The text before the cursor.
pub open spec fn before(c: ComposerView) -> Seq<char> {
    c.input.take(c.cursor)
}

/// The text behind the cursor.
pub open spec fn behind(c: ComposerView) -> Seq<char> {
    c.input.skip(c.cursor)
}

/// Neither the messages sent nor the files attached differ.
pub open spec fn same_rest(a: ComposerView, b: ComposerView) -> bool {
    a.history == b.history && a.attachments == b.attachments
}

/// A typed character comes to stand before the cursor; nothing else moves.
pub proof fn law_typed_character_is_kept(c: ComposerView, ch: char)
    requires
        c.ok(),
    ensures
        ({
            let d = composed(c, ComposerOp::Insert(ch));
            &&& before(d) == before(c).push(ch)
            &&& behind(d) == behind(c)
            &&& same_rest(c, d)
            &&& d.ok()
        }),
{
    let d = composed(c, ComposerOp::Insert(ch));
    assert(before(d) =~= before(c).push(ch));
    assert(behind(d) =~= behind(c));
}

/// A pasted text comes to stand before the cursor as a whole.
pub proof fn law_inserted_text_is_kept(c: ComposerView, s: Seq<char>)
    requires
        c.ok(),
    ensures
        before(c.inserted_all(s)) == before(c) + s,
        behind(c.inserted_all(s)) == behind(c),
        same_rest(c, c.inserted_all(s)),
        c.inserted_all(s).ok(),
    decreases s.len(),
{
    if s.len() == 0 {
        assert(before(c) + s =~= before(c));
    } else {
        law_inserted_text_is_kept(c, s.drop_last());
        let d = c.inserted_all(s.drop_last());
        law_typed_character_is_kept(d, s.last());
        assert(composed(d, ComposerOp::Insert(s.last())) == c.inserted_all(s));
        assert(before(c) + s =~= (before(c) + s.drop_last()).push(s.last()));
    }
}

/// Deleting takes one character: the one before the cursor going backwards,
/// the one behind it going forwards; at the end of the text, none.
pub proof fn law_deleting_takes_one_character(c: ComposerView)
    requires
        c.ok(),
    ensures
        ({
            let b = composed(c, ComposerOp::Backspace);
            &&& before(c).len() > 0 ==> before(b) == before(c).drop_last()
            &&& before(c).len() == 0 ==> b == c
            &&& behind(b) == behind(c)
            &&& same_rest(c, b)
        }),
        ({
            let d = composed(c, ComposerOp::Delete);
            &&& behind(c).len() > 0 ==> behind(d) == behind(c).skip(1)
            &&& behind(c).len() == 0 ==> d == c
            &&& before(d) == before(c)
            &&& same_rest(c, d)
        }),
{
    let b = composed(c, ComposerOp::Backspace);
    if before(c).len() > 0 {
        assert(before(b) =~= before(c).drop_last());
    }
    assert(behind(b) =~= behind(c));
    let d = composed(c, ComposerOp::Delete);
    if behind(c).len() > 0 {
        assert(behind(d) =~= behind(c).skip(1));
    }
    assert(before(d) =~= before(c));
}

/// The arrows move the cursor by one character and change no text; at the end
/// of the text they do nothing.
pub proof fn law_arrows_move_the_cursor(c: ComposerView)
    requires
        c.ok(),
    ensures
        ({
            let l = composed(c, ComposerOp::Left);
            &&& l.input == c.input && same_rest(c, l)
            &&& l.cursor == (if c.cursor == 0 {
                0
            } else {
                c.cursor - 1
            })
        }),
        ({
            let r = composed(c, ComposerOp::Right);
            &&& r.input == c.input && same_rest(c, r)
            &&& r.cursor == (if c.cursor == c.input.len() {
                c.cursor
            } else {
                c.cursor + 1
            })
        }),
        composed(c, ComposerOp::Home).input == c.input,
        before(composed(c, ComposerOp::Home)) == Seq::<char>::empty(),
        composed(c, ComposerOp::End).input == c.input,
        behind(composed(c, ComposerOp::End)) == Seq::<char>::empty(),
{
    assert(before(composed(c, ComposerOp::Home)) =~= Seq::<char>::empty());
    assert(behind(composed(c, ComposerOp::End)) =~= Seq::<char>::empty());
}

/// `s[m..k]` is white space, `s[n..m]` one word, and the word begins at `n`:
/// what lies between a cursor at `k` and the word before it.
pub open spec fn word_before(s: Seq<char>, n: int, m: int, k: int) -> bool {
    &&& 0 <= n <= m <= k <= s.len()
    &&& forall|i: int| m <= i < k ==> white_space(#[trigger] s[i])
    &&& forall|i: int| n <= i < m ==> !white_space(#[trigger] s[i])
    &&& n > 0 ==> white_space(s[n - 1])
    &&& m > 0 ==> n < m
}

/// `s[k..m]` is white space, `s[m..n]` one word, and the word ends at `n`.
pub open spec fn word_after(s: Seq<char>, k: int, m: int, n: int) -> bool {
    &&& 0 <= k <= m <= n <= s.len()
    &&& forall|i: int| k <= i < m ==> white_space(#[trigger] s[i])
    &&& forall|i: int| m <= i < n ==> !white_space(#[trigger] s[i])
    &&& n < s.len() ==> white_space(s[n])
    &&& m < s.len() ==> m < n
}

proof fn lemma_space_start(s: Seq<char>, k: int)
    requires
        0 <= k <= s.len(),
    ensures
        0 <= space_start(s, k) <= k,
        forall|i: int| space_start(s, k) <= i < k ==> white_space(#[trigger] s[i]),
        space_start(s, k) > 0 ==> !white_space(s[space_start(s, k) - 1]),
    decreases k,
{
    if 0 < k && white_space(s[k - 1]) {
        lemma_space_start(s, k - 1);
    }
}

proof fn lemma_word_start(s: Seq<char>, k: int)
    requires
        0 <= k <= s.len(),
    ensures
        0 <= word_start(s, k) <= k,
        forall|i: int| word_start(s, k) <= i < k ==> !white_space(#[trigger] s[i]),
        word_start(s, k) > 0 ==> white_space(s[word_start(s, k) - 1]),
    decreases k,
{
    if 0 < k && !white_space(s[k - 1]) {
        lemma_word_start(s, k - 1);
    }
}

proof fn lemma_space_end(s: Seq<char>, k: int)
    requires
        0 <= k <= s.len(),
    ensures
        k <= space_end(s, k) <= s.len(),
        forall|i: int| k <= i < space_end(s, k) ==> white_space(#[trigger] s[i]),
        space_end(s, k) < s.len() ==> !white_space(s[space_end(s, k)]),
    decreases s.len() - k,
{
    if k < s.len() && white_space(s[k]) {
        lemma_space_end(s, k + 1);
    }
}

proof fn lemma_word_end(s: Seq<char>, k: int)
    requires
        0 <= k <= s.len(),
    ensures
        k <= word_end(s, k) <= s.len(),
        forall|i: int| k <= i < word_end(s, k) ==> !white_space(#[trigger] s[i]),
        word_end(s, k) < s.len() ==> white_space(s[word_end(s, k)]),
    decreases s.len() - k,
{
    if k < s.len() && !white_space(s[k]) {
        lemma_word_end(s, k + 1);
    }
}

/// Going by words leads to the start of the word before the cursor, or to the
/// end of the word behind it, over the white space between.
pub proof fn law_words_are_jumped(c: ComposerView)
    requires
        c.ok(),
    ensures
        ({
            let l = composed(c, ComposerOp::WordLeft);
            &&& l.input == c.input && same_rest(c, l)
            &&& exists|m: int| #[trigger] word_before(c.input, l.cursor, m, c.cursor)
        }),
        ({
            let r = composed(c, ComposerOp::WordRight);
            &&& r.input == c.input && same_rest(c, r)
            &&& exists|m: int| #[trigger] word_after(c.input, c.cursor, m, r.cursor)
        }),
{
    let s = c.input;
    let m = space_start(s, c.cursor);
    lemma_space_start(s, c.cursor);
    lemma_word_start(s, m);
    assert(word_before(s, composed(c, ComposerOp::WordLeft).cursor, m, c.cursor));
    let n = space_end(s, c.cursor);
    lemma_space_end(s, c.cursor);
    lemma_word_end(s, n);
    assert(word_after(s, c.cursor, n, composed(c, ComposerOp::WordRight).cursor));
}

/// Cutting takes the text behind the cursor; cutting a word takes the text
/// from the start of the word before the cursor on; clearing takes it all.
pub proof fn law_cutting_takes_the_rest(c: ComposerView)
    requires
        c.ok(),
    ensures
        composed(c, ComposerOp::Cut).input == before(c),
        composed(c, ComposerOp::Cut).cursor == c.cursor,
        same_rest(c, composed(c, ComposerOp::Cut)),
        ({
            let d = composed(c, ComposerOp::CutWord);
            &&& d.input == c.input.take(d.cursor)
            &&& same_rest(c, d)
            &&& exists|m: int| #[trigger] word_before(c.input, d.cursor, m, c.cursor)
        }),
        composed(c, ComposerOp::Clear).input == Seq::<char>::empty(),
        composed(c, ComposerOp::Clear).cursor == 0,
        same_rest(c, composed(c, ComposerOp::Clear)),
{
    law_words_are_jumped(c);
    let l = composed(c, ComposerOp::WordLeft);
    let m = choose|m: int| #[trigger] word_before(c.input, l.cursor, m, c.cursor);
    assert(word_before(c.input, composed(c, ComposerOp::CutWord).cursor, m, c.cursor));
}

/// The line after going up `n` times.
pub open spec fn went_up(c: ComposerView, n: nat) -> ComposerView
    decreases n,
{
    if n == 0 {
        c
    } else {
        composed(went_up(c, (n - 1) as nat), ComposerOp::HistoryUp)
    }
}

/// Going up through the messages sent shows them from the last to the first,
/// each whole, with the cursor at its end.
pub proof fn law_history_goes_back(c: ComposerView, n: nat)
    requires
        c.ok(),
        c.shown is None,
        0 < n <= c.history.len(),
    ensures
        went_up(c, n).input == c.history[c.history.len() - n],
        went_up(c, n).cursor == c.history[c.history.len() - n].len(),
        went_up(c, n).shown == Some(c.history.len() - n),
        same_rest(c, went_up(c, n)),
    decreases n,
{
    reveal_with_fuel(went_up, 2);
    if n > 1 {
        law_history_goes_back(c, (n - 1) as nat);
    }
}

/// Going down undoes going up; from the last message it leads to an empty
/// line. Nothing is forgotten on the way.
pub proof fn law_history_goes_forth(c: ComposerView)
    requires
        c.ok(),
    ensures
        ({
            let d = composed(c, ComposerOp::HistoryDown);
            &&& same_rest(c, d)
            &&& c.shown is None ==> d == c
            &&& (c.shown is Some && c.shown->0 + 1 < c.history.len()) ==> {
                &&& d.input == c.history[c.shown->0 + 1]
                &&& d.shown == Some(c.shown->0 + 1)
                &&& composed(d, ComposerOp::HistoryUp).input == c.history[c.shown->0]
            }
            &&& (c.shown is Some && c.shown->0 + 1 == c.history.len()) ==> {
                &&& d.input.len() == 0
                &&& d.shown is None
            }
        }),
        c.history.len() == 0 ==> composed(c, ComposerOp::HistoryUp) == c,
        (c.shown == Some(0int) && c.ok()) ==> composed(c, ComposerOp::HistoryUp).input
            == c.history[0],
{
}

/// A key with no modifier held down.
pub open spec fn plain_key(key: KeyEvent) -> bool {
    !key.modifiers.control && !key.modifiers.alt
}

/// In the input line of the session shown, a character key types its
/// character.
#[verifier::rlimit(50)]
pub proof fn law_characters_are_typed(v: AppView, i: int, key: KeyEvent, ch: char)
    requires
        shows_session(v, i),
        v.sessions[i].composer.ok(),
        key.code == KeyCode::Char(ch),
        plain_key(key),
    ensures
        ({
            let c = v.sessions[i].composer;
            let w = v.composer_keyed(key);
            let d = w.sessions[i].composer;
            &&& before(d) == before(c).push(ch)
            &&& behind(d) == behind(c)
            &&& same_rest(c, d)
            &&& w.effects == v.effects
            &&& w.toasts == v.toasts
            &&& w.overlays == v.overlays
            &&& w.tabs == v.tabs
            &&& w.sessions.len() == v.sessions.len()
            &&& forall|j: int|
                0 <= j < v.sessions.len() && j != i ==> #[trigger] w.sessions[j] == v.sessions[j]
        }),
{
    law_typed_character_is_kept(v.sessions[i].composer, ch);
}

/// In the input line of the session shown, the editing keys do what is
/// written on them.
#[verifier::rlimit(50)]
pub proof fn law_editing_keys_edit(v: AppView, i: int, key: KeyEvent)
    requires
        shows_session(v, i),
        v.sessions[i].composer.ok(),
        plain_key(key),
    ensures
        ({
            let c = v.sessions[i].composer;
            let d = v.composer_keyed(key).sessions[i].composer;
            &&& key.code is Backspace ==> {
                &&& behind(d) == behind(c)
                &&& before(d) == (if c.cursor == 0 {
                    before(c)
                } else {
                    before(c).drop_last()
                })
            }
            &&& key.code is Delete ==> {
                &&& before(d) == before(c)
                &&& behind(d) == (if c.cursor == c.input.len() {
                    behind(c)
                } else {
                    behind(c).skip(1)
                })
            }
            &&& key.code is Left ==> d.input == c.input && d.cursor == (if c.cursor == 0 {
                0
            } else {
                c.cursor - 1
            })
            &&& key.code is Right ==> d.input == c.input && d.cursor == (if c.cursor
                == c.input.len() {
                c.cursor
            } else {
                c.cursor + 1
            })
            &&& key.code is Home ==> d.input == c.input && d.cursor == 0
            &&& key.code is End ==> d.input == c.input && d.cursor == c.input.len()
        }),
{
    let c = v.sessions[i].composer;
    law_deleting_takes_one_character(c);
    law_arrows_move_the_cursor(c);
}

/// The shortcuts of the input line, with the control key held down.
#[verifier::rlimit(50)]
pub proof fn law_line_shortcuts(v: AppView, i: int, key: KeyEvent, ch: char)
    requires
        shows_session(v, i),
        v.sessions[i].composer.ok(),
        key.code == KeyCode::Char(ch),
        key.modifiers.control,
    ensures
        ({
            let c = v.sessions[i].composer;
            let w = v.composer_keyed(key);
            let d = w.sessions[i].composer;
            &&& ch == 'u' ==> d.input.len() == 0
            &&& ch == 'k' ==> d.input == before(c)
            &&& ch == 'w' ==> exists|m: int| #[trigger] word_before(c.input, d.cursor, m, c.cursor)
            &&& ch == 'j' ==> before(d) == before(c).push('\n') && behind(d) == behind(c)
            &&& (ch == 'u' || ch == 'k' || ch == 'w' || ch == 'j') ==> w.effects == v.effects
            &&& ch == 'p' ==> w == v.asking(EffectView::ToggleMode)
            &&& ch == 'y' ==> w == v.asking(EffectView::UndoLast)
            &&& ch == 'e' ==> w == v.asking(EffectView::Compact)
        }),
{
    let c = v.sessions[i].composer;
    law_cutting_takes_the_rest(c);
    law_typed_character_is_kept(c, '\n');
    let m = choose|m: int| #[trigger]
        word_before(c.input, composed(c, ComposerOp::CutWord).cursor, m, c.cursor);
    if ch == 'w' {
        assert(word_before(c.input, v.composer_keyed(key).sessions[i].composer.cursor, m, c.cursor));
    }
}

/// The enter key sends the message typed: it asks for that, once, and changes
/// nothing else. With Alt it breaks the line; among keys that come as fast as
/// pasted text it sends nothing; in a session of another client it only warns.
#[verifier::rlimit(50)]
pub proof fn law_enter_sends_the_message(v: AppView, i: int, key: KeyEvent)
    requires
        shows_session(v, i),
        v.sessions[i].composer.ok(),
        key.code is Enter,
    ensures
        ({
            let c = v.sessions[i].composer;
            let w = v.composer_keyed(key);
            let d = w.sessions[i].composer;
            let own = !v.sessions[i].read_only;
            &&& !own ==> {
                &&& w.effects == v.effects
                &&& w.sessions == v.sessions
                &&& w.toasts.last().level == NoticeLevel::Warn
            }
            &&& (own && is_flood(v.guard)) ==> {
                &&& w.effects == v.effects
                &&& before(d) == before(c).push(' ')
                &&& behind(d) == behind(c)
            }
            &&& (own && !is_flood(v.guard) && key.modifiers.alt) ==> {
                &&& w.effects == v.effects
                &&& before(d) == before(c).push('\n')
                &&& behind(d) == behind(c)
            }
            &&& (own && !is_flood(v.guard) && !key.modifiers.alt && !starts_with(
                trim(c.input),
                seq!['/'],
            )) ==> w == v.asking(EffectView::SendMessage)
        }),
{
    let c = v.sessions[i].composer;
    law_typed_character_is_kept(c, ' ');
    law_typed_character_is_kept(c, '\n');
    reveal_strlit("/");
    assert("/"@ =~= seq!['/']);
    assert(v.typed() == c.input);
    if !starts_with(trim(c.input), seq!['/']) {
        assert(v.command_entered() == v.asking(EffectView::SendMessage));
    }
}

/// The escape key stops the running turn, unless commands are offered, or the
/// session is another client's.
#[verifier::rlimit(50)]
pub proof fn law_escape_stops_the_turn(v: AppView, i: int, key: KeyEvent)
    requires
        shows_session(v, i),
        key.code is Esc,
    ensures
        (!v.sessions[i].read_only && !v.offering()) ==> v.composer_keyed(key) == v.asking(
            EffectView::CancelTurn,
        ),
        v.sessions[i].read_only ==> {
            &&& v.composer_keyed(key).effects == v.effects
            &&& v.composer_keyed(key).sessions == v.sessions
        },
        v.offering() ==> v.composer_keyed(key).effects == v.effects,
{
}

/// Without commands offered, the arrows go through the messages sent, and the
/// paging keys scroll the transcript.
#[verifier::rlimit(50)]
pub proof fn law_keys_scroll_and_recall(v: AppView, i: int, key: KeyEvent)
    requires
        shows_session(v, i),
        v.sessions[i].composer.ok(),
        v.sessions[i].composer.shown is None,
    ensures
        ({
            let c = v.sessions[i].composer;
            let w = v.composer_keyed(key);
            let n = c.history.len();
            &&& (key.code is Up && !v.offering() && n > 0) ==> {
                &&& w.sessions[i].composer.input == c.history[n - 1]
                &&& w.effects == v.effects
            }
            &&& (key.code is Down && !v.offering()) ==> w.sessions[i].composer.input == c.input
            &&& key.code is PageUp ==> w == v.asking(EffectView::ScrollUp(20))
            &&& key.code is PageDown ==> w == v.asking(EffectView::ScrollDown(20))
            &&& (key.code is Home && key.modifiers.control) ==> w == v.asking(
                EffectView::ScrollTop,
            )
            &&& (key.code is End && key.modifiers.control) ==> w == v.asking(
                EffectView::ScrollBottom,
            )
        }),
{
}

/// On the home screen, a character key types into the draft, and the enter key
/// asks for a session whose first message is the draft; a blank draft asks for
/// none, and while a session is being made no key does anything.
#[verifier::rlimit(50)]
pub proof fn law_draft_becomes_a_session(v: AppView, key: KeyEvent)
    requires
        v.draft.ok(),
    ensures
        v.creates.len() > 0 ==> v.draft_keyed(key) == v,
        (v.creates.len() == 0 && plain_key(key) && key.code is Char) ==> {
            &&& before(v.draft_keyed(key).draft) == before(v.draft).push(key.code->Char_0)
            &&& behind(v.draft_keyed(key).draft) == behind(v.draft)
            &&& v.draft_keyed(key).effects == v.effects
        },
        (v.creates.len() == 0 && key.code is Enter && !key.modifiers.alt && blank(v.draft.input))
            ==> v.draft_keyed(key) == v,
        (v.creates.len() == 0 && key.code is Enter && !key.modifiers.alt && !blank(v.draft.input))
            ==> {
            let w = v.draft_keyed(key);
            &&& w.prompt == Some(trim(v.draft.input))
            &&& w.draft.input.len() == 0
            &&& w.creates == seq![(v.fresh_id, v.flags.now)]
            &&& w.effects == v.effects.push(
                EffectView::CreateSession { command_id: v.fresh_id, cwd: v.default_cwd() },
            )
            &&& w.sessions == v.sessions
        },
{
    if key.code is Char {
        law_typed_character_is_kept(v.draft, key.code->Char_0);
    }
    assert(Seq::empty().push((v.fresh_id, v.flags.now)) =~= seq![(v.fresh_id, v.flags.now)]);
    if v.creates.len() == 0 {
        assert(v.creates =~= Seq::empty());
    }
}

} // verus!
