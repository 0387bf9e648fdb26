//! Keys, and everything else that reaches the application.

use crate::app::{App, AppView, Flags, StartupIntent};
use crate::keymap::{alt_tab_target, map_global_key, GlobalKey, KeyCode, KeyEvent};
use crate::message::{AppMsg, Effect, NoticeLevel};
use crate::overlay::{ConfirmAction, Overlay};
use vstd::prelude::*;

verus! {

impl App {
    fn press_quit(&mut self)
        requires
            old(self).wf(),
        ensures
            final(self).wf(),
            final(self)@ == old(self)@.quit_pressed(),
    {
        let ghost v = self@;
        if self.quit_armed.is_some() {
            self.quit = true;
            assert(self@ =~= v.quit_pressed());
        } else {
            self.quit_armed = Some(self.now);
            assert(self@ =~= v.flagged(Flags { quit_armed: Some(v.flags.now), ..v.flags }));
            self.toast(NoticeLevel::Info, "再按一次 Ctrl+C 退出".to_owned());
        }
    }

    fn toggle_panel(&mut self)
        requires
            old(self).wf(),
        ensures
            final(self).wf(),
            final(self)@ == old(self)@.panel_toggled(),
    {
        let ghost v = self@;
        self.show_workspace = !self.show_workspace;
        assert(self@ =~= v.flagged(
            Flags { show_workspace: !v.flags.show_workspace, ..v.flags },
        ));
        if self.show_workspace {
            if let Some(seed) = self.active_seed() {
                self.fetch_dashboard(seed.as_str());
            }
        }
    }

    fn toggle_activity(&mut self)
        requires
            old(self).wf(),
        ensures
            final(self).wf(),
            final(self)@ == old(self)@.global_pressed(GlobalKey::ToggleReasoning),
    {
        let ghost v = self@;
        self.show_activity = !self.show_activity;
        assert(self@ =~= v.flagged(Flags { show_activity: !v.flags.show_activity, ..v.flags }));
        self.drop_caches();
    }

    fn press_flag(&mut self, g: GlobalKey)
        requires
            old(self).wf(),
            g is QuitNow || g is ToggleTodoDetail,
        ensures
            final(self).wf(),
            final(self)@ == old(self)@.global_pressed(g),
    {
        let ghost v = self@;
        if g == GlobalKey::QuitNow {
            self.quit = true;
        } else {
            self.show_todo_detail = !self.show_todo_detail;
        }
        assert(self@ =~= v.global_pressed(g));
    }

    fn press_new(&mut self)
        requires
            old(self).wf(),
        ensures
            final(self).wf(),
            final(self)@ == old(self)@.global_pressed(GlobalKey::NewSession),
    {
        assert(self@.tabs.len() == self.tabs@.len());
        if self.tabs.len() == 0 && self.startup_intent == StartupIntent::New {
            self.start_draft_conversation();
        } else {
            self.new_session();
        }
    }

    /// A key that means the same everywhere.
    pub fn press_global(&mut self, g: GlobalKey)
        requires
            old(self).wf(),
        ensures
            final(self).wf(),
            final(self)@ == old(self)@.global_pressed(g),
    {
        match g {
            GlobalKey::QuitArmed => {
                self.press_quit();
            },
            GlobalKey::QuitNow => {
                self.press_flag(g);
            },
            GlobalKey::NewSession => {
                self.press_new();
            },
            GlobalKey::ThinkingOverlay => {
                self.open_thinking_overlay();
            },
            GlobalKey::CloseTab => {
                if let Some(seed) = self.active_seed() {
                    self.push_overlay(Overlay::Confirm { action: ConfirmAction::CloseTab(seed) });
                }
            },
            GlobalKey::SessionList => {
                self.open_session_list();
            },
            GlobalKey::ToggleSettings => {
                self.emit(Effect::ToggleSettings);
            },
            GlobalKey::Help => {
                self.toggle_overlay(Overlay::Help);
            },
            GlobalKey::ToggleReasoning => {
                self.toggle_activity();
            },
            GlobalKey::ToggleWorkspace => {
                self.toggle_panel();
            },
            GlobalKey::ToggleTodoDetail => {
                self.press_flag(g);
            },
            GlobalKey::ToggleToolExpand => {
                self.emit(Effect::ToggleToolExpand);
            },
            GlobalKey::Reconnect => {
                self.request_reconnect();
            },
        }
    }

    fn switch_tab(&mut self, n: usize)
        requires
            old(self).wf(),
        ensures
            final(self).wf(),
            final(self)@ == old(self)@.tab_switched(n as nat),
    {
        let ghost v = self@;
        self.active = n;
        self.inspect = None;
        assert(self@ =~= AppView {
            inspect: None,
            ..v.flagged(Flags { active: n, ..v.flags })
        });
        self.prune_overlays_for_active_seed();
    }

    /// A key that goes from a session to its subagents and back; the result
    /// says whether it is one.
    pub fn subagent_nav_key(&mut self, key: KeyEvent) -> (consumed: bool)
        requires
            old(self).wf(),
        ensures
            final(self).wf(),
            final(self)@ == old(self)@.nav_keyed(key),
            consumed == old(self)@.nav_takes(key),
    {
        let ghost v = self@;
        if key.code == KeyCode::Up && key.modifiers.control {
            self.emit(Effect::InspectNext);
            return true;
        }
        if self.inspecting() && (key.code == KeyCode::Esc || (key.code == KeyCode::Down
            && key.modifiers.control)) {
            self.inspect = None;
            assert(self@ =~= AppView { inspect: None, ..v });
            return true;
        }
        false
    }

    /// A key while a subagent is looked at.
    pub fn inspect_key(&mut self, key: KeyEvent)
        requires
            old(self).wf(),
        ensures
            final(self).wf(),
            final(self)@ == old(self)@.inspect_keyed(key),
    {
        match key.code {
            KeyCode::Up => {
                self.emit(Effect::ScrollUp(1));
            },
            KeyCode::Down => {
                self.emit(Effect::ScrollDown(1));
            },
            KeyCode::PageUp => {
                self.emit(Effect::ScrollUp(20));
            },
            KeyCode::PageDown => {
                self.emit(Effect::ScrollDown(20));
            },
            KeyCode::Home => {
                self.emit(Effect::ScrollTop);
            },
            KeyCode::End => {
                self.emit(Effect::ScrollBottom);
            },
            _ => {},
        }
    }

    fn press_local(&mut self, key: KeyEvent)
        requires
            old(self).wf(),
            old(self)@.takes_key(key),
        ensures
            final(self).wf(),
            final(self)@ == old(self)@.local_pressed(key),
    {
        assert(self@.tabs.len() == self.tabs@.len());
        let tabs: usize = self.tabs.len();
        if key.modifiers.alt {
            if let Some(n) = alt_tab_target(self.active, tabs, key.code) {
                self.switch_tab(n);
                return;
            }
        }
        if self.blocked() {
            self.modal_key(key);
            return;
        }
        if self.overlay_key(key) {
            return;
        }
        if self.subagent_nav_key(key) {
            return;
        }
        if self.inspecting() {
            self.inspect_key(key);
            return;
        }
        if tabs == 0 {
            self.draft_key(key);
        } else {
            self.composer_key(key);
        }
    }

    fn tap(&mut self)
        requires
            old(self).wf(),
        ensures
            final(self).wf(),
            final(self)@ == old(self)@.tapped(),
    {
        let ghost v = self@;
        let now = self.now;
        self.paste_guard.observe(now);
        assert(self@ =~= v.tapped());
    }

    fn dispatch(&mut self, key: KeyEvent)
        requires
            old(self).wf(),
            old(self)@.takes_key(key),
        ensures
            final(self).wf(),
            final(self)@ == old(self)@.dispatched(key),
    {
        let global = map_global_key(&key);
        let quits = match global {
            Some(GlobalKey::QuitArmed) => true,
            Some(GlobalKey::QuitNow) => true,
            _ => false,
        };
        if !quits && self.blocked() {
            self.modal_key(key);
            return;
        }
        match global {
            Some(g) => {
                self.press_global(g);
            },
            None => {
                self.press_local(key);
            },
        }
    }

    /// A key was pressed.
    pub fn handle_key(&mut self, key: KeyEvent)
        requires
            old(self).wf(),
            old(self)@.takes_key(key),
        ensures
            final(self).wf(),
            final(self)@ == old(self)@.pressed(key),
    {
        self.tap();
        self.dispatch(key);
    }

    /// Whether a message can be handled now: every one but a key that deletes
    /// backwards where a directory is typed with the cursor past its end.
    pub fn accepts(&self, msg: &AppMsg) -> (r: bool)
        requires
            self.wf(),
        ensures
            r == self@.takes(*msg),
    {
        let key = match msg {
            AppMsg::Key(k) => *k,
            _ => {
                return true;
            },
        };
        if self.blocked() || self.overlays.len() == 0 {
            return true;
        }
        assert(self@.overlays.last() == self.overlays@.last()@);
        match &self.overlays[self.overlays.len() - 1] {
            Overlay::CwdInput { input, cursor } => key.code != KeyCode::Backspace || *cursor
                <= input.len(),
            _ => true,
        }
    }

    /// Something reached the application.
    pub fn handle(&mut self, msg: AppMsg)
        requires
            old(self).wf(),
            old(self)@.takes(msg),
        ensures
            final(self).wf(),
            final(self)@ == old(self)@.handled(msg),
    {
        match msg {
            AppMsg::Runtime(m) => {
                self.handle_runtime(m);
            },
            AppMsg::Action(a) => {
                self.handle_action(a);
            },
            AppMsg::Key(k) => {
                self.handle_key(k);
            },
            AppMsg::Mouse(m) => {
                self.handle_mouse(m);
            },
            AppMsg::Paste(text) => {
                self.handle_paste(text.as_str());
            },
            AppMsg::Resize => {
                self.drop_caches();
            },
            AppMsg::Tick => {
                self.handle_tick();
            },
        }
    }
}

/// While a dialog blocks the session shown, no key opens or closes a layer,
/// whatever it means elsewhere.
pub proof fn law_dialogs_block_layers(v: AppView, key: KeyEvent)
    requires
        v.modal() is Some,
    ensures
        v.pressed(key).overlays == v.overlays,
{
}

/// Switching tabs leaves no layer of another session.
pub proof fn law_switching_tabs_prunes(v: AppView, n: nat, k: int)
    requires
        0 <= k < v.tab_switched(n).overlays.len(),
    ensures
        crate::overlay::stays(
            v.tab_switched(n).overlays[k],
            v.tab_switched(n).active_seed(),
        ),
{
    crate::overlay::law_pruning(
        v.overlays,
        AppView {
            inspect: None,
            ..v.flagged(Flags { active: n as usize, ..v.flags })
        }.active_seed(),
    );
}

/// A new notice is shown as the last one, and with it at most the newest few.
pub proof fn law_few_notices(v: AppView, level: NoticeLevel, text: Seq<char>)
    requires
        v.ok(),
    ensures
        v.noticed(level, text).toasts.len() <= crate::app::TOAST_LIMIT,
        v.noticed(level, text).toasts.last().text == text,
{
}

/// Pressing the quit key twice ends the program; once does not.
pub proof fn law_quit_takes_two(v: AppView)
    requires
        !v.flags.quit,
        v.flags.quit_armed is None,
    ensures
        !v.quit_pressed().flags.quit,
        v.quit_pressed().quit_pressed().flags.quit,
{
}

} // verus!
