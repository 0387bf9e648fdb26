//! Verified application core of a terminal front end: text layout, transcript
//! rendering and its block cache, the session event reducer, overlays and key
//! handling.

pub mod action_laws;
pub mod align;
pub mod anim;
pub mod answer_laws;
pub mod app;
pub mod app_actions;
pub mod app_composer;
pub mod app_deltas;
pub mod app_events;
pub mod app_input;
pub mod app_keys;
pub mod app_modal;
pub mod app_overlay;
pub mod app_tabs;
pub mod approval;
pub mod ask;
pub mod break_laws;
pub mod cache_laws;
pub mod card_laws;
pub mod change_laws;
pub mod composer;
pub mod composer_laws;
pub mod conn;
pub mod decimal;
pub mod dialog_laws;
pub mod diff_laws;
pub mod estimates;
pub mod event_laws;
pub mod export;
pub mod export_laws;
pub mod focus;
pub mod fold_laws;
pub mod format_laws;
pub mod glyph_laws;
pub mod highlight;
pub mod info_laws;
pub mod isolation_laws;
pub mod json;
pub mod keymap;
pub mod markdown;
pub mod md_code;
pub mod md_detect;
pub mod md_events;
pub mod md_laws;
pub mod md_table;
pub mod md_wrap;
pub mod message;
pub mod overlay;
pub mod overlay_laws;
pub mod page_laws;
pub mod pager;
pub mod paste_guard;
pub mod path;
pub mod plan;
pub mod refresh;
pub mod render_line;
pub mod render_transcript;
pub mod retry;
pub mod ringing;
pub mod ringing_laws;
pub mod scroll_laws;
pub mod seg;
pub mod session;
pub mod session_info;
pub mod slash;
pub mod slash_laws;
pub mod stream;
pub mod sync_laws;
pub mod tab_laws;
pub mod text;
pub mod text_laws;
pub mod timeline;
pub mod tool_card;
pub mod tool_diff;
pub mod tool_laws;
pub mod transcript_laws;
pub mod view_laws;
pub mod viewport;
pub mod width;
pub mod wrap_laws;
