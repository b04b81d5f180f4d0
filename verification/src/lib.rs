//! Core of a terminal multiplexer for a line-oriented input stream.
//!
//! The stream is partitioned into tabs by literal substring filters; each tab
//! keeps a bounded history of matching lines together with unread counters.
//! The modules here hold the verified data model and decision logic: the tab
//! store, the terminal input decoder, the text clipping utilities, the
//! viewport model, the render plan, and the coordinator state machine.

mod coord;
mod input;
mod plan;
mod store;
mod tab;
mod text;
mod view;

pub use coord::trim_line_ending;
pub use coord::Coordinator;
pub use coord::CoordinatorAction;
pub use input::key_message_from_byte;
pub use input::try_parse_sgr_mouse_message;
pub use input::InputParser;
pub use input::InputParserState;
pub use input::UiMessage;
pub use plan::build_render_plan;
pub use plan::BodyLine;
pub use plan::PausedNote;
pub use plan::RenderPlan;
pub use plan::StyledPiece;
pub use plan::TabBoxPlan;
pub use plan::Tint;
pub use store::apply_line_to_tabs;
pub use store::mark_tab_seen_live;
pub use store::mark_tab_seen_paused;
pub use store::select_tab;
pub use store::PauseSnapshot;
pub use tab::contains_substring;
pub use tab::LineRecord;
pub use tab::MatchMode;
pub use tab::Tab;
pub use tab::MAX_STORED_LINES_PER_TAB;
pub use text::clip_ansi_to_visible_width;
pub use text::clip_to_width;
pub use text::clip_with_ellipsis;
pub use text::fit_tab_title;
pub use text::format_unread_slot;
pub use text::is_ansi_final_byte;
pub use text::strip_ansi;
pub use text::tab_columns_limit;
pub use text::tab_shortcut_label;
pub use view::first_body_row;
pub use view::line_at_row;
pub use view::middle_visible_line;
pub use view::prepare_visible_lines;
pub use view::tab_index_at_position;
pub use view::toggle_selected_line;
pub use view::viewport_for_lines;
pub use view::RenderState;
pub use view::RenderedLine;
pub use view::SelectedLine;
pub use view::TabHitbox;
