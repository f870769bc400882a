pub mod branch;
pub mod clipboard;
pub mod commit;
pub mod conflict;
pub mod diff;
pub mod events;
pub mod explorer;
pub mod git;
pub mod git_actions;
pub mod git_diff_loader;
pub mod git_ops;
pub mod git_select;
pub mod highlight;
pub mod inspect;
pub mod jobs;
pub mod keys;
pub mod log_nav;
pub mod log_view;
pub mod menus;
pub mod openrouter;
pub mod pickers;
pub mod preview;
pub mod preview_cache;
pub mod revert;
pub mod ranking;
pub mod search;
pub mod text;
pub mod theme;
pub mod version;
