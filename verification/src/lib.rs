pub mod event;
pub mod path;
pub mod syntaxrules;
pub mod text;
pub mod control;
pub mod define;
pub mod config;
pub mod linter;
pub mod opt;
pub mod run;
