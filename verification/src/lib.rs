//! An SVN working-copy client core: parsers for the svn command line
//! client's output, the models they produce, and the view logic of a
//! terminal front end (search, scrolling, file tree, key bindings).

pub mod text;
pub mod models;
pub mod parser;
pub mod queue;
pub mod ui;
pub mod keys;
pub mod text_search;
pub mod components;
pub mod text_view;
pub mod diff_view;
pub mod patches;
pub mod order;
pub mod path_set;
pub mod status_tree;
pub mod strings;
pub mod spans;
pub mod repo_info;
pub mod log;
pub mod popups;
pub mod query_popups;
pub mod file_log;
pub mod blame;
pub mod file_finder;
pub mod commit;
pub mod app;
pub mod status;
pub mod svn;
pub mod invocations;
pub mod diff_block;
