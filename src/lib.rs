//! The core of a modal, multi-client text editor: the command language (tokens, scripts,
//! flags, macros, error display), keys and macro recording, the event queue, views with their
//! cursors, clients and focus, glob matching, and the language-server message framing.

pub mod token;
pub mod script;
pub mod command;
pub mod register;
pub mod client;
pub mod display;
pub mod glob;
pub mod buffer_view;
pub mod events;
pub mod theme;
pub mod protocol;
pub mod keys;
pub mod args;
pub mod editor;
