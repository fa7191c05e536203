//! Text, path, clipboard, drag-and-drop and wiki-server rules of a desktop and
//! mobile host for TiddlyWiki, each stated as a contract and proved.

use vstd::prelude::*;

pub mod clipboard;
pub mod drag_drop;
pub mod encoding;
pub mod events;
pub mod folder_wiki_server;
pub mod fs_abstraction;
pub mod fs_module;
pub mod init_script;
pub mod input_inject;
pub mod linux;
pub mod macos;
pub mod markup;
pub mod mime;
pub mod multicast;
pub mod native_dnd;
pub mod node_bridge;
pub mod outside;
pub mod path_module;
pub mod runtime;
pub mod saf;
pub mod sanitize;
pub mod table;
pub mod text;
pub mod tid;
pub mod wiki_activity;
pub mod windows;

verus! {

} // verus!
