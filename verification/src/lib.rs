//! Decision logic of the cys desktop application: installing and removing the
//! command line links, judging where the bundle runs from, reading what helper
//! processes print, and talking to the cys daemon.

pub mod text;
pub mod number;
pub mod path;
pub mod bundle;
pub mod backup;
pub mod links;
pub mod shell;
pub mod marks;
pub mod order;
pub mod probe;
pub mod install;
pub mod uninstall;
pub mod json;
pub mod rpc;
pub mod access;
pub mod dept;
pub mod restore;
pub mod boot;
pub mod update;
pub mod usage;
pub mod skill;
pub mod stream;
pub mod reset;
pub mod report;
