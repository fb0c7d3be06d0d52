//! Verified core of a ZooKeeper / ClickHouse Keeper command-line client:
//! path handling, command-line word splitting, tab-completion planning,
//! ACL and base64 codecs, subtree comparison and the text that each
//! command prints.
pub mod text;
pub mod cli;
pub mod client;
pub mod repl;
pub mod style;
pub mod output;
pub mod commands;
pub mod walk;


use vstd::prelude::*;

verus! {

} // verus!
