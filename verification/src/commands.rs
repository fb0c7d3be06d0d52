//! One module per command: what each command computes and prints.
pub mod acl;
pub mod dump;
pub mod load;
pub mod stat;
pub mod get;
pub mod create;
pub mod set;
pub mod delete;
pub mod cp;
pub mod mv;
pub mod health;
pub mod auth;
pub mod node_exists;
pub mod ls;
pub mod find;
pub mod tree;
pub mod diff;
pub mod watch;
