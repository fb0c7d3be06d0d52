//! The results that the commands return, in the shape their JSON output
//! takes. (Serialisation itself is done outside the library.)
use vstd::prelude::*;

verus! {

/// Node metadata.
#[derive(Clone, Debug, PartialEq, Eq)]
pub struct StatJson {
    pub czxid: i64,
    pub mzxid: i64,
    pub ctime: i64,
    pub mtime: i64,
    pub version: i32,
    pub cversion: i32,
    pub aversion: i32,
    pub ephemeral_owner: i64,
    pub data_length: i32,
    pub num_children: i32,
    pub pzxid: i64,
}

/// Children of a node (or, recursively, all descendants' paths).
#[derive(Clone, Debug, PartialEq, Eq)]
pub struct LsResult {
    pub path: String,
    pub children: Vec<String>,
}

/// Children of a node with some of their metadata.
#[derive(Clone, Debug, PartialEq, Eq)]
pub struct LsDetailedResult {
    pub path: String,
    pub children: Vec<ChildInfo>,
}

/// One child in a detailed listing.
#[derive(Clone, Debug, PartialEq, Eq)]
pub struct ChildInfo {
    pub name: String,
    pub ephemeral: bool,
    pub data_length: i32,
    pub num_children: i32,
}

/// Data and metadata of a node.
#[derive(Clone, Debug, PartialEq, Eq)]
pub struct GetResult {
    pub path: String,
    pub data: String,
    pub data_encoding: String,
    pub stat: StatJson,
}

/// Outcome of setting a node's data.
#[derive(Clone, Debug, PartialEq, Eq)]
pub struct SetResult {
    pub path: String,
    pub version: i32,
    pub stat: StatJson,
}

/// Outcome of creating a node.
#[derive(Clone, Debug, PartialEq, Eq)]
pub struct CreateResult {
    pub path: String,
    pub mode: String,
}

/// Outcome of deleting a node.
#[derive(Clone, Debug, PartialEq, Eq)]
pub struct DeleteResult {
    pub path: String,
    pub recursive: bool,
}

/// Whether a node exists, with its metadata when asked for.
#[derive(Clone, Debug, PartialEq, Eq)]
pub struct ExistsResult {
    pub path: String,
    pub exists: bool,
    pub stat: Option<StatJson>,
}

/// A subtree in pre-order.
#[derive(Clone, Debug, PartialEq, Eq)]
pub struct TreeResult {
    pub path: String,
    pub tree: Vec<TreeEntry>,
}

/// One node of a subtree and its depth below the subtree's root.
#[derive(Clone, Debug, PartialEq, Eq)]
pub struct TreeEntry {
    pub path: String,
    pub depth: usize,
}

/// Nodes whose name matched a pattern.
#[derive(Clone, Debug, PartialEq, Eq)]
pub struct FindResult {
    pub path: String,
    pub pattern: String,
    pub matches: Vec<String>,
}

/// Outcome of a copy.
#[derive(Clone, Debug, PartialEq, Eq)]
pub struct CpResult {
    pub src: String,
    pub dst: String,
    pub recursive: bool,
}

/// Outcome of a move.
#[derive(Clone, Debug, PartialEq, Eq)]
pub struct MvResult {
    pub src: String,
    pub dst: String,
}

/// The ACL of a node.
#[derive(Clone, Debug, PartialEq, Eq)]
pub struct AclResult {
    pub path: String,
    pub acls: Vec<AclEntry>,
}

/// One ACL entry: `scheme:id:permissions`.
#[derive(Clone, Debug, PartialEq, Eq)]
pub struct AclEntry {
    pub scheme: String,
    pub id: String,
    pub permissions: String,
}

/// Reply to a four-letter-word command.
#[derive(Clone, Debug, PartialEq, Eq)]
pub struct HealthResult {
    pub command: String,
    pub host: String,
    pub output: String,
}

/// Differences between the same subtree on two servers.
#[derive(Clone, Debug, PartialEq, Eq)]
pub struct DiffResult {
    pub path: String,
    pub added: Vec<String>,
    pub removed: Vec<String>,
    pub modified: Vec<String>,
}

/// How results are printed.
#[derive(Clone, Copy, Debug, PartialEq, Eq)]
pub enum OutputFormat {
    Human,
    Json,
}

} // verus!
