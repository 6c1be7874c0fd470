//! Types for representing environment history revisions and package
//! changes: the user request that triggered an operation, the package
//! changes it made, and when it happened.

use vstd::prelude::*;

use crate::channel::Channel;
use crate::names::PackageName;

verus! {

/// A package match specification, kept as its source text.
#[derive(Debug, Clone, PartialEq, Eq, Hash)]
pub struct MatchSpec {
    /// The spec as written, `<name>[ <constraint>...]`.
    pub spec: String,
}

/// A package version, kept as its source text.
#[derive(Debug, Clone, PartialEq, Eq, Hash)]
pub struct Version {
    /// The version as written.
    pub version: String,
}

impl Version {
    /// Wraps a version string.
    pub fn from_str(version: &str) -> (r: Version)
        ensures
            r.version@ == version@,
    {
        Version { version: version.to_owned() }
    }
}

/// Install operation specification.
#[derive(Debug, Clone, PartialEq, Eq, Hash)]
pub struct InstallOperation {
    /// The packages to install.
    pub specs: Vec<MatchSpec>,
}

/// Remove operation specification.
#[derive(Debug, Clone, PartialEq, Eq, Hash)]
pub struct RemoveOperation {
    /// The package names to remove.
    pub names: Vec<PackageName>,
}

/// Update operation specification.
#[derive(Debug, Clone, PartialEq, Eq, Hash)]
pub struct UpdateOperation {
    /// The packages to update (empty means update all).
    pub specs: Vec<MatchSpec>,
}

/// Create environment operation specification.
#[derive(Debug, Clone, PartialEq, Eq, Hash)]
pub struct CreateOperation {
    /// The packages to install in the new environment.
    pub specs: Vec<MatchSpec>,
}

/// Custom operation specification.
#[derive(Debug, Clone, PartialEq, Eq, Hash)]
pub struct CustomOperation {
    /// Description of the custom operation.
    pub description: String,
}

/// A user request that triggered an operation.
#[derive(Debug, Clone, PartialEq, Eq, Hash)]
pub enum UserRequest {
    /// Install specific packages.
    Install(InstallOperation),
    /// Remove specific packages.
    Remove(RemoveOperation),
    /// Update specific packages.
    Update(UpdateOperation),
    /// Create a new environment with specific packages.
    Create(CreateOperation),
    /// A custom operation, for tools other than the package manager.
    Custom(CustomOperation),
}

impl From<InstallOperation> for UserRequest {
    fn from(op: InstallOperation) -> (r: Self) {
        UserRequest::Install(op)
    }
}

impl vstd::std_specs::convert::FromSpecImpl<InstallOperation> for UserRequest {
    open spec fn obeys_from_spec() -> bool {
        true
    }

    open spec fn from_spec(op: InstallOperation) -> Self {
        UserRequest::Install(op)
    }
}

impl From<RemoveOperation> for UserRequest {
    fn from(op: RemoveOperation) -> (r: Self) {
        UserRequest::Remove(op)
    }
}

impl vstd::std_specs::convert::FromSpecImpl<RemoveOperation> for UserRequest {
    open spec fn obeys_from_spec() -> bool {
        true
    }

    open spec fn from_spec(op: RemoveOperation) -> Self {
        UserRequest::Remove(op)
    }
}

impl From<UpdateOperation> for UserRequest {
    fn from(op: UpdateOperation) -> (r: Self) {
        UserRequest::Update(op)
    }
}

impl vstd::std_specs::convert::FromSpecImpl<UpdateOperation> for UserRequest {
    open spec fn obeys_from_spec() -> bool {
        true
    }

    open spec fn from_spec(op: UpdateOperation) -> Self {
        UserRequest::Update(op)
    }
}

impl From<CreateOperation> for UserRequest {
    fn from(op: CreateOperation) -> (r: Self) {
        UserRequest::Create(op)
    }
}

impl vstd::std_specs::convert::FromSpecImpl<CreateOperation> for UserRequest {
    open spec fn obeys_from_spec() -> bool {
        true
    }

    open spec fn from_spec(op: CreateOperation) -> Self {
        UserRequest::Create(op)
    }
}

impl From<CustomOperation> for UserRequest {
    fn from(op: CustomOperation) -> (r: Self) {
        UserRequest::Custom(op)
    }
}

impl vstd::std_specs::convert::FromSpecImpl<CustomOperation> for UserRequest {
    open spec fn obeys_from_spec() -> bool {
        true
    }

    open spec fn from_spec(op: CustomOperation) -> Self {
        UserRequest::Custom(op)
    }
}

/// The operation performed on a package.
#[derive(Debug, Clone, Copy, PartialEq, Eq, Hash, Structural)]
pub enum PackageOperation {
    /// The package was added.
    Add,
    /// The package was removed.
    Remove,
}

/// A package change in a revision.
#[derive(Debug, Clone, PartialEq, Eq)]
pub struct PackageChange {
    /// The package name.
    pub name: PackageName,
    /// The package version.
    pub version: Version,
    /// The channel the package came from.
    pub channel: Channel,
    /// The build string.
    pub build: Option<String>,
    /// Whether this is an addition or a removal.
    pub operation: PackageOperation,
}

/// A single revision in an environment's history.
///
/// Each revision corresponds to one operation (install, remove, update,
/// create) and holds when it happened (seconds since the epoch), the user
/// request that triggered it, and the package changes it made.
#[derive(Debug, Clone, PartialEq, Eq)]
pub struct Revision {
    /// When this revision occurred, in seconds since the epoch.
    pub timestamp: i64,
    /// The user request that triggered this revision.
    pub user_request: UserRequest,
    /// The package changes in this revision.
    pub diff: Vec<PackageChange>,
    /// The command that was run, when recorded.
    pub command: Option<String>,
    /// The version of the tool that created this revision, when recorded.
    pub tool_version: Option<String>,
}

impl Revision {
    /// Creates a revision with no recorded command or tool version.
    pub fn new(timestamp: i64, user_request: UserRequest, diff: Vec<PackageChange>) -> (r:
        Revision)
        ensures
            r.timestamp == timestamp,
            r.user_request == user_request,
            r.diff == diff,
            r.command is None,
            r.tool_version is None,
    {
        Revision { timestamp, user_request, diff, command: None, tool_version: None }
    }

    /// Records the command that was run for this revision.
    pub fn with_command(self, command: String) -> (r: Revision)
        ensures
            r.command == Some(command),
            r.timestamp == self.timestamp,
            r.user_request == self.user_request,
            r.diff == self.diff,
            r.tool_version == self.tool_version,
    {
        Revision { command: Some(command), ..self }
    }

    /// Records the tool version for this revision.
    pub fn with_tool_version(self, tool_version: String) -> (r: Revision)
        ensures
            r.tool_version == Some(tool_version),
            r.timestamp == self.timestamp,
            r.user_request == self.user_request,
            r.diff == self.diff,
            r.command == self.command,
    {
        Revision { tool_version: Some(tool_version), ..self }
    }
}

/// An environment's history: its revisions in chronological order.
#[derive(Debug, Clone, PartialEq, Eq)]
pub struct History {
    revisions: Vec<Revision>,
}

impl History {
    /// The revisions, in order.
    pub closed spec fn view(&self) -> Seq<Revision> {
        self.revisions@
    }

    /// An empty history.
    pub fn new() -> (r: History)
        ensures
            r@ =~= Seq::<Revision>::empty(),
    {
        History { revisions: Vec::new() }
    }

    /// Appends a revision.
    pub fn push(&mut self, revision: Revision)
        ensures
            final(self)@ == old(self)@.push(revision),
    {
        self.revisions.push(revision);
    }

    /// The number of revisions.
    pub fn len(&self) -> (r: usize)
        ensures
            r == self@.len(),
    {
        self.revisions.len()
    }

    /// The revision at an index.
    pub fn get(&self, i: usize) -> (r: &Revision)
        requires
            i < self@.len(),
        ensures
            *r == self@[i as int],
    {
        &self.revisions[i]
    }
}

impl Default for History {
    fn default() -> (r: History)
        ensures
            r@ =~= Seq::<Revision>::empty(),
    {
        History::new()
    }
}

} // verus!
