//! Runtime state of an instance as the control plane observes it.

use crate::collection::HasName;
use crate::collection::Named;
use crate::name::Name;
use vstd::prelude::*;
use vstd::string::*;

verus! {

/// Run state of an instance.
///
/// `Starting` and `Stopping` are transient: an instance only passes through
/// them on its way to `Running` or to one of the stopped states.
#[derive(Clone, Copy, Debug, PartialEq, Eq, Structural)]
pub enum InstanceState {
    Creating,
    Starting,
    Running,
    Stopping,
    Stopped,
    Repairing,
    Failed,
    Destroyed,
}

impl InstanceState {
    /// Whether nothing is executing in this state.  `Creating` counts as
    /// stopped; `Starting`, `Running` and `Stopping` do not.
    pub open spec fn spec_is_stopped(self) -> bool {
        self is Creating || self is Stopped || self is Repairing || self is Failed
            || self is Destroyed
    }

    /// Whether the state only exists while a simulated boot or halt is under
    /// way.
    pub open spec fn spec_is_transient(self) -> bool {
        self is Starting || self is Stopping
    }

    /// The state that a request for `self` actually aims at: requests for
    /// states on the way up mean `Running`, a request for `Stopping` means
    /// `Stopped`, every other state stands for itself.
    pub open spec fn spec_clamped(self) -> InstanceState {
        match self {
            InstanceState::Creating | InstanceState::Starting => InstanceState::Running,
            InstanceState::Stopping => InstanceState::Stopped,
            s => s,
        }
    }

    #[verifier::when_used_as_spec(spec_is_stopped)]
    pub fn is_stopped(self) -> (r: bool)
        ensures
            r == self.spec_is_stopped(),
    {
        match self {
            InstanceState::Creating => true,
            InstanceState::Stopped => true,
            InstanceState::Repairing => true,
            InstanceState::Failed => true,
            InstanceState::Destroyed => true,
            InstanceState::Starting => false,
            InstanceState::Running => false,
            InstanceState::Stopping => false,
        }
    }

    #[verifier::when_used_as_spec(spec_is_transient)]
    pub fn is_transient(self) -> (r: bool)
        ensures
            r == self.spec_is_transient(),
    {
        match self {
            InstanceState::Starting => true,
            InstanceState::Stopping => true,
            _ => false,
        }
    }

    #[verifier::when_used_as_spec(spec_clamped)]
    pub fn clamped(self) -> (r: InstanceState)
        ensures
            r == self.spec_clamped(),
    {
        match self {
            InstanceState::Creating => InstanceState::Running,
            InstanceState::Starting => InstanceState::Running,
            InstanceState::Stopping => InstanceState::Stopped,
            s => s,
        }
    }

    /// Lower-case label of the state, as it appears in messages.
    pub open spec fn spec_label(self) -> Seq<char> {
        match self {
            InstanceState::Creating => "creating"@,
            InstanceState::Starting => "starting"@,
            InstanceState::Running => "running"@,
            InstanceState::Stopping => "stopping"@,
            InstanceState::Stopped => "stopped"@,
            InstanceState::Repairing => "repairing"@,
            InstanceState::Failed => "failed"@,
            InstanceState::Destroyed => "destroyed"@,
        }
    }

    pub fn label(self) -> (r: &'static str)
        ensures
            r@ == self.spec_label(),
    {
        match self {
            InstanceState::Creating => "creating",
            InstanceState::Starting => "starting",
            InstanceState::Running => "running",
            InstanceState::Stopping => "stopping",
            InstanceState::Stopped => "stopped",
            InstanceState::Repairing => "repairing",
            InstanceState::Failed => "failed",
            InstanceState::Destroyed => "destroyed",
        }
    }
}

/// A point in time: whole seconds since the Unix epoch and the nanoseconds
/// into that second.  Ordered first by `secs`, then by `nanos`.
#[derive(Clone, Copy, Debug, PartialEq, Eq, PartialOrd, Ord, Structural)]
pub struct Timestamp {
    pub secs: i64,
    pub nanos: u32,
}

/// The observed state of an instance, as its sled last reported it.
///
/// `gen` orders the reports of one instance: an observer that holds a
/// report discards any other whose `gen` is not greater.
#[derive(Clone, Copy, Debug, PartialEq, Eq, Structural)]
pub struct InstanceRuntimeState {
    pub run_state: InstanceState,
    /// Set only while the halt that opens a reboot is under way.
    pub reboot_in_progress: bool,
    /// The sled that owns the instance.
    pub sled_id: u128,
    pub gen: u64,
    pub time_updated: Timestamp,
}

/// The state that a caller asks an instance to reach.  `reboot_wanted` only
/// has a meaning together with `run_state == Running`.
#[derive(Clone, Copy, Debug, PartialEq, Eq, Structural)]
pub struct InstanceRuntimeStateRequested {
    pub run_state: InstanceState,
    pub reboot_wanted: bool,
}

impl InstanceRuntimeStateRequested {
    /// Whether the request is well-formed: a reboot is only asked for on the
    /// way to `Running`.
    pub open spec fn spec_is_valid(self) -> bool {
        self.reboot_wanted ==> self.run_state is Running
    }

    #[verifier::when_used_as_spec(spec_is_valid)]
    pub fn is_valid(self) -> (r: bool)
        ensures
            r == self.spec_is_valid(),
    {
        !self.reboot_wanted || self.run_state == InstanceState::Running
    }
}

impl InstanceRuntimeState {
    /// Whether a report `other` supersedes `self`.
    pub open spec fn spec_superseded_by(self, other: InstanceRuntimeState) -> bool {
        other.gen > self.gen
    }

    #[verifier::when_used_as_spec(spec_superseded_by)]
    pub fn superseded_by(self, other: InstanceRuntimeState) -> (r: bool)
        ensures
            r == self.spec_superseded_by(other),
    {
        other.gen > self.gen
    }
}

/// What every object of the control plane carries: who it is and when it
/// came to be.
#[derive(Debug, PartialEq, Eq)]
pub struct IdentityMetadata {
    /// Assigned by the control plane, never changed.
    pub id: u128,
    /// Unique among the objects of one kind in one collection; can change.
    pub name: Name,
    pub description: String,
    pub time_created: Timestamp,
    pub time_modified: Timestamp,
}

/// An [`IdentityMetadata`] with its texts as sequences of characters.
pub struct IdentityView {
    pub id: u128,
    pub name: Seq<char>,
    pub description: Seq<char>,
    pub time_created: Timestamp,
    pub time_modified: Timestamp,
}

impl View for IdentityMetadata {
    type V = IdentityView;

    open spec fn view(&self) -> IdentityView {
        IdentityView {
            id: self.id,
            name: self.name@,
            description: self.description@,
            time_created: self.time_created,
            time_modified: self.time_modified,
        }
    }
}

impl Clone for IdentityMetadata {
    fn clone(&self) -> (r: IdentityMetadata)
        ensures
            r@ == self@,
    {
        IdentityMetadata {
            id: self.id,
            name: self.name.clone(),
            description: self.description.clone(),
            time_created: self.time_created,
            time_modified: self.time_modified,
        }
    }
}

/// What a caller says of an object that it asks to be created.
#[derive(Debug, PartialEq, Eq)]
pub struct IdentityMetadataCreateParams {
    pub name: Name,
    pub description: String,
}

/// What a caller says of an object that it asks to be changed.  A field
/// that is `None` stays as it is.
#[derive(Debug, PartialEq, Eq)]
pub struct IdentityMetadataUpdateParams {
    pub name: Option<Name>,
    pub description: Option<String>,
}

/// An instance as the control plane knows it.
#[derive(Debug, PartialEq, Eq)]
pub struct Instance {
    pub identity: IdentityMetadata,
    /// The project that the instance belongs to.
    pub project_id: u128,
    /// The state that the sled of the instance last reported.
    pub runtime: InstanceRuntimeState,
}

/// An [`Instance`] with its texts as sequences of characters.
pub struct InstanceView {
    pub identity: IdentityView,
    pub project_id: u128,
    pub runtime: InstanceRuntimeState,
}

impl View for Instance {
    type V = InstanceView;

    open spec fn view(&self) -> InstanceView {
        InstanceView {
            identity: self.identity@,
            project_id: self.project_id,
            runtime: self.runtime,
        }
    }
}

impl Clone for Instance {
    fn clone(&self) -> (r: Instance)
        ensures
            r@ == self@,
    {
        Instance {
            identity: self.identity.clone(),
            project_id: self.project_id,
            runtime: self.runtime,
        }
    }
}

impl HasName for InstanceView {
    open spec fn spec_name(&self) -> Seq<char> {
        self.identity.name
    }
}

impl HasName for Instance {
    open spec fn spec_name(&self) -> Seq<char> {
        self.identity.name@
    }
}

impl Named for Instance {
    fn name(&self) -> (r: &Name) {
        &self.identity.name
    }
}

/// A project: a collection of instances under one name.
#[derive(Debug, PartialEq, Eq)]
pub struct Project {
    pub identity: IdentityMetadata,
    /// Counts the changes made to the project, from 1 on.
    pub generation: u64,
}

/// A [`Project`] with its texts as sequences of characters.
pub struct ProjectView {
    pub identity: IdentityView,
    pub generation: u64,
}

impl View for Project {
    type V = ProjectView;

    open spec fn view(&self) -> ProjectView {
        ProjectView { identity: self.identity@, generation: self.generation }
    }
}

impl Clone for Project {
    fn clone(&self) -> (r: Project)
        ensures
            r@ == self@,
    {
        Project { identity: self.identity.clone(), generation: self.generation }
    }
}

/// What a caller says of a project that it asks to be created.
#[derive(Debug, PartialEq, Eq)]
pub struct ProjectCreateParams {
    pub identity: IdentityMetadataCreateParams,
}

/// What a caller says of a project that it asks to be changed.
#[derive(Debug, PartialEq, Eq)]
pub struct ProjectUpdateParams {
    pub identity: IdentityMetadataUpdateParams,
}

/// What a caller says of an instance that it asks to be created.
#[derive(Debug, PartialEq, Eq)]
pub struct InstanceCreateParams {
    pub identity: IdentityMetadataCreateParams,
}

} // verus!
