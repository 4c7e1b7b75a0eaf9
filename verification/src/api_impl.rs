//! The rack: the registry of projects, instances and sleds, and the
//! operations of the control plane on them.

use crate::collection::collection_lookup;
use crate::collection::has_name;
use crate::collection::is_lower_bound;
use crate::collection::lemma_insert_keeps_sorted;
use crate::collection::lemma_inserted_at_lower_bound;
use crate::collection::lemma_lower_bound_exists;
use crate::collection::lemma_lower_bound_unique;
use crate::collection::lemma_name_at_lower_bound;
use crate::collection::lemma_remove_keeps_sorted;
use crate::collection::lemma_same_names;
use crate::collection::lower_bound;
use crate::collection::marker_text;
use crate::collection::page_bounds;
use crate::collection::page_bounds_descending;
use crate::collection::page_of;
use crate::collection::page_of_descending;
use crate::collection::PaginationParams;
use crate::collection::lower_bound_of;
use crate::collection::position;
use crate::collection::same_names;
use crate::collection::sorted_by_name;
use crate::collection::HasName;
use crate::collection::Named;
use crate::error::ApiError;
use crate::error::ApiErrorView;
use crate::error::ResourceType;
use crate::id::id_text;
use crate::id::spec_id_text;
use crate::id_order::is_id_page;
use crate::id_order::select_page;
use crate::collection::page_size;
use crate::collection::DEFAULT_LIST_PAGE_SIZE;
use crate::model::IdentityMetadata;
use crate::model::IdentityView;
use crate::model::Instance;
use crate::model::InstanceCreateParams;
use crate::model::InstanceRuntimeState;
use crate::model::InstanceRuntimeStateRequested;
use crate::model::InstanceState;
use crate::model::InstanceView;
use crate::model::Project;
use crate::model::ProjectCreateParams;
use crate::model::ProjectUpdateParams;
use crate::model::ProjectView;
use crate::model::Timestamp;
use crate::name::Name;
use crate::name::Precedence;
use crate::outside::is_random_uuid;
use crate::outside::now;
use crate::outside::random_id;
use crate::sim_instance::channel_lost;
use crate::server_controller::generations_exhausted;
use crate::server_controller::InstanceUpdate;
use crate::server_controller::PendingWorker;
use crate::server_controller::ServerController;
use crate::server_controller::ServerControllerView;
use vstd::prelude::*;
use vstd::string::*;

verus! {

/// What the rack made of a report on an instance.
#[derive(Clone, Copy, Debug, PartialEq, Eq, Structural)]
pub enum Notified {
    /// No instance has that identifier: the report was dropped.
    Unknown,
    /// The record is of the same generation or a later one: the report was
    /// dropped.
    Stale,
    /// The report is on record now.
    Applied,
    /// The report said that the instance is destroyed: the instance is
    /// forgotten.
    Removed,
}

/// A report of a sled on an instance, and what the rack made of it.
#[derive(Clone, Copy, Debug, PartialEq, Eq, Structural)]
pub struct Poked {
    pub update: InstanceUpdate,
    pub notice: Notified,
}

/// A project with the instances that belong to it, in the order of their
/// names.
pub struct ProjectEntryView {
    pub project: ProjectView,
    pub instances: Seq<InstanceView>,
}

impl HasName for ProjectEntryView {
    open spec fn spec_name(&self) -> Seq<char> {
        self.project.identity.name
    }
}

/// What the rack holds.
pub struct RackView {
    /// The projects, in the order of their names.
    pub projects: Seq<ProjectEntryView>,
    /// The sleds, in the order in which they joined.
    pub sleds: Seq<ServerControllerView>,
    /// The position of the sled that takes the next instance.
    pub next_sled: int,
}

/// The error for an identifier that is taken already.
pub open spec fn id_in_use() -> ApiErrorView {
    ApiErrorView::InternalError { message: "identifier is in use already"@ }
}

/// The error for a rack without sleds.
pub open spec fn no_sleds() -> ApiErrorView {
    ApiErrorView::ServiceUnavailable { message: "no sleds available for new instance"@ }
}

/// The error for a sled that has not joined the rack.
pub open spec fn sled_missing(id: u128) -> ApiErrorView {
    ApiErrorView::ServiceUnavailable { message: "no sled with id \""@ + spec_id_text(id) + "\""@ }
}

/// The error for a project that has used up its generations.
pub open spec fn project_generations_exhausted() -> ApiErrorView {
    ApiErrorView::InternalError { message: "project has used up its generation numbers"@ }
}

/// The instance at `q` in the project at `p` of `projects` has the
/// identifier `id`.
pub open spec fn holds_id(projects: Seq<ProjectEntryView>, p: int, q: int, id: u128) -> bool {
    &&& 0 <= p < projects.len()
    &&& 0 <= q < projects[p].instances.len()
    &&& projects[p].instances[q].identity.id == id
}

/// The instance at `q` in the project at `p` of `projects` is the first with
/// the identifier `id`.
pub open spec fn is_first_holder(
    projects: Seq<ProjectEntryView>,
    p: int,
    q: int,
    id: u128,
) -> bool {
    &&& holds_id(projects, p, q, id)
    &&& forall|a: int, b: int| #[trigger]
        holds_id(projects, a, b, id) ==> (a > p || (a == p && b >= q))
}

/// The place in `projects` of the first instance with the identifier `id`.
pub open spec fn first_holder(projects: Seq<ProjectEntryView>, id: u128) -> (int, int) {
    choose|pq: (int, int)| is_first_holder(projects, pq.0, pq.1, id)
}

impl RackView {
    /// Some project goes by `name`.
    pub open spec fn has_project(self, name: Seq<char>) -> bool {
        has_name(self.projects, name)
    }

    /// Some project has the identifier `id`.
    pub open spec fn has_project_id(self, id: u128) -> bool {
        exists|i: int| 0 <= i < self.projects.len() && #[trigger] self.projects[i].project.identity.id == id
    }

    /// The place of `name` among the projects.
    pub open spec fn project_index(self, name: Seq<char>) -> int {
        lower_bound_of(self.projects, name)
    }

    /// The project that goes by `name`, if there is one.
    pub open spec fn lookup_project(self, name: Seq<char>) -> Option<ProjectView> {
        if self.has_project(name) {
            Some(self.projects[self.project_index(name)].project)
        } else {
            None
        }
    }

    /// The projects and the instances of each project stand in the order of
    /// their names, no two projects share an identifier, and each instance
    /// knows its project.
    pub open spec fn projects_wf(self) -> bool {
        &&& sorted_by_name(self.projects)
        &&& forall|i: int, j: int|
            0 <= i < j < self.projects.len() ==> #[trigger] self.projects[i].project.identity.id
                != #[trigger] self.projects[j].project.identity.id
        &&& forall|i: int|
            0 <= i < self.projects.len() ==> sorted_by_name(#[trigger] self.projects[i].instances)
    }

    /// A project as it is right after its creation at time `now`.
    pub open spec fn new_project(
        id: u128,
        name: Seq<char>,
        description: Seq<char>,
        now: Timestamp,
    ) -> ProjectEntryView {
        ProjectEntryView {
            project: ProjectView {
                identity: IdentityView {
                    id,
                    name,
                    description,
                    time_created: now,
                    time_modified: now,
                },
                generation: 1,
            },
            instances: Seq::empty(),
        }
    }

    /// The rack after the creation of a project.
    pub open spec fn create_project(
        self,
        id: u128,
        name: Seq<char>,
        description: Seq<char>,
        now: Timestamp,
    ) -> RackView {
        RackView {
            projects: self.projects.insert(
                self.project_index(name),
                Self::new_project(id, name, description, now),
            ),
            ..self
        }
    }

    /// The rack after the project `name` has been deleted.
    pub open spec fn delete_project(self, name: Seq<char>) -> RackView {
        RackView { projects: self.projects.remove(self.project_index(name)), ..self }
    }

    /// The project entry `old` after a change at time `now`: a new name and
    /// a new description where they are given, one more generation.
    pub open spec fn updated_project(
        old: ProjectEntryView,
        new_name: Option<Seq<char>>,
        new_description: Option<Seq<char>>,
        now: Timestamp,
    ) -> ProjectEntryView {
        ProjectEntryView {
            project: ProjectView {
                identity: IdentityView {
                    id: old.project.identity.id,
                    name: match new_name {
                        Some(name) => name,
                        None => old.project.identity.name,
                    },
                    description: match new_description {
                        Some(description) => description,
                        None => old.project.identity.description,
                    },
                    time_created: old.project.identity.time_created,
                    time_modified: now,
                },
                generation: (old.project.generation + 1) as u64,
            },
            instances: old.instances,
        }
    }

    /// The rack after the project `name` has been changed at time `now`.
    /// The project moves to the place of its new name.
    pub open spec fn update_project(
        self,
        name: Seq<char>,
        new_name: Option<Seq<char>>,
        new_description: Option<Seq<char>>,
        now: Timestamp,
    ) -> RackView {
        let i = self.project_index(name);
        let updated = Self::updated_project(self.projects[i], new_name, new_description, now);
        let rest = self.projects.remove(i);
        RackView {
            projects: rest.insert(lower_bound_of(rest, updated.spec_name()), updated),
            ..self
        }
    }

    /// Some sled has the identifier `id`.
    pub open spec fn has_sled(self, id: u128) -> bool {
        exists|k: int| 0 <= k < self.sleds.len() && #[trigger] self.sleds[k].id == id
    }

    /// The position of the sled with the identifier `id`.
    pub open spec fn sled_index(self, id: u128) -> int {
        choose|k: int| 0 <= k < self.sleds.len() && #[trigger] self.sleds[k].id == id
    }

    /// No two sleds share an identifier, the instances on every sled are
    /// well-formed, and the sled that takes the next instance is one of the
    /// sleds.
    pub open spec fn sleds_wf(self) -> bool {
        &&& forall|i: int, j: int|
            0 <= i < j < self.sleds.len() ==> #[trigger] self.sleds[i].id
                != #[trigger] self.sleds[j].id
        &&& forall|k: int| 0 <= k < self.sleds.len() ==> (#[trigger] self.sleds[k]).wf()
        &&& if self.sleds.len() == 0 {
            self.next_sled == 0
        } else {
            0 <= self.next_sled < self.sleds.len()
        }
    }

    /// The rack after a sled has joined.
    pub open spec fn add_sled(self, sled: ServerControllerView) -> RackView {
        RackView { sleds: self.sleds.push(sled), ..self }
    }

    /// The rack after a sled has been chosen for a new instance: the next
    /// instance goes to the sled that joined after the chosen one, or to the
    /// first sled if the chosen one joined last.
    pub open spec fn allocate_sled(self) -> RackView {
        RackView {
            next_sled: if self.next_sled + 1 < self.sleds.len() {
                self.next_sled + 1
            } else {
                0
            },
            ..self
        }
    }

    /// The instances of the project `project`, in the order of their names.
    pub open spec fn instances_of(self, project: Seq<char>) -> Seq<InstanceView> {
        self.projects[self.project_index(project)].instances
    }

    /// The project `project` has an instance that goes by `name`.
    pub open spec fn has_instance(self, project: Seq<char>, name: Seq<char>) -> bool {
        self.has_project(project) && has_name(self.instances_of(project), name)
    }

    /// The place of `name` among the instances of `project`.
    pub open spec fn instance_index(self, project: Seq<char>, name: Seq<char>) -> int {
        lower_bound_of(self.instances_of(project), name)
    }

    /// The instance of `project` that goes by `name`, if there is one.
    pub open spec fn lookup_instance(self, project: Seq<char>, name: Seq<char>) -> Option<
        InstanceView,
    > {
        if self.has_instance(project, name) {
            Some(self.instances_of(project)[self.instance_index(project, name)])
        } else {
            None
        }
    }

    /// The rack with `instances` as the instances of `project`.
    pub open spec fn with_instances(
        self,
        project: Seq<char>,
        instances: Seq<InstanceView>,
    ) -> RackView {
        let p = self.project_index(project);
        RackView {
            projects: self.projects.update(
                p,
                ProjectEntryView { instances, ..self.projects[p] },
            ),
            ..self
        }
    }

    /// The rack after `instance` has joined the instances of `project`.
    pub open spec fn put_instance(self, project: Seq<char>, instance: InstanceView) -> RackView {
        let instances = self.instances_of(project);
        self.with_instances(
            project,
            instances.insert(lower_bound_of(instances, instance.spec_name()), instance),
        )
    }

    /// The rack after the instance `name` of `project` has been recorded in
    /// the state `runtime`.
    pub open spec fn set_instance_runtime(
        self,
        project: Seq<char>,
        name: Seq<char>,
        runtime: InstanceRuntimeState,
    ) -> RackView {
        let instances = self.instances_of(project);
        let q = self.instance_index(project, name);
        self.with_instances(
            project,
            instances.update(q, InstanceView { runtime, ..instances[q] }),
        )
    }

    /// The rack with `sled` in the place of the sled at position `k`.
    pub open spec fn with_sled(self, k: int, sled: ServerControllerView) -> RackView {
        RackView { sleds: self.sleds.update(k, sled), ..self }
    }

    /// The state in which an instance is handed to the sled `sled_id` at
    /// its creation at time `now`.
    pub open spec fn creation_snapshot(sled_id: u128, now: Timestamp) -> InstanceRuntimeState {
        InstanceRuntimeState {
            run_state: InstanceState::Creating,
            reboot_in_progress: false,
            sled_id,
            gen: 1,
            time_updated: now,
        }
    }

    /// What a request to take the instance `name` of `project` towards
    /// `target` comes to, where `self` is the rack before, `after` the rack
    /// after and `r` the answer.
    ///
    /// The request fails, and nothing changes, where the project or, failing
    /// that, the instance is not there; where the sled of the instance has
    /// not joined the rack; and where the sled turns the request down.
    /// Otherwise the sled moves the instance, and the registry records the
    /// state that the sled reports, unless the wake-up channel of the
    /// instance turns out to have lost its receiver.  That cannot happen,
    /// and the request succeeds, on a sled whose transitions are completed
    /// by explicit calls, and where the move needs no completion.
    pub open spec fn runtime_request_outcome(
        self,
        after: RackView,
        project: Seq<char>,
        name: Seq<char>,
        target: InstanceRuntimeStateRequested,
        r: Result<Instance, ApiError>,
    ) -> bool {
        &&& !self.has_project(project) ==> {
                &&& r matches Err(e) && e@ == (ApiErrorView::ObjectNotFound {
                    resource: ResourceType::Project,
                    object_name: project,
                })
                &&& after == self
            }
        &&& self.has_project(project) && !self.has_instance(
                project,
                name,
            ) ==> {
                &&& r matches Err(e) && e@ == (ApiErrorView::ObjectNotFound {
                    resource: ResourceType::Instance,
                    object_name: name,
                })
                &&& after == self
            }
        &&& self.has_instance(project, name) ==> {
                let instance = self.lookup_instance(project, name)->Some_0;
                let id = instance.identity.id;
                if !self.has_sled(instance.runtime.sled_id) {
                    &&& r matches Err(e) && e@ == sled_missing(instance.runtime.sled_id)
                    &&& after == self
                } else {
                    let k = self.sled_index(instance.runtime.sled_id);
                    match self.sleds[k].refusal(id, instance.runtime, target) {
                        Some(refusal) => {
                            &&& r matches Err(e) && e@ == refusal
                            &&& after == self
                        },
                        None => {
                            let sled = after.sleds[k];
                            &&& 0 <= k < after.sleds.len()
                            &&& sled.instances.contains_key(id)
                            &&& sled == self.sleds[k].ensured(
                                id,
                                instance.runtime,
                                target,
                                sled.instances[id].current.time_updated,
                            )
                            &&& r matches Ok(updated) ==> {
                                &&& updated@ == (InstanceView {
                                    runtime: sled.instances[id].current,
                                    ..instance
                                })
                                &&& after == self.with_sled(
                                    k,
                                    sled,
                                ).set_instance_runtime(
                                    project,
                                    name,
                                    updated@.runtime,
                                )
                            }
                            &&& r matches Err(e) ==> {
                                &&& e@ == channel_lost()
                                &&& after == self.with_sled(k, sled)
                            }
                            &&& !(self.sleds[k].sim_mode is Auto) || !self.sleds[k].starting_point(
                                id,
                                instance.runtime,
                            ).needs_async(target) ==> r is Ok
                        },
                    }
                }
            }
    }

    /// The request that starts an instance.
    pub open spec fn start_request() -> InstanceRuntimeStateRequested {
        InstanceRuntimeStateRequested { run_state: InstanceState::Running, reboot_wanted: false }
    }

    /// What the creation of the instance `name` in `project`, under the
    /// identifier `id`, comes to, where `self` is the rack before, `after`
    /// the rack after and `r` the answer.
    ///
    /// The creation fails, and nothing changes, where the project is not
    /// there, where the project has an instance of that name, where no sled
    /// has joined the rack, and where the sled whose turn it is knows the
    /// identifier already and turns the request down.  Otherwise the sled
    /// takes the instance on and starts it; the registry records the instance
    /// in the state that the sled reports, and the turn passes to the next
    /// sled, unless the wake-up channel of the instance turns out to have
    /// lost its receiver: then the registry does not get to know the
    /// instance.  That cannot happen, and the creation succeeds, on a sled
    /// whose transitions are completed by explicit calls, and where the sled
    /// knows the instance and starting it needs no completion.
    pub open spec fn create_instance_outcome(
        self,
        after: RackView,
        project: Seq<char>,
        id: u128,
        name: Seq<char>,
        description: Seq<char>,
        r: Result<Instance, ApiError>,
    ) -> bool {
        &&& !self.has_project(project) ==> {
            &&& r matches Err(e) && e@ == (ApiErrorView::ObjectNotFound {
                resource: ResourceType::Project,
                object_name: project,
            })
            &&& after == self
        }
        &&& self.has_instance(project, name) ==> {
            &&& r matches Err(e) && e@ == (ApiErrorView::ObjectAlreadyExists {
                resource: ResourceType::Instance,
                object_name: name,
            })
            &&& after == self
        }
        &&& self.has_project(project) && !self.has_instance(project, name) && self.sleds.len()
            == 0 ==> {
            &&& r matches Err(e) && e@ == no_sleds()
            &&& after == self
        }
        &&& self.has_project(project) && !self.has_instance(project, name) && self.sleds.len()
            > 0 ==> {
            let k = self.next_sled;
            let before = self.sleds[k];
            if before.instances.contains_key(id) && !before.instances[id].has_room(
                Self::start_request(),
            ) {
                &&& r matches Err(e) && e@ == generations_exhausted()
                &&& after == self
            } else {
                let sled = after.sleds[k];
                &&& 0 <= k < after.sleds.len()
                &&& sled.instances.contains_key(id)
                &&& r matches Ok(instance) ==> {
                    &&& instance@.identity.id == id
                    &&& instance@.identity.name == name
                    &&& instance@.identity.description == description
                    &&& instance@.identity.time_modified == instance@.identity.time_created
                    &&& instance@.project_id == self.projects[self.project_index(
                        project,
                    )].project.identity.id
                    &&& instance@.runtime == sled.instances[id].current
                    &&& sled == before.ensured(
                        id,
                        Self::creation_snapshot(before.id, instance@.identity.time_created),
                        Self::start_request(),
                        instance@.runtime.time_updated,
                    )
                    &&& after == self.with_sled(k, sled).allocate_sled().put_instance(
                        project,
                        instance@,
                    )
                }
                &&& r matches Err(e) ==> {
                    &&& e@ == channel_lost()
                    &&& sled == before.ensured(
                        id,
                        Self::creation_snapshot(
                            before.id,
                            sled.instances[id].current.time_updated,
                        ),
                        Self::start_request(),
                        sled.instances[id].current.time_updated,
                    )
                    &&& after == self.with_sled(k, sled)
                }
                &&& !(before.sim_mode is Auto) || (before.instances.contains_key(id)
                    && !before.instances[id].needs_async(Self::start_request())) ==> r is Ok
            }
        }
    }

    /// The instance at `q` in the project at `p` has the identifier `id`.
    pub open spec fn holds_id(self, p: int, q: int, id: u128) -> bool {
        holds_id(self.projects, p, q, id)
    }

    /// Some instance has the identifier `id`.
    pub open spec fn has_instance_id(self, id: u128) -> bool {
        exists|p: int, q: int| holds_id(self.projects, p, q, id)
    }

    /// The instance at `q` in the project at `p` is the first with the
    /// identifier `id`, in the order of the projects and, within a project,
    /// of its instances.
    pub open spec fn is_first_holder(self, p: int, q: int, id: u128) -> bool {
        is_first_holder(self.projects, p, q, id)
    }

    /// The place of the first instance with the identifier `id`.
    pub open spec fn first_holder(self, id: u128) -> (int, int) {
        first_holder(self.projects, id)
    }

    /// What the rack makes of the report that the instance `id` is in the
    /// state `state`.
    pub open spec fn notice(self, id: u128, state: InstanceRuntimeState) -> Notified {
        if !self.has_instance_id(id) {
            Notified::Unknown
        } else {
            let (p, q) = self.first_holder(id);
            if state.gen <= self.projects[p].instances[q].runtime.gen {
                Notified::Stale
            } else if state.run_state is Destroyed {
                Notified::Removed
            } else {
                Notified::Applied
            }
        }
    }

    /// The rack after the report that the instance `id` is in the state
    /// `state`: a report of a greater generation than the one on record
    /// replaces it, and removes the instance if it says that the instance is
    /// destroyed; any other report changes nothing.
    pub open spec fn notified(self, id: u128, state: InstanceRuntimeState) -> RackView {
        let (p, q) = self.first_holder(id);
        let entry = self.projects[p];
        match self.notice(id, state) {
            Notified::Unknown | Notified::Stale => self,
            Notified::Removed => RackView {
                projects: self.projects.update(
                    p,
                    ProjectEntryView { instances: entry.instances.remove(q), ..entry },
                ),
                ..self
            },
            Notified::Applied => RackView {
                projects: self.projects.update(
                    p,
                    ProjectEntryView {
                        instances: entry.instances.update(
                            q,
                            InstanceView { runtime: state, ..entry.instances[q] },
                        ),
                        ..entry
                    },
                ),
                ..self
            },
        }
    }

    /// What the completion of whatever the instance `id` is doing on the
    /// sled `sled_id` comes to, where `self` is the rack before, `after` the
    /// rack after and `r` the answer.
    ///
    /// The call fails, and nothing changes, where the sled has not joined
    /// the rack and where the instance has used up its generations.  Nothing
    /// happens where the sled does not host the instance.  Otherwise the
    /// sled completes the transition and the rack takes note of its report;
    /// a report that the rack cannot place, because it knows no instance of
    /// that identifier, stays on the sled to be tried again.  Where the
    /// wake-up channel of the instance turns out to have lost its receiver,
    /// the rack does not get the report.
    pub open spec fn poke_outcome(
        self,
        after: RackView,
        sled_id: u128,
        id: u128,
        r: Result<Option<Poked>, ApiError>,
    ) -> bool {
        if !self.has_sled(sled_id) {
            &&& r matches Err(e) && e@ == sled_missing(sled_id)
            &&& after == self
        } else {
            let k = self.sled_index(sled_id);
            let sled = self.sleds[k];
            if !sled.instances.contains_key(id) {
                &&& r matches Ok(None)
                &&& after == self
            } else if !sled.can_finish(id) {
                &&& r matches Err(e) && e@ == generations_exhausted()
                &&& after == self
            } else {
                &&& r matches Ok(report) ==> {
                    &&& report matches Some(poked)
                    &&& poked.update == sled.poke_report(id, poked.update.state.time_updated)
                    &&& poked.notice == self.notice(id, poked.update.state)
                    &&& after == self.with_sled(
                        k,
                        sled.poked(id, poked.update.state.time_updated).settled(
                            poked.update,
                            !(poked.notice is Unknown),
                        ),
                    ).notified(id, poked.update.state)
                }
                &&& r matches Err(e) ==> {
                    &&& e@ == channel_lost()
                    &&& 0 <= k < after.sleds.len()
                    &&& after.sleds[k].instances.contains_key(id)
                    &&& after == self.with_sled(
                        k,
                        ServerControllerView {
                            instances: sled.instances.insert(
                                id,
                                sled.instances[id].finish(
                                    after.sleds[k].instances[id].current.time_updated,
                                ),
                            ),
                            ..sled
                        },
                    )
                }
                &&& !(sled.sim_mode is Auto) || !(sled.instances[id].requested matches Some(q)
                    && q.reboot_wanted) ==> r is Ok
            }
        }
    }

    /// The identifiers of the projects, in the order of the projects.
    pub open spec fn project_ids(self) -> Seq<u128> {
        self.projects.map_values(|e: ProjectEntryView| e.project.identity.id)
    }

    /// The identifiers of the sleds, in the order in which the sleds joined.
    pub open spec fn sled_ids(self) -> Seq<u128> {
        self.sleds.map_values(|s: ServerControllerView| s.id)
    }

    /// Whether a change of project `name` would give it a name that another
    /// project holds.
    pub open spec fn rename_collides(self, name: Seq<char>, new_name: Option<Seq<char>>) -> bool {
        new_name matches Some(q) && q != name && self.has_project(q)
    }
}

/// A project with its instances, in the strict order of their names.
struct ProjectEntry {
    project: Project,
    instances: Vec<Instance>,
}

impl View for ProjectEntry {
    type V = ProjectEntryView;

    closed spec fn view(&self) -> ProjectEntryView {
        ProjectEntryView {
            project: self.project@,
            instances: self.instances@.map_values(|i: Instance| i@),
        }
    }
}

impl HasName for ProjectEntry {
    closed spec fn spec_name(&self) -> Seq<char> {
        self.project.identity.name@
    }
}

impl Named for ProjectEntry {
    fn name(&self) -> (r: &Name) {
        &self.project.identity.name
    }
}

/// The rack.
///
/// The projects, and the instances of each project, are kept in vectors in
/// the strict order of their names, so that a lookup is a binary search and a
/// page is a slice.  An ordered map keyed by name would give the same, but
/// `vstd` specifies the order of a map's keys only for integers: with the
/// order spelled out over the texts of the names, every lookup, insertion
/// and page is proved against it.  The sleds stand in the order in which
/// they joined, which is the order in which they take instances.
pub struct OxideRack {
    projects: Vec<ProjectEntry>,
    sleds: Vec<ServerController>,
    next_sled: usize,
}

impl View for OxideRack {
    type V = RackView;

    closed spec fn view(&self) -> RackView {
        RackView {
            projects: self.projects@.map_values(|e: ProjectEntry| e@),
            sleds: self.sleds@.map_values(|s: ServerController| s@),
            next_sled: self.next_sled as int,
        }
    }
}

impl OxideRack {
    /// The registry is in order.
    pub closed spec fn wf(&self) -> bool {
        &&& self@.projects_wf()
        &&& self@.sleds_wf()
        &&& forall|k: int| 0 <= k < self.sleds@.len() ==> (#[trigger] self.sleds@[k]).wf()
    }

    /// What `wf` says of the projects.
    pub proof fn lemma_wf(&self)
        requires
            self.wf(),
        ensures
            self@.projects_wf(),
            self@.sleds_wf(),
    {
    }

    proof fn lemma_projects_same_names(&self)
        ensures
            same_names(self.projects@, self@.projects),
    {
    }

    /// A rack without projects and without sleds.
    pub fn new() -> (r: OxideRack)
        ensures
            r.wf(),
            r@ == (RackView { projects: Seq::empty(), sleds: Seq::empty(), next_sled: 0 }),
    {
        let r = OxideRack { projects: Vec::new(), sleds: Vec::new(), next_sled: 0 };
        assert(r@.projects =~= Seq::empty());
        assert(r@.sleds =~= Seq::empty());
        r
    }

    /// The position of the project with identifier `id`, if there is one.
    fn project_position_by_id(&self, id: u128) -> (r: Option<usize>)
        ensures
            match r {
                Some(i) => i < self@.projects.len() && self@.projects[i as int].project.identity.id
                    == id,
                None => !self@.has_project_id(id),
            },
    {
        let mut i: usize = 0;
        while i < self.projects.len()
            invariant
                i <= self.projects.len(),
                forall|j: int| 0 <= j < i ==> (#[trigger] self@.projects[j]).project.identity.id != id,
            decreases self.projects.len() - i,
        {
            if self.projects[i].project.identity.id == id {
                return Some(i);
            }
            i += 1;
        }
        None
    }

    /// Creates a project under the identifier `id`.
    ///
    /// The call fails, and nothing changes, where a project goes by that
    /// name already and, failing that, where a project has that identifier
    /// already.  The new project is empty, of generation 1, created and
    /// modified at the time of the call.
    pub fn project_create_with_id(&mut self, id: u128, new_project: &ProjectCreateParams) -> (r:
        Result<Project, ApiError>)
        requires
            old(self).wf(),
        ensures
            final(self).wf(),
            old(self)@.has_project(new_project.identity.name@) ==> {
                &&& r matches Err(e) && e@ == (ApiErrorView::ObjectAlreadyExists {
                    resource: ResourceType::Project,
                    object_name: new_project.identity.name@,
                })
                &&& final(self)@ == old(self)@
            },
            !old(self)@.has_project(new_project.identity.name@) && old(self)@.has_project_id(id)
                ==> {
                &&& r matches Err(e) && e@ == id_in_use()
                &&& final(self)@ == old(self)@
            },
            !old(self)@.has_project(new_project.identity.name@) && !old(self)@.has_project_id(id)
                ==> {
                &&& r matches Ok(project)
                &&& project@.identity.id == id
                &&& project@.identity.name == new_project.identity.name@
                &&& project@.identity.description == new_project.identity.description@
                &&& project@.identity.time_modified == project@.identity.time_created
                &&& project@.generation == 1
                &&& final(self)@ == old(self)@.create_project(
                    id,
                    new_project.identity.name@,
                    new_project.identity.description@,
                    project@.identity.time_created,
                )
                &&& final(self)@.lookup_project(new_project.identity.name@) == Some(project@)
            },
    {
        proof {
            self.lemma_projects_same_names();
            lemma_same_names(self.projects@, self@.projects, new_project.identity.name@);
        }
        let name = &new_project.identity.name;
        let at = lower_bound(&self.projects, name);
        proof {
            lemma_name_at_lower_bound(self.projects@, name@, at as int);
        }
        if at < self.projects.len() {
            match self.projects[at].name().precedence(name) {
                Precedence::Same => {
                    return Err(ApiError::already_exists(ResourceType::Project, name.as_str()));
                },
                _ => {},
            }
        }
        if self.project_position_by_id(id).is_some() {
            return Err(ApiError::internal_error("identifier is in use already"));
        }
        let time = now();
        let project = Project {
            identity: IdentityMetadata {
                id,
                name: name.clone(),
                description: new_project.identity.description.clone(),
                time_created: time,
                time_modified: time,
            },
            generation: 1,
        };
        let created = project.clone();
        let entry = ProjectEntry { project, instances: Vec::new() };
        let ghost before = self@;
        let ghost entry_view = entry@;
        proof {
            assert(entry_view.instances =~= Seq::empty());
            assert(entry_view == RackView::new_project(
                id,
                name@,
                new_project.identity.description@,
                time,
            ));
            lemma_insert_keeps_sorted(before.projects, entry_view, at as int);
        }
        self.projects.insert(at, entry);
        proof {
            assert(self@.projects =~= before.projects.insert(at as int, entry_view));
            assert(self@.sleds =~= before.sleds);
            lemma_create_then_lookup(
                before,
                id,
                name@,
                new_project.identity.description@,
                time,
            );
            lemma_inserted_projects_wf(before, entry_view, at as int);
        }
        Ok(created)
    }

    /// Creates a project under a fresh random identifier.
    ///
    /// The call fails, and nothing changes, where a project goes by that
    /// name already, and in the event that the identifier drawn is taken:
    /// it fails for no other reason, so that it succeeds on every rack that
    /// holds neither a project of that name nor one with a random
    /// identifier.
    pub fn project_create(&mut self, new_project: &ProjectCreateParams) -> (r: Result<
        Project,
        ApiError,
    >)
        requires
            old(self).wf(),
        ensures
            final(self).wf(),
            old(self)@.has_project(new_project.identity.name@) ==> {
                &&& r matches Err(e) && e@ == (ApiErrorView::ObjectAlreadyExists {
                    resource: ResourceType::Project,
                    object_name: new_project.identity.name@,
                })
                &&& final(self)@ == old(self)@
            },
            r matches Err(e) ==> {
                &&& final(self)@ == old(self)@
                &&& !old(self)@.has_project(new_project.identity.name@) ==> e@ == id_in_use()
            },
            r matches Ok(project) ==> {
                &&& is_random_uuid(project@.identity.id)
                &&& !old(self)@.has_project(new_project.identity.name@)
                &&& !old(self)@.has_project_id(project@.identity.id)
                &&& project@.identity.name == new_project.identity.name@
                &&& project@.identity.description == new_project.identity.description@
                &&& project@.identity.time_modified == project@.identity.time_created
                &&& project@.generation == 1
                &&& final(self)@ == old(self)@.create_project(
                    project@.identity.id,
                    new_project.identity.name@,
                    new_project.identity.description@,
                    project@.identity.time_created,
                )
                &&& final(self)@.lookup_project(new_project.identity.name@) == Some(project@)
            },
            r is Err ==> old(self)@.has_project(new_project.identity.name@) || exists|id: u128|
                is_random_uuid(id) && #[trigger] old(self)@.has_project_id(id),
    {
        let id = random_id();
        let r = self.project_create_with_id(id, new_project);
        proof {
            if r is Err && !old(self)@.has_project(new_project.identity.name@) {
                assert(is_random_uuid(id) && old(self)@.has_project_id(id));
            }
        }
        r
    }

    /// The project that goes by `name`, or the error that says that none
    /// does.
    pub fn project_lookup(&self, name: &Name) -> (r: Result<Project, ApiError>)
        requires
            self.wf(),
        ensures
            match r {
                Ok(project) => self@.lookup_project(name@) == Some(project@),
                Err(e) => self@.lookup_project(name@) is None && e@
                    == (ApiErrorView::ObjectNotFound {
                    resource: ResourceType::Project,
                    object_name: name@,
                }),
            },
    {
        proof {
            self.lemma_projects_same_names();
            lemma_same_names(self.projects@, self@.projects, name@);
        }
        match collection_lookup(&self.projects, name, ResourceType::Project) {
            Ok(entry) => {
                assert(self@.projects[self@.project_index(name@)] == entry@);
                Ok(entry.project.clone())
            },
            Err(e) => Err(e),
        }
    }

    /// Deletes the project that goes by `name`, with its instances.  The
    /// call fails, and nothing changes, where no project goes by that name.
    pub fn project_delete(&mut self, name: &Name) -> (r: Result<(), ApiError>)
        requires
            old(self).wf(),
        ensures
            final(self).wf(),
            match r {
                Ok(()) => {
                    &&& old(self)@.has_project(name@)
                    &&& final(self)@ == old(self)@.delete_project(name@)
                    &&& final(self)@.lookup_project(name@) is None
                },
                Err(e) => {
                    &&& !old(self)@.has_project(name@)
                    &&& e@ == (ApiErrorView::ObjectNotFound {
                        resource: ResourceType::Project,
                        object_name: name@,
                    })
                    &&& final(self)@ == old(self)@
                },
            },
    {
        proof {
            self.lemma_projects_same_names();
            lemma_same_names(self.projects@, self@.projects, name@);
        }
        let ghost before = self@;
        match position(&self.projects, name) {
            None => Err(ApiError::not_found(ResourceType::Project, name.as_str())),
            Some(i) => {
                let _ = self.projects.remove(i);
                proof {
                    assert(self@.projects =~= before.projects.remove(i as int));
                    assert(self@.sleds =~= before.sleds);
                    lemma_remove_keeps_sorted(before.projects, i as int);
                    lemma_removed_projects_wf(before, i as int);
                }
                Ok(())
            },
        }
    }

    /// Changes the project that goes by `name`: it gets the name and the
    /// description that `params` gives, where it gives one, and counts one
    /// more generation, modified at the time of the call.
    ///
    /// The call fails, and nothing changes, where no project goes by `name`;
    /// failing that, where the new name differs from `name` and another
    /// project holds it; failing that, where the project has used up its
    /// generations.
    pub fn project_update(&mut self, name: &Name, params: &ProjectUpdateParams) -> (r: Result<
        Project,
        ApiError,
    >)
        requires
            old(self).wf(),
        ensures
            final(self).wf(),
            !old(self)@.has_project(name@) ==> {
                &&& r matches Err(e) && e@ == (ApiErrorView::ObjectNotFound {
                    resource: ResourceType::Project,
                    object_name: name@,
                })
                &&& final(self)@ == old(self)@
            },
            old(self)@.has_project(name@) ==> {
                let new_name = match params.identity.name {
                    Some(q) => Some(q@),
                    None => None,
                };
                let new_description = match params.identity.description {
                    Some(d) => Some(d@),
                    None => None,
                };
                if old(self)@.rename_collides(name@, new_name) {
                    &&& r matches Err(e) && e@ == (ApiErrorView::ObjectAlreadyExists {
                        resource: ResourceType::Project,
                        object_name: new_name->Some_0,
                    })
                    &&& final(self)@ == old(self)@
                } else if old(self)@.lookup_project(name@)->Some_0.generation == u64::MAX {
                    &&& r matches Err(e) && e@ == project_generations_exhausted()
                    &&& final(self)@ == old(self)@
                } else {
                    &&& r matches Ok(project)
                    &&& final(self)@ == old(self)@.update_project(
                        name@,
                        new_name,
                        new_description,
                        project@.identity.time_modified,
                    )
                    &&& final(self)@.lookup_project(project@.identity.name) == Some(project@)
                    &&& project@ == RackView::updated_project(
                        old(self)@.projects[old(self)@.project_index(name@)],
                        new_name,
                        new_description,
                        project@.identity.time_modified,
                    ).project
                }
            },
    {
        proof {
            self.lemma_projects_same_names();
            lemma_same_names(self.projects@, self@.projects, name@);
        }
        let ghost before = self@;
        let i = match position(&self.projects, name) {
            None => {
                return Err(ApiError::not_found(ResourceType::Project, name.as_str()));
            },
            Some(i) => i,
        };
        match &params.identity.name {
            Some(q) => {
                proof {
                    lemma_same_names(self.projects@, self@.projects, q@);
                }
                proof {
                    crate::name::lemma_lex_lt_irreflexive(q@, 0);
                }
                match q.precedence(name) {
                    Precedence::Same => {},
                    _ => {
                        if position(&self.projects, q).is_some() {
                            return Err(
                                ApiError::already_exists(ResourceType::Project, q.as_str()),
                            );
                        }
                    },
                }
            },
            None => {},
        }
        if self.projects[i].project.generation == u64::MAX {
            return Err(ApiError::internal_error("project has used up its generation numbers"));
        }
        let time = now();
        let mut entry = self.projects.remove(i);
        let ghost old_entry = entry@;
        let ghost rest = before.projects.remove(i as int);
        proof {
            assert(old_entry == before.projects[i as int]);
            assert(sorted_by_name(old_entry.instances));
            assert(self@.projects =~= rest);
            lemma_remove_keeps_sorted(before.projects, i as int);
            lemma_removed_projects_wf(before, i as int);
        }
        match &params.identity.name {
            Some(q) => {
                entry.project.identity.name = q.clone();
            },
            None => {},
        }
        match &params.identity.description {
            Some(d) => {
                entry.project.identity.description = d.clone();
            },
            None => {},
        }
        entry.project.identity.time_modified = time;
        entry.project.generation = entry.project.generation + 1;
        let updated = entry.project.clone();
        let ghost entry_view = entry@;
        proof {
            assert(entry_view.instances == old_entry.instances);
            self.lemma_projects_same_names();
            lemma_same_names(self.projects@, self@.projects, entry_view.spec_name());
        }
        let at = lower_bound(&self.projects, entry.name());
        proof {
            lemma_lower_bound_unique(
                rest,
                entry_view.spec_name(),
                at as int,
                lower_bound_of(rest, entry_view.spec_name()),
            );
            lemma_insert_keeps_sorted(rest, entry_view, at as int);
        }
        self.projects.insert(at, entry);
        proof {
            assert(self@.projects =~= rest.insert(at as int, entry_view));
            assert(self@.sleds =~= before.sleds);
            lemma_inserted_projects_wf(
                RackView { projects: rest, ..before },
                entry_view,
                at as int,
            );
            lemma_inserted_at_lower_bound(rest, entry_view, at as int);
            lemma_lower_bound_unique(
                self@.projects,
                entry_view.spec_name(),
                at as int,
                self@.project_index(entry_view.spec_name()),
            );
            assert(self@.projects[at as int] == entry_view);
        }
        Ok(updated)
    }

    /// The position of the sled with the identifier `id`, if it has joined.
    fn sled_position(&self, id: u128) -> (r: Option<usize>)
        requires
            self.wf(),
        ensures
            match r {
                Some(k) => k < self@.sleds.len() && self@.sleds[k as int].id == id && k as int
                    == self@.sled_index(id) && self@.has_sled(id),
                None => !self@.has_sled(id),
            },
    {
        let mut k: usize = 0;
        while k < self.sleds.len()
            invariant
                k <= self.sleds.len(),
                self.wf(),
                forall|j: int| 0 <= j < k ==> (#[trigger] self@.sleds[j]).id != id,
            decreases self.sleds.len() - k,
        {
            if self.sleds[k].id() == id {
                proof {
                    let chosen = self@.sled_index(id);
                    assert(self@.sleds[k as int].id == id);
                    if chosen != k {
                        assert(self@.sleds[chosen].id == id);
                    }
                }
                return Some(k);
            }
            k += 1;
        }
        None
    }

    /// Lets a sled join the rack.  The call fails, and nothing changes, where
    /// a sled with that identifier has joined already.
    pub fn add_server_controller(&mut self, sc: ServerController) -> (r: Result<(), ApiError>)
        requires
            old(self).wf(),
            sc.wf(),
        ensures
            final(self).wf(),
            match r {
                Ok(()) => !old(self)@.has_sled(sc@.id) && final(self)@ == old(self)@.add_sled(sc@),
                Err(e) => {
                    &&& old(self)@.has_sled(sc@.id)
                    &&& final(self)@ == old(self)@
                    &&& e@ == (ApiErrorView::ObjectAlreadyExists {
                        resource: ResourceType::Sled,
                        object_name: spec_id_text(sc@.id),
                    })
                },
            },
    {
        let id = sc.id();
        if self.sled_position(id).is_some() {
            let text = id_text(id);
            return Err(
                ApiError::ObjectAlreadyExists { resource: ResourceType::Sled, object_name: text },
            );
        }
        let ghost before = self@;
        let ghost joined = sc@;
        proof {
            sc.lemma_wf();
        }
        self.sleds.push(sc);
        proof {
            assert(self@.sleds =~= before.sleds.push(joined));
            assert(self@.projects =~= before.projects);
            assert forall|i: int, j: int| 0 <= i < j < self@.sleds.len() implies (
            #[trigger] self@.sleds[i]).id != (#[trigger] self@.sleds[j]).id by {
                if j < before.sleds.len() {
                    assert(self@.sleds[i] == before.sleds[i]);
                    assert(self@.sleds[j] == before.sleds[j]);
                } else {
                    assert(self@.sleds[i] == before.sleds[i]);
                }
            }
        }
        Ok(())
    }

    /// Chooses the sled for a new instance: each sled in turn, in the order
    /// in which the sleds joined.  The call fails, and nothing changes, where
    /// no sled has joined.
    pub fn sled_allocate(&mut self) -> (r: Result<u128, ApiError>)
        requires
            old(self).wf(),
        ensures
            final(self).wf(),
            match r {
                Ok(id) => {
                    &&& old(self)@.sleds.len() > 0
                    &&& id == old(self)@.sleds[old(self)@.next_sled].id
                    &&& final(self)@ == old(self)@.allocate_sled()
                },
                Err(e) => {
                    &&& old(self)@.sleds.len() == 0
                    &&& e@ == no_sleds()
                    &&& final(self)@ == old(self)@
                },
            },
    {
        if self.sleds.len() == 0 {
            return Err(ApiError::unavailable("no sleds available for new instance"));
        }
        let id = self.sleds[self.next_sled].id();
        self.next_sled = if self.next_sled + 1 < self.sleds.len() {
            self.next_sled + 1
        } else {
            0
        };
        Ok(id)
    }

    /// The number of sleds that have joined.
    pub fn sled_count(&self) -> (r: usize)
        ensures
            r == self@.sleds.len(),
    {
        self.sleds.len()
    }

    /// The number of projects.
    pub fn project_count(&self) -> (r: usize)
        ensures
            r == self@.projects.len(),
    {
        self.projects.len()
    }

    proof fn lemma_instances_same_names(&self, p: int)
        requires
            0 <= p < self.projects@.len(),
        ensures
            same_names(self.projects@[p].instances@, self@.projects[p].instances),
    {
    }

    /// The position of the project that goes by `name`, if there is one.
    fn project_position(&self, name: &Name) -> (r: Option<usize>)
        requires
            self.wf(),
        ensures
            match r {
                Some(p) => p < self@.projects.len() && self@.has_project(name@) && p as int
                    == self@.project_index(name@) && self@.projects[p as int].spec_name() == name@,
                None => !self@.has_project(name@),
            },
    {
        proof {
            self.lemma_projects_same_names();
            lemma_same_names(self.projects@, self@.projects, name@);
        }
        position(&self.projects, name)
    }

    /// The position of the instance of the project at `p` that goes by
    /// `name`, if there is one.
    fn instance_position(&self, p: usize, name: &Name) -> (r: Option<usize>)
        requires
            self.wf(),
            p < self@.projects.len(),
        ensures
            match r {
                Some(q) => q < self@.projects[p as int].instances.len() && has_name(
                    self@.projects[p as int].instances,
                    name@,
                ) && q as int == lower_bound_of(self@.projects[p as int].instances, name@)
                    && self@.projects[p as int].instances[q as int].spec_name() == name@,
                None => !has_name(self@.projects[p as int].instances, name@),
            },
    {
        proof {
            self.lemma_instances_same_names(p as int);
            lemma_same_names(
                self.projects@[p as int].instances@,
                self@.projects[p as int].instances,
                name@,
            );
        }
        position(&self.projects[p].instances, name)
    }

    /// The instance of `project_name` that goes by `instance_name`, or the
    /// error that says which of the two is not there.
    pub fn project_lookup_instance(&self, project_name: &Name, instance_name: &Name) -> (r:
        Result<Instance, ApiError>)
        requires
            self.wf(),
        ensures
            match r {
                Ok(instance) => self@.lookup_instance(project_name@, instance_name@) == Some(
                    instance@,
                ),
                Err(e) => {
                    &&& self@.lookup_instance(project_name@, instance_name@) is None
                    &&& e@ == if self@.has_project(project_name@) {
                        ApiErrorView::ObjectNotFound {
                            resource: ResourceType::Instance,
                            object_name: instance_name@,
                        }
                    } else {
                        ApiErrorView::ObjectNotFound {
                            resource: ResourceType::Project,
                            object_name: project_name@,
                        }
                    }
                },
            },
    {
        let p = match self.project_position(project_name) {
            Some(p) => p,
            None => {
                return Err(ApiError::not_found(ResourceType::Project, project_name.as_str()));
            },
        };
        match self.instance_position(p, instance_name) {
            Some(q) => Ok(self.projects[p].instances[q].clone()),
            None => Err(ApiError::not_found(ResourceType::Instance, instance_name.as_str())),
        }
    }

    /// Asks the sled at position `k` to take `instance` towards `target`.
    fn sled_ensure(
        &mut self,
        k: usize,
        instance: &Instance,
        target: &InstanceRuntimeStateRequested,
    ) -> (r: Result<InstanceRuntimeState, ApiError>)
        requires
            old(self).wf(),
            k < old(self)@.sleds.len(),
        ensures
            final(self).wf(),
            final(self)@.projects == old(self)@.projects,
            final(self)@.next_sled == old(self)@.next_sled,
            final(self)@.sleds.len() == old(self)@.sleds.len(),
            final(self)@ == old(self)@.with_sled(k as int, final(self)@.sleds[k as int]),
            match old(self)@.sleds[k as int].refusal(
                instance.identity.id,
                instance.runtime,
                *target,
            ) {
                Some(refusal) => {
                    &&& r matches Err(e) && e@ == refusal
                    &&& final(self)@ == old(self)@
                },
                None => {
                    let id = instance.identity.id;
                    let sled = final(self)@.sleds[k as int];
                    &&& sled.instances.contains_key(id)
                    &&& sled == old(self)@.sleds[k as int].ensured(
                        id,
                        instance.runtime,
                        *target,
                        sled.instances[id].current.time_updated,
                    )
                    &&& r matches Ok(state) ==> state == sled.instances[id].current
                    &&& r matches Err(e) ==> e@ == channel_lost()
                    &&& !(old(self)@.sleds[k as int].sim_mode is Auto) || !old(
                        self,
                    )@.sleds[k as int].starting_point(id, instance.runtime).needs_async(*target)
                        ==> r is Ok
                },
            },
    {
        let ghost before = self@;
        let ghost sleds_before = self.sleds@;
        assert(before.sleds[k as int] == sleds_before[k as int]@);
        let r = self.sleds[k].instance_ensure(instance, target);
        proof {
            assert(self.sleds@ =~= sleds_before.update(k as int, self.sleds@[k as int]));
            assert(self@.sleds[k as int] == self.sleds@[k as int]@);
            if before.sleds[k as int].refusal(instance.identity.id, instance.runtime, *target)
                is Some {
                assert(self@.sleds =~= before.sleds);
            }
            self.sleds@[k as int].lemma_wf();
            assert(self@.sleds =~= before.sleds.update(k as int, self@.sleds[k as int]));
            assert(self@.projects =~= before.projects);
            assert forall|i: int, j: int| 0 <= i < j < self@.sleds.len() implies (
            #[trigger] self@.sleds[i]).id != (#[trigger] self@.sleds[j]).id by {
                assert(self@.sleds[i].id == before.sleds[i].id);
                assert(self@.sleds[j].id == before.sleds[j].id);
            }
        }
        r
    }

    /// Records `runtime` as the state of the instance at `q` in the project
    /// at `p`.
    fn store_runtime(&mut self, p: usize, q: usize, runtime: InstanceRuntimeState)
        requires
            old(self).wf(),
            p < old(self)@.projects.len(),
            q < old(self)@.projects[p as int].instances.len(),
        ensures
            final(self).wf(),
            final(self)@.sleds == old(self)@.sleds,
            final(self)@.next_sled == old(self)@.next_sled,
            final(self)@.projects == old(self)@.projects.update(
                p as int,
                ProjectEntryView {
                    instances: old(self)@.projects[p as int].instances.update(
                        q as int,
                        InstanceView {
                            runtime,
                            ..old(self)@.projects[p as int].instances[q as int]
                        },
                    ),
                    ..old(self)@.projects[p as int]
                },
            ),
    {
        let ghost before = self@;
        let ghost projects_before = self.projects@;
        let ghost sleds_before = self.sleds@;
        assert(before.projects[p as int] == projects_before[p as int]@);
        assert(before.projects[p as int].instances[q as int]
            == projects_before[p as int].instances@[q as int]@);
        self.projects[p].instances[q].runtime = runtime;
        proof {
            let entry = ProjectEntryView {
                instances: before.projects[p as int].instances.update(
                    q as int,
                    InstanceView { runtime, ..before.projects[p as int].instances[q as int] },
                ),
                ..before.projects[p as int]
            };
            assert(self.sleds@ == sleds_before);
            assert(self@.sleds =~= before.sleds);
            assert(self.projects@[p as int]@.instances =~= entry.instances);
            assert(self.projects@[p as int]@ == entry);
            assert(self@.projects =~= before.projects.update(p as int, entry));
            lemma_same_names(before.projects[p as int].instances, entry.instances, Seq::empty());
            lemma_same_names(before.projects, self@.projects, Seq::empty());
            assert forall|i: int| 0 <= i < self@.projects.len() implies sorted_by_name(
                #[trigger] self@.projects[i].instances,
            ) by {
                if i != p {
                    assert(self@.projects[i] == before.projects[i]);
                }
            }
            assert forall|i: int, j: int| 0 <= i < j < self@.projects.len() implies (
            #[trigger] self@.projects[i]).project.identity.id != (
            #[trigger] self@.projects[j]).project.identity.id by {
                assert(self@.projects[i].project == before.projects[i].project);
                assert(self@.projects[j].project == before.projects[j].project);
            }
        }
    }

    /// Takes the instance `instance_name` of `project_name` towards
    /// `target`, and returns the instance in the state that its sled then
    /// reports.
    ///
    /// The call fails, and nothing changes, where the project or, failing
    /// that, the instance is not there; where the sled of the instance has
    /// not joined the rack; and where the sled turns the request down.
    /// Beyond that it fails only if the wake-up channel of the instance has
    /// lost its receiver: the sled has then moved the instance, and the
    /// registry still shows the state from before.
    pub fn instance_set_runtime(
        &mut self,
        project_name: &Name,
        instance_name: &Name,
        target: &InstanceRuntimeStateRequested,
    ) -> (r: Result<Instance, ApiError>)
        requires
            old(self).wf(),
        ensures
            final(self).wf(),
            old(self)@.runtime_request_outcome(
                final(self)@,
                project_name@,
                instance_name@,
                *target,
                r,
            ),
    {
        let p = match self.project_position(project_name) {
            Some(p) => p,
            None => {
                return Err(ApiError::not_found(ResourceType::Project, project_name.as_str()));
            },
        };
        let q = match self.instance_position(p, instance_name) {
            Some(q) => q,
            None => {
                return Err(ApiError::not_found(ResourceType::Instance, instance_name.as_str()));
            },
        };
        let instance = self.projects[p].instances[q].clone();
        let sled_id = instance.runtime.sled_id;
        let k = match self.sled_position(sled_id) {
            Some(k) => k,
            None => {
                let mut message = String::from_str("no sled with id \"");
                message.append(id_text(sled_id).as_str());
                message.append("\"");
                return Err(ApiError::ServiceUnavailable { message });
            },
        };
        match self.sled_ensure(k, &instance, target) {
            Err(e) => Err(e),
            Ok(state) => {
                self.store_runtime(p, q, state);
                let updated = Instance {
                    identity: instance.identity,
                    project_id: instance.project_id,
                    runtime: state,
                };
                Ok(updated)
            },
        }
    }

    /// Reboots the instance `instance_name` of `project_name`: asks for
    /// `Running` by way of a halt.
    pub fn instance_reboot(&mut self, project_name: &Name, instance_name: &Name) -> (r: Result<
        Instance,
        ApiError,
    >)
        requires
            old(self).wf(),
        ensures
            final(self).wf(),
            old(self)@.runtime_request_outcome(
                final(self)@,
                project_name@,
                instance_name@,
                (InstanceRuntimeStateRequested {
                    run_state: InstanceState::Running,
                    reboot_wanted: true,
                }),
                r,
            ),
    {
        let target = InstanceRuntimeStateRequested {
            run_state: InstanceState::Running,
            reboot_wanted: true,
        };
        self.instance_set_runtime(project_name, instance_name, &target)
    }

    /// Starts the instance `instance_name` of `project_name`.
    pub fn instance_start(&mut self, project_name: &Name, instance_name: &Name) -> (r: Result<
        Instance,
        ApiError,
    >)
        requires
            old(self).wf(),
        ensures
            final(self).wf(),
            old(self)@.runtime_request_outcome(
                final(self)@,
                project_name@,
                instance_name@,
                (InstanceRuntimeStateRequested {
                    run_state: InstanceState::Running,
                    reboot_wanted: false,
                }),
                r,
            ),
    {
        let target = InstanceRuntimeStateRequested {
            run_state: InstanceState::Running,
            reboot_wanted: false,
        };
        self.instance_set_runtime(project_name, instance_name, &target)
    }

    /// Stops the instance `instance_name` of `project_name`.
    pub fn instance_stop(&mut self, project_name: &Name, instance_name: &Name) -> (r: Result<
        Instance,
        ApiError,
    >)
        requires
            old(self).wf(),
        ensures
            final(self).wf(),
            old(self)@.runtime_request_outcome(
                final(self)@,
                project_name@,
                instance_name@,
                (InstanceRuntimeStateRequested {
                    run_state: InstanceState::Stopped,
                    reboot_wanted: false,
                }),
                r,
            ),
    {
        let target = InstanceRuntimeStateRequested {
            run_state: InstanceState::Stopped,
            reboot_wanted: false,
        };
        self.instance_set_runtime(project_name, instance_name, &target)
    }

    /// Destroys the instance `instance_name` of `project_name`.  A running
    /// instance is halted first; the registry forgets the instance once its
    /// sled reports it destroyed.
    pub fn instance_destroy(&mut self, project_name: &Name, instance_name: &Name) -> (r: Result<
        Instance,
        ApiError,
    >)
        requires
            old(self).wf(),
        ensures
            final(self).wf(),
            old(self)@.runtime_request_outcome(
                final(self)@,
                project_name@,
                instance_name@,
                (InstanceRuntimeStateRequested {
                    run_state: InstanceState::Destroyed,
                    reboot_wanted: false,
                }),
                r,
            ),
    {
        let target = InstanceRuntimeStateRequested {
            run_state: InstanceState::Destroyed,
            reboot_wanted: false,
        };
        self.instance_set_runtime(project_name, instance_name, &target)
    }

    /// Puts `instance` at `q` among the instances of the project at `p`.
    fn insert_instance(&mut self, p: usize, q: usize, instance: Instance)
        requires
            old(self).wf(),
            p < old(self)@.projects.len(),
            is_lower_bound(old(self)@.projects[p as int].instances, instance@.spec_name(), q as int),
            !has_name(old(self)@.projects[p as int].instances, instance@.spec_name()),
        ensures
            final(self).wf(),
            final(self)@.sleds == old(self)@.sleds,
            final(self)@.next_sled == old(self)@.next_sled,
            final(self)@.projects == old(self)@.projects.update(
                p as int,
                ProjectEntryView {
                    instances: old(self)@.projects[p as int].instances.insert(
                        q as int,
                        instance@,
                    ),
                    ..old(self)@.projects[p as int]
                },
            ),
    {
        let ghost before = self@;
        let ghost projects_before = self.projects@;
        let ghost sleds_before = self.sleds@;
        let ghost added = instance@;
        assert(before.projects[p as int] == projects_before[p as int]@);
        self.projects[p].instances.insert(q, instance);
        proof {
            let entry = ProjectEntryView {
                instances: before.projects[p as int].instances.insert(q as int, added),
                ..before.projects[p as int]
            };
            assert(self.sleds@ == sleds_before);
            assert(self@.sleds =~= before.sleds);
            assert(self.projects@[p as int]@.instances =~= entry.instances);
            assert(self.projects@[p as int]@ == entry);
            assert(self@.projects =~= before.projects.update(p as int, entry));
            lemma_insert_keeps_sorted(before.projects[p as int].instances, added, q as int);
            lemma_same_names(before.projects, self@.projects, Seq::empty());
            assert forall|i: int| 0 <= i < self@.projects.len() implies sorted_by_name(
                #[trigger] self@.projects[i].instances,
            ) by {
                if i != p {
                    assert(self@.projects[i] == before.projects[i]);
                }
            }
            assert forall|i: int, j: int| 0 <= i < j < self@.projects.len() implies (
            #[trigger] self@.projects[i]).project.identity.id != (
            #[trigger] self@.projects[j]).project.identity.id by {
                assert(self@.projects[i].project == before.projects[i].project);
                assert(self@.projects[j].project == before.projects[j].project);
            }
        }
    }

    /// Creates the instance that `params` describes in `project_name`, under
    /// the identifier `id`, on the sled whose turn it is, and starts it.
    pub fn project_create_instance_with_id(
        &mut self,
        project_name: &Name,
        id: u128,
        params: &InstanceCreateParams,
    ) -> (r: Result<Instance, ApiError>)
        requires
            old(self).wf(),
        ensures
            final(self).wf(),
            old(self)@.create_instance_outcome(
                final(self)@,
                project_name@,
                id,
                params.identity.name@,
                params.identity.description@,
                r,
            ),
    {
        let p = match self.project_position(project_name) {
            Some(p) => p,
            None => {
                return Err(ApiError::not_found(ResourceType::Project, project_name.as_str()));
            },
        };
        let name = &params.identity.name;
        proof {
            self.lemma_instances_same_names(p as int);
            lemma_same_names(
                self.projects@[p as int].instances@,
                self@.projects[p as int].instances,
                name@,
            );
        }
        let q = lower_bound(&self.projects[p].instances, name);
        proof {
            lemma_name_at_lower_bound(self.projects@[p as int].instances@, name@, q as int);
        }
        if q < self.projects[p].instances.len() {
            match self.projects[p].instances[q].name().precedence(name) {
                Precedence::Same => {
                    return Err(ApiError::already_exists(ResourceType::Instance, name.as_str()));
                },
                _ => {},
            }
        }
        if self.sleds.len() == 0 {
            return Err(ApiError::unavailable("no sleds available for new instance"));
        }
        let k = self.next_sled;
        let time = now();
        let mut instance = Instance {
            identity: IdentityMetadata {
                id,
                name: name.clone(),
                description: params.identity.description.clone(),
                time_created: time,
                time_modified: time,
            },
            project_id: self.projects[p].project.identity.id,
            runtime: InstanceRuntimeState {
                run_state: InstanceState::Creating,
                reboot_in_progress: false,
                sled_id: self.sleds[k].id(),
                gen: 1,
                time_updated: time,
            },
        };
        let target = InstanceRuntimeStateRequested {
            run_state: InstanceState::Running,
            reboot_wanted: false,
        };
        let ghost before = self@;
        match self.sled_ensure(k, &instance, &target) {
            Err(e) => Err(e),
            Ok(state) => {
                instance.runtime = state;
                let created = instance.clone();
                let ghost seated = self@;
                self.next_sled = if self.next_sled + 1 < self.sleds.len() {
                    self.next_sled + 1
                } else {
                    0
                };
                proof {
                    assert(self@.sleds =~= seated.sleds);
                    assert(self@.projects =~= seated.projects);
                }
                self.insert_instance(p, q, instance);
                proof {
                    lemma_lower_bound_unique(
                        before.instances_of(project_name@),
                        name@,
                        q as int,
                        lower_bound_of(before.instances_of(project_name@), name@),
                    );
                }
                Ok(created)
            },
        }
    }

    /// Creates the instance that `params` describes in `project_name`, under
    /// a fresh random identifier, on the sled whose turn it is, and starts
    /// it.  What comes of it is what [`OxideRack::project_create_instance_with_id`]
    /// gives for the identifier drawn; in particular the creation succeeds
    /// on a sled whose transitions are completed by explicit calls and
    /// which hosts no instance with a random identifier.
    pub fn project_create_instance(
        &mut self,
        project_name: &Name,
        params: &InstanceCreateParams,
    ) -> (r: Result<Instance, ApiError>)
        requires
            old(self).wf(),
        ensures
            final(self).wf(),
            r matches Ok(instance) ==> is_random_uuid(instance@.identity.id)
                && old(self)@.create_instance_outcome(
                final(self)@,
                project_name@,
                instance@.identity.id,
                params.identity.name@,
                params.identity.description@,
                r,
            ),
            r is Err ==> exists|id: u128|
                is_random_uuid(id) && #[trigger] old(self)@.create_instance_outcome(
                    final(self)@,
                    project_name@,
                    id,
                    params.identity.name@,
                    params.identity.description@,
                    r,
                ),
            !old(self)@.has_project(project_name@) || old(self)@.has_instance(
                project_name@,
                params.identity.name@,
            ) || old(self)@.sleds.len() == 0 ==> r is Err && final(self)@ == old(self)@,
            ({
                let sled = old(self)@.sleds[old(self)@.next_sled];
                &&& old(self)@.has_project(project_name@)
                &&& !old(self)@.has_instance(project_name@, params.identity.name@)
                &&& old(self)@.sleds.len() > 0
                &&& !(sled.sim_mode is Auto)
                &&& forall|id: u128| is_random_uuid(id) ==> !#[trigger] sled.instances.contains_key(id)
            }) ==> r is Ok,
    {
        let id = random_id();
        self.project_create_instance_with_id(project_name, id, params)
    }

    /// Takes the instance at `q` out of the project at `p`.
    fn take_instance(&mut self, p: usize, q: usize)
        requires
            old(self).wf(),
            p < old(self)@.projects.len(),
            q < old(self)@.projects[p as int].instances.len(),
        ensures
            final(self).wf(),
            final(self)@.sleds == old(self)@.sleds,
            final(self)@.next_sled == old(self)@.next_sled,
            final(self)@.projects == old(self)@.projects.update(
                p as int,
                ProjectEntryView {
                    instances: old(self)@.projects[p as int].instances.remove(q as int),
                    ..old(self)@.projects[p as int]
                },
            ),
    {
        let ghost before = self@;
        let ghost projects_before = self.projects@;
        let ghost sleds_before = self.sleds@;
        assert(before.projects[p as int] == projects_before[p as int]@);
        let _ = self.projects[p].instances.remove(q);
        proof {
            let entry = ProjectEntryView {
                instances: before.projects[p as int].instances.remove(q as int),
                ..before.projects[p as int]
            };
            assert(self.sleds@ == sleds_before);
            assert(self@.sleds =~= before.sleds);
            assert(self.projects@[p as int]@.instances =~= entry.instances);
            assert(self.projects@[p as int]@ == entry);
            assert(self@.projects =~= before.projects.update(p as int, entry));
            lemma_remove_keeps_sorted(before.projects[p as int].instances, q as int);
            lemma_same_names(before.projects, self@.projects, Seq::empty());
            assert forall|i: int| 0 <= i < self@.projects.len() implies sorted_by_name(
                #[trigger] self@.projects[i].instances,
            ) by {
                if i != p {
                    assert(self@.projects[i] == before.projects[i]);
                }
            }
            assert forall|i: int, j: int| 0 <= i < j < self@.projects.len() implies (
            #[trigger] self@.projects[i]).project.identity.id != (
            #[trigger] self@.projects[j]).project.identity.id by {
                assert(self@.projects[i].project == before.projects[i].project);
                assert(self@.projects[j].project == before.projects[j].project);
            }
        }
    }

    /// The place of the first instance with the identifier `id`, if there
    /// is one.
    fn holder_position(&self, id: u128) -> (r: Option<(usize, usize)>)
        ensures
            match r {
                Some((p, q)) => self@.is_first_holder(p as int, q as int, id) && self@.has_instance_id(
                    id,
                ) && self@.first_holder(id) == (p as int, q as int),
                None => !self@.has_instance_id(id),
            },
    {
        let mut p: usize = 0;
        while p < self.projects.len()
            invariant
                p <= self.projects.len(),
                forall|a: int, b: int| #[trigger] holds_id(self@.projects, a, b, id) ==> a >= p,
            decreases self.projects.len() - p,
        {
            let mut q: usize = 0;
            while q < self.projects[p].instances.len()
                invariant
                    p < self.projects.len(),
                    q <= self.projects@[p as int].instances@.len(),
                    forall|a: int, b: int| #[trigger]
                        holds_id(self@.projects, a, b, id) ==> (a > p || (a == p && b >= q)),
                decreases self.projects@[p as int].instances@.len() - q,
            {
                if self.projects[p].instances[q].identity.id == id {
                    proof {
                        assert(holds_id(self@.projects, p as int, q as int, id));
                        assert(is_first_holder(self@.projects, p as int, q as int, id));
                        let found = (p as int, q as int);
                        assert(is_first_holder(self@.projects, found.0, found.1, id));
                        let chosen = self@.first_holder(id);
                        assert(is_first_holder(self@.projects, chosen.0, chosen.1, id));
                        assert(holds_id(self@.projects, chosen.0, chosen.1, id));
                        assert(chosen == found);
                    }
                    return Some((p, q));
                }
                q += 1;
            }
            p += 1;
        }
        None
    }

    /// Takes note of the report that the instance `instance_id` is in the
    /// state `new_state`.
    ///
    /// A report on an instance that the rack does not know, and a report
    /// that is not of a greater generation than the one on record, is
    /// dropped.  Any other report goes on record; if it says that the
    /// instance is destroyed, the instance is forgotten.
    pub fn notify_instance_updated(&mut self, instance_id: u128, new_state: &InstanceRuntimeState) -> (r:
        Notified)
        requires
            old(self).wf(),
        ensures
            final(self).wf(),
            r == old(self)@.notice(instance_id, *new_state),
            final(self)@ == old(self)@.notified(instance_id, *new_state),
    {
        let (p, q) = match self.holder_position(instance_id) {
            None => {
                return Notified::Unknown;
            },
            Some(place) => place,
        };
        if new_state.gen <= self.projects[p].instances[q].runtime.gen {
            return Notified::Stale;
        }
        if new_state.run_state == InstanceState::Destroyed {
            self.take_instance(p, q);
            Notified::Removed
        } else {
            self.store_runtime(p, q, *new_state);
            Notified::Applied
        }
    }

    /// Completes whatever the instance `instance_id` is doing on the sled
    /// `sled_id`, and takes note of what the sled reports.
    pub fn instance_poke(&mut self, sled_id: u128, instance_id: u128) -> (r: Result<
        Option<Poked>,
        ApiError,
    >)
        requires
            old(self).wf(),
        ensures
            final(self).wf(),
            old(self)@.poke_outcome(final(self)@, sled_id, instance_id, r),
    {
        let k = match self.sled_position(sled_id) {
            Some(k) => k,
            None => {
                let mut message = String::from_str("no sled with id \"");
                message.append(id_text(sled_id).as_str());
                message.append("\"");
                return Err(ApiError::ServiceUnavailable { message });
            },
        };
        let ghost before = self@;
        let ghost sleds_before = self.sleds@;
        assert(before.sleds[k as int] == sleds_before[k as int]@);
        let report = self.sleds[k].instance_poke(instance_id);
        proof {
            assert(self.sleds@ =~= sleds_before.update(k as int, self.sleds@[k as int]));
            assert(self@.sleds[k as int] == self.sleds@[k as int]@);
            self.sleds@[k as int].lemma_wf();
            assert(self@.sleds =~= before.sleds.update(k as int, self@.sleds[k as int]));
            assert(self@.projects =~= before.projects);
            if self@.sleds[k as int] == before.sleds[k as int] {
                assert(self@.sleds =~= before.sleds);
            }
            assert forall|i: int, j: int| 0 <= i < j < self@.sleds.len() implies (
            #[trigger] self@.sleds[i]).id != (#[trigger] self@.sleds[j]).id by {
                assert(self@.sleds[i].id == before.sleds[i].id);
                assert(self@.sleds[j].id == before.sleds[j].id);
            }
        }
        match report {
            Err(e) => Err(e),
            Ok(None) => Ok(None),
            Ok(Some(update)) => {
                let ghost seated = self@;
                let notice = self.notify_instance_updated(update.instance_id, &update.state);
                proof {
                    assert(seated.projects == before.projects);
                    assert(seated.notice(instance_id, update.state) == before.notice(
                        instance_id,
                        update.state,
                    )) by {
                        lemma_notice_depends_on_projects(
                            seated,
                            before,
                            instance_id,
                            update.state,
                        );
                    }
                }
                let delivered = match notice {
                    Notified::Unknown => false,
                    _ => true,
                };
                let ghost noted = self@;
                let ghost sleds_noted = self.sleds@;
                assert(noted.sleds[k as int] == sleds_noted[k as int]@);
                self.sleds[k].settle_report(update, delivered);
                proof {
                    assert(self.sleds@ =~= sleds_noted.update(k as int, self.sleds@[k as int]));
                    assert(self@.sleds[k as int] == self.sleds@[k as int]@);
                    self.sleds@[k as int].lemma_wf();
                    assert(self@.sleds =~= noted.sleds.update(k as int, self@.sleds[k as int]));
                    assert(self@.projects =~= noted.projects);
                    assert(self@.sleds =~= before.sleds.update(k as int, self@.sleds[k as int]));
                    assert forall|i: int, j: int| 0 <= i < j < self@.sleds.len() implies (
                    #[trigger] self@.sleds[i]).id != (#[trigger] self@.sleds[j]).id by {
                        assert(self@.sleds[i].id == noted.sleds[i].id);
                        assert(self@.sleds[j].id == noted.sleds[j].id);
                    }
                }
                Ok(Some(Poked { update, notice }))
            },
        }
    }

    /// Hands out the receivers of the instances on the sled `sled_id` that
    /// wait for their task, oldest first, and lets the sled forget them.
    pub fn take_workers(&mut self, sled_id: u128) -> (r: Result<Vec<PendingWorker>, ApiError>)
        requires
            old(self).wf(),
        ensures
            final(self).wf(),
            match r {
                Ok(workers) => {
                    let k = old(self)@.sled_index(sled_id);
                    &&& old(self)@.has_sled(sled_id)
                    &&& workers@.map_values(|w: PendingWorker| w.instance_id)
                        == old(self)@.sleds[k].workers
                    &&& final(self)@ == old(self)@.with_sled(
                        k,
                        ServerControllerView { workers: Seq::empty(), ..old(self)@.sleds[k] },
                    )
                },
                Err(e) => {
                    &&& !old(self)@.has_sled(sled_id)
                    &&& e@ == sled_missing(sled_id)
                    &&& final(self)@ == old(self)@
                },
            },
    {
        let k = match self.sled_position(sled_id) {
            Some(k) => k,
            None => {
                let mut message = String::from_str("no sled with id \"");
                message.append(id_text(sled_id).as_str());
                message.append("\"");
                return Err(ApiError::ServiceUnavailable { message });
            },
        };
        let ghost before = self@;
        let ghost sleds_before = self.sleds@;
        assert(before.sleds[k as int] == sleds_before[k as int]@);
        let workers = self.sleds[k].take_workers();
        proof {
            assert(self.sleds@ =~= sleds_before.update(k as int, self.sleds@[k as int]));
            assert(self@.sleds[k as int] == self.sleds@[k as int]@);
            self.sleds@[k as int].lemma_wf();
            assert(self@.sleds =~= before.sleds.update(k as int, self@.sleds[k as int]));
            assert(self@.projects =~= before.projects);
            assert forall|i: int, j: int| 0 <= i < j < self@.sleds.len() implies (
            #[trigger] self@.sleds[i]).id != (#[trigger] self@.sleds[j]).id by {
                assert(self@.sleds[i].id == before.sleds[i].id);
                assert(self@.sleds[j].id == before.sleds[j].id);
            }
        }
        Ok(workers)
    }

    /// Settles on the sled `sled_id` a report whose delivery has been
    /// attempted: one that did not arrive waits there to be tried again.
    pub fn settle_report(&mut self, sled_id: u128, update: InstanceUpdate, delivered: bool) -> (r:
        Result<(), ApiError>)
        requires
            old(self).wf(),
        ensures
            final(self).wf(),
            match r {
                Ok(()) => {
                    let k = old(self)@.sled_index(sled_id);
                    &&& old(self)@.has_sled(sled_id)
                    &&& final(self)@ == old(self)@.with_sled(
                        k,
                        old(self)@.sleds[k].settled(update, delivered),
                    )
                },
                Err(e) => {
                    &&& !old(self)@.has_sled(sled_id)
                    &&& e@ == sled_missing(sled_id)
                    &&& final(self)@ == old(self)@
                },
            },
    {
        let k = match self.sled_position(sled_id) {
            Some(k) => k,
            None => {
                let mut message = String::from_str("no sled with id \"");
                message.append(id_text(sled_id).as_str());
                message.append("\"");
                return Err(ApiError::ServiceUnavailable { message });
            },
        };
        let ghost before = self@;
        let ghost sleds_before = self.sleds@;
        assert(before.sleds[k as int] == sleds_before[k as int]@);
        self.sleds[k].settle_report(update, delivered);
        proof {
            assert(self.sleds@ =~= sleds_before.update(k as int, self.sleds@[k as int]));
            assert(self@.sleds[k as int] == self.sleds@[k as int]@);
            self.sleds@[k as int].lemma_wf();
            assert(self@.sleds =~= before.sleds.update(k as int, self@.sleds[k as int]));
            assert(self@.projects =~= before.projects);
            assert forall|i: int, j: int| 0 <= i < j < self@.sleds.len() implies (
            #[trigger] self@.sleds[i]).id != (#[trigger] self@.sleds[j]).id by {
                assert(self@.sleds[i].id == before.sleds[i].id);
                assert(self@.sleds[j].id == before.sleds[j].id);
            }
        }
        Ok(())
    }

    /// Hands out the reports that wait on the sled `sled_id` to be tried
    /// again, oldest first, and lets the sled forget them.
    pub fn take_deferred(&mut self, sled_id: u128) -> (r: Result<Vec<InstanceUpdate>, ApiError>)
        requires
            old(self).wf(),
        ensures
            final(self).wf(),
            match r {
                Ok(reports) => {
                    let k = old(self)@.sled_index(sled_id);
                    &&& old(self)@.has_sled(sled_id)
                    &&& reports@ == old(self)@.sleds[k].retries
                    &&& final(self)@ == old(self)@.with_sled(
                        k,
                        ServerControllerView { retries: Seq::empty(), ..old(self)@.sleds[k] },
                    )
                },
                Err(e) => {
                    &&& !old(self)@.has_sled(sled_id)
                    &&& e@ == sled_missing(sled_id)
                    &&& final(self)@ == old(self)@
                },
            },
    {
        let k = match self.sled_position(sled_id) {
            Some(k) => k,
            None => {
                let mut message = String::from_str("no sled with id \"");
                message.append(id_text(sled_id).as_str());
                message.append("\"");
                return Err(ApiError::ServiceUnavailable { message });
            },
        };
        let ghost before = self@;
        let ghost sleds_before = self.sleds@;
        assert(before.sleds[k as int] == sleds_before[k as int]@);
        let reports = self.sleds[k].take_deferred();
        proof {
            assert(self.sleds@ =~= sleds_before.update(k as int, self.sleds@[k as int]));
            assert(self@.sleds[k as int] == self.sleds@[k as int]@);
            self.sleds@[k as int].lemma_wf();
            assert(self@.sleds =~= before.sleds.update(k as int, self@.sleds[k as int]));
            assert(self@.projects =~= before.projects);
            assert forall|i: int, j: int| 0 <= i < j < self@.sleds.len() implies (
            #[trigger] self@.sleds[i]).id != (#[trigger] self@.sleds[j]).id by {
                assert(self@.sleds[i].id == before.sleds[i].id);
                assert(self@.sleds[j].id == before.sleds[j].id);
            }
        }
        Ok(reports)
    }

    /// The page of the projects that `pagparams` asks for, in the order of
    /// their names.
    pub fn projects_list(&self, pagparams: &PaginationParams<Name>) -> (r: Result<
        Vec<Project>,
        ApiError,
    >)
        requires
            self.wf(),
        ensures
            r matches Ok(projects) && projects@.map_values(|p: Project| p@) == page_of(
                self@.projects,
                marker_text(pagparams.marker),
                pagparams.limit,
            ).map_values(|e: ProjectEntryView| e.project),
    {
        proof {
            self.lemma_projects_same_names();
            lemma_same_names(self.projects@, self@.projects, Seq::empty());
            match &pagparams.marker {
                Some(name) => {
                    lemma_same_names(self.projects@, self@.projects, name@);
                },
                None => {},
            }
        }
        let (start, end) = page_bounds(&self.projects, pagparams);
        let mut projects: Vec<Project> = Vec::new();
        let mut i: usize = start;
        while i < end
            invariant
                start <= i <= end <= self@.projects.len(),
                projects@.map_values(|p: Project| p@) == self@.projects.subrange(
                    start as int,
                    i as int,
                ).map_values(|e: ProjectEntryView| e.project),
            decreases end - i,
        {
            let ghost before = projects@;
            let project = self.projects[i].project.clone();
            projects.push(project);
            proof {
                assert(self@.projects[i as int].project == project@);
                assert(projects@.map_values(|p: Project| p@) =~= before.map_values(
                    |p: Project| p@,
                ).push(project@));
                assert(self@.projects.subrange(start as int, i + 1).map_values(
                    |e: ProjectEntryView| e.project,
                ) =~= self@.projects.subrange(start as int, i as int).map_values(
                    |e: ProjectEntryView| e.project,
                ).push(self@.projects[i as int].project));
            }
            i += 1;
        }
        Ok(projects)
    }

    /// The page of the projects that `pagparams` asks for on the way down
    /// the order of their names.
    pub fn projects_list_descending(&self, pagparams: &PaginationParams<Name>) -> (r: Result<
        Vec<Project>,
        ApiError,
    >)
        requires
            self.wf(),
        ensures
            r matches Ok(projects) && projects@.map_values(|p: Project| p@) == page_of_descending(
                self@.projects,
                marker_text(pagparams.marker),
                pagparams.limit,
            ).map_values(|e: ProjectEntryView| e.project),
    {
        proof {
            self.lemma_projects_same_names();
            lemma_same_names(self.projects@, self@.projects, Seq::empty());
            match &pagparams.marker {
                Some(name) => {
                    lemma_same_names(self.projects@, self@.projects, name@);
                },
                None => {},
            }
        }
        let (bottom, top) = page_bounds_descending(&self.projects, pagparams);
        let mut projects: Vec<Project> = Vec::new();
        let mut i: usize = top;
        while i > bottom
            invariant
                bottom <= i <= top <= self@.projects.len(),
                projects@.map_values(|p: Project| p@) == self@.projects.subrange(
                    i as int,
                    top as int,
                ).reverse().map_values(|e: ProjectEntryView| e.project),
            decreases i,
        {
            let ghost before = projects@;
            i -= 1;
            let project = self.projects[i].project.clone();
            projects.push(project);
            proof {
                assert(self@.projects[i as int].project == project@);
                assert(projects@.map_values(|p: Project| p@) =~= before.map_values(
                    |p: Project| p@,
                ).push(project@));
                assert(self@.projects.subrange(i as int, top as int).reverse().map_values(
                    |e: ProjectEntryView| e.project,
                ) =~= self@.projects.subrange(i + 1, top as int).reverse().map_values(
                    |e: ProjectEntryView| e.project,
                ).push(self@.projects[i as int].project));
            }
        }
        Ok(projects)
    }

    /// The page of the instances of `project_name` that `pagparams` asks
    /// for, in the order of their names, or the error that says that the
    /// project is not there.
    pub fn project_list_instances(
        &self,
        project_name: &Name,
        pagparams: &PaginationParams<Name>,
    ) -> (r: Result<Vec<Instance>, ApiError>)
        requires
            self.wf(),
        ensures
            match r {
                Ok(instances) => self@.has_project(project_name@) && instances@.map_values(
                    |i: Instance| i@,
                ) == page_of(
                    self@.instances_of(project_name@),
                    marker_text(pagparams.marker),
                    pagparams.limit,
                ),
                Err(e) => !self@.has_project(project_name@) && e@
                    == (ApiErrorView::ObjectNotFound {
                    resource: ResourceType::Project,
                    object_name: project_name@,
                }),
            },
    {
        let p = match self.project_position(project_name) {
            Some(p) => p,
            None => {
                return Err(ApiError::not_found(ResourceType::Project, project_name.as_str()));
            },
        };
        proof {
            self.lemma_instances_same_names(p as int);
            lemma_same_names(
                self.projects@[p as int].instances@,
                self@.projects[p as int].instances,
                Seq::empty(),
            );
            match &pagparams.marker {
                Some(name) => {
                    lemma_same_names(
                        self.projects@[p as int].instances@,
                        self@.projects[p as int].instances,
                        name@,
                    );
                },
                None => {},
            }
        }
        let ghost all = self@.projects[p as int].instances;
        let (start, end) = page_bounds(&self.projects[p].instances, pagparams);
        let mut instances: Vec<Instance> = Vec::new();
        let mut i: usize = start;
        while i < end
            invariant
                p < self.projects@.len(),
                all == self@.projects[p as int].instances,
                start <= i <= end <= all.len(),
                instances@.map_values(|i: Instance| i@) == all.subrange(start as int, i as int),
            decreases end - i,
        {
            let ghost before = instances@;
            let instance = self.projects[p].instances[i].clone();
            instances.push(instance);
            proof {
                assert(all[i as int] == instance@);
                assert(instances@.map_values(|i: Instance| i@) =~= before.map_values(
                    |i: Instance| i@,
                ).push(instance@));
                assert(all.subrange(start as int, i + 1) =~= all.subrange(
                    start as int,
                    i as int,
                ).push(all[i as int]));
            }
            i += 1;
        }
        Ok(instances)
    }

    /// The page of the projects that `pagparams` asks for, in the order of
    /// their identifiers: upwards, or downwards if `descending`.  The page
    /// begins at the marker, marker included.
    pub fn projects_list_by_id(&self, pagparams: &PaginationParams<u128>, descending: bool) -> (r:
        Result<Vec<Project>, ApiError>)
        requires
            self.wf(),
        ensures
            r matches Ok(projects) && exists|page: Seq<usize>|
                {
                    &&& is_id_page(
                        self@.project_ids(),
                        page,
                        descending,
                        pagparams.marker,
                        page_size(pagparams.limit) as usize,
                    )
                    &&& #[trigger] page.len() == projects@.len()
                    &&& forall|i: int|
                        0 <= i < page.len() ==> (#[trigger] projects@[i])@
                            == self@.projects[page[i] as int].project
                },
    {
        let limit = match pagparams.limit {
            Some(n) => n,
            None => DEFAULT_LIST_PAGE_SIZE,
        };
        let mut ids: Vec<u128> = Vec::new();
        let mut i: usize = 0;
        while i < self.projects.len()
            invariant
                i <= self.projects@.len(),
                ids@ == self@.project_ids().subrange(0, i as int),
            decreases self.projects@.len() - i,
        {
            ids.push(self.projects[i].project.identity.id);
            assert(ids@ =~= self@.project_ids().subrange(0, i + 1));
            i += 1;
        }
        assert(ids@ =~= self@.project_ids());
        let page = select_page(&ids, descending, pagparams.marker, limit);
        let mut projects: Vec<Project> = Vec::new();
        let mut k: usize = 0;
        while k < page.len()
            invariant
                k <= page@.len(),
                projects@.len() == k,
                forall|i: int| 0 <= i < page@.len() ==> (#[trigger] page@[i]) < self.projects@.len(),
                forall|i: int|
                    0 <= i < k ==> (#[trigger] projects@[i])@
                        == self@.projects[page@[i] as int].project,
            decreases page@.len() - k,
        {
            let project = self.projects[page[k]].project.clone();
            projects.push(project);
            k += 1;
        }
        Ok(projects)
    }

    /// The page of the identifiers of the sleds that `pagparams` asks for,
    /// in their order: upwards, or downwards if `descending`.  The page
    /// begins at the marker, marker included.
    pub fn sleds_list(&self, pagparams: &PaginationParams<u128>, descending: bool) -> (r: Result<
        Vec<u128>,
        ApiError,
    >)
        requires
            self.wf(),
        ensures
            r matches Ok(sleds) && exists|page: Seq<usize>|
                {
                    &&& is_id_page(
                        self@.sled_ids(),
                        page,
                        descending,
                        pagparams.marker,
                        page_size(pagparams.limit) as usize,
                    )
                    &&& #[trigger] page.len() == sleds@.len()
                    &&& forall|i: int|
                        0 <= i < page.len() ==> #[trigger] sleds@[i] == self@.sleds[page[i] as int].id
                },
    {
        let limit = match pagparams.limit {
            Some(n) => n,
            None => DEFAULT_LIST_PAGE_SIZE,
        };
        let mut ids: Vec<u128> = Vec::new();
        let mut i: usize = 0;
        while i < self.sleds.len()
            invariant
                i <= self.sleds@.len(),
                ids@ == self@.sled_ids().subrange(0, i as int),
            decreases self.sleds@.len() - i,
        {
            ids.push(self.sleds[i].id());
            assert(ids@ =~= self@.sled_ids().subrange(0, i + 1));
            i += 1;
        }
        assert(ids@ =~= self@.sled_ids());
        let page = select_page(&ids, descending, pagparams.marker, limit);
        let mut sleds: Vec<u128> = Vec::new();
        let mut k: usize = 0;
        while k < page.len()
            invariant
                k <= page@.len(),
                sleds@.len() == k,
                ids@ == self@.sled_ids(),
                forall|i: int| 0 <= i < page@.len() ==> (#[trigger] page@[i]) < ids@.len(),
                forall|i: int| 0 <= i < k ==> #[trigger] sleds@[i] == self@.sleds[page@[i] as int].id,
            decreases page@.len() - k,
        {
            sleds.push(ids[page[k]]);
            k += 1;
        }
        Ok(sleds)
    }

    /// Whether a project goes by `name`.
    pub fn has_project(&self, name: &Name) -> (r: bool)
        requires
            self.wf(),
        ensures
            r == self@.has_project(name@),
    {
        self.project_position(name).is_some()
    }

    /// Whether a project has the identifier `id`.
    pub fn has_project_id(&self, id: u128) -> (r: bool)
        ensures
            r == self@.has_project_id(id),
    {
        self.project_position_by_id(id).is_some()
    }

    /// Whether a sled with the identifier `id` has joined.
    pub fn has_sled(&self, id: u128) -> (r: bool)
        requires
            self.wf(),
        ensures
            r == self@.has_sled(id),
    {
        self.sled_position(id).is_some()
    }
}

/// An instance that has been recorded in a new state is found under its
/// name in that state, and is otherwise as before.
pub proof fn lemma_set_runtime_then_lookup(
    rack: RackView,
    project: Seq<char>,
    name: Seq<char>,
    runtime: InstanceRuntimeState,
)
    requires
        rack.projects_wf(),
        rack.has_instance(project, name),
    ensures
        rack.set_instance_runtime(project, name, runtime).projects_wf(),
        rack.set_instance_runtime(project, name, runtime).lookup_instance(project, name) == Some(
            InstanceView { runtime, ..rack.lookup_instance(project, name)->Some_0 },
        ),
{
    let p = rack.project_index(project);
    lemma_lower_bound_exists(rack.projects, project);
    lemma_name_at_lower_bound(rack.projects, project, p);
    let instances = rack.instances_of(project);
    let q = rack.instance_index(project, name);
    lemma_lower_bound_exists(instances, name);
    lemma_name_at_lower_bound(instances, name, q);
    let updated = instances.update(q, InstanceView { runtime, ..instances[q] });
    let after = rack.set_instance_runtime(project, name, runtime);
    lemma_same_names(instances, updated, name);
    lemma_same_names(rack.projects, after.projects, project);
    assert(after.projects[p].instances == updated);
    assert forall|i: int| 0 <= i < after.projects.len() implies sorted_by_name(
        #[trigger] after.projects[i].instances,
    ) by {
        if i != p {
            assert(after.projects[i] == rack.projects[i]);
        }
    }
    assert forall|i: int, j: int| 0 <= i < j < after.projects.len() implies (
    #[trigger] after.projects[i]).project.identity.id != (
    #[trigger] after.projects[j]).project.identity.id by {
        assert(after.projects[i].project == rack.projects[i].project);
        assert(after.projects[j].project == rack.projects[j].project);
    }

}

/// What the rack makes of a report depends on its projects alone.
pub proof fn lemma_notice_depends_on_projects(
    a: RackView,
    b: RackView,
    id: u128,
    state: InstanceRuntimeState,
)
    requires
        a.projects == b.projects,
    ensures
        a.has_instance_id(id) == b.has_instance_id(id),
        a.first_holder(id) == b.first_holder(id),
        a.notice(id, state) == b.notice(id, state),
        a.notified(id, state).projects == b.notified(id, state).projects,
{
}

/// A project that has been given a new name is found under the new name,
/// with the identifier it had, and no longer under the old one.
pub proof fn lemma_rename_then_lookup(
    rack: RackView,
    name: Seq<char>,
    new_name: Seq<char>,
    new_description: Option<Seq<char>>,
    now: Timestamp,
)
    requires
        rack.projects_wf(),
        rack.has_project(name),
        new_name != name,
        !rack.has_project(new_name),
    ensures
        rack.update_project(name, Some(new_name), new_description, now).lookup_project(new_name)
            == Some(
            RackView::updated_project(
                rack.projects[rack.project_index(name)],
                Some(new_name),
                new_description,
                now,
            ).project,
        ),
        rack.update_project(name, Some(new_name), new_description, now).lookup_project(
            new_name,
        )->Some_0.identity.id == rack.lookup_project(name)->Some_0.identity.id,
        rack.update_project(name, Some(new_name), new_description, now).lookup_project(name)
            is None,
        rack.update_project(name, Some(new_name), new_description, now).projects_wf(),
{
    let i = rack.project_index(name);
    lemma_lower_bound_exists(rack.projects, name);
    lemma_name_at_lower_bound(rack.projects, name, i);
    let updated = RackView::updated_project(rack.projects[i], Some(new_name), new_description, now);
    let rest = rack.projects.remove(i);
    lemma_remove_keeps_sorted(rack.projects, i);
    lemma_removed_projects_wf(rack, i);
    lemma_lower_bound_exists(rest, new_name);
    let at = lower_bound_of(rest, new_name);
    let after = rack.update_project(name, Some(new_name), new_description, now);
    assert(after.projects == rest.insert(at, updated));
    lemma_inserted_projects_wf(RackView { projects: rest, ..rack }, updated, at);
    lemma_inserted_at_lower_bound(rest, updated, at);
    lemma_lower_bound_unique(after.projects, new_name, at, after.project_index(new_name));
    assert(after.projects[at] == updated);
    if after.has_project(name) {
        let k = choose|k: int| 0 <= k < after.projects.len() && #[trigger] after.projects[k].spec_name() == name;
        if k < at {
            assert(after.projects[k] == rest[k]);
            assert(rest[k].spec_name() == name);
        } else if k > at {
            assert(after.projects[k] == rest[k - 1]);
            assert(rest[k - 1].spec_name() == name);
        }
    }
}

/// The creation of a project leaves the projects of other names as they
/// are.
pub proof fn lemma_create_keeps_others(
    rack: RackView,
    id: u128,
    name: Seq<char>,
    description: Seq<char>,
    now: Timestamp,
    other: Seq<char>,
)
    requires
        rack.projects_wf(),
        !rack.has_project(name),
        other != name,
    ensures
        rack.create_project(id, name, description, now).has_project(other) == rack.has_project(
            other,
        ),
        rack.create_project(id, name, description, now).lookup_project(other)
            == rack.lookup_project(other),
{
    let entry = RackView::new_project(id, name, description, now);
    lemma_lower_bound_exists(rack.projects, name);
    let at = rack.project_index(name);
    let after = rack.create_project(id, name, description, now);
    lemma_insert_keeps_sorted(rack.projects, entry, at);
    if rack.has_project(other) {
        let k = choose|k: int| 0 <= k < rack.projects.len() && #[trigger] rack.projects[k].spec_name() == other;
        let k1 = if k < at {
            k
        } else {
            k + 1
        };
        assert(after.projects[k1] == rack.projects[k]);
        assert(after.projects[k1].spec_name() == other);
        lemma_lower_bound_exists(rack.projects, other);
        lemma_name_at_lower_bound(rack.projects, other, rack.project_index(other));
        lemma_lower_bound_exists(after.projects, other);
        lemma_name_at_lower_bound(after.projects, other, after.project_index(other));
        assert(rack.project_index(other) == k);
        assert(after.project_index(other) == k1);
    }
    if after.has_project(other) {
        let k = choose|k: int| 0 <= k < after.projects.len() && #[trigger] after.projects[k].spec_name() == other;
        assert(k != at);
        let k0 = if k < at {
            k
        } else {
            k - 1
        };
        assert(after.projects[k] == rack.projects[k0]);
        assert(rack.projects[k0].spec_name() == other);
    }
}

/// The creation of a project leaves the other identifiers as they are.
pub proof fn lemma_create_keeps_other_ids(
    rack: RackView,
    id: u128,
    name: Seq<char>,
    description: Seq<char>,
    now: Timestamp,
    other: u128,
)
    requires
        rack.projects_wf(),
        other != id,
    ensures
        rack.create_project(id, name, description, now).has_project_id(other)
            == rack.has_project_id(other),
{
    lemma_lower_bound_exists(rack.projects, name);
    let at = rack.project_index(name);
    let after = rack.create_project(id, name, description, now);
    if rack.has_project_id(other) {
        let k = choose|k: int| 0 <= k < rack.projects.len() && #[trigger] rack.projects[k].project.identity.id == other;
        let k1 = if k < at {
            k
        } else {
            k + 1
        };
        assert(after.projects[k1] == rack.projects[k]);
        assert(after.projects[k1].project.identity.id == other);
    }
    if after.has_project_id(other) {
        let k = choose|k: int| 0 <= k < after.projects.len() && #[trigger] after.projects[k].project.identity.id == other;
        assert(k != at);
        let k0 = if k < at {
            k
        } else {
            k - 1
        };
        assert(after.projects[k] == rack.projects[k0]);
        assert(rack.projects[k0].project.identity.id == other);
    }
}

/// A rack whose projects are in order stays so when a project leaves.
pub proof fn lemma_removed_projects_wf(rack: RackView, i: int)
    requires
        rack.projects_wf(),
        0 <= i < rack.projects.len(),
    ensures
        (RackView { projects: rack.projects.remove(i), ..rack }).projects_wf(),
        !has_name(rack.projects.remove(i), rack.projects[i].spec_name()),
        !(RackView { projects: rack.projects.remove(i), ..rack }).has_project_id(
            rack.projects[i].project.identity.id,
        ),
{
    let rest = rack.projects.remove(i);
    lemma_remove_keeps_sorted(rack.projects, i);
    assert forall|k: int| 0 <= k < rest.len() implies sorted_by_name(
        #[trigger] rest[k].instances,
    ) by {
        let k0 = if k < i {
            k
        } else {
            k + 1
        };
        assert(rest[k] == rack.projects[k0]);
    }
    assert forall|a: int, b: int| 0 <= a < b < rest.len() implies (
    #[trigger] rest[a]).project.identity.id != (#[trigger] rest[b]).project.identity.id by {
        let a0 = if a < i {
            a
        } else {
            a + 1
        };
        let b0 = if b < i {
            b
        } else {
            b + 1
        };
        assert(rest[a] == rack.projects[a0]);
        assert(rest[b] == rack.projects[b0]);
        assert(0 <= a0 < b0 < rack.projects.len());
        assert(rack.projects[a0].project.identity.id != rack.projects[b0].project.identity.id);
    }
    let after = RackView { projects: rest, ..rack };
    if after.has_project_id(rack.projects[i].project.identity.id) {
        let k = choose|k: int|
            0 <= k < rest.len() && #[trigger] rest[k].project.identity.id
                == rack.projects[i].project.identity.id;
        let k0 = if k < i {
            k
        } else {
            k + 1
        };
        assert(rest[k] == rack.projects[k0]);
        if k0 < i {
            assert(rack.projects[k0].project.identity.id != rack.projects[i].project.identity.id);
        } else {
            assert(rack.projects[i].project.identity.id != rack.projects[k0].project.identity.id);
        }
    }
}

/// A rack whose projects are in order stays so when a project with a new
/// name and a new identifier takes the place of its name.
pub proof fn lemma_inserted_projects_wf(rack: RackView, entry: ProjectEntryView, at: int)
    requires
        rack.projects_wf(),
        is_lower_bound(rack.projects, entry.spec_name(), at),
        !rack.has_project(entry.spec_name()),
        !rack.has_project_id(entry.project.identity.id),
        sorted_by_name(entry.instances),
    ensures
        (RackView { projects: rack.projects.insert(at, entry), ..rack }).projects_wf(),
{
    let all = rack.projects.insert(at, entry);
    lemma_insert_keeps_sorted(rack.projects, entry, at);
    assert forall|k: int| 0 <= k < all.len() implies sorted_by_name(#[trigger] all[k].instances) by {
        if k < at {
            assert(all[k] == rack.projects[k]);
        } else if k > at {
            assert(all[k] == rack.projects[k - 1]);
        }
    }
    assert forall|a: int, b: int| 0 <= a < b < all.len() implies (
    #[trigger] all[a]).project.identity.id != (#[trigger] all[b]).project.identity.id by {
        let a0 = if a < at {
            a
        } else {
            a - 1
        };
        let b0 = if b < at {
            b
        } else {
            b - 1
        };
        if a != at {
            assert(all[a] == rack.projects[a0]);
        }
        if b != at {
            assert(all[b] == rack.projects[b0]);
        }
        if a == at {
            assert(all[a] == entry);
            if rack.projects[b0].project.identity.id == entry.project.identity.id {
                assert(rack.has_project_id(entry.project.identity.id));
            }
        } else if b == at {
            assert(all[b] == entry);
            if rack.projects[a0].project.identity.id == entry.project.identity.id {
                assert(rack.has_project_id(entry.project.identity.id));
            }
        } else {
            assert(0 <= a0 < b0 < rack.projects.len());
            assert(rack.projects[a0].project.identity.id != rack.projects[b0].project.identity.id);
        }
    }
}

/// A project that has just been created is found under its name, with the
/// name and the description that were asked for and the identifier that it
/// was given.
pub proof fn lemma_create_then_lookup(
    rack: RackView,
    id: u128,
    name: Seq<char>,
    description: Seq<char>,
    now: Timestamp,
)
    requires
        rack.projects_wf(),
        !rack.has_project(name),
    ensures
        rack.create_project(id, name, description, now).lookup_project(name) == Some(
            RackView::new_project(id, name, description, now).project,
        ),
        sorted_by_name(rack.create_project(id, name, description, now).projects),
{
    let entry = RackView::new_project(id, name, description, now);
    lemma_lower_bound_exists(rack.projects, name);
    let at = rack.project_index(name);
    lemma_insert_keeps_sorted(rack.projects, entry, at);
    let after = rack.create_project(id, name, description, now);
    assert(after.projects[at] == entry);
    lemma_inserted_at_lower_bound(rack.projects, entry, at);
    lemma_lower_bound_unique(after.projects, name, at, after.project_index(name));
}

} // verus!
