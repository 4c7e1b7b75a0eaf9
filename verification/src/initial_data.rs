//! The projects and sleds that a freshly started rack begins with.

use crate::api_impl::id_in_use;
use crate::api_impl::lemma_create_keeps_other_ids;
use crate::api_impl::lemma_create_keeps_others;
use crate::api_impl::OxideRack;
use crate::api_impl::RackView;
use crate::collection::lemma_lower_bound_exists;
use crate::error::ApiError;
use crate::error::ApiErrorView;
use crate::error::ResourceType;
use crate::id::id_text;
use crate::id::spec_id_text;
use crate::model::IdentityMetadataCreateParams;
use crate::model::ProjectCreateParams;
use crate::name::is_name;
use crate::name::lemma_name_fault_none_iff_is_name;
use crate::name::Name;
use crate::server_controller::InstanceUpdate;
use crate::server_controller::ServerController;
use crate::server_controller::ServerControllerSimMode;
use crate::server_controller::ServerControllerView;
use crate::sim_instance::SimState;
use vstd::pervasive::unreached;
use vstd::prelude::*;
use vstd::string::*;

verus! {

/// The number of projects and of sleds that a rack begins with.
pub const DEMO_COUNT: usize = 3;

/// The identifier of the `k`-th project that a rack begins with.
pub open spec fn spec_demo_project_id(k: int) -> u128 {
    if k == 0 {
        0x1eb2b543_b199_405f_b705_1739d01a197c
    } else if k == 1 {
        0x4f57c123_3bda_4fae_94a2_46a9632d40b6
    } else {
        0x4aac89b0_df9a_441d_b050_f953476ea290
    }
}

/// The name of the `k`-th project that a rack begins with.
pub open spec fn spec_demo_project_name(k: int) -> Seq<char> {
    if k == 0 {
        "simproject1"@
    } else if k == 1 {
        "simproject2"@
    } else {
        "simproject3"@
    }
}

/// The identifier of the `k`-th sled that a rack begins with.
pub open spec fn spec_demo_sled_id(k: int) -> u128 {
    if k == 0 {
        0xb6d65341_167c_41df_9b5c_41cded99c229
    } else if k == 1 {
        0x2335aceb_969e_4abc_bbba_b0d3b44bc82e
    } else {
        0xdae9faf7_5b13_4334_85ed_6a53d0835414
    }
}

/// The description of the projects that a rack begins with.
pub open spec fn demo_description() -> Seq<char> {
    "<auto-generated at server startup>"@
}

pub fn demo_project_id(k: usize) -> (id: u128)
    ensures
        id == spec_demo_project_id(k as int),
{
    if k == 0 {
        0x1eb2b543_b199_405f_b705_1739d01a197c
    } else if k == 1 {
        0x4f57c123_3bda_4fae_94a2_46a9632d40b6
    } else {
        0x4aac89b0_df9a_441d_b050_f953476ea290
    }
}

pub fn demo_sled_id(k: usize) -> (id: u128)
    ensures
        id == spec_demo_sled_id(k as int),
{
    if k == 0 {
        0xb6d65341_167c_41df_9b5c_41cded99c229
    } else if k == 1 {
        0x2335aceb_969e_4abc_bbba_b0d3b44bc82e
    } else {
        0xdae9faf7_5b13_4334_85ed_6a53d0835414
    }
}

/// The names of the projects that a rack begins with are names, and no
/// two of them are the same.
pub proof fn lemma_demo_names()
    ensures
        is_name(spec_demo_project_name(0)),
        is_name(spec_demo_project_name(1)),
        is_name(spec_demo_project_name(2)),
        spec_demo_project_name(0) != spec_demo_project_name(1),
        spec_demo_project_name(0) != spec_demo_project_name(2),
        spec_demo_project_name(1) != spec_demo_project_name(2),
{
    reveal_strlit("simproject1");
    reveal_strlit("simproject2");
    reveal_strlit("simproject3");
    let a = "simproject1"@;
    let b = "simproject2"@;
    let c = "simproject3"@;
    assert(a[10] == '1' && b[10] == '2' && c[10] == '3');
    assert(a[0] == 's' && a[1] == 'i' && a[2] == 'm' && a[3] == 'p' && a[4] == 'r' && a[5] == 'o'
        && a[6] == 'j' && a[7] == 'e' && a[8] == 'c' && a[9] == 't');
    assert(b[0] == 's' && b[1] == 'i' && b[2] == 'm' && b[3] == 'p' && b[4] == 'r' && b[5] == 'o'
        && b[6] == 'j' && b[7] == 'e' && b[8] == 'c' && b[9] == 't');
    assert(c[0] == 's' && c[1] == 'i' && c[2] == 'm' && c[3] == 'p' && c[4] == 'r' && c[5] == 'o'
        && c[6] == 'j' && c[7] == 'e' && c[8] == 'c' && c[9] == 't');
}

/// The name of the `k`-th project that a rack begins with.
pub fn demo_project_name(k: usize) -> (name: Name)
    ensures
        name@ == spec_demo_project_name(k as int),
{
    proof {
        lemma_demo_names();
        lemma_name_fault_none_iff_is_name(spec_demo_project_name(0));
        lemma_name_fault_none_iff_is_name(spec_demo_project_name(1));
        lemma_name_fault_none_iff_is_name(spec_demo_project_name(2));
    }
    let text = if k == 0 {
        "simproject1"
    } else if k == 1 {
        "simproject2"
    } else {
        "simproject3"
    };
    match Name::new(text) {
        Ok(name) => name,
        Err(_) => unreached(),
    }
}

/// Whether `rack` holds a project or a sled that stands in the way of
/// those that a rack begins with, and the error that says so: the first of
/// the projects whose name, or else whose identifier, is taken; failing
/// that, the first of the sleds whose identifier is taken.
pub open spec fn demo_collision(rack: RackView) -> Option<ApiErrorView> {
    if rack.has_project(spec_demo_project_name(0)) {
        Some(demo_name_taken(0))
    } else if rack.has_project_id(spec_demo_project_id(0)) {
        Some(id_in_use())
    } else if rack.has_project(spec_demo_project_name(1)) {
        Some(demo_name_taken(1))
    } else if rack.has_project_id(spec_demo_project_id(1)) {
        Some(id_in_use())
    } else if rack.has_project(spec_demo_project_name(2)) {
        Some(demo_name_taken(2))
    } else if rack.has_project_id(spec_demo_project_id(2)) {
        Some(id_in_use())
    } else if rack.has_sled(spec_demo_sled_id(0)) {
        Some(demo_sled_taken(0))
    } else if rack.has_sled(spec_demo_sled_id(1)) {
        Some(demo_sled_taken(1))
    } else if rack.has_sled(spec_demo_sled_id(2)) {
        Some(demo_sled_taken(2))
    } else {
        None
    }
}

/// The error for a project in the way of the `k`-th project that a rack
/// begins with.
pub open spec fn demo_name_taken(k: int) -> ApiErrorView {
    ApiErrorView::ObjectAlreadyExists {
        resource: ResourceType::Project,
        object_name: spec_demo_project_name(k),
    }
}

/// The error for a sled in the way of the `k`-th sled that a rack begins
/// with.
pub open spec fn demo_sled_taken(k: int) -> ApiErrorView {
    ApiErrorView::ObjectAlreadyExists {
        resource: ResourceType::Sled,
        object_name: spec_id_text(spec_demo_sled_id(k)),
    }
}

/// A sled with the identifier `id` that has just joined.
pub open spec fn fresh_sled(id: u128, sim_mode: ServerControllerSimMode) -> ServerControllerView {
    ServerControllerView {
        id,
        sim_mode,
        instances: Map::<u128, SimState>::empty(),
        workers: Seq::<u128>::empty(),
        retries: Seq::<InstanceUpdate>::empty(),
    }
}

/// Gives `rack` the three projects and the three sleds that a rack begins
/// with.  Where a project or a sled of `rack` stands in their way, the call
/// fails and nothing changes.
pub fn populate_initial_data(rack: &mut OxideRack, sim_mode: ServerControllerSimMode) -> (r: Result<
    (),
    ApiError,
>)
    requires
        old(rack).wf(),
    ensures
        final(rack).wf(),
        match demo_collision(old(rack)@) {
            Some(collision) => {
                &&& r matches Err(e) && e@ == collision
                &&& final(rack)@ == old(rack)@
            },
            None => {
                &&& r is Ok
                &&& final(rack)@.projects.len() == old(rack)@.projects.len() + 3
                &&& final(rack)@.next_sled == old(rack)@.next_sled
                &&& final(rack)@.sleds == old(rack)@.sleds.push(
                    fresh_sled(spec_demo_sled_id(0), sim_mode),
                ).push(fresh_sled(spec_demo_sled_id(1), sim_mode)).push(
                    fresh_sled(spec_demo_sled_id(2), sim_mode),
                )
                &&& forall|k: int|
                    0 <= k < 3 ==> {
                        &&& (#[trigger] final(rack)@.lookup_project(
                            spec_demo_project_name(k),
                        )) matches Some(project)
                        &&& project.identity.id == spec_demo_project_id(k)
                        &&& project.identity.description == demo_description()
                        &&& project.generation == 1
                    }
                &&& forall|name: Seq<char>|
                    name != spec_demo_project_name(0) && name != spec_demo_project_name(1) && name
                        != spec_demo_project_name(2) ==> #[trigger] final(rack)@.lookup_project(name)
                        == old(rack)@.lookup_project(name)
            },
        },
{
    proof {
        lemma_demo_names();
        old(rack).lemma_wf();
    }
    let mut k: usize = 0;
    while k < DEMO_COUNT
        invariant
            k <= 3,
            rack.wf(),
            rack@ == old(rack)@,
            forall|j: int|
                0 <= j < k ==> !rack@.has_project(#[trigger] spec_demo_project_name(j))
                    && !rack@.has_project_id(spec_demo_project_id(j)),
        decreases 3 - k,
    {
        let name = demo_project_name(k);
        if rack.has_project(&name) {
            return Err(ApiError::already_exists(ResourceType::Project, name.as_str()));
        }
        if rack.has_project_id(demo_project_id(k)) {
            return Err(ApiError::internal_error("identifier is in use already"));
        }
        k += 1;
    }
    let mut k: usize = 0;
    while k < DEMO_COUNT
        invariant
            k <= 3,
            rack.wf(),
            rack@ == old(rack)@,
            forall|j: int|
                0 <= j < 3 ==> !rack@.has_project(#[trigger] spec_demo_project_name(j))
                    && !rack@.has_project_id(spec_demo_project_id(j)),
            forall|j: int| 0 <= j < k ==> !rack@.has_sled(#[trigger] spec_demo_sled_id(j)),
        decreases 3 - k,
    {
        if rack.has_sled(demo_sled_id(k)) {
            return Err(
                ApiError::ObjectAlreadyExists {
                    resource: ResourceType::Sled,
                    object_name: id_text(demo_sled_id(k)),
                },
            );
        }
        k += 1;
    }
    assert(demo_collision(old(rack)@) is None);
    let mut k: usize = 0;
    while k < DEMO_COUNT
        invariant
            k <= 3,
            rack.wf(),
            rack@.sleds == old(rack)@.sleds,
            rack@.next_sled == old(rack)@.next_sled,
            rack@.projects.len() == old(rack)@.projects.len() + k,
            spec_demo_project_name(0) != spec_demo_project_name(1),
            spec_demo_project_name(0) != spec_demo_project_name(2),
            spec_demo_project_name(1) != spec_demo_project_name(2),
            forall|j: int|
                k <= j < 3 ==> !rack@.has_project(#[trigger] spec_demo_project_name(j))
                    && !rack@.has_project_id(spec_demo_project_id(j)),
            forall|j: int|
                0 <= j < k ==> {
                    &&& (#[trigger] rack@.lookup_project(spec_demo_project_name(j))) matches Some(
                        project,
                    )
                    &&& project.identity.id == spec_demo_project_id(j)
                    &&& project.identity.description == demo_description()
                    &&& project.generation == 1
                },
            forall|name: Seq<char>|
                name != spec_demo_project_name(0) && name != spec_demo_project_name(1) && name
                    != spec_demo_project_name(2) ==> #[trigger] rack@.lookup_project(name) == old(
                    rack,
                )@.lookup_project(name),
        decreases 3 - k,
    {
        let ghost before = rack@;
        proof {
            rack.lemma_wf();
        }
        let params = ProjectCreateParams {
            identity: IdentityMetadataCreateParams {
                name: demo_project_name(k),
                description: String::from_str("<auto-generated at server startup>"),
            },
        };
        let created = rack.project_create_with_id(demo_project_id(k), &params);
        match created {
            Err(e) => {
                return Err(e);
            },
            Ok(project) => {
                proof {
                    let time = project@.identity.time_created;
                    lemma_lower_bound_exists(before.projects, spec_demo_project_name(k as int));
                    assert(rack@ == before.create_project(
                        spec_demo_project_id(k as int),
                        spec_demo_project_name(k as int),
                        demo_description(),
                        time,
                    ));
                    assert(rack@.projects.len() == before.projects.len() + 1);
                    assert(rack@.lookup_project(spec_demo_project_name(k as int)) == Some(
                        project@,
                    ));
                    assert forall|name: Seq<char>|
                        name != spec_demo_project_name(k as int) implies #[trigger] rack@.lookup_project(
                        name,
                    ) == before.lookup_project(name) && rack@.has_project(name)
                        == before.has_project(name) by {
                        lemma_create_keeps_others(
                            before,
                            spec_demo_project_id(k as int),
                            spec_demo_project_name(k as int),
                            demo_description(),
                            time,
                            name,
                        );
                    }
                    assert forall|id: u128| id != spec_demo_project_id(k as int) implies rack@.has_project_id(
                        id,
                    ) == before.has_project_id(id) by {
                        lemma_create_keeps_other_ids(
                            before,
                            spec_demo_project_id(k as int),
                            spec_demo_project_name(k as int),
                            demo_description(),
                            time,
                            id,
                        );
                    }
                    assert(spec_demo_project_id(0) != spec_demo_project_id(1));
                    assert(spec_demo_project_id(0) != spec_demo_project_id(2));
                    assert(spec_demo_project_id(1) != spec_demo_project_id(2));
                    assert forall|j: int| 0 <= j < k + 1 implies {
                        &&& (#[trigger] rack@.lookup_project(
                            spec_demo_project_name(j),
                        )) matches Some(found)
                        &&& found.identity.id == spec_demo_project_id(j)
                        &&& found.identity.description == demo_description()
                        &&& found.generation == 1
                    } by {
                        if j < k {
                            assert(spec_demo_project_name(j) != spec_demo_project_name(k as int));
                            assert(rack@.lookup_project(spec_demo_project_name(j))
                                == before.lookup_project(spec_demo_project_name(j)));
                        }
                    }
                    assert forall|name: Seq<char>|
                        name != spec_demo_project_name(0) && name != spec_demo_project_name(1)
                            && name != spec_demo_project_name(2) implies #[trigger] rack@.lookup_project(
                        name,
                    ) == old(rack)@.lookup_project(name) by {
                        assert(rack@.lookup_project(name) == before.lookup_project(name));
                    }
                    assert forall|j: int| k < j < 3 implies !rack@.has_project(
                        #[trigger] spec_demo_project_name(j),
                    ) && !rack@.has_project_id(spec_demo_project_id(j)) by {
                        assert(spec_demo_project_name(j) != spec_demo_project_name(k as int));
                        assert(rack@.has_project(spec_demo_project_name(j)) == before.has_project(
                            spec_demo_project_name(j),
                        ));
                        assert(rack@.has_project_id(spec_demo_project_id(j))
                            == before.has_project_id(spec_demo_project_id(j)));
                    }
                }
            },
        }
        k += 1;
    }
    let mut k: usize = 0;
    while k < DEMO_COUNT
        invariant
            k <= 3,
            rack.wf(),
            rack@.next_sled == old(rack)@.next_sled,
            rack@.projects.len() == old(rack)@.projects.len() + 3,
            forall|j: int| k <= j < 3 ==> !rack@.has_sled(#[trigger] spec_demo_sled_id(j)),
            rack@.sleds == if k == 0 {
                old(rack)@.sleds
            } else if k == 1 {
                old(rack)@.sleds.push(fresh_sled(spec_demo_sled_id(0), sim_mode))
            } else if k == 2 {
                old(rack)@.sleds.push(fresh_sled(spec_demo_sled_id(0), sim_mode)).push(
                    fresh_sled(spec_demo_sled_id(1), sim_mode),
                )
            } else {
                old(rack)@.sleds.push(fresh_sled(spec_demo_sled_id(0), sim_mode)).push(
                    fresh_sled(spec_demo_sled_id(1), sim_mode),
                ).push(fresh_sled(spec_demo_sled_id(2), sim_mode))
            },
            forall|j: int|
                0 <= j < 3 ==> {
                    &&& (#[trigger] rack@.lookup_project(spec_demo_project_name(j))) matches Some(
                        project,
                    )
                    &&& project.identity.id == spec_demo_project_id(j)
                    &&& project.identity.description == demo_description()
                    &&& project.generation == 1
                },
            forall|name: Seq<char>|
                name != spec_demo_project_name(0) && name != spec_demo_project_name(1) && name
                    != spec_demo_project_name(2) ==> #[trigger] rack@.lookup_project(name) == old(
                    rack,
                )@.lookup_project(name),
        decreases 3 - k,
    {
        let ghost before = rack@;
        let id = demo_sled_id(k);
        let sc = ServerController::new_simulated_with_id(&id, sim_mode);
        assert(sc@ == fresh_sled(id, sim_mode));
        match rack.add_server_controller(sc) {
            Err(e) => {
                return Err(e);
            },
            Ok(()) => {
                proof {
                    assert(rack@.projects == before.projects);
                    assert forall|name: Seq<char>| #[trigger]
                        rack@.lookup_project(name) == before.lookup_project(name) by {}
                    assert(spec_demo_sled_id(0) != spec_demo_sled_id(1));
                    assert(spec_demo_sled_id(0) != spec_demo_sled_id(2));
                    assert(spec_demo_sled_id(1) != spec_demo_sled_id(2));
                    assert forall|j: int| k < j < 3 implies !rack@.has_sled(
                        #[trigger] spec_demo_sled_id(j),
                    ) by {
                        if rack@.has_sled(spec_demo_sled_id(j)) {
                            let i = choose|i: int|
                                0 <= i < rack@.sleds.len() && #[trigger] rack@.sleds[i].id
                                    == spec_demo_sled_id(j);
                            if i < before.sleds.len() {
                                assert(before.sleds[i].id == spec_demo_sled_id(j));
                            }
                        }
                    }
                }
            },
        }
        k += 1;
    }
    Ok(())
}

} // verus!
