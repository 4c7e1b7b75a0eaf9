//! What the steps of a saga may ask of the rack.

use crate::api_impl::no_sleds;
use crate::api_impl::OxideRack;
use crate::api_impl::RackView;
use crate::error::ApiError;
use crate::model::InstanceCreateParams;
use vstd::prelude::*;

verus! {

/// The rack as a saga sees it.
pub struct SagaContext {
    nexus: OxideRack,
}

impl View for SagaContext {
    type V = RackView;

    closed spec fn view(&self) -> RackView {
        self.nexus@
    }
}

impl SagaContext {
    /// The rack behind the context is in order.
    pub closed spec fn wf(&self) -> bool {
        self.nexus.wf()
    }

    /// A context for sagas on `nexus`.
    pub fn new(nexus: OxideRack) -> (r: SagaContext)
        requires
            nexus.wf(),
        ensures
            r.wf(),
            r@ == nexus@,
    {
        SagaContext { nexus }
    }

    /// The registry of the rack, to read from.
    pub fn datastore(&self) -> (r: &OxideRack)
        requires
            self.wf(),
        ensures
            r.wf(),
            r@ == self@,
    {
        &self.nexus
    }

    /// Chooses the sled for the instance that `_params` describes: each sled
    /// in turn.  The call fails, and nothing changes, where no sled has
    /// joined the rack.
    pub fn alloc_server(&mut self, _params: &InstanceCreateParams) -> (r: Result<u128, ApiError>)
        requires
            old(self).wf(),
        ensures
            final(self).wf(),
            match r {
                Ok(id) => {
                    &&& old(self)@.sleds.len() > 0
                    &&& id == old(self)@.sleds[old(self)@.next_sled].id
                    &&& final(self)@ == old(self)@.allocate_sled()
                },
                Err(e) => {
                    &&& old(self)@.sleds.len() == 0
                    &&& e@ == no_sleds()
                    &&& final(self)@ == old(self)@
                },
            },
    {
        self.nexus.sled_allocate()
    }

    /// Gives the rack back.
    pub fn into_nexus(self) -> (r: OxideRack)
        requires
            self.wf(),
        ensures
            r.wf(),
            r@ == self@,
    {
        self.nexus
    }
}

} // verus!
