//! The entities the service resolves, and the root query.

use crate::loader::{Action, CrystalSnapshotDataLoader, Event};
use crate::model::EventView;
use vstd::prelude::*;

verus! {

/// A data collection, known to this service by its identifier alone.
#[derive(Debug, Clone)]
pub struct DataCollection {
    /// An opaque unique identifier for the data collection.
    pub id: u32,
}

impl DataCollection {
    /// Asks `loader` for the signed URLs of this data collection's crystal
    /// snapshots: registers the collection's key, and does nothing else. The
    /// reply comes with the batch the key ends up in.
    pub fn crystal_snapshots(&self, loader: &mut CrystalSnapshotDataLoader) -> (action: Action)
        ensures
            final(loader)@ == old(loader)@.step(EventView::Register(self.id)).0,
            action@ == old(loader)@.step(EventView::Register(self.id)).1,
    {
        loader.step(Event::Register(self.id))
    }
}

/// The root query of the service.
#[derive(Debug, Clone, Copy, Default)]
pub struct Query;

impl Query {
    /// The placeholder entity for the data collection `id`: it carries the
    /// key and nothing more.
    pub fn router_data_collection(&self, id: u32) -> (entity: DataCollection)
        ensures
            entity.id == id,
    {
        DataCollection { id }
    }
}

} // verus!
