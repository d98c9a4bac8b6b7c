//! Runtime core of an entity-component-system: dynamically checked borrows of
//! component storages, sparse-set storages keyed by entity, and a two-phase
//! iteration engine over them.
pub mod borrow;
pub mod entities;
pub mod entity;
pub mod error;
pub mod iter;
pub mod pack;
pub mod registry;
pub mod storage;

pub use borrow::{AliasingCell, BorrowState, CellOp, Mode, SharedGuard, UniqueGuard};
pub use entities::{add_component, Entities};
pub use entity::{EntityId, StorageId};
pub use error::{
    AddComponent, Borrow, GetStorage, NewEntity, Pack, Remove, RunWorkload, SetDefaultWorkload,
    Sort,
};
pub use iter::map::MapIter;
pub use iter::multi::{Iter2, IterNot};
pub use iter::shiperator::{CurrentId, Shiperator};
pub use iter::single::{Chunk1, ChunkExact1, Iter1, Tight1, Update1};
pub use iter::with_id::WithId;
pub use pack::{ChunkExact2, Tight2, TightPack};
pub use registry::{AllStorages, Register, StorageEntry, StorageView};
pub use storage::Storage;
