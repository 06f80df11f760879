//! The names that most users of the library need.

pub use crate::commands::{Bundle, Command, Commands};
pub use crate::entity_id::EntityId;
pub use crate::query::{ArchQuery, Fetch, Filter, Query, QueryDesc};
pub use crate::query_set::QuerySet;
pub use crate::systems::{ErasedSystem, IntoSystem, Param, Res, ResMut, SystemStage, WorldQuery};
pub use crate::world::World;
pub use crate::{hash_ty, TypeKey};
