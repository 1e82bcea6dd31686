//! Adapters from embedding models to one-hop scorers: the shape checks that
//! guard their construction, and the refusals of box materialization.

pub mod box_dnf;
pub mod box_model;
pub mod candidates;
pub mod faithful_box;

pub use box_dnf::MaterializeError;
pub use box_model::{check_box_shapes, BoxModelError};
pub use candidates::hit_candidates;
pub use faithful_box::{check_faithful_shapes, FaithfulBoxError};
