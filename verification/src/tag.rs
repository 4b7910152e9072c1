//! Parsers and serializers for Serato's file tags.

pub mod analysis;
pub mod autotags;
pub mod beatgrid;
pub mod color;
pub mod container;
pub mod format;
pub mod generic;
pub mod markers;
pub mod markers2;
pub mod overview;
pub mod relvolad;
pub mod serato32;
pub mod util;
pub mod vidassoc;

pub use analysis::Analysis;
pub use autotags::Autotags;
pub use beatgrid::Beatgrid;
pub use container::TagContainer;
pub use container::TagFormat;
pub use markers::Markers;
pub use markers2::Markers2;
pub use overview::Overview;
pub use relvolad::RelVolAd;
pub use vidassoc::VidAssoc;
