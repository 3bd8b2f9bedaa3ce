//! Layout engine of a source-code formatter: syntax nodes are turned into a
//! tree of segment groups, comments are woven in by source position, and a
//! renderer decides which groups break across lines.

pub mod builder;
pub mod format;
pub mod laws;
pub mod model;
pub mod pattern;
pub mod pos;
pub mod render;
pub mod shapes;

pub use builder::{MakeSegsState, SplitGroupBuilder};
pub use format::{build, FormatError, Layout};
pub use model::{Comment, Config, Group, Segment};
pub use pattern::{FieldPat, MacroCall, Pat, PatList};
pub use pos::LineCol;
pub use shapes::Atom;
