use vstd::prelude::*;

pub mod position;
pub mod text;
pub mod selection;
pub mod cursor_set;
pub mod layout;
pub mod move_ops;
pub mod buf;
pub mod edit_ops;
pub mod state;

pub use position::{Extent, Point, Range};
pub use selection::{Affinity, Selection};
pub use cursor_set::CursorSet;
pub use text::{Change, Text};
pub use layout::Layout;
pub use move_ops::{move_down, move_left, move_right, move_up};
pub use state::{Event, KeyCode, KeyModifiers, State, ViewId};

verus! {

} // verus!
