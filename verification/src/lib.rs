pub mod buffer;
pub mod hilite;
pub mod rope;
pub mod text;
pub mod view;

pub use buffer::{Buffer, EditId, EditRecord};
pub use hilite::{Color, HiState, SpanStyle, SyntaxPick, ThemePick, load_prebuilt_syntax,
    load_prebuilt_theme};
pub use view::{BufferHandle, BufferView, CacheEntry};

use vstd::prelude::*;

verus! {

/// An ordered (line, column) position in a document.
#[derive(Clone, Copy, PartialEq, Eq, Structural, Debug)]
pub struct Location(pub u64, pub u64);

} // verus!
