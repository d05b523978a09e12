//! A minimal 2D software rasterizer: dots, lines and circles drawn into an
//! in-memory buffer of packed pixels, each draw clipped to an axis-aligned
//! rectangle.

pub mod canvas;
pub mod grid;
pub mod line;
pub mod pos;
pub mod rect;
pub mod size;
pub mod text;

pub use canvas::Canvas;
pub use pos::Pos;
pub use rect::Rect;
pub use size::Size;
