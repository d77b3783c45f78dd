
pub mod fmt_text;
pub mod laws;
pub mod point;
pub mod rect;
pub mod search;
pub mod sort;
pub mod tree;

pub use point::KDTreePoint;
pub use point::square_dist;
pub use rect::Rect;
pub use tree::KDTree;
