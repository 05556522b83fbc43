pub mod vector2;

pub use vector2::Vector2;
