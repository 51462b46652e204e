pub mod action;
pub mod bag;
pub mod gameplay;
pub mod holder;
pub mod piece;
pub mod replay;
pub mod score;
pub mod shape;
pub mod stack;

pub use shape::ShapeType;
pub use shape::shape_code;
pub use shape::spec_shape_code;
