//! Decoding core of a gesture (swipe-style) text-entry method.

pub mod decoder;
pub mod dtw;
pub mod geom;
pub mod laws;
pub mod layout;
pub mod lm;
pub mod order;
pub mod text;
pub mod topk;

pub use decoder::InputDecoder;
pub use decoder::InputError;
pub use geom::Point;
pub use layout::KeyLayout;
pub use lm::LanguageModel;
pub use lm::LmStateData;
pub use lm::LoadError;
