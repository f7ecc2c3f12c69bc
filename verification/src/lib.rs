//! The verified core of a perceptual scroll engine: the effects it can arm and
//! the rules that keep them apart, the corpus parser that turns a book into
//! paragraphs, and the time arithmetic of its animation tracks.

pub mod document;
pub mod duration;
pub mod loop_mode;
pub mod mode;
pub mod motion;
pub mod segments;
pub mod text;
pub mod text_system;
pub mod track;

