pub mod docx;
pub mod events;
pub mod inline;
pub mod marks;
pub mod package;
pub mod parse;
pub mod placement;
pub mod redline;
pub mod review;
