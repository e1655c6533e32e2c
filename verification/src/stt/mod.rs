//! Speech recognition: joining the recognized segments into one text.
pub mod whisper;
