//! Timeline markers captured during a recording session and written out as an
//! edit decision list (EDL) that a video editor can import.
pub mod timecode;
pub mod marker;
pub mod edl;
pub mod session;
