//! Composing a finished meeting: the recorded timeline read back into
//! presence and speaker intervals, the on-screen layout over time, and the
//! clips that realise it.

pub mod timeline;
pub mod layout;
pub mod clip;
