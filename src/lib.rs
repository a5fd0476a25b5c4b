//! A model checker for small concurrent systems: processes with guarded
//! transitions over a shared value are composed by interleaving into a
//! labelled transition system, whose deadlock states and the transitions
//! leading into them are then marked.

pub mod algorithm;
pub mod deadlock;
pub mod dot;
pub mod explore;
pub mod lts;
pub mod m_inc2;
pub mod m_mutex2;
pub mod m_test1;
pub mod mcas;
pub mod process;
pub mod text;
