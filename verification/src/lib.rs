//! Sidebar data layer for agent monitoring.
pub mod agent;
pub mod data_source;
pub mod text;
pub mod squad;
pub mod squad_laws;
pub mod sort;
pub mod hierarchy;
pub mod daemon_ctrl;
pub mod hierarchy_laws;
pub mod hierarchy_flat;
