//! What the desktop program decides: its roles, its servers and its windows.
pub mod agent_bridge;
pub mod agent_laws;
pub mod agent_role;
pub mod chat;
pub mod file_walk;
pub mod lspd_frame;
pub mod lspd_laws;
pub mod lspd_role;
pub mod palette;
pub mod portal;
pub mod render;
pub mod render_laws;
pub mod role;
pub mod sidebar;
