pub mod server_msg;
pub mod terrain_requests;
