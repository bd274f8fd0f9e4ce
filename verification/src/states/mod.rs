pub mod climb;
pub mod roll;
