pub mod atlas;
pub mod greedy;
