pub mod agent;
pub mod environment;
pub mod fitness;
pub mod random;
pub mod text;
