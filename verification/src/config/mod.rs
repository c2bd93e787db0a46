pub mod defaults;
pub mod rules;
pub mod types;
