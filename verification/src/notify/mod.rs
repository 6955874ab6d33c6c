pub mod queue;
pub mod stack;
pub mod view;
