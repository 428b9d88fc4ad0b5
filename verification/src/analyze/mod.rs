pub mod hierarchy;
