pub mod adapters;
pub mod capacity;
pub mod command;
pub mod fsx;
pub mod json;
pub mod lexical;
pub mod model;
pub mod order;
pub mod paths;
pub mod policy;
pub mod rules;
pub mod scan;
pub mod text;
