pub mod codegen;
pub mod errors;
pub mod laws;
pub mod outside;
pub mod records;
pub mod yarp_data;
pub mod yarp_meta;
