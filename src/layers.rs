pub mod bucket;
pub mod mem_layer;
pub mod s3_layer;
pub mod table;
