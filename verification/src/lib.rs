pub mod codec;
pub mod dims;
pub mod model;
pub mod paths;
pub mod pipeline;
