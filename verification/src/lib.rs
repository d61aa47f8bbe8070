pub mod approval;
pub mod bodies;
pub mod model;
pub mod parser;
pub mod publisher;
pub mod raster;
pub mod scraper;
pub mod store;
pub mod upload;
pub mod text;
