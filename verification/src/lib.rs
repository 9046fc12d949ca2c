pub mod codec;
pub mod db;
pub mod model;
