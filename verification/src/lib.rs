pub mod text;
pub mod playlist;
pub mod store;
pub mod pause;
pub mod numbers;
pub mod segments;
pub mod progress;
pub mod order;
pub mod json;
pub mod clock;
pub mod chapter;
pub mod library;
pub mod hls;
pub mod plain;
