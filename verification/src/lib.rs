pub mod filter;
pub mod filter_importer;
pub mod filter_loader;
pub mod grid;
pub mod importer;
pub mod map_exporter;
pub mod map_importer;
pub mod map_segmenter;
pub mod painter;
pub mod rect2;
pub mod rect2_utils;
pub mod regen_error;
pub mod sampler;
pub mod tiled_tile;
pub mod tisu_error;
pub mod vector2;
