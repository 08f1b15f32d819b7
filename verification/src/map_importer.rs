use vstd::prelude::*;

use crate::grid::Grid;
use crate::tisu_error::TisuError;

verus! {

/// What a map importer hands back: the imported grid layers and a reference
/// to the tileset.
pub struct LoadResult<T> {
    pub map_layers: Vec<Grid<T>>,
    pub tileset_path: String,
}

/// An importer of tile maps, file format left to the implementation.
pub trait MapImporter {
    type TileType;

    fn load(file: &str) -> Result<LoadResult<Self::TileType>, TisuError>;
}

} // verus!
