use vstd::prelude::*;

use crate::grid::Grid;
use crate::tisu_error::TisuError;
use crate::vector2::Vector2u;

verus! {

/// An exporter of tile maps, file format left to the implementation.
pub trait MapExporter {
    type TileType;

    fn save(
        file: &str,
        map: &Grid<Self::TileType>,
        tile_size: Vector2u,
        tileset_path: &str,
    ) -> Result<(), TisuError>;
}

} // verus!
