use vstd::prelude::*;

use crate::filter::FilterCollection;
use crate::tisu_error::TisuError;

verus! {

/// An importer of authored filter collections, file format left to the
/// implementation.
pub trait FilterImporter {
    type TileType;

    fn load(file: &str) -> Result<Vec<FilterCollection<Self::TileType>>, TisuError>;
}

} // verus!
