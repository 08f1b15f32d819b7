use vstd::prelude::*;

use crate::filter::{FilterProperties, PatternMatching, PROBABILITY_ONE};
use crate::grid::Grid;
use crate::rect2::Rect2u;
use crate::tisu_error::TisuError;

verus! {

/// One imported map layer.
pub struct MapLayer {
    pub map: Grid<Option<u32>>,
}

/// A region of an authored filter map annotated with filter properties.
pub struct PropertyRect {
    pub rect: Rect2u,
    pub properties: FilterProperties,
}

/// One imported layer of property annotations.
pub struct PropertyLayer {
    pub property_rects: Vec<PropertyRect>,
}

/// The properties of the first listed rectangle that encloses both given
/// regions, each region given by its corner coordinates and side lengths.
pub open spec fn spec_first_enclosing_parts(
    rects: Seq<PropertyRect>,
    p1: ((int, int), (int, int)),
    p2: ((int, int), (int, int)),
) -> Option<FilterProperties>
    decreases rects.len(),
{
    if rects.len() == 0 {
        None
    } else if rects[0].rect.spec_encloses_parts(p1.0.0, p1.0.1, p1.1.0, p1.1.1)
        && rects[0].rect.spec_encloses_parts(p2.0.0, p2.0.1, p2.1.0, p2.1.1) {
        Some(rects[0].properties)
    } else {
        spec_first_enclosing_parts(rects.skip(1), p1, p2)
    }
}

/// The corner coordinates and side lengths of a rectangle, as they appear in
/// the property-lookup specifications.
pub open spec fn spec_rect_parts(r: Rect2u) -> ((int, int), (int, int)) {
    (
        (r.spec_position().x as int, r.spec_position().y as int),
        (r.spec_size().x as int, r.spec_size().y as int),
    )
}

impl PropertyLayer {
    /// Returns the properties of the first property rectangle of this layer
    /// that encloses both given rectangles, if there is one.
    pub fn get_properties_for_rects(&self, rect1: Rect2u, rect2: Rect2u) -> (r: Option<
        FilterProperties,
    >)
        ensures
            r == spec_first_enclosing_parts(
                self.property_rects@,
                spec_rect_parts(rect1),
                spec_rect_parts(rect2),
            ),
    {
        let ghost p1 = spec_rect_parts(rect1);
        let ghost p2 = spec_rect_parts(rect2);
        proof {
            assert(self.property_rects@.skip(0) =~= self.property_rects@);
        }
        let n = self.property_rects.len();
        let mut i: usize = 0;
        while i < n
            invariant
                0 <= i <= n,
                n == self.property_rects@.len(),
                p1 == spec_rect_parts(rect1),
                p2 == spec_rect_parts(rect2),
                spec_first_enclosing_parts(self.property_rects@, p1, p2)
                    == spec_first_enclosing_parts(self.property_rects@.skip(i as int), p1, p2),
            decreases n - i,
        {
            let property_rect = &self.property_rects[i];
            if property_rect.rect.encloses(&rect1) && property_rect.rect.encloses(&rect2) {
                proof {
                    assert(self.property_rects@.skip(i as int)[0] == self.property_rects@[i as int]);
                }
                return Some(property_rect.properties);
            }
            proof {
                assert(self.property_rects@.skip(i as int)[0] == self.property_rects@[i as int]);
                assert(self.property_rects@.skip(i as int).skip(1) =~= self.property_rects@.skip(
                    i + 1,
                ));
            }
            i += 1;
        }
        None
    }
}

/// The properties that apply to a filter pair whose pattern and substitute
/// occupy the two given regions: those of the first annotation enclosing
/// both, searched layer by layer, or the default properties when none does.
pub open spec fn spec_properties_for_parts(
    layers: Seq<PropertyLayer>,
    p1: ((int, int), (int, int)),
    p2: ((int, int), (int, int)),
) -> FilterProperties
    decreases layers.len(),
{
    if layers.len() == 0 {
        FilterProperties {
            probability: PROBABILITY_ONE,
            pattern_matching: PatternMatching::Source,
            only_once: false,
            ignore: false,
        }
    } else {
        match spec_first_enclosing_parts(layers[0].property_rects@, p1, p2) {
            Some(p) => p,
            None => spec_properties_for_parts(layers.skip(1), p1, p2),
        }
    }
}

/// Everything an importer hands the engine: the map layers, the authored
/// property annotations, and a reference to the tileset.
pub struct LoadResult {
    pub map_layers: Vec<MapLayer>,
    pub property_layers: Vec<PropertyLayer>,
    pub tileset_path: String,
}

impl LoadResult {
    /// Returns the properties that apply to a filter pair occupying the two
    /// given rectangles: the first enclosing annotation wins, and absent any
    /// the default properties hold.
    pub fn get_properties_for_rects(&self, rect1: Rect2u, rect2: Rect2u) -> (r: Result<
        FilterProperties,
        TisuError,
    >)
        ensures
            r == Ok::<FilterProperties, TisuError>(
                spec_properties_for_parts(
                    self.property_layers@,
                    spec_rect_parts(rect1),
                    spec_rect_parts(rect2),
                ),
            ),
    {
        let ghost p1 = spec_rect_parts(rect1);
        let ghost p2 = spec_rect_parts(rect2);
        proof {
            assert(self.property_layers@.skip(0) =~= self.property_layers@);
        }
        let n = self.property_layers.len();
        let mut i: usize = 0;
        while i < n
            invariant
                0 <= i <= n,
                n == self.property_layers@.len(),
                p1 == spec_rect_parts(rect1),
                p2 == spec_rect_parts(rect2),
                spec_properties_for_parts(self.property_layers@, p1, p2)
                    == spec_properties_for_parts(self.property_layers@.skip(i as int), p1, p2),
            decreases n - i,
        {
            proof {
                assert(self.property_layers@.skip(i as int)[0] == self.property_layers@[i as int]);
                assert(self.property_layers@.skip(i as int).skip(1) =~= self.property_layers@.skip(
                    i + 1,
                ));
            }
            if let Some(properties) = self.property_layers[i].get_properties_for_rects(
                rect1,
                rect2,
            ) {
                return Ok(properties);
            }
            i += 1;
        }
        Ok(FilterProperties::default())
    }
}

/// An importer of complete authored inputs, file format left to the
/// implementation.
pub trait Importer {
    fn load(file: &str) -> Result<LoadResult, TisuError>;
}

} // verus!
