use vstd::prelude::*;
use vstd::std_specs::cmp::PartialEqSpec;

use crate::filter::{
    spec_filter_views, Filter, FilterCollection, FilterProperties, FilterView, PatternMatching,
    PROBABILITY_ONE,
};
use crate::grid::{spec_segment_grid, Grid, GridView};
use crate::importer::{spec_properties_for_parts, LoadResult, PropertyLayer};
use crate::map_segmenter;
use crate::map_segmenter::{lemma_segments_props, spec_segments_from};
use crate::tisu_error::TisuError;

verus! {

/// The filter view that the pair of segments at `idx` and `idx + 1` yields:
/// the first segment's cells as the pattern, the second's as the substitute.
pub open spec fn spec_pair_filter_view<T: PartialEq>(
    g: GridView<T>,
    segs: Seq<((int, int), (int, int))>,
    idx: int,
    wildcard: T,
    properties: FilterProperties,
) -> FilterView<T> {
    FilterView {
        pattern: spec_segment_grid(
            g,
            segs[idx].0.0,
            segs[idx].0.1,
            segs[idx].1.0,
            segs[idx].1.1,
        ),
        substitute: spec_segment_grid(
            g,
            segs[idx + 1].0.0,
            segs[idx + 1].0.1,
            segs[idx + 1].1.0,
            segs[idx + 1].1.1,
        ),
        wildcard: wildcard,
        properties: properties,
    }
}

/// The first pair index of an authored layer: with an odd segment count the
/// first segment is read as a wildcard marker and pairing starts after it.
pub open spec fn spec_layer_first_idx(segs: Seq<((int, int), (int, int))>) -> int {
    if segs.len() % 2 == 1 {
        1
    } else {
        0
    }
}

/// The wildcard value an authored layer chooses: the cell of a lone leading
/// one-by-one segment, or the given default.
pub open spec fn spec_layer_wildcard<T: PartialEq>(
    g: GridView<T>,
    segs: Seq<((int, int), (int, int))>,
    default_wildcard: T,
) -> T {
    if segs.len() % 2 == 1 && segs[0].1 == ((1int, 1int)) {
        g.at(segs[0].0.0, segs[0].0.1)
    } else {
        default_wildcard
    }
}

/// Builds the filter collection that one authored layer describes: the
/// layer's segments are paired two by two into pattern and substitute, an
/// odd leading one-by-one segment selects the wildcard value, and every
/// filter carries the given properties.
///
/// # Errors
///
/// Returns an error if the two segments of a pair differ in size.
pub fn collection_from_layer<T: PartialEq + Copy + Default>(
    layer: &Grid<T>,
    transparent_value: &T,
    default_wildcard: T,
    properties: FilterProperties,
) -> (r: Result<FilterCollection<T>, TisuError>)
    requires
        layer@.wf(),
        T::obeys_eq_spec(),
    ensures
        ({
            let segs = spec_segments_from(layer@, *transparent_value, 0, 0);
            let idx0 = spec_layer_first_idx(segs);
            let wc = spec_layer_wildcard(layer@, segs, default_wildcard);
            &&& (r matches Ok(c) ==> {
                &&& c.properties == properties
                &&& c.filters@.len() == (segs.len() - idx0) / 2
                &&& forall|i: int|
                    0 <= i < c.filters@.len() ==> (#[trigger] c.filters@[i])@
                        == spec_pair_filter_view(layer@, segs, idx0 + 2 * i, wc, properties)
            })
            &&& ((r is Ok) <==> (forall|i: int|
                0 <= i < (segs.len() - idx0) / 2 ==> (#[trigger] segs[idx0 + 2 * i]).1 == segs[
                    idx0 + 2 * i + 1
                ].1))
            &&& (r is Err ==> r == Err::<FilterCollection<T>, TisuError>(TisuError::InvalidMapSize))
        }),
{
    let ghost g = layer@;
    let ghost t = *transparent_value;
    let ghost segs = spec_segments_from(g, t, 0, 0);
    proof {
        lemma_segments_props(g, t, 0, 0);
    }

    let segments = map_segmenter::extract_segments(layer, transparent_value);
    let mut filter_collection = FilterCollection::<T>::new_with_properties(Vec::new(), properties);
    if segments.len() == 0 {
        return Ok(filter_collection);
    }

    let mut idx: usize = 0;
    let mut wildcard = default_wildcard;

    if segments.len() % 2 != 0 {
        // Try to interpret the first segment as a wildcard
        let first = &segments[0];
        if first.size().x == 1 && first.size().y == 1 {
            wildcard = match layer.get(first.position()) {
                Ok(value) => *value,
                Err(_) => {
                    proof {
                        assert(false);
                    }
                    return Err(TisuError::Unexpected);
                },
            };
        }
        idx = 1;
    }
    let ghost idx0 = idx as int;
    let ghost wc = wildcard;
    proof {
        assert(idx0 == spec_layer_first_idx(segs));
        assert(wc == spec_layer_wildcard(g, segs, default_wildcard));
    }

    while idx < segments.len() - 1
        invariant
            segments@.len() >= 1,
            idx <= segments@.len(),
            wildcard == wc,
            layer@.wf(),
            T::obeys_eq_spec(),
            g == layer@,
            t == *transparent_value,
            segs == spec_segments_from(g, t, 0, 0),
            segments@.len() == segs.len(),
            forall|i: int|
                0 <= i < segs.len() ==> crate::rect2_utils::rect_is(
                    #[trigger] segments@[i],
                    segs[i].0.0,
                    segs[i].0.1,
                    segs[i].1.0,
                    segs[i].1.1,
                ),
            forall|i: int|
                0 <= i < segs.len() ==> {
                    let seg = #[trigger] segs[i];
                    &&& 0 <= seg.0.0 < g.width
                    &&& 0 <= seg.0.1 < g.height
                    &&& 1 <= seg.1.0 && seg.0.0 + seg.1.0 <= g.width
                    &&& 1 <= seg.1.1 && seg.0.1 + seg.1.1 <= g.height
                },
            0 <= idx0 <= idx,
            idx0 == spec_layer_first_idx(segs),
            wc == spec_layer_wildcard(g, segs, default_wildcard),
            idx as int == idx0 + 2 * (filter_collection.filters@.len() as int),
            filter_collection.properties == properties,
            forall|i: int|
                0 <= i < filter_collection.filters@.len() ==> (#[trigger] filter_collection.filters@[i])@
                    == spec_pair_filter_view(g, segs, idx0 + 2 * i, wc, properties),
            forall|i: int|
                0 <= i < filter_collection.filters@.len() ==> (#[trigger] segs[idx0 + 2 * i]).1
                    == segs[idx0 + 2 * i + 1].1,
        decreases segments@.len() - idx,
    {
        let ghost p = filter_collection.filters@.len() as int;
        proof {
            assert(idx0 + 2 * p == idx as int);
        }
        let pattern_rect = segments[idx];
        let substitute_rect = segments[idx + 1];
        let pattern = match layer.extract_segment(pattern_rect) {
            Ok(seg) => seg,
            Err(_) => {
                proof {
                    assert(false);
                }
                return Err(TisuError::Unexpected);
            },
        };
        let substitute = match layer.extract_segment(substitute_rect) {
            Ok(seg) => seg,
            Err(_) => {
                proof {
                    assert(false);
                }
                return Err(TisuError::Unexpected);
            },
        };
        let ghost pat_v = pattern@;
        let ghost sub_v = substitute@;
        proof {
            crate::grid::lemma_segment_grid_eq(
                g,
                pat_v,
                segs[idx as int].0.0,
                segs[idx as int].0.1,
            );
            crate::grid::lemma_segment_grid_eq(
                g,
                sub_v,
                segs[idx as int + 1].0.0,
                segs[idx as int + 1].0.1,
            );
            assert(pat_v.width == segs[idx0 + 2 * p].1.0 && pat_v.height == segs[idx0 + 2 * p].1.1);
            assert(sub_v.width == segs[idx0 + 2 * p + 1].1.0 && sub_v.height == segs[idx0 + 2 * p
                + 1].1.1);
        }
        let filter = match Filter::new_with_properties(pattern, substitute, wildcard, properties) {
            Ok(f) => f,
            Err(e) => {
                proof {
                    assert(segs[idx0 + 2 * p].1 != segs[idx0 + 2 * p + 1].1);
                    assert(0 <= p < (segs.len() - idx0) / 2);
                }
                return Err(e);
            },
        };
        let ghost fview = filter@;
        filter_collection.push(filter);
        proof {
            assert(fview == spec_pair_filter_view(g, segs, idx0 + 2 * p, wc, properties));
            assert forall|i: int|
                0 <= i < filter_collection.filters@.len() implies (
            #[trigger] filter_collection.filters@[i])@ == spec_pair_filter_view(
                g,
                segs,
                idx0 + 2 * i,
                wc,
                properties,
            ) by {}
        }
        idx += 2;
    }
    proof {
        let p = filter_collection.filters@.len() as int;
        assert(idx as int == idx0 + 2 * p);
        assert(idx as int >= segs.len() - 1);
        assert(idx as int <= segs.len());
        assert(p == (segs.len() - idx0) / 2);
    }
    Ok(filter_collection)
}

/// The filter views one imported map layer yields: its segments are paired
/// from the start, the empty cell is the transparent sentinel, and each
/// pair's properties come from the annotations enclosing it.
pub open spec fn spec_layer_views(
    g: GridView<Option<u32>>,
    props: Seq<PropertyLayer>,
    wildcard: Option<u32>,
) -> Seq<FilterView<Option<u32>>> {
    let segs = spec_segments_from(g, Option::<u32>::None, 0, 0);
    Seq::new(
        (segs.len() / 2) as nat,
        |i: int|
            FilterView {
                pattern: spec_segment_grid(
                    g,
                    segs[2 * i].0.0,
                    segs[2 * i].0.1,
                    segs[2 * i].1.0,
                    segs[2 * i].1.1,
                ),
                substitute: spec_segment_grid(
                    g,
                    segs[2 * i + 1].0.0,
                    segs[2 * i + 1].0.1,
                    segs[2 * i + 1].1.0,
                    segs[2 * i + 1].1.1,
                ),
                wildcard: wildcard,
                properties: spec_properties_for_parts(props, segs[2 * i], segs[2 * i + 1]),
            },
    )
}

/// Every pair of segments of the layer shares one size, so that each pair
/// makes a valid filter.
pub open spec fn spec_layer_pairs_ok(g: GridView<Option<u32>>) -> bool {
    let segs = spec_segments_from(g, Option::<u32>::None, 0, 0);
    forall|i: int| 0 <= i < segs.len() / 2 ==> (#[trigger] segs[2 * i]).1 == segs[2 * i + 1].1
}

/// The filter views of all layers of a load result, in layer order.
pub open spec fn spec_load_result_views(
    layers: Seq<crate::importer::MapLayer>,
    props: Seq<PropertyLayer>,
    wildcard: Option<u32>,
) -> Seq<FilterView<Option<u32>>>
    decreases layers.len(),
{
    if layers.len() == 0 {
        Seq::empty()
    } else {
        spec_layer_views(layers[0].map@, props, wildcard) + spec_load_result_views(
            layers.skip(1),
            props,
            wildcard,
        )
    }
}

/// Extending the layer fold by one more layer.
proof fn lemma_load_result_views_snoc(
    layers: Seq<crate::importer::MapLayer>,
    props: Seq<PropertyLayer>,
    wildcard: Option<u32>,
    l: int,
)
    requires
        0 <= l < layers.len(),
    ensures
        spec_load_result_views(layers.take(l + 1), props, wildcard) == spec_load_result_views(
            layers.take(l),
            props,
            wildcard,
        ) + spec_layer_views(layers[l].map@, props, wildcard),
    decreases l,
{
    if l == 0 {
        assert(layers.take(1)[0] == layers[0]);
        assert(layers.take(1).skip(1).len() == 0);
        assert(layers.take(0).len() == 0);
        assert(spec_load_result_views(layers.take(1).skip(1), props, wildcard) =~= Seq::<
            FilterView<Option<u32>>,
        >::empty());
        assert(spec_load_result_views(layers.take(0), props, wildcard) =~= Seq::<
            FilterView<Option<u32>>,
        >::empty());
        assert(spec_load_result_views(layers.take(1), props, wildcard) =~= spec_load_result_views(
            layers.take(0),
            props,
            wildcard,
        ) + spec_layer_views(layers[0].map@, props, wildcard));
    } else {
        assert(layers.take(l + 1)[0] == layers[0]);
        assert(layers.take(l)[0] == layers[0]);
        assert(layers.take(l + 1).skip(1) =~= layers.skip(1).take(l));
        assert(layers.take(l).skip(1) =~= layers.skip(1).take(l - 1));
        assert(layers.skip(1)[l - 1] == layers[l]);
        lemma_load_result_views_snoc(layers.skip(1), props, wildcard, l - 1);
        assert(spec_load_result_views(layers.take(l + 1), props, wildcard)
            =~= spec_load_result_views(layers.take(l), props, wildcard) + spec_layer_views(
            layers[l].map@,
            props,
            wildcard,
        ));
    }
}

/// Appends the filters of one imported layer to the collection.
fn push_layer_filters(
    layer: &Grid<Option<u32>>,
    load_result: &LoadResult,
    wildcard: Option<u32>,
    filter_collection: &mut FilterCollection<Option<u32>>,
) -> (r: Result<(), TisuError>)
    requires
        layer@.wf(),
    ensures
        (r is Ok) <==> spec_layer_pairs_ok(layer@),
        r is Ok ==> spec_filter_views(final(filter_collection).filters@) == spec_filter_views(
            old(filter_collection).filters@,
        ) + spec_layer_views(layer@, load_result.property_layers@, wildcard)
            && final(filter_collection).properties == old(filter_collection).properties,
        r is Err ==> r == Err::<(), TisuError>(TisuError::InvalidMapSize),
{
    let ghost g = layer@;
    let ghost segs = spec_segments_from(g, Option::<u32>::None, 0, 0);
    let ghost lviews = spec_layer_views(g, load_result.property_layers@, wildcard);
    let ghost old_filters = filter_collection.filters@;
    proof {
        lemma_segments_props(g, Option::<u32>::None, 0, 0);
    }

    let transparent_value: Option<u32> = None;
    let segments = map_segmenter::extract_segments(layer, &transparent_value);
    if segments.len() == 0 {
        proof {
            assert(spec_filter_views(filter_collection.filters@) =~= spec_filter_views(old_filters)
                + lviews);
        }
        return Ok(());
    }

    let mut idx: usize = 0;
    while idx < segments.len() - 1
        invariant
            segments@.len() >= 1,
            idx <= segments@.len(),
            layer@.wf(),
            g == layer@,
            segs == spec_segments_from(g, Option::<u32>::None, 0, 0),
            lviews == spec_layer_views(g, load_result.property_layers@, wildcard),
            segments@.len() == segs.len(),
            forall|i: int|
                0 <= i < segs.len() ==> crate::rect2_utils::rect_is(
                    #[trigger] segments@[i],
                    segs[i].0.0,
                    segs[i].0.1,
                    segs[i].1.0,
                    segs[i].1.1,
                ),
            forall|i: int|
                0 <= i < segs.len() ==> {
                    let seg = #[trigger] segs[i];
                    &&& 0 <= seg.0.0 < g.width
                    &&& 0 <= seg.0.1 < g.height
                    &&& 1 <= seg.1.0 && seg.0.0 + seg.1.0 <= g.width
                    &&& 1 <= seg.1.1 && seg.0.1 + seg.1.1 <= g.height
                },
            idx as int == 2 * (filter_collection.filters@.len() - old_filters.len()),
            old_filters.len() <= filter_collection.filters@.len(),
            filter_collection.properties == old(filter_collection).properties,
            forall|i: int| 0 <= i < old_filters.len() ==> filter_collection.filters@[i] == #[trigger] old_filters[i],
            forall|i: int|
                old_filters.len() <= i < filter_collection.filters@.len() ==> (
                #[trigger] filter_collection.filters@[i])@ == lviews[i - old_filters.len()],
            forall|i: int|
                0 <= i < filter_collection.filters@.len() - old_filters.len() ==> (#[trigger] segs[
                    2 * i
                ]).1 == segs[2 * i + 1].1,
        decreases segments@.len() - idx,
    {
        let ghost p = filter_collection.filters@.len() - old_filters.len();
        proof {
            assert(2 * p == idx as int);
        }
        let pattern_rect = segments[idx];
        let substitute_rect = segments[idx + 1];
        let pattern = match layer.extract_segment(pattern_rect) {
            Ok(seg) => seg,
            Err(_) => {
                proof {
                    assert(false);
                }
                return Err(TisuError::Unexpected);
            },
        };
        let substitute = match layer.extract_segment(substitute_rect) {
            Ok(seg) => seg,
            Err(_) => {
                proof {
                    assert(false);
                }
                return Err(TisuError::Unexpected);
            },
        };
        let properties = match load_result.get_properties_for_rects(
            pattern_rect,
            substitute_rect,
        ) {
            Ok(properties) => properties,
            Err(_) => {
                proof {
                    assert(false);
                }
                return Err(TisuError::Unexpected);
            },
        };
        let ghost pat_v = pattern@;
        let ghost sub_v = substitute@;
        proof {
            crate::grid::lemma_segment_grid_eq(g, pat_v, segs[2 * p].0.0, segs[2 * p].0.1);
            crate::grid::lemma_segment_grid_eq(g, sub_v, segs[2 * p + 1].0.0, segs[2 * p + 1].0.1);
            assert(pat_v.width == segs[2 * p].1.0 && pat_v.height == segs[2 * p].1.1);
            assert(sub_v.width == segs[2 * p + 1].1.0 && sub_v.height == segs[2 * p + 1].1.1);
            assert(crate::importer::spec_rect_parts(pattern_rect) == segs[2 * p]);
            assert(crate::importer::spec_rect_parts(substitute_rect) == segs[2 * p + 1]);
        }
        let filter = match Filter::new_with_properties(pattern, substitute, wildcard, properties) {
            Ok(f) => f,
            Err(e) => {
                proof {
                    assert(segs[2 * p].1 != segs[2 * p + 1].1);
                    assert(0 <= p < segs.len() / 2);
                }
                return Err(e);
            },
        };
        let ghost fview = filter@;
        filter_collection.push(filter);
        proof {
            assert(fview == lviews[p]);
            assert forall|i: int|
                old_filters.len() <= i < filter_collection.filters@.len() implies (
            #[trigger] filter_collection.filters@[i])@ == lviews[i - old_filters.len()] by {}
        }
        idx += 2;
    }
    proof {
        let p = filter_collection.filters@.len() - old_filters.len();
        assert(idx as int == 2 * p);
        assert(idx as int >= segs.len() - 1);
        assert(idx as int <= segs.len());
        assert(p == segs.len() / 2);
        assert(spec_filter_views(filter_collection.filters@) =~= spec_filter_views(old_filters)
            + lviews);
    }
    Ok(())
}

/// Builds one filter collection from every layer of an imported filter map:
/// each layer's segments are paired two by two into pattern and substitute
/// with the given wildcard, and each pair takes the properties of the first
/// annotation that encloses it.
///
/// # Errors
///
/// Returns an error if the two segments of a pair differ in size.
pub fn filters_from_load_result(load_result: &LoadResult, wildcard: Option<u32>) -> (r: Result<
    FilterCollection<Option<u32>>,
    TisuError,
>)
    requires
        forall|l: int|
            0 <= l < load_result.map_layers@.len() ==> (#[trigger] load_result.map_layers@[l]).map@.wf(),
    ensures
        (r is Ok) <==> (forall|l: int|
            0 <= l < load_result.map_layers@.len() ==> spec_layer_pairs_ok(
                (#[trigger] load_result.map_layers@[l]).map@,
            )),
        r matches Ok(c) ==> {
            &&& c.properties == (FilterProperties {
                probability: PROBABILITY_ONE,
                pattern_matching: PatternMatching::Source,
                only_once: false,
                ignore: false,
            })
            &&& spec_filter_views(c.filters@) == spec_load_result_views(
                load_result.map_layers@,
                load_result.property_layers@,
                wildcard,
            )
        },
        r is Err ==> r == Err::<FilterCollection<Option<u32>>, TisuError>(
            TisuError::InvalidMapSize,
        ),
{
    let ghost layers = load_result.map_layers@;
    let ghost props = load_result.property_layers@;
    let mut filter_collection = FilterCollection::<Option<u32>>::default();
    proof {
        assert(layers.take(0).len() == 0);
        assert(spec_filter_views(filter_collection.filters@) =~= spec_load_result_views(
            layers.take(0),
            props,
            wildcard,
        ));
    }
    let n = load_result.map_layers.len();
    let mut l: usize = 0;
    while l < n
        invariant
            0 <= l <= n,
            n == layers.len(),
            layers == load_result.map_layers@,
            props == load_result.property_layers@,
            forall|i: int| 0 <= i < layers.len() ==> (#[trigger] layers[i]).map@.wf(),
            filter_collection.properties == (FilterProperties {
                probability: PROBABILITY_ONE,
                pattern_matching: PatternMatching::Source,
                only_once: false,
                ignore: false,
            }),
            spec_filter_views(filter_collection.filters@) == spec_load_result_views(
                layers.take(l as int),
                props,
                wildcard,
            ),
            forall|i: int| 0 <= i < l ==> spec_layer_pairs_ok((#[trigger] layers[i]).map@),
        decreases n - l,
    {
        match push_layer_filters(
            &load_result.map_layers[l].map,
            load_result,
            wildcard,
            &mut filter_collection,
        ) {
            Ok(()) => {
                proof {
                    lemma_load_result_views_snoc(layers, props, wildcard, l as int);
                }
            },
            Err(e) => {
                return Err(e);
            },
        }
        l += 1;
    }
    proof {
        assert(layers.take(n as int) =~= layers);
    }
    Ok(filter_collection)
}

} // verus!
