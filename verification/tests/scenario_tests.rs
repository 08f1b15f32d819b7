use tisu::filter::{Filter, FilterProperties, PatternMatching, PROBABILITY_ONE};
use tisu::filter_loader;
use tisu::grid::Grid;
use tisu::importer::{LoadResult, MapLayer, PropertyLayer, PropertyRect};
use tisu::map_segmenter;
use tisu::sampler::Sampler;
use tisu::rect2::Rect2u;
use tisu::tiled_tile::TiledTile;

#[test]
fn test_segmenter_single_rect() {
    // 0 0 0 0
    // 0 1 1 0
    // 0 0 0 0
    let map = Grid::<u32>::from_data([[0, 0, 0, 0], [0, 1, 1, 0], [0, 0, 0, 0]]).unwrap();

    let result = map_segmenter::extract_segments(&map, &0);

    assert_eq!(result, [Rect2u::try_from((1, 1, 2, 1)).unwrap()]);
}

#[test]
fn test_segmenter_rects_touching_edges() {
    // 1 1 0 2 2
    // 0 0 0 2 2
    // 3 0 0 0 0
    // 3 0 0 0 0
    let map = Grid::<u32>::from_data([
        [1, 1, 0, 2, 2],
        [0, 0, 0, 2, 2],
        [3, 0, 0, 0, 0],
        [3, 0, 0, 0, 0],
    ])
    .unwrap();

    let result = map_segmenter::extract_segments(&map, &0);

    assert_eq!(
        result,
        [
            Rect2u::try_from((0, 0, 2, 1)).unwrap(),
            Rect2u::try_from((3, 0, 2, 2)).unwrap(),
            Rect2u::try_from((0, 2, 1, 2)).unwrap(),
        ]
    );
}

#[test]
fn test_segmenter_empty_grid() {
    let map = Grid::<u32>::from_data([[0]]).unwrap();

    let result = map_segmenter::extract_segments(&map, &0);

    assert!(result.is_empty());
}

#[test]
fn test_apply_probability_zero_changes_nothing() {
    let map = Grid::<u32>::from_data([[1, 0, 1], [1, 1, 1], [1, 0, 1]]).unwrap();
    let pattern = Grid::<u32>::from_data([[1, 0]]).unwrap();
    let substitute = Grid::<u32>::from_data([[0, 1]]).unwrap();
    let properties = FilterProperties {
        probability: 0,
        pattern_matching: PatternMatching::Source,
        only_once: false,
        ignore: false,
    };
    let filter = Filter::new_with_properties(pattern, substitute, 42, properties).unwrap();

    let mut destination = map.clone();
    let result = filter.apply(&map, &mut destination);

    assert!(result.is_ok());
    assert_eq!(destination, map);
}

#[test]
fn test_apply_only_once_blocks_overlap() {
    let map = Grid::<u32>::from_data([[1, 1, 1]]).unwrap();
    let pattern = Grid::<u32>::from_data([[1, 1]]).unwrap();
    let substitute = Grid::<u32>::from_data([[2, 2]]).unwrap();
    let properties = FilterProperties {
        probability: PROBABILITY_ONE,
        pattern_matching: PatternMatching::Source,
        only_once: true,
        ignore: false,
    };
    let filter = Filter::new_with_properties(pattern, substitute, 42, properties).unwrap();

    let mut destination = map.clone();
    let result = filter.apply(&map, &mut destination);

    assert!(result.is_ok());
    assert_eq!(destination.data(), [2, 2, 1]);
}

#[test]
fn test_apply_without_only_once_overlaps() {
    let map = Grid::<u32>::from_data([[1, 1, 1]]).unwrap();
    let pattern = Grid::<u32>::from_data([[1, 1]]).unwrap();
    let substitute = Grid::<u32>::from_data([[2, 2]]).unwrap();
    let filter = Filter::new(pattern, substitute, 42).unwrap();

    let mut destination = map.clone();
    let result = filter.apply(&map, &mut destination);

    assert!(result.is_ok());
    assert_eq!(destination.data(), [2, 2, 2]);
}

#[test]
fn test_apply_destination_mode_cascades() {
    let map = Grid::<u32>::from_data([[1, 0, 0]]).unwrap();
    let pattern = Grid::<u32>::from_data([[1, 0]]).unwrap();
    let substitute = Grid::<u32>::from_data([[1, 1]]).unwrap();
    let properties = FilterProperties {
        probability: PROBABILITY_ONE,
        pattern_matching: PatternMatching::Destination,
        only_once: false,
        ignore: false,
    };
    let filter = Filter::new_with_properties(pattern, substitute, 42, properties).unwrap();

    let mut destination = map.clone();
    let result = filter.apply(&map, &mut destination);

    assert!(result.is_ok());
    // The second anchor matches what the first one just wrote.
    assert_eq!(destination.data(), [1, 1, 1]);
}

#[test]
fn test_apply_source_mode_does_not_cascade() {
    let map = Grid::<u32>::from_data([[1, 0, 0]]).unwrap();
    let pattern = Grid::<u32>::from_data([[1, 0]]).unwrap();
    let substitute = Grid::<u32>::from_data([[1, 1]]).unwrap();
    let filter = Filter::new(pattern, substitute, 42).unwrap();

    let mut destination = map.clone();
    let result = filter.apply(&map, &mut destination);

    assert!(result.is_ok());
    assert_eq!(destination.data(), [1, 1, 0]);
}

#[test]
fn test_collection_from_layer_pairs_segments() {
    // 1 2 0 3 3
    let layer = Grid::<u32>::from_data([[1, 2, 0, 3, 3]]).unwrap();

    let collection =
        filter_loader::collection_from_layer(&layer, &0, 42, FilterProperties::default()).unwrap();

    assert_eq!(collection.filters.len(), 1);
    assert_eq!(collection.filters[0].pattern().data(), [1, 2]);
    assert_eq!(collection.filters[0].substitute().data(), [3, 3]);

    let source = Grid::<u32>::from_data([[1, 2, 9]]).unwrap();
    let mut destination = source.clone();
    collection.apply(&source, &mut destination).unwrap();
    assert_eq!(destination.data(), [3, 3, 9]);
}

#[test]
fn test_collection_from_layer_reads_wildcard_marker() {
    // An odd segment count whose first segment is a single cell: that cell
    // becomes the wildcard.
    // 7 0 7 0 9
    let layer = Grid::<u32>::from_data([[7, 0, 7, 0, 9]]).unwrap();

    let collection =
        filter_loader::collection_from_layer(&layer, &0, 42, FilterProperties::default()).unwrap();

    assert_eq!(collection.filters.len(), 1);

    // The pattern is the wildcard cell itself, so it matches any source cell.
    let source = Grid::<u32>::from_data([[1, 2]]).unwrap();
    let mut destination = source.clone();
    collection.apply(&source, &mut destination).unwrap();
    assert_eq!(destination.data(), [9, 9]);
}

#[test]
fn test_collection_from_layer_rejects_uneven_pair() {
    // 1 1 0 3
    let layer = Grid::<u32>::from_data([[1, 1, 0, 3]]).unwrap();

    let result = filter_loader::collection_from_layer(&layer, &0, 42, FilterProperties::default());

    assert!(result.is_err());
}

#[test]
fn test_filters_from_load_result_applies_pairs() {
    let layer = Grid::<Option<u32>>::from_data([[Some(1), None, Some(2)]]).unwrap();
    let load_result = LoadResult {
        map_layers: vec![MapLayer { map: layer }],
        property_layers: vec![],
        tileset_path: String::from("tiles.tsx"),
    };

    let collection = filter_loader::filters_from_load_result(&load_result, Some(9)).unwrap();

    assert_eq!(collection.filters.len(), 1);
    let source = Grid::<Option<u32>>::from_data([[Some(1), Some(1)]]).unwrap();
    let mut destination = source.clone();
    collection.apply(&source, &mut destination).unwrap();
    assert_eq!(destination.data(), [Some(2), Some(2)]);
}

#[test]
fn test_filters_from_load_result_takes_annotated_properties() {
    let layer = Grid::<Option<u32>>::from_data([[Some(1), None, Some(2)]]).unwrap();
    let annotation = PropertyRect {
        rect: Rect2u::new((0, 0).into(), (3, 1).into()).unwrap(),
        properties: FilterProperties {
            probability: 0,
            pattern_matching: PatternMatching::Source,
            only_once: false,
            ignore: false,
        },
    };
    let load_result = LoadResult {
        map_layers: vec![MapLayer { map: layer }],
        property_layers: vec![PropertyLayer { property_rects: vec![annotation] }],
        tileset_path: String::from("tiles.tsx"),
    };

    let collection = filter_loader::filters_from_load_result(&load_result, Some(9)).unwrap();

    // The annotated probability of zero keeps the filter from applying.
    let source = Grid::<Option<u32>>::from_data([[Some(1), Some(1)]]).unwrap();
    let mut destination = source.clone();
    collection.apply(&source, &mut destination).unwrap();
    assert_eq!(destination.data(), [Some(1), Some(1)]);
}

#[test]
fn test_tiled_tile_gid_codec() {
    let tile = TiledTile::from_gid(0x8000_0005);
    assert_eq!(tile.index, Some(5));
    assert!(tile.flip_h);
    assert!(!tile.flip_v);
    assert!(!tile.flip_d);
    assert_eq!(tile.to_gid(), 0x8000_0006);

    let plain = TiledTile::from_gid(3);
    assert_eq!(plain.index, Some(3));
    assert!(!plain.flip_h && !plain.flip_v && !plain.flip_d);

    let empty = TiledTile::default();
    assert_eq!(empty.to_gid(), 0);
}

#[test]
fn test_seeded_sampler_reproduces_a_pass() {
    let map = Grid::<u32>::from_data([[1; 8]; 8]).unwrap();
    let pattern = Grid::<u32>::from_data([[1]]).unwrap();
    let substitute = Grid::<u32>::from_data([[2]]).unwrap();
    let properties = FilterProperties {
        probability: PROBABILITY_ONE / 2,
        pattern_matching: PatternMatching::Source,
        only_once: false,
        ignore: false,
    };
    let filter = Filter::new_with_properties(pattern, substitute, 42, properties).unwrap();

    let mut first = map.clone();
    let mut sampler = Sampler::from_seed(1234);
    filter.apply_with_sampler(&map, &mut first, &mut sampler).unwrap();

    let mut second = map.clone();
    let mut sampler = Sampler::from_seed(1234);
    filter.apply_with_sampler(&map, &mut second, &mut sampler).unwrap();

    assert_eq!(first, second);
}

#[test]
fn test_pattern_matches_with_sampler_is_reproducible() {
    let map = Grid::<u32>::from_data([[1, 0], [0, 1]]).unwrap();
    let pattern = Grid::<u32>::from_data([[1, 0]]).unwrap();
    let substitute = Grid::<u32>::from_data([[0, 1]]).unwrap();
    let properties = FilterProperties {
        probability: PROBABILITY_ONE / 2,
        pattern_matching: PatternMatching::Source,
        only_once: false,
        ignore: false,
    };
    let filter = Filter::new_with_properties(pattern, substitute, 42, properties).unwrap();

    let mut first = Sampler::from_seed(99);
    let mut second = Sampler::from_seed(99);
    for y in 0..2 {
        let point = (0, y).into();
        assert_eq!(
            filter.pattern_matches_with_sampler(&map, point, &mut first),
            filter.pattern_matches_with_sampler(&map, point, &mut second)
        );
    }

    // A full-probability filter decides by the cells alone, whatever the seed.
    let certain = Filter::new(
        Grid::<u32>::from_data([[1, 0]]).unwrap(),
        Grid::<u32>::from_data([[0, 1]]).unwrap(),
        42,
    )
    .unwrap();
    let mut sampler = Sampler::from_seed(5);
    assert!(certain.pattern_matches_with_sampler(&map, (0, 0).into(), &mut sampler));
    assert!(!certain.pattern_matches_with_sampler(&map, (0, 1).into(), &mut sampler));
}
