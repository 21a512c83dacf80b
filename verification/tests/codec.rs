use rand::SeedableRng;
use wavegrid::engine::zip_mut;
use wavegrid::grid::Node;
use wavegrid::random::get_rnd_tile;
use wavegrid::rules::{default_rules, Direction, RuleTable};
use wavegrid::tile::{decode, encode, Tile, WfcError};

#[test]
fn test_get_rnd_tile() {
    let superposition = vec![0, 1, 0, 1, 0];
    let mut rnd = rand::rngs::StdRng::seed_from_u64(1);
    let result = get_rnd_tile(&superposition, &mut rnd);
    assert_eq!(result.unwrap(), vec![0, 0, 0, 1, 0]);

    let superposition = vec![0, 1, 0, 1, 0, 0, 1, 1, 1];
    let result = get_rnd_tile(&superposition, &mut rnd);
    assert_eq!(result.unwrap(), vec![0, 0, 0, 0, 0, 0, 1, 0, 0]);
}

#[test]
fn test_get_rnd_tile_contradiction() {
    let superposition = vec![0, 0, 0, 0, 0];
    let mut rnd = rand::rngs::StdRng::seed_from_u64(1);
    let result = get_rnd_tile(&superposition, &mut rnd);
    assert_eq!(result, Err(WfcError::InvariantViolation));
}

#[test]
fn test_encode_one_hot() {
    assert_eq!(encode(Tile::Water), vec![1, 0, 0, 0, 0]);
    assert_eq!(encode(Tile::Sand), vec![0, 1, 0, 0, 0]);
    assert_eq!(encode(Tile::Grass), vec![0, 0, 1, 0, 0]);
    assert_eq!(encode(Tile::Tree), vec![0, 0, 0, 1, 0]);
    assert_eq!(encode(Tile::Rock), vec![0, 0, 0, 0, 1]);
}

#[test]
fn test_decode_encode_round_trip() {
    let tiles = [Tile::Water, Tile::Sand, Tile::Grass, Tile::Tree, Tile::Rock];
    for t in tiles {
        assert_eq!(decode(&encode(t)), Ok(t));
    }
}

#[test]
fn test_decode_rejects_non_one_hot() {
    // A superposition, a contradiction, a non-canonical slot, and a vector
    // of the wrong width all fail to decode.
    assert_eq!(
        decode(&vec![1, 1, 0, 0, 0]),
        Err(WfcError::AmbiguousOrInvalidTile)
    );
    assert_eq!(
        decode(&vec![0, 0, 0, 0, 0]),
        Err(WfcError::AmbiguousOrInvalidTile)
    );
    assert_eq!(
        decode(&vec![0, 2, 0, 0, 0]),
        Err(WfcError::AmbiguousOrInvalidTile)
    );
    assert_eq!(decode(&vec![1]), Err(WfcError::AmbiguousOrInvalidTile));
}

#[test]
fn test_rule_masks_per_tile() {
    // For every registered tile and every propagation direction, the mask is
    // exactly that tile's compatibility row of the default table.
    let rules = default_rules();
    let expected: [(Tile, Vec<usize>); 5] = [
        (Tile::Water, vec![1, 1, 0, 0, 0]),
        (Tile::Sand, vec![1, 1, 1, 0, 0]),
        (Tile::Grass, vec![0, 1, 1, 1, 1]),
        (Tile::Tree, vec![0, 0, 1, 1, 0]),
        (Tile::Rock, vec![0, 1, 1, 0, 0]),
    ];
    let directions = [
        Direction::Left,
        Direction::Right,
        Direction::Up,
        Direction::Down,
    ];
    for (tile, row) in expected {
        let trigger = encode(tile);
        for d in directions {
            assert_eq!(rules.rule(&d, &trigger), row);
        }
        // The identity direction returns the trigger itself.
        assert_eq!(rules.rule(&Direction::Direct, &trigger), trigger);
    }
}

#[test]
fn test_rule_union_of_superposition() {
    // A multi-hot trigger produces the union of the rows of its set bits.
    let rules = default_rules();
    let water_and_sand = vec![1, 1, 0, 0, 0];
    assert_eq!(
        rules.rule(&Direction::Right, &water_and_sand),
        vec![1, 1, 1, 0, 0]
    );
    assert_eq!(
        rules.rule(&Direction::Direct, &water_and_sand),
        water_and_sand
    );
    // An empty trigger is compatible with nothing.
    assert_eq!(
        rules.rule(&Direction::Up, &vec![0, 0, 0, 0, 0]),
        vec![0, 0, 0, 0, 0]
    );
}

#[test]
fn test_rule_table_rejects_bad_shapes() {
    let ragged = vec![vec![1, 0], vec![1]];
    assert!(matches!(RuleTable::new(ragged), Err(WfcError::ConfigMismatch)));
    let not_binary = vec![vec![1, 2], vec![0, 1]];
    assert!(matches!(
        RuleTable::new(not_binary),
        Err(WfcError::ConfigMismatch)
    ));
    let square = vec![vec![1, 0], vec![0, 1]];
    assert!(RuleTable::new(square).is_ok());
}

#[test]
fn test_zip_mut_intersects() {
    let mut node = Node {
        data: vec![1, 1, 1, 0, 1],
    };
    zip_mut(&mut node, &vec![0, 1, 1, 1, 0]);
    assert_eq!(node.data, vec![0, 1, 1, 0, 0]);
    // Masking again with the same trigger changes nothing.
    zip_mut(&mut node, &vec![0, 1, 1, 1, 0]);
    assert_eq!(node.data, vec![0, 1, 1, 0, 0]);
}

#[test]
fn test_node_entropy() {
    assert_eq!(Node::full(5).get_entropy(), 5);
    assert_eq!(Node { data: vec![0, 1, 0, 1, 0] }.get_entropy(), 2);
    assert_eq!(Node { data: vec![0, 0, 0, 0, 0] }.get_entropy(), 0);
}
