use tile_resource_mapper_tool::coordinates::MapCoordinate;
use tile_resource_mapper_tool::errors::ToolError;
use tile_resource_mapper_tool::tool::Cell;
use tile_resource_mapper_tool::tool::ContentKind;
use tile_resource_mapper_tool::tool::Quantity;
use tile_resource_mapper_tool::tool::TileMapper;
use tile_resource_mapper_tool::tool::WorldSnapshot;

/// A square grid in which every cell has been discovered and found empty.
fn empty_grid(size: usize) -> Vec<Vec<Option<Cell>>> {
    let mut rows: Vec<Vec<Option<Cell>>> = Vec::new();
    for _ in 0..size {
        let mut row: Vec<Option<Cell>> = Vec::new();
        for _ in 0..size {
            row.push(Some(Cell::Empty));
        }
        rows.push(row);
    }
    rows
}

#[test]
fn test_tool_hashmap_discriminant() {
    let mut grid = empty_grid(5);
    grid[2][2] = Some(Cell::Resource(ContentKind::Rock, Quantity::Scalar(2)));
    grid[1][3] = Some(Cell::Resource(ContentKind::Rock, Quantity::Scalar(17)));
    grid[1][2] = Some(Cell::Resource(ContentKind::Coin, Quantity::Scalar(3)));
    grid[1][1] = Some(Cell::Resource(ContentKind::Bin, Quantity::Extent { start: 0, end: 4 }));
    let snapshot = WorldSnapshot::Explored(grid);

    let expected_rocks = vec![
        (MapCoordinate::new(3, 1), Quantity::Scalar(17)),
        (MapCoordinate::new(2, 2), Quantity::Scalar(2)),
    ];
    let expected_coins = vec![(MapCoordinate::new(2, 1), Quantity::Scalar(3))];
    let expected_bins =
        vec![(MapCoordinate::new(1, 1), Quantity::Extent { start: 0, end: 4 })];

    let result = TileMapper::collection(&snapshot);
    match result {
        Some(index) => {
            println!("{:?}", index.buckets);
            assert_eq!(index.get(ContentKind::Rock), Some(&expected_rocks));
            assert_eq!(index.get(ContentKind::Coin), Some(&expected_coins));
            assert_eq!(index.get(ContentKind::Bin), Some(&expected_bins));
            assert_eq!(index.buckets.len(), 3);
        }
        None => panic!("error while matching the hashmap"),
    }
}

#[test]
fn test_find_most_loaded_usize() {
    let mut grid = empty_grid(5);
    grid[2][2] = Some(Cell::Resource(ContentKind::Rock, Quantity::Scalar(2)));
    grid[1][3] = Some(Cell::Resource(ContentKind::Rock, Quantity::Scalar(17)));
    grid[1][2] = Some(Cell::Resource(ContentKind::Rock, Quantity::Scalar(5)));
    grid[1][1] = Some(Cell::Resource(ContentKind::Rock, Quantity::Scalar(9)));
    grid[0][4] = Some(Cell::Resource(ContentKind::Coin, Quantity::Scalar(1)));
    let snapshot = WorldSnapshot::Explored(grid);
    let tool = TileMapper {};

    let expected_result = MapCoordinate::new(3, 1);
    match tool.find_most_loaded(&snapshot, MapCoordinate::new(4, 0), ContentKind::Rock) {
        Ok(result) => assert_eq!(result, expected_result),
        Err(e) => panic!("{}", e.message()),
    };
}

#[test]
fn test_find_most_loaded_range() {
    let mut grid = empty_grid(5);
    grid[2][2] = Some(Cell::Resource(ContentKind::Bin, Quantity::Extent { start: 0, end: 2 }));
    grid[1][3] = Some(Cell::Resource(ContentKind::Bin, Quantity::Extent { start: 0, end: 8 }));
    grid[1][2] = Some(Cell::Resource(ContentKind::Bin, Quantity::Extent { start: 0, end: 5 }));
    grid[1][1] = Some(Cell::Resource(ContentKind::Bin, Quantity::Extent { start: 0, end: 3 }));
    grid[0][4] = Some(Cell::Resource(ContentKind::Coin, Quantity::Scalar(1)));
    let snapshot = WorldSnapshot::Explored(grid);
    let tool = TileMapper {};

    let expected_result = MapCoordinate::new(3, 1);
    match tool.find_most_loaded(&snapshot, MapCoordinate::new(4, 0), ContentKind::Bin) {
        Ok(result) => assert_eq!(result, expected_result),
        Err(e) => panic!("{}", e.message()),
    };
}

#[test]
fn test_find_most_loaded_with_duplicates_range() {
    let mut grid = empty_grid(5);
    grid[2][2] = Some(Cell::Resource(ContentKind::Bin, Quantity::Extent { start: 0, end: 9 }));
    grid[1][3] = Some(Cell::Resource(ContentKind::Bin, Quantity::Extent { start: 0, end: 9 }));
    grid[1][2] = Some(Cell::Resource(ContentKind::Bin, Quantity::Extent { start: 0, end: 9 }));
    grid[1][1] = Some(Cell::Resource(ContentKind::Bin, Quantity::Extent { start: 0, end: 9 }));
    grid[0][4] = Some(Cell::Resource(ContentKind::Coin, Quantity::Scalar(1)));
    let snapshot = WorldSnapshot::Explored(grid);
    let tool = TileMapper {};

    let expected_result = MapCoordinate::new(3, 1);
    match tool.find_most_loaded(&snapshot, MapCoordinate::new(4, 0), ContentKind::Bin) {
        Ok(result) => assert_eq!(result, expected_result),
        Err(e) => panic!("{}", e.message()),
    };
}

#[test]
fn test_find_most_loaded_with_duplicates_usize() {
    let mut grid = empty_grid(5);
    grid[2][2] = Some(Cell::Resource(ContentKind::Rock, Quantity::Scalar(9)));
    grid[1][3] = Some(Cell::Resource(ContentKind::Rock, Quantity::Scalar(9)));
    grid[1][2] = Some(Cell::Resource(ContentKind::Rock, Quantity::Scalar(9)));
    grid[1][1] = Some(Cell::Resource(ContentKind::Rock, Quantity::Scalar(9)));
    grid[0][4] = Some(Cell::Resource(ContentKind::Coin, Quantity::Scalar(1)));
    let snapshot = WorldSnapshot::Explored(grid);
    let tool = TileMapper {};

    let expected_result = MapCoordinate::new(3, 1);
    match tool.find_most_loaded(&snapshot, MapCoordinate::new(4, 0), ContentKind::Rock) {
        Ok(result) => assert_eq!(result, expected_result),
        Err(e) => panic!("{}", e.message()),
    };
}

#[test]
fn test_find_most_loaded_not_discovered() {
    let mut grid = empty_grid(5);
    grid[2][2] = Some(Cell::Resource(ContentKind::Rock, Quantity::Scalar(2)));
    grid[1][3] = Some(Cell::Resource(ContentKind::Scarecrow, Quantity::Scalar(0)));
    grid[1][2] = Some(Cell::Resource(ContentKind::JollyBlock, Quantity::Scalar(1)));
    grid[1][1] = Some(Cell::Resource(ContentKind::Rock, Quantity::Scalar(9)));
    grid[0][4] = Some(Cell::Resource(ContentKind::Coin, Quantity::Scalar(1)));
    let snapshot = WorldSnapshot::Explored(grid);
    let tool = TileMapper {};

    let expected_error = "Content not discovered yet".to_string();
    match tool.find_most_loaded(&snapshot, MapCoordinate::new(4, 0), ContentKind::Bush) {
        Ok(_result) => {}
        Err(e) => assert_eq!(e.message(), expected_error),
    };
}

#[test]
fn test_find_closest() {
    let mut grid = empty_grid(5);
    grid[2][2] = Some(Cell::Resource(ContentKind::Rock, Quantity::Scalar(2)));
    grid[1][3] = Some(Cell::Resource(ContentKind::Rock, Quantity::Scalar(6)));
    grid[1][2] = Some(Cell::Resource(ContentKind::Rock, Quantity::Scalar(5)));
    grid[1][1] = Some(Cell::Resource(ContentKind::Rock, Quantity::Scalar(9)));
    grid[0][4] = Some(Cell::Resource(ContentKind::Coin, Quantity::Scalar(1)));
    let snapshot = WorldSnapshot::Explored(grid);
    let tool = TileMapper {};

    let expected_result = MapCoordinate::new(3, 1);
    match tool.find_closest(&snapshot, MapCoordinate::new(4, 0), ContentKind::Rock) {
        Ok(result) => assert_eq!(result, expected_result),
        Err(e) => panic!("{}", e.message()),
    };
}

#[test]
fn test_find_closest_with_duplicates_range() {
    let mut grid = empty_grid(5);
    grid[2][2] = Some(Cell::Resource(ContentKind::Bin, Quantity::Extent { start: 0, end: 9 }));
    grid[1][3] = Some(Cell::Resource(ContentKind::Bin, Quantity::Extent { start: 0, end: 9 }));
    grid[1][2] = Some(Cell::Resource(ContentKind::Bin, Quantity::Extent { start: 0, end: 9 }));
    grid[1][1] = Some(Cell::Resource(ContentKind::Bin, Quantity::Extent { start: 0, end: 9 }));
    grid[0][4] = Some(Cell::Resource(ContentKind::Coin, Quantity::Scalar(1)));
    let snapshot = WorldSnapshot::Explored(grid);
    let tool = TileMapper {};

    let expected_result = MapCoordinate::new(3, 1);
    match tool.find_closest(&snapshot, MapCoordinate::new(4, 0), ContentKind::Bin) {
        Ok(result) => assert_eq!(result, expected_result),
        Err(e) => panic!("{}", e.message()),
    };
}
