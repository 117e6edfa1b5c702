use tile_resource_mapper_tool::coordinates::MapCoordinate;

#[test]
fn test_new_map_coordinate() {
    let coordinates = MapCoordinate::new(10, 20);
    assert_eq!(coordinates.get_width(), 10);
    assert_eq!(coordinates.get_height(), 20);
}

#[test]
fn test_set_width() {
    let mut coordinates = MapCoordinate::new(10, 20);
    coordinates.set_width(15);
    assert_eq!(coordinates.get_width(), 15);
}

#[test]
fn test_set_height() {
    let mut coordinates = MapCoordinate::new(10, 20);
    coordinates.set_height(25);
    assert_eq!(coordinates.get_height(), 25);
}

#[test]
fn test_equality() {
    let coordinates1 = MapCoordinate::new(10, 20);
    let coordinates2 = MapCoordinate::new(10, 20);
    let coordinates3 = MapCoordinate::new(15, 25);

    assert_eq!(coordinates1, coordinates2);
    assert_ne!(coordinates1, coordinates3);
}

#[test]
fn test_addition() {
    let coordinates1 = MapCoordinate::new(10, 20);
    let coordinates2 = MapCoordinate::new(5, 10);
    let result = coordinates1 + coordinates2;
    assert_eq!(result, MapCoordinate::new(15, 30));
}

#[test]
fn test_subtraction() {
    let coordinates1 = MapCoordinate::new(10, 20);
    let coordinates2 = MapCoordinate::new(5, 10);
    let result = coordinates1 - coordinates2;
    assert_eq!(result, MapCoordinate::new(5, 10));
}

#[test]
fn test_from_into_conversion() {
    let tuple_coordinates: (usize, usize) = (10, 20);
    let coordinates: MapCoordinate = tuple_coordinates.into();
    assert_eq!(coordinates.get_width(), 10);
    assert_eq!(coordinates.get_height(), 20);

    let converted_tuple: (usize, usize) = coordinates.into();
    assert_eq!(converted_tuple, (10, 20));
}

#[test]
fn test_closer_than() {
    // Squared distances from (0, 0): (2, 2) gives 8, (3, 1) gives 10, so
    // (2, 2) lies strictly closer (2.83 against 3.16 in Euclidean terms).
    let origin = MapCoordinate::new(0, 0);
    let near = MapCoordinate::new(2, 2);
    let far = MapCoordinate::new(3, 1);
    assert!(near.closer_than(&far, &origin));
    assert!(!far.closer_than(&near, &origin));
}

#[test]
fn test_closer_than_tie() {
    // (1, 0) and (0, 1) lie exactly equally far from (0, 0): neither is
    // strictly closer than the other.
    let origin = MapCoordinate::new(0, 0);
    let east = MapCoordinate::new(1, 0);
    let south = MapCoordinate::new(0, 1);
    assert!(!east.closer_than(&south, &origin));
    assert!(!south.closer_than(&east, &origin));
}

#[test]
fn test_closer_than_mirrored_points() {
    // (4, 0) and (0, 4) lie exactly equally far from the origin, so
    // neither is strictly closer, while (1, 1) beats both.
    let reference = MapCoordinate::new(0, 0);
    let a = MapCoordinate::new(4, 0);
    let b = MapCoordinate::new(0, 4);
    assert!(!a.closer_than(&b, &reference));
    assert!(!b.closer_than(&a, &reference));
    let nearer = MapCoordinate::new(1, 1);
    assert!(nearer.closer_than(&a, &reference));
    assert!(nearer.closer_than(&b, &reference));
}
