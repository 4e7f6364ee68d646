//! Chunk grid tests.

use zarrs::chunk_grid::rectangular::{
    RectangularChunkGrid, RectangularChunkGridDimensionConfiguration,
};
use zarrs::chunk_grid::ChunkGrid;

fn rectangular_grid() -> ChunkGrid {
    let chunk_shapes = vec![
        RectangularChunkGridDimensionConfiguration::varying(vec![5, 5, 5, 15, 15, 20, 35])
            .unwrap(),
        RectangularChunkGridDimensionConfiguration::fixed(10).unwrap(),
    ];
    ChunkGrid::Rectangular(RectangularChunkGrid::new(&chunk_shapes))
}

#[test]
fn chunk_grid_rectangular() {
    let array_shape: Vec<u64> = vec![100, 100];
    let chunk_grid = rectangular_grid();

    assert_eq!(chunk_grid.dimensionality(), 2);
    assert_eq!(
        chunk_grid.grid_shape(&array_shape).unwrap(),
        Some(vec![7, 10])
    );
    assert_eq!(
        chunk_grid.chunk_indices(&[17, 17], &array_shape).unwrap(),
        Some(vec![3, 1])
    );
    assert_eq!(
        chunk_grid
            .chunk_element_indices(&[17, 17], &array_shape)
            .unwrap(),
        Some(vec![2, 7])
    );
}

#[test]
fn chunk_grid_rectangular_out_of_bounds() {
    let array_shape: Vec<u64> = vec![100, 100];
    let chunk_grid = rectangular_grid();

    assert_eq!(
        chunk_grid.grid_shape(&array_shape).unwrap(),
        Some(vec![7, 10])
    );

    let array_indices: Vec<u64> = vec![99, 99];
    assert!(chunk_grid
        .chunk_indices(&array_indices, &array_shape)
        .unwrap()
        .is_some());

    let array_indices: Vec<u64> = vec![100, 100];
    assert!(chunk_grid
        .chunk_indices(&array_indices, &array_shape)
        .unwrap()
        .is_none());

    let chunk_indices: Vec<u64> = vec![6, 9];
    assert!(chunk_grid.chunk_indices_inbounds(&chunk_indices, &array_shape));
    assert!(chunk_grid
        .chunk_origin(&chunk_indices, &array_shape)
        .unwrap()
        .is_some());

    let chunk_indices: Vec<u64> = vec![7, 9];
    assert!(!chunk_grid.chunk_indices_inbounds(&chunk_indices, &array_shape));
    assert!(chunk_grid
        .chunk_origin(&chunk_indices, &array_shape)
        .unwrap()
        .is_none());

    let chunk_indices: Vec<u64> = vec![6, 10];
    assert!(!chunk_grid.chunk_indices_inbounds(&chunk_indices, &array_shape));
}

#[test]
fn chunk_grid_rectangular_unlimited() {
    let array_shape: Vec<u64> = vec![100, 0];
    let chunk_grid = rectangular_grid();

    assert_eq!(
        chunk_grid.grid_shape(&array_shape).unwrap(),
        Some(vec![7, 0])
    );

    let array_indices: Vec<u64> = vec![101, 150];
    assert!(chunk_grid
        .chunk_indices(&array_indices, &array_shape)
        .unwrap()
        .is_none());

    let chunk_indices: Vec<u64> = vec![6, 9];
    assert!(chunk_grid.chunk_indices_inbounds(&chunk_indices, &array_shape));
    assert!(chunk_grid
        .chunk_origin(&chunk_indices, &array_shape)
        .unwrap()
        .is_some());

    let chunk_indices: Vec<u64> = vec![7, 9];
    assert!(!chunk_grid.chunk_indices_inbounds(&chunk_indices, &array_shape));
    assert!(chunk_grid
        .chunk_origin(&chunk_indices, &array_shape)
        .unwrap()
        .is_none());

    let chunk_indices: Vec<u64> = vec![6, 123];
    assert!(chunk_grid.chunk_indices_inbounds(&chunk_indices, &array_shape));
}

#[test]
fn chunk_grid_regular_arithmetic() {
    let grid = ChunkGrid::Regular(zarrs::chunk_grid::regular::RegularChunkGrid::new(vec![4, 4]).unwrap());
    let shape: Vec<u64> = vec![8, 8];
    assert_eq!(grid.grid_shape(&shape).unwrap(), Some(vec![2, 2]));
    assert_eq!(grid.chunk_indices(&[5, 3], &shape).unwrap(), Some(vec![1, 0]));
    assert_eq!(
        grid.chunk_element_indices(&[5, 3], &shape).unwrap(),
        Some(vec![1, 3])
    );
    assert_eq!(grid.chunk_origin(&[1, 1], &shape).unwrap(), Some(vec![4, 4]));
    // a grid whose extent does not divide the array rounds up
    let grid = ChunkGrid::Regular(zarrs::chunk_grid::regular::RegularChunkGrid::new(vec![3]).unwrap());
    assert_eq!(grid.grid_shape(&[7]).unwrap(), Some(vec![3]));
}

#[test]
fn ravel_and_unravel() {
    assert_eq!(zarrs::ravel_indices(&[1, 2], &[3, 4]), 6);
    assert_eq!(zarrs::unravel_index(6, &[3, 4]), vec![1, 2]);
    assert_eq!(zarrs::ravel_indices(&[2, 3], &[3, 4]), 11);
    assert_eq!(zarrs::unravel_index(11, &[3, 4]), vec![2, 3]);
}

#[test]
fn subset_extract_and_splice() {
    // a 3x3 array of bytes 0..9; the centre 2x2 subset
    let parent: Vec<u8> = (0..9).collect();
    let subset = zarrs::array_subset::ArraySubset::new_with_ranges(&[(1, 3), (1, 3)]);
    let extracted = subset.extract_bytes(&parent, &[3, 3], 1);
    assert_eq!(extracted, vec![4, 5, 7, 8]);
    let mut out = parent.clone();
    subset.splice_bytes(&mut out, &[40, 50, 70, 80], &[3, 3], 1);
    assert_eq!(out, vec![0, 1, 2, 3, 40, 50, 6, 70, 80]);
}
