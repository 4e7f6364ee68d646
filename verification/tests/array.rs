//! Array engine tests: the scenarios of the design.

use zarrs::array::array_builder::ArrayBuilder;
use zarrs::json::JsonValue;
use zarrs::array::Array;
use zarrs::array_subset::ArraySubset;
use zarrs::chunk_grid::regular::RegularChunkGrid;
use zarrs::chunk_grid::ChunkGrid;
use zarrs::data_type::DataType;
use zarrs::fill_value::FillValue;
use zarrs::storage::store::MemoryStore;
use zarrs::storage::ReadableStorageTraits;

fn f32_bytes(values: &[f32]) -> Vec<u8> {
    let mut out = Vec::new();
    for v in values {
        out.extend_from_slice(&v.to_ne_bytes());
    }
    out
}

fn bytes_f32(bytes: &[u8]) -> Vec<f32> {
    bytes
        .chunks(4)
        .map(|b| f32::from_ne_bytes([b[0], b[1], b[2], b[3]]))
        .collect()
}

fn float_array() -> Array {
    let grid = ChunkGrid::Regular(RegularChunkGrid::new(vec![4, 4]).unwrap());
    let builder = ArrayBuilder::new(
        vec![8, 8],
        DataType::Float32,
        grid,
        FillValue::new(1.0f32.to_ne_bytes().to_vec()),
    );
    builder.build("/array").unwrap()
}

#[test]
fn array_fill_value_default() {
    // an array with no chunks reads as the fill value everywhere
    let store = MemoryStore::new();
    let array = float_array();
    let subset = ArraySubset::new_with_ranges(&[(0, 8), (0, 8)]);
    let data = array.retrieve_array_subset(&store, &subset).unwrap();
    assert_eq!(bytes_f32(&data), vec![1.0f32; 64]);
}

#[test]
fn array_subset_round_trip_scenario() {
    // write a 3x3 block across chunk boundaries, then read the whole array
    let mut store = MemoryStore::new();
    let array = float_array();
    let subset = ArraySubset::new_with_ranges(&[(3, 6), (3, 6)]);
    let values = vec![0.1f32, 0.2, 0.3, 0.4, 0.5, 0.6, 0.7, 0.8, 0.9];
    array
        .store_array_subset(&mut store, &subset, f32_bytes(&values))
        .unwrap();

    // the written subset reads back exactly
    let back = array.retrieve_array_subset(&store, &subset).unwrap();
    assert_eq!(bytes_f32(&back), values);

    // the full array holds the fill value everywhere else
    let all = ArraySubset::new_with_ranges(&[(0, 8), (0, 8)]);
    let data = array.retrieve_array_subset(&store, &all).unwrap();
    let data = bytes_f32(&data);
    let mut expected = vec![1.0f32; 64];
    for r in 0..3 {
        for c in 0..3 {
            expected[(3 + r) * 8 + (3 + c)] = values[r * 3 + c];
        }
    }
    assert_eq!(data, expected);
}

#[test]
fn array_subset_partition() {
    // reading a subset in two disjoint parts concatenates to the whole
    let mut store = MemoryStore::new();
    let array = float_array();
    let subset = ArraySubset::new_with_ranges(&[(2, 6), (1, 7)]);
    let values: Vec<f32> = (0..24).map(|i| i as f32 * 0.5).collect();
    array
        .store_array_subset(&mut store, &subset, f32_bytes(&values))
        .unwrap();
    let top = ArraySubset::new_with_ranges(&[(2, 4), (1, 7)]);
    let bottom = ArraySubset::new_with_ranges(&[(4, 6), (1, 7)]);
    let mut joined = bytes_f32(&array.retrieve_array_subset(&store, &top).unwrap());
    joined.extend(bytes_f32(
        &array.retrieve_array_subset(&store, &bottom).unwrap(),
    ));
    assert_eq!(joined, values);
}

#[test]
fn array_empty_chunk_erase_scenario() {
    // a slab equal to the fill value stores no chunk
    let mut store = MemoryStore::new();
    let array = float_array();
    let subset = ArraySubset::new_with_ranges(&[(4, 8), (4, 8)]);
    array
        .store_array_subset(&mut store, &subset, f32_bytes(&vec![1.0f32; 16]))
        .unwrap();
    let key = array.chunk_key(&[1, 1]);
    assert!(store.get(&key).unwrap().is_none());
    let chunk = array.retrieve_chunk(&store, &[1, 1]).unwrap();
    assert_eq!(bytes_f32(&chunk), vec![1.0f32; 16]);
    assert!(array
        .retrieve_chunk_if_exists(&store, &[1, 1])
        .unwrap()
        .is_none());

    // storing data and then overwriting it with the fill value erases the key
    array
        .store_chunk(&mut store, &[1, 1], f32_bytes(&vec![2.0f32; 16]))
        .unwrap();
    assert!(store.get(&key).unwrap().is_some());
    array
        .store_chunk(&mut store, &[1, 1], f32_bytes(&vec![1.0f32; 16]))
        .unwrap();
    assert!(store.get(&key).unwrap().is_none());
}

#[test]
fn array_chunk_boundary_fast_path() {
    // a subset equal to one chunk's footprint stores byte-identically to
    // storing that chunk directly
    let mut store_a = MemoryStore::new();
    let mut store_b = MemoryStore::new();
    let array = float_array();
    let values: Vec<f32> = (0..16).map(|i| i as f32).collect();
    let subset = ArraySubset::new_with_ranges(&[(4, 8), (0, 4)]);
    array
        .store_array_subset(&mut store_a, &subset, f32_bytes(&values))
        .unwrap();
    array
        .store_chunk(&mut store_b, &[1, 0], f32_bytes(&values))
        .unwrap();
    let key = array.chunk_key(&[1, 0]);
    assert_eq!(store_a.get(&key).unwrap(), store_b.get(&key).unwrap());
}

#[test]
fn array_rmw_rounds() {
    // repeated row writes across chunks leave the array uniform per round
    let mut store = MemoryStore::new();
    let grid = ChunkGrid::Regular(RegularChunkGrid::new(vec![10, 2]).unwrap());
    let builder = ArrayBuilder::new(vec![100, 4], DataType::UInt8, grid, FillValue::new(vec![0]));
    let array = builder.build("/array").unwrap();
    for j in 1..10u8 {
        for i in 0..100u64 {
            let subset = ArraySubset::new_with_ranges(&[(i, i + 1), (0, 4)]);
            array
                .store_array_subset(&mut store, &subset, vec![j; 4])
                .unwrap();
        }
        let all = ArraySubset::new_with_ranges(&[(0, 100), (0, 4)]);
        let data = array.retrieve_array_subset(&store, &all).unwrap();
        assert!(data.iter().all(|&b| b == j));
    }
}

#[test]
fn array_chunk_subset_rmw() {
    // writing part of a chunk keeps the rest of the chunk intact
    let mut store = MemoryStore::new();
    let array = float_array();
    array
        .store_chunk(&mut store, &[0, 0], f32_bytes(&vec![5.0f32; 16]))
        .unwrap();
    let subset = ArraySubset::new_with_ranges(&[(1, 2), (1, 3)]);
    array
        .store_chunk_subset(&mut store, &[0, 0], &subset, f32_bytes(&[8.0, 9.0]))
        .unwrap();
    let chunk = bytes_f32(&array.retrieve_chunk(&store, &[0, 0]).unwrap());
    let mut expected = vec![5.0f32; 16];
    expected[1 * 4 + 1] = 8.0;
    expected[1 * 4 + 2] = 9.0;
    assert_eq!(chunk, expected);
}

#[test]
fn array_errors() {
    let mut store = MemoryStore::new();
    let array = float_array();
    // a wrong input length is rejected
    assert!(matches!(
        array.store_chunk(&mut store, &[0, 0], vec![0u8; 3]),
        Err(zarrs::array::ArrayError::InvalidBytesInputSize(3, 64))
    ));
    // chunk indices out of the grid are rejected
    assert!(matches!(
        array.chunk_shape(&[2, 0]),
        Err(zarrs::array::ArrayError::InvalidChunkGridIndicesError(_))
    ));
    // a subset reaching out of the array is rejected
    let subset = ArraySubset::new_with_ranges(&[(5, 9), (0, 4)]);
    assert!(matches!(
        array.retrieve_array_subset(&store, &subset),
        Err(zarrs::array::ArrayError::InvalidArraySubset)
    ));
}

#[test]
fn array_chunk_key_text() {
    let array = float_array();
    assert_eq!(array.chunk_key(&[1, 2]).as_str(), "array/c/1/2");
}

#[test]
fn array_metadata_round_trip() {
    // written metadata opens to an equivalent array
    let mut store = MemoryStore::new();
    let array = float_array();
    array.store_metadata(&mut store).unwrap();
    let read = Array::new(&store, "/array").unwrap();
    assert_eq!(read.shape(), array.shape());
    assert_eq!(read.data_type(), array.data_type());
    assert_eq!(
        read.fill_value().as_slice(),
        array.fill_value().as_slice()
    );
    assert_eq!(read.metadata_to_string(), array.metadata_to_string());
    // and behaves identically
    array
        .store_chunk(&mut store, &[0, 0], f32_bytes(&vec![3.0f32; 16]))
        .unwrap();
    let chunk = read.retrieve_chunk(&store, &[0, 0]).unwrap();
    assert_eq!(bytes_f32(&chunk), vec![3.0f32; 16]);
}

#[test]
fn array_store_chunks_region() {
    // a packed buffer covering a 2x1 rectangle of chunks stores per chunk
    let mut store = MemoryStore::new();
    let array = float_array();
    let chunks = ArraySubset::new_with_ranges(&[(0, 2), (0, 1)]);
    let values: Vec<f32> = (0..32).map(|i| i as f32).collect();
    array
        .store_chunks(&mut store, &chunks, f32_bytes(&values))
        .unwrap();
    let chunk0 = bytes_f32(&array.retrieve_chunk(&store, &[0, 0]).unwrap());
    let chunk1 = bytes_f32(&array.retrieve_chunk(&store, &[1, 0]).unwrap());
    assert_eq!(chunk0, values[..16].to_vec());
    assert_eq!(chunk1, values[16..].to_vec());
}

#[test]
fn array_erase_chunks() {
    let mut store = MemoryStore::new();
    let array = float_array();
    for c in [[0u64, 0], [0, 1], [1, 0], [1, 1]] {
        array
            .store_chunk(&mut store, &c, f32_bytes(&vec![2.0f32; 16]))
            .unwrap();
    }
    array.store_metadata(&mut store).unwrap();
    let chunks = ArraySubset::new_with_ranges(&[(0, 2), (0, 2)]);
    array.erase_chunks(&mut store, &chunks).unwrap();
    for c in [[0u64, 0], [0, 1], [1, 0], [1, 1]] {
        assert!(array.retrieve_chunk_if_exists(&store, &c).unwrap().is_none());
    }
    // the metadata key is untouched
    assert!(Array::new(&store, "/array").is_ok());
}

#[test]
fn array_retrieve_chunk_subset_store_backed() {
    // a chunk subset read goes through the store-backed partial decoder
    let mut store = MemoryStore::new();
    let array = float_array();
    let values: Vec<f32> = (0..16).map(|i| i as f32).collect();
    array
        .store_chunk(&mut store, &[0, 0], f32_bytes(&values))
        .unwrap();
    let subset = ArraySubset::new_with_ranges(&[(1, 3), (2, 4)]);
    let out = array
        .retrieve_chunk_subset(&store, &[0, 0], &subset)
        .unwrap();
    assert_eq!(bytes_f32(&out), vec![6.0, 7.0, 10.0, 11.0]);
    // absent chunk: the fill value
    let out = array
        .retrieve_chunk_subset(&store, &[1, 1], &subset)
        .unwrap();
    assert_eq!(bytes_f32(&out), vec![1.0f32; 4]);
}

#[test]
fn array_partial_decoder_matches_whole_read() {
    // a partial decoder serves the same bytes a whole-chunk read does
    let mut store = MemoryStore::new();
    let array = float_array();
    let values: Vec<f32> = (0..16).map(|i| (16 - i) as f32).collect();
    array
        .store_chunk(&mut store, &[0, 0], f32_bytes(&values))
        .unwrap();
    let decoder = array.partial_decoder(&store, &[0, 0]).unwrap();
    let whole = ArraySubset::new_with_ranges(&[(0, 4), (0, 4)]);
    let out = decoder.partial_decode(&[whole]).unwrap();
    assert_eq!(out[0], array.retrieve_chunk(&store, &[0, 0]).unwrap());
}

#[test]
fn test_array_metadata_write_read() {
    let mut store = MemoryStore::new();
    let array_path = "/array";
    let grid = ChunkGrid::Regular(RegularChunkGrid::new(vec![4, 4]).unwrap());
    let array = ArrayBuilder::new(
        vec![8, 8],
        DataType::UInt8,
        grid,
        FillValue::new(vec![0]),
    )
    .build(array_path)
    .unwrap();
    array.store_metadata(&mut store).unwrap();

    let metadata = Array::new(&store, array_path).unwrap().metadata_to_string();
    assert_eq!(metadata, array.metadata_to_string());
}

#[test]
fn array_set_shape_and_attributes() {
    let array_path = "/group/array";
    let grid = ChunkGrid::Regular(RegularChunkGrid::new(vec![4, 4]).unwrap());
    let mut array = ArrayBuilder::new(
        vec![8, 8],
        DataType::Float32,
        grid,
        FillValue::new(0x7FC00000u32.to_le_bytes().to_vec()),
    )
    .build(array_path)
    .unwrap();

    array.set_shape(vec![16, 16]);
    array.attributes_mut(vec![(
        "test".to_string(),
        JsonValue::Str("apple".to_string()),
    )]);

    assert_eq!(array.shape(), &[16, 16]);
    match &array.attributes()[0] {
        (name, JsonValue::Str(value)) => {
            assert_eq!(name, "test");
            assert_eq!(value, "apple");
        }
        _ => panic!(),
    }
}

#[test]
fn array_subset_round_trip() {
    let mut store = MemoryStore::new();
    let array_path = "/array";
    let grid = ChunkGrid::Regular(RegularChunkGrid::new(vec![4, 4]).unwrap());
    let array = ArrayBuilder::new(
        vec![8, 8],
        DataType::Float32,
        grid,
        FillValue::new(1f32.to_ne_bytes().to_vec()),
    )
    .build(array_path)
    .unwrap();

    array
        .store_array_subset(
            &mut store,
            &ArraySubset::new_with_ranges(&[(3, 6), (3, 6)]),
            f32_bytes(&[1.0, 0.2, 0.3, 0.4, 0.5, 0.6, 0.7, 0.8, 0.9]),
        )
        .unwrap();

    let subset_all = ArraySubset::new_with_ranges(&[(0, 8), (0, 8)]);
    let data_all = bytes_f32(&array.retrieve_array_subset(&store, &subset_all).unwrap());
    assert_eq!(
        data_all,
        vec![
            1.0, 1.0, 1.0, 1.0, 1.0, 1.0, 1.0, 1.0, //
            1.0, 1.0, 1.0, 1.0, 1.0, 1.0, 1.0, 1.0, //
            1.0, 1.0, 1.0, 1.0, 1.0, 1.0, 1.0, 1.0, //
            1.0, 1.0, 1.0, 1.0, 0.2, 0.3, 1.0, 1.0, //
            1.0, 1.0, 1.0, 0.4, 0.5, 0.6, 1.0, 1.0, //
            1.0, 1.0, 1.0, 0.7, 0.8, 0.9, 1.0, 1.0, //
            1.0, 1.0, 1.0, 1.0, 1.0, 1.0, 1.0, 1.0, //
            1.0, 1.0, 1.0, 1.0, 1.0, 1.0, 1.0, 1.0, //
        ]
    );
    assert!(array
        .retrieve_chunk_if_exists(&store, &[0; 2])
        .unwrap()
        .is_none());
}

#[test]
fn array_provenance_attribute_knob() {
    // serialised metadata carries the _zarrs provenance attribute exactly
    // when the knob is on (the default)
    let mut array = float_array();
    assert!(array.metadata_to_string().contains("_zarrs"));
    array.set_include_zarrs_metadata(false);
    assert!(!array.metadata_to_string().contains("_zarrs"));
    array.set_include_zarrs_metadata(true);
    assert!(array.metadata_to_string().contains("_zarrs"));
}

#[test]
fn array_provenance_attribute_round_trip() {
    // written metadata with the provenance attribute reopens and rewrites
    // to the same document
    let mut store = MemoryStore::new();
    let array = float_array();
    array.store_metadata(&mut store).unwrap();
    let read = Array::new(&store, "/array").unwrap();
    assert!(read
        .attributes()
        .iter()
        .any(|(k, _)| k == "_zarrs"));
    assert_eq!(read.metadata_to_string(), array.metadata_to_string());
}

#[test]
fn array_element_size_validation() {
    assert!(zarrs::array::validate_element_size::<f32>(&DataType::Float32).is_ok());
    assert!(matches!(
        zarrs::array::validate_element_size::<u8>(&DataType::Float32),
        Err(zarrs::array::ArrayError::IncompatibleElementSize(4, 1))
    ));
}

#[test]
fn array_store_chunks_single_chunk_equals_store_chunk() {
    // storing a one-chunk rectangle is byte-identical to storing the chunk
    let mut store_a = MemoryStore::new();
    let mut store_b = MemoryStore::new();
    let array = float_array();
    let values: Vec<f32> = (0..16).map(|i| i as f32 + 0.5).collect();
    let chunks = ArraySubset::new_with_ranges(&[(1, 2), (1, 2)]);
    array
        .store_chunks(&mut store_a, &chunks, f32_bytes(&values))
        .unwrap();
    array
        .store_chunk(&mut store_b, &[1, 1], f32_bytes(&values))
        .unwrap();
    let key = array.chunk_key(&[1, 1]);
    assert_eq!(store_a.get(&key).unwrap(), store_b.get(&key).unwrap());
}

#[test]
fn array_fill_value_metadata_forms() {
    // signed-integer and non-finite fill-value forms open
    let doc = r#"{"zarr_format":3,"node_type":"array","shape":[4],
        "data_type":"int8",
        "chunk_grid":{"name":"regular","configuration":{"chunk_shape":[2]}},
        "chunk_key_encoding":{"name":"default","configuration":{"separator":"/"}},
        "fill_value":-1,
        "codecs":[{"name":"bytes","configuration":{"endian":"little"}}]}"#;
    let v = zarrs::json::parse_json(doc).unwrap();
    let array = Array::new_with_metadata("/a", v).unwrap();
    assert_eq!(array.fill_value().as_slice(), &[0xFF]);

    let doc32 = doc.replace("int8", "float32").replace("-1,", "\"NaN\",");
    let v = zarrs::json::parse_json(&doc32).unwrap();
    let array = Array::new_with_metadata("/a", v).unwrap();
    assert_eq!(array.fill_value().as_slice(), &[0x00, 0x00, 0xC0, 0x7F]);

    let doc64 = doc32
        .replace("\"NaN\"", "\"-Infinity\"")
        .replace("float32", "float64");
    let v = zarrs::json::parse_json(&doc64).unwrap();
    let array = Array::new_with_metadata("/a", v).unwrap();
    assert_eq!(
        array.fill_value().as_slice(),
        &[0, 0, 0, 0, 0, 0, 0xF0, 0xFF]
    );

    let doc16 = doc.replace("int8", "int16").replace("-1,", "-32768,");
    let v = zarrs::json::parse_json(&doc16).unwrap();
    let array = Array::new_with_metadata("/a", v).unwrap();
    assert_eq!(array.fill_value().as_slice(), &[0x00, 0x80]);

    // out of range for the type: rejected
    let bad = doc.replace("-1,", "-129,");
    let v = zarrs::json::parse_json(&bad).unwrap();
    assert!(matches!(
        Array::new_with_metadata("/a", v),
        Err(zarrs::array::ArrayCreateError::InvalidFillValueMetadata)
    ));
}
