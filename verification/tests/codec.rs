//! Codec chain tests.

use zarrs::array_representation::ChunkRepresentation;
use zarrs::byte_range::{extract_byte_ranges, ByteRange};
use zarrs::array_subset::ArraySubset;
use zarrs::codec::codec_chain::CodecChain;
use zarrs::codec::{
    ArrayToBytesCodec, BytesCodec, BytesPartialDecoder, BytesToBytesCodec, CodecOptions,
    ZstdCodec,
};
use zarrs::data_type::DataType;
use zarrs::fill_value::FillValue;
use zarrs::json::parse_json;
use zarrs::metadata::Metadata;
use zarrs::storage::store::MemoryStore;

fn f32_bytes(values: &[f32]) -> Vec<u8> {
    let mut out = Vec::new();
    for v in values {
        out.extend_from_slice(&v.to_ne_bytes());
    }
    out
}

fn bytes_f32(bytes: &[u8]) -> Vec<f32> {
    bytes
        .chunks(4)
        .map(|b| f32::from_ne_bytes([b[0], b[1], b[2], b[3]]))
        .collect()
}

fn chunk_representation() -> ChunkRepresentation {
    ChunkRepresentation::new(
        vec![2, 2, 2],
        DataType::Float32,
        FillValue::new(0.0f32.to_ne_bytes().to_vec()),
    )
    .unwrap()
}

fn codec_metadata_from_str(text: &str) -> Metadata {
    let v = parse_json(text).unwrap();
    let name = match v.get_field("name").unwrap() {
        zarrs::json::JsonValue::Str(s) => s.clone(),
        _ => panic!(),
    };
    let configuration = match v.get_field("configuration") {
        Some(zarrs::json::JsonValue::Object(entries)) => entries
            .iter()
            .map(|(k, v)| (k.clone(), parse_json(&zarrs::json::value_to_string(v)).unwrap()))
            .collect(),
        _ => Vec::new(),
    };
    Metadata {
        name,
        configuration,
    }
}

const JSON_BYTES: &str = r#"{
    "name": "bytes",
    "configuration": {
        "endian": "big"
    }
}"#;

fn codec_chain_round_trip_impl(
    chunk_representation: ChunkRepresentation,
    elements: Vec<f32>,
    json_array_to_bytes: &str,
    decoded_regions: &[ArraySubset],
    decoded_partial_chunk_true: Vec<f32>,
) {
    let bytes = f32_bytes(&elements);

    let codec_configurations: Vec<Metadata> =
        vec![codec_metadata_from_str(json_array_to_bytes)];
    let not_just_bytes = codec_configurations.len() > 1;
    let codec = CodecChain::from_metadata(&codec_configurations).unwrap();

    let encoded = codec
        .encode(
            bytes.clone(),
            &chunk_representation,
            &CodecOptions::new(),
        )
        .unwrap();
    let decoded = codec
        .decode(
            encoded.clone(),
            &chunk_representation,
            &CodecOptions::new(),
        )
        .unwrap();
    if not_just_bytes {
        assert_ne!(encoded, decoded);
    }
    assert_eq!(bytes, decoded);

    let input_handle: BytesPartialDecoder<MemoryStore> = BytesPartialDecoder::Cursor(encoded);
    let partial_decoder = codec
        .partial_decoder(
            input_handle,
            &chunk_representation,
            &CodecOptions::new(),
        )
        .unwrap();
    let decoded_partial_chunk = partial_decoder
        .partial_decode_opt(decoded_regions, &CodecOptions::new())
        .unwrap();

    let decoded_partial_chunk: Vec<f32> = decoded_partial_chunk
        .into_iter()
        .flatten()
        .collect::<Vec<_>>()
        .chunks(std::mem::size_of::<f32>())
        .map(|b| f32::from_ne_bytes(b.try_into().unwrap()))
        .collect();
    assert_eq!(decoded_partial_chunk_true, decoded_partial_chunk);
}

#[test]
fn codec_chain_round_trip_bytes() {
    let chunk_representation = chunk_representation();
    let elements: Vec<f32> = (0..8).map(|i| i as f32).collect();
    let decoded_regions = [ArraySubset::new_with_ranges(&[(0, 2), (1, 2), (0, 1)])];
    let decoded_partial_chunk_true = vec![2.0, 6.0];
    codec_chain_round_trip_impl(
        chunk_representation,
        elements,
        JSON_BYTES,
        &decoded_regions,
        decoded_partial_chunk_true,
    );
}

#[test]
fn codec_chain_round_trip_with_zstd() {
    // a chain with compression: the stored form differs from the data, and
    // the round trip is exact
    let rep = chunk_representation();
    let chain = CodecChain::new(
        ArrayToBytesCodec::Bytes(BytesCodec::new(true)),
        vec![BytesToBytesCodec::Zstd(ZstdCodec::new(5, true))],
    );
    let elements: Vec<f32> = (0..8).map(|i| (i % 3) as f32).collect();
    let bytes = f32_bytes(&elements);
    let encoded = chain
        .encode(bytes.clone(), &rep, &CodecOptions::new())
        .unwrap();
    assert_ne!(encoded, bytes);
    let decoded = chain
        .decode(encoded, &rep, &CodecOptions::new())
        .unwrap();
    assert_eq!(decoded, bytes);
}

#[test]
fn codec_chain_partial_decode_with_zstd() {
    // partial decode through a compressed chain equals the slab of the
    // fully decoded chunk
    let rep = chunk_representation();
    let chain = CodecChain::new(
        ArrayToBytesCodec::Bytes(BytesCodec::new(true)),
        vec![BytesToBytesCodec::Zstd(ZstdCodec::new(1, false))],
    );
    let elements: Vec<f32> = (0..8).map(|i| i as f32).collect();
    let encoded = chain
        .encode(f32_bytes(&elements), &rep, &CodecOptions::new())
        .unwrap();
    let input: BytesPartialDecoder<MemoryStore> = BytesPartialDecoder::Cursor(encoded);
    let decoder = chain
        .partial_decoder(input, &rep, &CodecOptions::new())
        .unwrap();
    let regions = [ArraySubset::new_with_ranges(&[(0, 2), (1, 2), (0, 1)])];
    let out = decoder.partial_decode(&regions).unwrap();
    assert_eq!(bytes_f32(&out[0]), vec![2.0, 6.0]);
}

#[test]
fn bytes_codec_big_endian_swaps() {
    // the bytes codec with big-endian order must not hand its input back
    // unchanged
    let rep = ChunkRepresentation::new(
        vec![2],
        DataType::UInt32,
        FillValue::new(vec![0, 0, 0, 0]),
    )
    .unwrap();
    let codec = BytesCodec::new(true);
    let data: Vec<u8> = vec![1, 2, 3, 4, 5, 6, 7, 8];
    let encoded = codec
        .encode(data.clone(), &rep, &CodecOptions::new())
        .unwrap();
    assert_eq!(encoded, vec![4, 3, 2, 1, 8, 7, 6, 5]);
    let decoded = codec
        .decode(encoded, &rep, &CodecOptions::new())
        .unwrap();
    assert_eq!(decoded, data);
}

#[test]
fn zstd_codec_compresses() {
    // the zstd wrapper must not hand its input back unchanged
    let codec = ZstdCodec::new(3, false);
    let data = vec![7u8; 1000];
    let encoded = codec.encode(data.clone(), &CodecOptions::new()).unwrap();
    assert_ne!(encoded, data);
    assert!(encoded.len() < data.len());
    let decoded = codec.decode(encoded, &CodecOptions::new()).unwrap();
    assert_eq!(decoded, data);
}

#[test]
fn codec_chain_rejects_bad_metadata() {
    // no array-to-bytes codec
    let err = CodecChain::from_metadata(&vec![]).unwrap_err();
    assert!(matches!(err, zarrs::metadata::PluginCreateError::Other(_)));
    // an unknown codec name
    let unknown = Metadata {
        name: "unknown".to_string(),
        configuration: Vec::new(),
    };
    let err = CodecChain::from_metadata(&vec![unknown]).unwrap_err();
    assert!(matches!(
        err,
        zarrs::metadata::PluginCreateError::Unsupported { .. }
    ));
}

#[test]
fn test_extract_byte_ranges_read() {
    let data: Vec<u8> = (0..10).collect();
    let byte_ranges = vec![
        ByteRange::FromStart(3, Some(3)),
        ByteRange::FromStart(4, Some(1)),
        ByteRange::FromStart(1, Some(1)),
        ByteRange::FromEnd(1, Some(5)),
    ];
    let out = extract_byte_ranges(&data, &byte_ranges).unwrap();
    assert_eq!(
        out,
        vec![vec![3, 4, 5], vec![4], vec![1], vec![4, 5, 6, 7, 8]]
    );
}

#[test]
fn codec_chain_encoded_size_bounds_output() {
    // the computed size representation bounds what encode produces
    let rep = chunk_representation();
    let plain = CodecChain::new(
        ArrayToBytesCodec::Bytes(BytesCodec::new(false)),
        Vec::new(),
    );
    let data = f32_bytes(&(0..8).map(|i| i as f32).collect::<Vec<_>>());
    match plain.compute_encoded_size(&rep) {
        zarrs::array_representation::BytesRepresentation::FixedSize(n) => {
            let out = plain
                .encode(data.clone(), &rep, &CodecOptions::new())
                .unwrap();
            assert_eq!(out.len() as u64, n);
        },
        _ => panic!(),
    }
    let compressed = CodecChain::new(
        ArrayToBytesCodec::Bytes(BytesCodec::new(false)),
        vec![BytesToBytesCodec::Zstd(ZstdCodec::new(9, true))],
    );
    match compressed.compute_encoded_size(&rep) {
        zarrs::array_representation::BytesRepresentation::BoundedSize(n) => {
            let out = compressed
                .encode(data, &rep, &CodecOptions::new())
                .unwrap();
            assert!(out.len() as u64 <= n);
        },
        _ => panic!(),
    }
}

#[test]
fn codec_chain_metadata_round_trip() {
    // from_metadata of create_metadatas yields an equivalent chain
    let chain = CodecChain::new(
        ArrayToBytesCodec::Bytes(BytesCodec::new(true)),
        vec![BytesToBytesCodec::Zstd(ZstdCodec::new(7, true))],
    );
    let metadatas = chain.create_metadatas();
    let rebuilt = CodecChain::from_metadata(&metadatas).unwrap();
    match rebuilt.array_to_bytes_codec() {
        ArrayToBytesCodec::Bytes(b) => assert!(b.big_endian),
    }
    match rebuilt.bytes_to_bytes_codecs()[0] {
        BytesToBytesCodec::Zstd(z) => {
            assert_eq!(z.compression, 7);
            assert!(z.checksum);
        },
    }
}

#[test]
fn codec_chain_accepts_full_level_range() {
    // zstd levels round-trip through metadata across the whole i32 range
    let chain = CodecChain::new(
        ArrayToBytesCodec::Bytes(BytesCodec::new(false)),
        vec![BytesToBytesCodec::Zstd(ZstdCodec::new(-5, false))],
    );
    let rebuilt = CodecChain::from_metadata(&chain.create_metadatas()).unwrap();
    match rebuilt.bytes_to_bytes_codecs()[0] {
        BytesToBytesCodec::Zstd(z) => {
            assert_eq!(z.compression, -5);
            assert!(!z.checksum);
        },
    }
}
