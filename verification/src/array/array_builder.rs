//! Building arrays in memory, and array metadata.

use vstd::prelude::*;
use vstd::string::StringExecFns;

use crate::array::{Array, ArrayCreateError};
use crate::chunk_grid::ChunkGrid;
use crate::chunk_key_encoding::ChunkKeyEncoding;
use crate::codec::codec_chain::CodecChain;
use crate::codec::{codec_matches_metadata, ArrayToBytesCodec, BytesCodec, BytesToBytesCodec};
use crate::data_type::DataType;
use crate::fill_value::FillValue;
use crate::json::{parse_json, value_to_string, value_wf, JsonValue};
use crate::metadata::{AdditionalFields, Metadata, PluginCreateError};
use crate::node::{node_path_valid, NodePath};
use crate::storage::{meta_key, ReadableStorageTraits};

verus! {

/// A structural copy of a JSON value; well-formedness is preserved.
pub fn clone_json(v: &JsonValue) -> (r: JsonValue)
    ensures
        value_wf(*v) ==> value_wf(r),
        crate::json::json_text(*v) == crate::json::json_text(r),
    decreases *v,
{
    match v {
        JsonValue::Null => JsonValue::Null,
        JsonValue::Bool(b) => JsonValue::Bool(*b),
        JsonValue::UInt(n) => JsonValue::UInt(*n),
        JsonValue::Int(i) => JsonValue::Int(*i),
        JsonValue::NumLex(s) => JsonValue::NumLex(s.clone()),
        JsonValue::Str(s) => JsonValue::Str(s.clone()),
        JsonValue::Array(elems) => {
            let mut out: Vec<JsonValue> = Vec::new();
            let mut i: usize = 0;
            proof {
                assert(decreases_to!(*v => v->Array_0));
                assert(v->Array_0 == *elems);
            }
            while i < elems.len()
                invariant
                    0 <= i <= elems@.len(),
                    decreases_to!(*v => *elems),
                    value_wf(*v) ==> forall|j: int|
                        0 <= j < elems@.len() ==> value_wf(#[trigger] elems@[j]),
                    out@.len() == i,
                    value_wf(*v) ==> forall|j: int|
                        0 <= j < i ==> value_wf(#[trigger] out@[j]),
                    forall|j: int|
                        0 <= j < i ==> crate::json::json_text(#[trigger] out@[j])
                            == crate::json::json_text(elems@[j]),
                decreases elems@.len() - i,
            {
                proof {
                    assert(decreases_to!(*elems => elems@[i as int]));
                }
                out.push(clone_json(&elems[i]));
                i = i + 1;
            }
            proof {
                lemma_array_text_congruent(out@, elems@);
            }
            JsonValue::Array(out)
        },
        JsonValue::Object(entries) => {
            let mut out: Vec<(String, JsonValue)> = Vec::new();
            let mut i: usize = 0;
            proof {
                assert(decreases_to!(*v => v->Object_0));
                assert(v->Object_0 == *entries);
            }
            while i < entries.len()
                invariant
                    0 <= i <= entries@.len(),
                    decreases_to!(*v => *entries),
                    value_wf(*v) ==> forall|j: int|
                        0 <= j < entries@.len() ==> value_wf((#[trigger] entries@[j]).1),
                    out@.len() == i,
                    value_wf(*v) ==> forall|j: int|
                        0 <= j < i ==> value_wf((#[trigger] out@[j]).1),
                    forall|j: int|
                        0 <= j < i ==> (#[trigger] out@[j]).0@ == entries@[j].0@
                            && crate::json::json_text(out@[j].1) == crate::json::json_text(
                            entries@[j].1,
                        ),
                decreases entries@.len() - i,
            {
                proof {
                    assert(decreases_to!(*entries => entries@[i as int]));
                    assert(decreases_to!(entries@[i as int] => entries@[i as int].1));
                }
                let key = entries[i].0.clone();
                let val = clone_json(&entries[i].1);
                out.push((key, val));
                i = i + 1;
            }
            proof {
                lemma_object_text_congruent(out@, entries@);
            }
            JsonValue::Object(out)
        },
    }
}

/// Equal element texts give an equal array text.
proof fn lemma_array_text_congruent(a: Seq<JsonValue>, b: Seq<JsonValue>)
    requires
        a.len() == b.len(),
        forall|j: int|
            0 <= j < a.len() ==> crate::json::json_text(#[trigger] a[j]) == crate::json::json_text(
                b[j],
            ),
    ensures
        crate::json::array_text(a) == crate::json::array_text(b),
    decreases a.len(),
{
    if a.len() == 0 {
    } else if a.len() == 1 {
    } else {
        assert(forall|j: int|
            0 <= j < a.skip(1).len() ==> crate::json::json_text(#[trigger] a.skip(1)[j])
                == crate::json::json_text(b.skip(1)[j]));
        lemma_array_text_congruent(a.skip(1), b.skip(1));
    }
}

/// Equal entry names and texts give an equal object text.
proof fn lemma_object_text_congruent(a: Seq<(String, JsonValue)>, b: Seq<(String, JsonValue)>)
    requires
        a.len() == b.len(),
        forall|j: int|
            0 <= j < a.len() ==> (#[trigger] a[j]).0@ == b[j].0@ && crate::json::json_text(a[j].1)
                == crate::json::json_text(b[j].1),
    ensures
        crate::json::object_text(a) == crate::json::object_text(b),
    decreases a.len(),
{
    if a.len() == 0 {
    } else if a.len() == 1 {
    } else {
        assert(forall|j: int|
            0 <= j < a.skip(1).len() ==> (#[trigger] a.skip(1)[j]).0@ == b.skip(1)[j].0@
                && crate::json::json_text(a.skip(1)[j].1) == crate::json::json_text(
                b.skip(1)[j].1,
            ));
        lemma_object_text_congruent(a.skip(1), b.skip(1));
    }
}

/// The hexadecimal text of fill value bytes: `0x`, then two digits per
/// byte, first byte first.
pub open spec fn fill_value_hex_text(bytes: Seq<u8>) -> Seq<char>
    decreases bytes.len(),
{
    if bytes.len() == 0 {
        "0x"@
    } else {
        fill_value_hex_text(bytes.drop_last()).push(
            crate::json::hex_char((bytes.last() / 16) as nat),
        ).push(crate::json::hex_char((bytes.last() % 16) as nat))
    }
}

/// The hexadecimal text of fill value bytes, first byte first, after `0x`.
fn fill_value_to_hex(bytes: &[u8]) -> (r: String)
    ensures
        r@.len() == 2 + 2 * bytes@.len(),
        r@ == fill_value_hex_text(bytes@),
{
    let mut s = String::new();
    s.append("0x");
    let mut i: usize = 0;
    proof {
        reveal_strlit("0x");
        assert(bytes@.take(0) =~= Seq::<u8>::empty());
    }
    while i < bytes.len()
        invariant
            0 <= i <= bytes@.len(),
            s@.len() == 2 + 2 * i,
            s@ == fill_value_hex_text(bytes@.take(i as int)),
        decreases bytes@.len() - i,
    {
        let b = bytes[i];
        crate::json::push_hex_byte(&mut s, b);
        proof {
            assert(bytes@.take(i + 1).drop_last() =~= bytes@.take(i as int));
            assert(bytes@.take(i + 1).last() == bytes@[i as int]);
        }
        i = i + 1;
    }
    proof {
        assert(bytes@.take(bytes@.len() as int) =~= bytes@);
    }
    s
}

/// The fill value bytes of hexadecimal text after `0x`, first byte first.
fn fill_value_from_hex(text: &str, expected_len: usize) -> (r: Option<Vec<u8>>)
    ensures
        r matches Some(v) ==> v@.len() == expected_len,
{
    let cs = crate::json::str_to_chars(text);
    if cs.len() < 2 {
        return None;
    }
    if cs[0] != '0' || cs[1] != 'x' {
        return None;
    }
    if (cs.len() - 2) / 2 != expected_len || cs.len() % 2 != 0 {
        return None;
    }
    let mut out: Vec<u8> = Vec::new();
    let mut i: usize = 2;
    while i + 1 < cs.len()
        invariant
            2 <= i <= cs@.len() + 1,
            i % 2 == 0,
            cs@.len() == 2 + 2 * expected_len,
            out@.len() * 2 == i - 2,
        decreases cs@.len() - i,
    {
        let hi = match crate::json::hex_digit_value(cs[i]) {
            Some(d) => d,
            None => {
                return None;
            },
        };
        let lo = match crate::json::hex_digit_value(cs[i + 1]) {
            Some(d) => d,
            None => {
                return None;
            },
        };
        out.push((hi * 16 + lo) as u8);
        i = i + 2;
    }
    if out.len() == expected_len {
        Some(out)
    } else {
        None
    }
}

/// An [`Array`] builder: an array shape, data type, chunk grid and fill
/// value, with optional codecs, attributes and dimension names.
pub struct ArrayBuilder {
    /// The array shape.
    pub shape: Vec<u64>,
    /// The data type.
    pub data_type: DataType,
    /// The chunk grid.
    pub chunk_grid: ChunkGrid,
    /// The chunk key encoding.
    pub chunk_key_encoding: ChunkKeyEncoding,
    /// The fill value.
    pub fill_value: FillValue,
    /// The array-to-bytes codec.
    pub array_to_bytes_codec: ArrayToBytesCodec,
    /// The bytes-to-bytes codecs.
    pub bytes_to_bytes_codecs: Vec<BytesToBytesCodec>,
    /// The attributes.
    pub attributes: Vec<(String, JsonValue)>,
    /// The dimension names.
    pub dimension_names: Option<Vec<String>>,
    /// The additional fields.
    pub additional_fields: AdditionalFields,
}

impl ArrayBuilder {
    /// Create a new array builder.
    ///
    /// The only codec enabled by default is `bytes`; the default chunk key
    /// encoding is `default` with the `/` separator; attributes and
    /// dimension names are empty.
    pub fn new(
        shape: Vec<u64>,
        data_type: DataType,
        chunk_grid: ChunkGrid,
        fill_value: FillValue,
    ) -> (r: Self)
        ensures
            r.shape@ == shape@,
            r.data_type == data_type,
            r.chunk_grid == chunk_grid,
            r.fill_value == fill_value,
            r.bytes_to_bytes_codecs@.len() == 0,
            r.attributes@.len() == 0,
            r.additional_fields.fields@.len() == 0,
            r.dimension_names is None,
            r.array_to_bytes_codec == ArrayToBytesCodec::Bytes(BytesCodec { big_endian: false }),
    {
        ArrayBuilder {
            shape,
            data_type,
            chunk_grid,
            chunk_key_encoding: ChunkKeyEncoding::new_default(),
            fill_value,
            array_to_bytes_codec: ArrayToBytesCodec::Bytes(BytesCodec::new(false)),
            bytes_to_bytes_codecs: Vec::new(),
            attributes: Vec::new(),
            dimension_names: None,
            additional_fields: AdditionalFields::new(),
        }
    }

    /// Set the array-to-bytes codec.
    pub fn array_to_bytes_codec(&mut self, codec: ArrayToBytesCodec)
        ensures
            final(self).array_to_bytes_codec == codec,
            final(self).shape == old(self).shape,
            final(self).data_type == old(self).data_type,
            final(self).chunk_grid == old(self).chunk_grid,
            final(self).fill_value == old(self).fill_value,
            final(self).bytes_to_bytes_codecs == old(self).bytes_to_bytes_codecs,
            final(self).attributes == old(self).attributes,
            final(self).dimension_names == old(self).dimension_names,
            final(self).additional_fields == old(self).additional_fields,
            final(self).chunk_key_encoding == old(self).chunk_key_encoding,
    {
        self.array_to_bytes_codec = codec;
    }

    /// Set the bytes-to-bytes codecs.
    pub fn bytes_to_bytes_codecs(&mut self, codecs: Vec<BytesToBytesCodec>)
        ensures
            final(self).bytes_to_bytes_codecs == codecs,
            final(self).shape == old(self).shape,
            final(self).data_type == old(self).data_type,
            final(self).chunk_grid == old(self).chunk_grid,
            final(self).fill_value == old(self).fill_value,
            final(self).array_to_bytes_codec == old(self).array_to_bytes_codec,
            final(self).attributes == old(self).attributes,
            final(self).dimension_names == old(self).dimension_names,
            final(self).additional_fields == old(self).additional_fields,
            final(self).chunk_key_encoding == old(self).chunk_key_encoding,
    {
        self.bytes_to_bytes_codecs = codecs;
    }

    /// Set the attributes.
    pub fn attributes(&mut self, attributes: Vec<(String, JsonValue)>)
        ensures
            final(self).attributes == attributes,
            final(self).shape == old(self).shape,
    {
        self.attributes = attributes;
    }

    /// Set the dimension names.
    pub fn dimension_names(&mut self, dimension_names: Vec<String>)
        ensures
            final(self).dimension_names == Some(dimension_names),
            final(self).shape == old(self).shape,
    {
        self.dimension_names = Some(dimension_names);
    }

    /// Build an [`Array`] at `path`.
    ///
    /// Fails when the path is invalid, the grid's dimensionality differs
    /// from the shape's, the fill value size differs from the data type's,
    /// or the dimension name count differs from the dimensionality.
    pub fn build(self, path: &str) -> (r: Result<Array, ArrayCreateError>)
        requires
            self.chunk_grid.wf(),
            self.bytes_to_bytes_codecs@.len() < usize::MAX - 1,
            forall|i: int|
                0 <= i < self.attributes@.len() ==> value_wf((#[trigger] self.attributes@[i]).1),
            crate::metadata::additional_fields_wf(self.additional_fields),
        ensures
            r matches Ok(a) ==> {
                &&& a.wf()
                &&& a.spec_path() == path@
                &&& a.spec_shape() == self.shape@
                &&& a.spec_data_type() == self.data_type
                &&& a.spec_chunk_grid() == self.chunk_grid
                &&& a.spec_chunk_key_encoding() == self.chunk_key_encoding
                &&& a.spec_fill_value() == self.fill_value
                &&& a.spec_codecs().spec_array_to_bytes() == self.array_to_bytes_codec
                &&& a.spec_codecs().spec_bytes_to_bytes() == self.bytes_to_bytes_codecs@
                &&& a.spec_attributes() == self.attributes@
                &&& a.spec_dimension_names() == self.dimension_names
                &&& a.spec_additional_fields() == self.additional_fields
                &&& a.spec_include_zarrs_metadata() == true
            },
            r is Ok <==> node_path_valid(path@) && self.chunk_grid.spec_axes().len()
                == self.shape@.len() && self.fill_value.spec_bytes().len()
                == self.data_type.spec_size() && (self.dimension_names matches Some(names)
                ==> names@.len() == self.shape@.len()),
            r matches Err(e) ==> match e {
                ArrayCreateError::NodePathError(_) => !node_path_valid(path@),
                ArrayCreateError::InvalidChunkGridDimensionality(g, s) => node_path_valid(path@)
                    && g == self.chunk_grid.spec_axes().len() && s == self.shape@.len() && g
                    != s,
                ArrayCreateError::InvalidFillValueMetadata => node_path_valid(path@)
                    && self.chunk_grid.spec_axes().len() == self.shape@.len()
                    && self.fill_value.spec_bytes().len() != self.data_type.spec_size(),
                ArrayCreateError::InvalidDimensionNames(g, s) => node_path_valid(path@)
                    && self.chunk_grid.spec_axes().len() == self.shape@.len()
                    && self.fill_value.spec_bytes().len() == self.data_type.spec_size() && (
                self.dimension_names matches Some(names) && g == names@.len() && s
                    == self.shape@.len() && g != s),
                _ => false,
            },
    {
        let node_path = match NodePath::new(path) {
            Ok(p) => p,
            Err(e) => {
                return Err(ArrayCreateError::NodePathError(e));
            },
        };
        if self.chunk_grid.dimensionality() != self.shape.len() {
            return Err(
                ArrayCreateError::InvalidChunkGridDimensionality(
                    self.chunk_grid.dimensionality(),
                    self.shape.len(),
                ),
            );
        }
        if self.fill_value.size() != self.data_type.size() {
            return Err(ArrayCreateError::InvalidFillValueMetadata);
        }
        match &self.dimension_names {
            Some(names) => {
                if names.len() != self.shape.len() {
                    return Err(
                        ArrayCreateError::InvalidDimensionNames(names.len(), self.shape.len()),
                    );
                }
            },
            None => {},
        }
        let codecs = CodecChain::new(self.array_to_bytes_codec, self.bytes_to_bytes_codecs);
        Ok(
            Array {
                path: node_path,
                shape: self.shape,
                data_type: self.data_type,
                chunk_grid: self.chunk_grid,
                chunk_key_encoding: self.chunk_key_encoding,
                fill_value: self.fill_value,
                codecs,
                attributes: self.attributes,
                dimension_names: self.dimension_names,
                additional_fields: self.additional_fields,
                include_zarrs_metadata: true,
            },
        )
    }
}


/// The provenance note written under the `_zarrs` attribute.
pub open spec fn zarrs_provenance_text() -> Seq<char> {
    "This array was created with zarrs"@
}

/// The provenance value written under the `_zarrs` attribute.
fn zarrs_provenance_value() -> (r: JsonValue)
    ensures
        value_wf(r),
        r matches JsonValue::Str(s) && s@ == zarrs_provenance_text(),
{
    JsonValue::Str(<String as StringExecFns>::from_str("This array was created with zarrs"))
}

/// Whether `v` is the metadata value of one chunk grid dimension: its fixed
/// extent, or the list of its varying extents.
pub open spec fn grid_dimension_value_matches(
    d: crate::chunk_grid::rectangular::RectangularChunkGridDimension,
    v: JsonValue,
) -> bool {
    match d {
        crate::chunk_grid::rectangular::RectangularChunkGridDimension::Fixed(sz) => v
            == JsonValue::UInt(sz),
        crate::chunk_grid::rectangular::RectangularChunkGridDimension::Varying(table) => v matches JsonValue::Array(
            sizes,
        ) && sizes@.len() == table@.len() && (forall|j: int|
            0 <= j < sizes@.len() ==> #[trigger] sizes@[j] == JsonValue::UInt(table@[j].size)),
    }
}

/// Whether `v` is the plugin metadata value of the chunk grid `g`.
pub open spec fn grid_value_matches(g: ChunkGrid, v: JsonValue) -> bool {
    &&& v matches JsonValue::Object(es)
    &&& es@.len() == 2
    &&& es@[0].0@ == "name"@
    &&& es@[1].0@ == "configuration"@
    &&& match g {
        ChunkGrid::Regular(rg) => {
            &&& es@[0].1 matches JsonValue::Str(nm) && nm@ == "regular"@
            &&& es@[1].1 matches JsonValue::Object(cfg) && cfg@.len() == 1 && cfg@[0].0@
                == "chunk_shape"@ && (cfg@[0].1 matches JsonValue::Array(elems) && elems@.len()
                == rg.spec_chunk_shape().len() && (forall|i: int|
                0 <= i < elems@.len() ==> #[trigger] elems@[i] == JsonValue::UInt(
                    rg.spec_chunk_shape()[i],
                )))
        },
        ChunkGrid::Rectangular(rg) => {
            &&& es@[0].1 matches JsonValue::Str(nm) && nm@ == "rectangular"@
            &&& es@[1].1 matches JsonValue::Object(cfg) && cfg@.len() == 1 && cfg@[0].0@
                == "chunk_shape"@ && (cfg@[0].1 matches JsonValue::Array(dims) && dims@.len()
                == rg.spec_dimensions().len() && (forall|i: int|
                0 <= i < dims@.len() ==> grid_dimension_value_matches(
                    rg.spec_dimensions()[i],
                    #[trigger] dims@[i],
                )))
        },
    }
}

/// Whether `v` is the plugin metadata value of the chunk key encoding.
pub open spec fn cke_value_matches(cke: ChunkKeyEncoding, v: JsonValue) -> bool {
    &&& v matches JsonValue::Object(es)
    &&& es@.len() == 2
    &&& es@[0].0@ == "name"@
    &&& es@[0].1 matches JsonValue::Str(nm) && nm@ == (match cke {
        ChunkKeyEncoding::Default { .. } => "default"@,
        ChunkKeyEncoding::V2 { .. } => "v2"@,
    })
    &&& es@[1].0@ == "configuration"@
    &&& es@[1].1 matches JsonValue::Object(cfg) && cfg@.len() == 1 && cfg@[0].0@ == "separator"@
        && (cfg@[0].1 matches JsonValue::Str(sep) && sep@ == (match cke {
        ChunkKeyEncoding::Default { slash_separator } => if slash_separator {
            "/"@
        } else {
            "."@
        },
        ChunkKeyEncoding::V2 { slash_separator } => if slash_separator {
            "/"@
        } else {
            "."@
        },
    }))
}

/// Whether `v` is the metadata value of one codec: a plugin object whose
/// name and configuration the codec corresponds to.
pub open spec fn codec_value_matches(c: crate::codec::Codec, v: JsonValue) -> bool {
    v matches JsonValue::Object(es) && es@.len() == 2 && es@[0].0@ == "name"@ && es@[1].0@
        == "configuration"@ && (es@[0].1 matches JsonValue::Str(nm) && (
    es@[1].1 matches JsonValue::Object(cfg) && crate::codec::codec_matches_metadata(
        c,
        (Metadata { name: nm, configuration: cfg }),
    )))
}

/// Whether one written attribute entry corresponds to a source attribute:
/// the same name and the same rendered text, except that with provenance
/// enabled a `_zarrs` attribute is replaced by the provenance note.
pub open spec fn attr_entry_matches(
    provenance: bool,
    src: (String, JsonValue),
    dst: (String, JsonValue),
) -> bool {
    &&& dst.0@ == src.0@
    &&& if provenance && src.0@ == "_zarrs"@ {
        dst.1 matches JsonValue::Str(s) && s@ == zarrs_provenance_text()
    } else {
        crate::json::json_text(dst.1) == crate::json::json_text(src.1)
    }
}

/// Whether `v` is the metadata document of the array `a`: format version 3,
/// node type `array`, and the array's shape, data type, chunk grid, chunk
/// key encoding, fill value, codecs, attributes and dimension names, with
/// the `_zarrs` provenance attribute exactly when the array asks for one.
pub open spec fn array_metadata_value_matches(a: Array, v: JsonValue) -> bool {
    let provenance = a.spec_include_zarrs_metadata();
    let user_zarrs = exists|t: int|
        0 <= t < a.spec_attributes().len() && (#[trigger] a.spec_attributes()[t]).0@
            == "_zarrs"@;
    let has_attrs = a.spec_attributes().len() > 0 || provenance;
    let n = 8int + (if has_attrs {
        1int
    } else {
        0int
    }) + (if a.spec_dimension_names() is Some {
        1int
    } else {
        0int
    });
    &&& v matches JsonValue::Object(es)
    &&& es@.len() == n
    &&& es@[0].0@ == "zarr_format"@ && es@[0].1 == JsonValue::UInt(3)
    &&& es@[1].0@ == "node_type"@ && (es@[1].1 matches JsonValue::Str(nt) && nt@ == "array"@)
    &&& es@[2].0@ == "shape"@ && (es@[2].1 matches JsonValue::Array(sh) && sh@.len()
        == a.spec_shape().len() && (forall|i: int|
        0 <= i < sh@.len() ==> #[trigger] sh@[i] == JsonValue::UInt(a.spec_shape()[i])))
    &&& es@[3].0@ == "data_type"@ && (es@[3].1 matches JsonValue::Str(dt) && dt@
        == a.spec_data_type().spec_name())
    &&& es@[4].0@ == "chunk_grid"@ && grid_value_matches(a.spec_chunk_grid(), es@[4].1)
    &&& es@[5].0@ == "chunk_key_encoding"@ && cke_value_matches(
        a.spec_chunk_key_encoding(),
        es@[5].1,
    )
    &&& es@[6].0@ == "fill_value"@ && (es@[6].1 matches JsonValue::Str(fv) && fv@
        == fill_value_hex_text(a.spec_fill_value().spec_bytes()))
    &&& es@[7].0@ == "codecs"@ && (es@[7].1 matches JsonValue::Array(cv) && cv@.len() == 1
        + a.spec_codecs().spec_bytes_to_bytes().len() && codec_value_matches(
        crate::codec::Codec::ArrayToBytes(a.spec_codecs().spec_array_to_bytes()),
        cv@[0],
    ) && (forall|j: int|
        1 <= j < cv@.len() ==> codec_value_matches(
            crate::codec::Codec::BytesToBytes(a.spec_codecs().spec_bytes_to_bytes()[j - 1]),
            #[trigger] cv@[j],
        )))
    &&& has_attrs ==> (es@[8].0@ == "attributes"@ && (es@[8].1 matches JsonValue::Object(av)
        && av@.len() == a.spec_attributes().len() + (if provenance && !user_zarrs {
        1int
    } else {
        0int
    }) && (forall|t: int|
        0 <= t < a.spec_attributes().len() ==> attr_entry_matches(
            provenance,
            a.spec_attributes()[t],
            #[trigger] av@[t],
        )) && ((provenance && !user_zarrs) ==> av@[av@.len() - 1].0@ == "_zarrs"@ && (av@[av@.len()
        - 1].1 matches JsonValue::Str(zs) && zs@ == zarrs_provenance_text()))))
    &&& a.spec_dimension_names() matches Some(names) ==> ({
        let di = if has_attrs {
            9int
        } else {
            8int
        };
        es@[di].0@ == "dimension_names"@ && (es@[di].1 matches JsonValue::Array(nv)
            && nv@.len() == names@.len() && (forall|i: int|
            0 <= i < nv@.len() ==> ((#[trigger] nv@[i]) matches JsonValue::Str(s) && s@
                == names@[i]@)))
    })
}

impl Array {
    /// The JSON text of the array's metadata document.
    ///
    /// The document holds the format version, node type, shape, data type,
    /// chunk grid, chunk key encoding, fill value (as a hexadecimal byte
    /// string), codecs, attributes and dimension names.
    pub fn metadata_to_string(&self) -> (r: String)
        requires
            self.wf(),
        ensures
            exists|v: JsonValue|
                #[trigger] array_metadata_value_matches(*self, v) && r@ == crate::json::json_text(
                    v,
                ),
    {
        let v = self.metadata_to_value();
        value_to_string(&v)
    }

    /// The array's metadata document.
    pub fn metadata_to_value(&self) -> (r: JsonValue)
        requires
            self.wf(),
        ensures
            value_wf(r),
            array_metadata_value_matches(*self, r),
    {
        let mut entries: Vec<(String, JsonValue)> = Vec::new();
        entries.push((<String as StringExecFns>::from_str("zarr_format"), JsonValue::UInt(3)));
        entries.push(
            (
                <String as StringExecFns>::from_str("node_type"),
                JsonValue::Str(<String as StringExecFns>::from_str("array")),
            ),
        );
        entries.push((<String as StringExecFns>::from_str("shape"), u64_array(self.shape())));
        entries.push(
            (
                <String as StringExecFns>::from_str("data_type"),
                JsonValue::Str(<String as StringExecFns>::from_str(self.data_type().name())),
            ),
        );
        let grid_value = match self.chunk_grid() {
            ChunkGrid::Regular(g) => {
                let mut config: Vec<(String, JsonValue)> = Vec::new();
                config.push(
                    (<String as StringExecFns>::from_str("chunk_shape"), u64_array(
                        g.chunk_shape(),
                    )),
                );
                plugin_object("regular", config)
            },
            ChunkGrid::Rectangular(g) => {
                let dims = g.dimensions();
                let mut shapes: Vec<JsonValue> = Vec::new();
                let mut i: usize = 0;
                while i < dims.len()
                    invariant
                        0 <= i <= dims@.len(),
                        dims@ == g.spec_dimensions(),
                        shapes@.len() == i,
                        forall|j: int| 0 <= j < shapes@.len() ==> value_wf(#[trigger] shapes@[j]),
                        forall|j: int|
                            0 <= j < shapes@.len() ==> grid_dimension_value_matches(
                                dims@[j],
                                #[trigger] shapes@[j],
                            ),
                    decreases dims@.len() - i,
                {
                    match &dims[i] {
                        crate::chunk_grid::rectangular::RectangularChunkGridDimension::Fixed(
                            sz,
                        ) => {
                            shapes.push(JsonValue::UInt(*sz));
                        },
                        crate::chunk_grid::rectangular::RectangularChunkGridDimension::Varying(
                            table,
                        ) => {
                            let mut sizes: Vec<JsonValue> = Vec::new();
                            let mut j: usize = 0;
                            while j < table.len()
                                invariant
                                    0 <= j <= table@.len(),
                                    sizes@.len() == j,
                                    forall|t: int|
                                        0 <= t < sizes@.len() ==> value_wf(
                                            #[trigger] sizes@[t],
                                        ),
                                    forall|t: int|
                                        0 <= t < sizes@.len() ==> #[trigger] sizes@[t]
                                            == JsonValue::UInt(table@[t].size),
                                decreases table@.len() - j,
                            {
                                sizes.push(JsonValue::UInt(table[j].size));
                                j = j + 1;
                            }
                            shapes.push(JsonValue::Array(sizes));
                        },
                    }
                    i = i + 1;
                }
                let mut config: Vec<(String, JsonValue)> = Vec::new();
                config.push(
                    (
                        <String as StringExecFns>::from_str("chunk_shape"),
                        JsonValue::Array(shapes),
                    ),
                );
                plugin_object("rectangular", config)
            },
        };
        entries.push((<String as StringExecFns>::from_str("chunk_grid"), grid_value));
        let cke = match self.chunk_key_encoding() {
            ChunkKeyEncoding::Default { slash_separator } => {
                let mut config: Vec<(String, JsonValue)> = Vec::new();
                config.push(
                    (
                        <String as StringExecFns>::from_str("separator"),
                        JsonValue::Str(
                            <String as StringExecFns>::from_str(
                                if *slash_separator {
                                    "/"
                                } else {
                                    "."
                                },
                            ),
                        ),
                    ),
                );
                plugin_object("default", config)
            },
            ChunkKeyEncoding::V2 { slash_separator } => {
                let mut config: Vec<(String, JsonValue)> = Vec::new();
                config.push(
                    (
                        <String as StringExecFns>::from_str("separator"),
                        JsonValue::Str(
                            <String as StringExecFns>::from_str(
                                if *slash_separator {
                                    "/"
                                } else {
                                    "."
                                },
                            ),
                        ),
                    ),
                );
                plugin_object("v2", config)
            },
        };
        entries.push((<String as StringExecFns>::from_str("chunk_key_encoding"), cke));
        entries.push(
            (
                <String as StringExecFns>::from_str("fill_value"),
                JsonValue::Str(fill_value_to_hex(self.fill_value().as_slice())),
            ),
        );
        let mut metadatas = self.codecs().create_metadatas();
        let ghost gmet = metadatas@;
        let mut codec_values: Vec<JsonValue> = Vec::new();
        let ghost chain = self.spec_codecs();
        while metadatas.len() > 0
            invariant
                self.wf(),
                chain == self.spec_codecs(),
                gmet.len() == 1 + chain.spec_bytes_to_bytes().len(),
                codec_values@.len() + metadatas@.len() == gmet.len(),
                metadatas@ == gmet.skip(codec_values@.len() as int),
                forall|j: int, t: int|
                    0 <= j < gmet.len() && 0 <= t < (#[trigger] gmet[j]).configuration@.len()
                        ==> value_wf((#[trigger] gmet[j].configuration@[t]).1),
                codec_matches_metadata(
                    crate::codec::Codec::ArrayToBytes(chain.spec_array_to_bytes()),
                    gmet[0],
                ),
                forall|j: int|
                    1 <= j < gmet.len() ==> codec_matches_metadata(
                        crate::codec::Codec::BytesToBytes(chain.spec_bytes_to_bytes()[j - 1]),
                        #[trigger] gmet[j],
                    ),
                forall|j: int|
                    0 <= j < codec_values@.len() ==> value_wf(#[trigger] codec_values@[j]),
                codec_values@.len() >= 1 ==> codec_value_matches(
                    crate::codec::Codec::ArrayToBytes(chain.spec_array_to_bytes()),
                    codec_values@[0],
                ),
                forall|j: int|
                    1 <= j < codec_values@.len() ==> codec_value_matches(
                        crate::codec::Codec::BytesToBytes(chain.spec_bytes_to_bytes()[j - 1]),
                        #[trigger] codec_values@[j],
                    ),
            decreases metadatas@.len(),
        {
            let ghost k = codec_values@.len() as int;
            let m = metadatas.remove(0);
            proof {
                assert(gmet.skip(k)[0] == gmet[k]);
                assert(m == gmet[k]);
                assert forall|t: int|
                    0 <= t < m.configuration@.len() implies value_wf(
                    (#[trigger] m.configuration@[t]).1,
                ) by {
                    assert(value_wf(gmet[k].configuration@[t].1));
                }
                assert(metadatas@ =~= gmet.skip(k + 1));
            }
            let Metadata { name, configuration } = m;
            let mut obj: Vec<(String, JsonValue)> = Vec::new();
            obj.push((<String as StringExecFns>::from_str("name"), JsonValue::Str(name)));
            obj.push(
                (
                    <String as StringExecFns>::from_str("configuration"),
                    JsonValue::Object(configuration),
                ),
            );
            proof {
                assert(value_wf(obj@[0].1));
                assert(value_wf(obj@[1].1));
                assert(forall|t: int| 0 <= t < obj@.len() ==> value_wf((#[trigger] obj@[t]).1));
            }
            codec_values.push(JsonValue::Object(obj));
            proof {
                let built = codec_values@[k];
                assert(built matches JsonValue::Object(es) && es@[0].1 matches JsonValue::Str(nm)
                    && (es@[1].1 matches JsonValue::Object(cfg) && (Metadata {
                    name: nm,
                    configuration: cfg,
                }) == gmet[k]));
            }
        }
        entries.push(
            (<String as StringExecFns>::from_str("codecs"), JsonValue::Array(codec_values)),
        );
        let mut attrs: Vec<(String, JsonValue)> = Vec::new();
        let mut saw_zarrs = false;
        let mut i: usize = 0;
        while i < self.attributes().len()
            invariant
                self.wf(),
                0 <= i <= self.spec_attributes().len(),
                attrs@.len() == i,
                forall|t: int| 0 <= t < attrs@.len() ==> value_wf((#[trigger] attrs@[t]).1),
                forall|t: int|
                    0 <= t < i ==> attr_entry_matches(
                        self.spec_include_zarrs_metadata(),
                        self.spec_attributes()[t],
                        #[trigger] attrs@[t],
                    ),
                self.spec_include_zarrs_metadata() ==> (saw_zarrs ==> exists|t: int|
                    0 <= t < i && (#[trigger] self.spec_attributes()[t]).0@ == "_zarrs"@),
                self.spec_include_zarrs_metadata() ==> (!saw_zarrs ==> forall|t: int|
                    0 <= t < i ==> (#[trigger] self.spec_attributes()[t]).0@ != "_zarrs"@),
            decreases self.spec_attributes().len() - i,
        {
            let name = self.attributes()[i].0.clone();
            if self.include_zarrs_metadata && crate::str_equal(name.as_str(), "_zarrs") {
                attrs.push((name, zarrs_provenance_value()));
                saw_zarrs = true;
                proof {
                    assert(self.spec_attributes()[i as int].0@ == "_zarrs"@);
                }
            } else {
                let value = clone_json(&self.attributes()[i].1);
                attrs.push((name, value));
            }
            i = i + 1;
        }
        if self.include_zarrs_metadata && !saw_zarrs {
            attrs.push(
                (<String as StringExecFns>::from_str("_zarrs"), zarrs_provenance_value()),
            );
        }
        if attrs.len() > 0 {
            entries.push(
                (<String as StringExecFns>::from_str("attributes"), JsonValue::Object(attrs)),
            );
        }
        match self.dimension_names() {
            Some(names) => {
                let mut name_values: Vec<JsonValue> = Vec::new();
                let mut i: usize = 0;
                while i < names.len()
                    invariant
                        0 <= i <= names@.len(),
                        name_values@.len() == i,
                        forall|t: int|
                            0 <= t < name_values@.len() ==> value_wf(#[trigger] name_values@[t]),
                        forall|t: int|
                            0 <= t < name_values@.len() ==> ((#[trigger] name_values@[t]) matches
                            JsonValue::Str(s) && s@ == names@[t]@),
                    decreases names@.len() - i,
                {
                    name_values.push(JsonValue::Str(names[i].clone()));
                    i = i + 1;
                }
                entries.push(
                    (
                        <String as StringExecFns>::from_str("dimension_names"),
                        JsonValue::Array(name_values),
                    ),
                );
            },
            None => {},
        }
        proof {
            assert(forall|t: int|
                0 <= t < entries@.len() ==> value_wf((#[trigger] entries@[t]).1));
            assert(array_metadata_value_matches(*self, JsonValue::Object(entries)));
        }
        JsonValue::Object(entries)
    }
}

/// A JSON array of unsigned integers.
fn u64_array(values: &[u64]) -> (r: JsonValue)
    ensures
        value_wf(r),
        r matches JsonValue::Array(elems) && elems@.len() == values@.len() && (forall|j: int|
            0 <= j < elems@.len() ==> #[trigger] elems@[j] == JsonValue::UInt(values@[j])),
{
    let mut elems: Vec<JsonValue> = Vec::new();
    let mut i: usize = 0;
    while i < values.len()
        invariant
            0 <= i <= values@.len(),
            elems@.len() == i,
            forall|j: int| 0 <= j < elems@.len() ==> value_wf(#[trigger] elems@[j]),
            forall|j: int|
                0 <= j < elems@.len() ==> #[trigger] elems@[j] == JsonValue::UInt(values@[j]),
        decreases values@.len() - i,
    {
        elems.push(JsonValue::UInt(values[i]));
        i = i + 1;
    }
    JsonValue::Array(elems)
}

/// A plugin object: a name and a configuration object.
fn plugin_object(name: &str, configuration: Vec<(String, JsonValue)>) -> (r: JsonValue)
    requires
        forall|t: int|
            0 <= t < configuration@.len() ==> value_wf((#[trigger] configuration@[t]).1),
    ensures
        value_wf(r),
        r matches JsonValue::Object(es) && es@.len() == 2 && es@[0].0@ == "name"@ && (
        es@[0].1 matches JsonValue::Str(s) && s@ == name@) && es@[1].0@ == "configuration"@ && (
        es@[1].1 matches JsonValue::Object(cfg) && cfg@ == configuration@),
{
    let mut obj: Vec<(String, JsonValue)> = Vec::new();
    obj.push(
        (
            <String as StringExecFns>::from_str("name"),
            JsonValue::Str(<String as StringExecFns>::from_str(name)),
        ),
    );
    obj.push(
        (<String as StringExecFns>::from_str("configuration"), JsonValue::Object(configuration)),
    );
    proof {
        assert(value_wf(obj@[0].1));
        assert(value_wf(obj@[1].1));
        assert(forall|t: int| 0 <= t < obj@.len() ==> value_wf((#[trigger] obj@[t]).1));
    }
    JsonValue::Object(obj)
}

/// The integers of a JSON array of non-negative integers.
fn json_u64_vec(v: &JsonValue) -> (r: Option<Vec<u64>>) {
    match v {
        JsonValue::Array(elems) => {
            let mut out: Vec<u64> = Vec::new();
            let mut i: usize = 0;
            while i < elems.len()
                decreases elems@.len() - i,
            {
                match elems[i].as_u64() {
                    Some(n) => {
                        out.push(n);
                    },
                    None => {
                        return None;
                    },
                }
                i = i + 1;
            }
            Some(out)
        },
        _ => None,
    }
}

/// The little-endian bytes of an integer, if it fits the element size.
fn u64_le_bytes(n: u64, size: usize) -> (r: Option<Vec<u8>>)
    ensures
        r matches Some(v) ==> v@.len() == size,
{
    let mut out: Vec<u8> = Vec::new();
    let mut rem = n;
    let mut i: usize = 0;
    while i < size
        invariant
            0 <= i <= size,
            out@.len() == i,
        decreases size - i,
    {
        out.push((rem % 256) as u8);
        rem = rem / 256;
        i = i + 1;
    }
    if rem == 0 {
        Some(out)
    } else {
        None
    }
}

impl Array {
    /// Create an array at `path` from a parsed metadata document.
    ///
    /// The document must name format version 3 and node type `array`, and
    /// hold a shape, data type, chunk grid, chunk key encoding, fill value
    /// and codecs; every unknown top-level field must be tagged
    /// `"must_understand": false`. Fill values are read as integers (two's
    /// complement for negative values of signed integer types), booleans,
    /// the `NaN`, `Infinity` and `-Infinity` tokens for floating-point
    /// types, or hexadecimal byte strings; a finite floating-point fill is
    /// written as its hexadecimal bytes, since computing a correctly
    /// rounded bit pattern from a decimal lexeme is floating-point work
    /// this crate does not take on.
    pub fn new_with_metadata(path: &str, metadata: JsonValue) -> (r: Result<
        Array,
        ArrayCreateError,
    >)
        requires
            value_wf(metadata),
        ensures
            r matches Ok(a) ==> a.wf() && a.spec_path() == path@,
    {
        let node_path = match NodePath::new(path) {
            Ok(p) => p,
            Err(e) => {
                return Err(ArrayCreateError::NodePathError(e));
            },
        };
        let entries = match metadata {
            JsonValue::Object(entries) => entries,
            _ => {
                return Err(
                    ArrayCreateError::Other(
                        <String as StringExecFns>::from_str("expected a metadata object"),
                    ),
                );
            },
        };
        let ghost gentries = entries@;
        proof {
            assert(forall|i: int|
                0 <= i < gentries.len() ==> value_wf((#[trigger] gentries[i]).1));
        }
        let mut zarr_format: u64 = 0;
        let mut node_type: String = String::new();
        let mut shape: Option<Vec<u64>> = None;
        let mut data_type: Option<DataType> = None;
        let mut chunk_grid: Option<ChunkGrid> = None;
        let mut chunk_key_encoding: ChunkKeyEncoding = ChunkKeyEncoding::new_default();
        let mut fill_value_json: Option<JsonValue> = None;
        let mut codec_metadatas: Vec<Metadata> = Vec::new();
        let mut have_codecs = false;
        let mut attributes: Vec<(String, JsonValue)> = Vec::new();
        let mut dimension_names: Option<Vec<String>> = None;
        let mut additional: Vec<(String, JsonValue)> = Vec::new();
        let mut entries = entries;
        while entries.len() > 0
            invariant
                forall|j: int| 0 <= j < entries@.len() ==> value_wf((#[trigger] entries@[j]).1),
                forall|j: int|
                    0 <= j < attributes@.len() ==> value_wf((#[trigger] attributes@[j]).1),
                forall|j: int|
                    0 <= j < additional@.len() ==> value_wf((#[trigger] additional@[j]).1),
                fill_value_json matches Some(v) ==> value_wf(v),
                chunk_grid matches Some(g) ==> g.wf(),
            decreases entries@.len(),
        {
            let ghost pre = entries@;
            let (name, value) = entries.remove(0);
            proof {
                assert(pre[0].1 == value);
                assert(forall|j: int|
                    0 <= j < entries@.len() ==> entries@[j] == pre[j + 1] && value_wf(
                        (#[trigger] entries@[j]).1,
                    ));
            }
            if crate::str_equal(name.as_str(), "zarr_format") {
                match value.as_u64() {
                    Some(n) => {
                        zarr_format = n;
                    },
                    None => {
                        return Err(ArrayCreateError::InvalidZarrFormat(0));
                    },
                }
            } else if crate::str_equal(name.as_str(), "node_type") {
                match value {
                    JsonValue::Str(s) => {
                        node_type = s;
                    },
                    _ => {
                        return Err(
                            ArrayCreateError::InvalidNodeType(String::new()),
                        );
                    },
                }
            } else if crate::str_equal(name.as_str(), "shape") {
                match json_u64_vec(&value) {
                    Some(v) => {
                        shape = Some(v);
                    },
                    None => {
                        return Err(
                            ArrayCreateError::Other(
                                <String as StringExecFns>::from_str("invalid shape"),
                            ),
                        );
                    },
                }
            } else if crate::str_equal(name.as_str(), "data_type") {
                match value {
                    JsonValue::Str(s) => {
                        match DataType::from_name(s.as_str()) {
                            Ok(dt) => {
                                data_type = Some(dt);
                            },
                            Err(e) => {
                                return Err(ArrayCreateError::DataTypeCreateError(e.name));
                            },
                        }
                    },
                    _ => {
                        return Err(
                            ArrayCreateError::DataTypeCreateError(String::new()),
                        );
                    },
                }
            } else if crate::str_equal(name.as_str(), "chunk_grid") {
                match chunk_grid_from_value(&value) {
                    Ok(g) => {
                        chunk_grid = Some(g);
                    },
                    Err(e) => {
                        return Err(ArrayCreateError::ChunkGridCreateError(e));
                    },
                }
            } else if crate::str_equal(name.as_str(), "chunk_key_encoding") {
                match chunk_key_encoding_from_value(&value) {
                    Ok(cke) => {
                        chunk_key_encoding = cke;
                    },
                    Err(e) => {
                        return Err(ArrayCreateError::ChunkKeyEncodingCreateError(e));
                    },
                }
            } else if crate::str_equal(name.as_str(), "fill_value") {
                fill_value_json = Some(value);
            } else if crate::str_equal(name.as_str(), "codecs") {
                match value {
                    JsonValue::Array(elems) => {
                        let mut elems = elems;
                        while elems.len() > 0
                            decreases elems@.len(),
                        {
                            let cv = elems.remove(0);
                            match codec_metadata_from_value(cv) {
                                Ok(m) => {
                                    codec_metadatas.push(m);
                                },
                                Err(e) => {
                                    return Err(ArrayCreateError::CodecsCreateError(e));
                                },
                            }
                        }
                        have_codecs = true;
                    },
                    _ => {
                        return Err(
                            ArrayCreateError::CodecsCreateError(
                                PluginCreateError::Other(
                                    <String as StringExecFns>::from_str("invalid codecs"),
                                ),
                            ),
                        );
                    },
                }
            } else if crate::str_equal(name.as_str(), "attributes") {
                match value {
                    JsonValue::Object(attrs) => {
                        proof {
                            assert(value_wf(pre[0].1));
                        }
                        attributes = attrs;
                    },
                    _ => {
                        return Err(
                            ArrayCreateError::Other(
                                <String as StringExecFns>::from_str("invalid attributes"),
                            ),
                        );
                    },
                }
            } else if crate::str_equal(name.as_str(), "dimension_names") {
                match &value {
                    JsonValue::Array(elems) => {
                        let mut names: Vec<String> = Vec::new();
                        let mut i: usize = 0;
                        while i < elems.len()
                            decreases elems@.len() - i,
                        {
                            match elems[i].as_str() {
                                Some(sref) => {
                                    names.push(sref.clone());
                                },
                                None => {
                                    names.push(String::new());
                                },
                            }
                            i = i + 1;
                        }
                        dimension_names = Some(names);
                    },
                    _ => {
                        return Err(
                            ArrayCreateError::Other(
                                <String as StringExecFns>::from_str("invalid dimension names"),
                            ),
                        );
                    },
                }
            } else if crate::str_equal(name.as_str(), "storage_transformers") {
                // storage transformers are treated as the identity
            } else {
                additional.push((name, value));
            }
        }
        if zarr_format != 3 {
            return Err(ArrayCreateError::InvalidZarrFormat(zarr_format));
        }
        if !crate::str_equal(node_type.as_str(), "array") {
            return Err(ArrayCreateError::InvalidNodeType(node_type));
        }
        let additional_fields = AdditionalFields { fields: additional };
        match additional_fields.validate() {
            Ok(_) => {},
            Err(e) => {
                return Err(ArrayCreateError::UnsupportedAdditionalFieldError(e));
            },
        }
        let shape = match shape {
            Some(s) => s,
            None => {
                return Err(
                    ArrayCreateError::Other(
                        <String as StringExecFns>::from_str("missing shape"),
                    ),
                );
            },
        };
        let data_type = match data_type {
            Some(dt) => dt,
            None => {
                return Err(
                    ArrayCreateError::Other(
                        <String as StringExecFns>::from_str("missing data type"),
                    ),
                );
            },
        };
        let chunk_grid = match chunk_grid {
            Some(g) => g,
            None => {
                return Err(
                    ArrayCreateError::Other(
                        <String as StringExecFns>::from_str("missing chunk grid"),
                    ),
                );
            },
        };
        if chunk_grid.dimensionality() != shape.len() {
            return Err(
                ArrayCreateError::InvalidChunkGridDimensionality(
                    chunk_grid.dimensionality(),
                    shape.len(),
                ),
            );
        }
        let fill_value = match fill_value_json {
            Some(v) => {
                match fill_value_from_value(&v, &data_type) {
                    Some(f) => f,
                    None => {
                        return Err(ArrayCreateError::InvalidFillValueMetadata);
                    },
                }
            },
            None => {
                return Err(ArrayCreateError::InvalidFillValueMetadata);
            },
        };
        if !have_codecs {
            return Err(
                ArrayCreateError::CodecsCreateError(
                    PluginCreateError::Other(
                        <String as StringExecFns>::from_str("missing array to bytes codec"),
                    ),
                ),
            );
        }
        if codec_metadatas.len() >= usize::MAX - 1 {
            return Err(
                ArrayCreateError::CodecsCreateError(
                    PluginCreateError::Other(
                        <String as StringExecFns>::from_str("too many codecs"),
                    ),
                ),
            );
        }
        let codecs = match CodecChain::from_metadata(&codec_metadatas) {
            Ok(c) => c,
            Err(e) => {
                return Err(ArrayCreateError::CodecsCreateError(e));
            },
        };
        match &dimension_names {
            Some(names) => {
                if names.len() != shape.len() {
                    return Err(
                        ArrayCreateError::InvalidDimensionNames(names.len(), shape.len()),
                    );
                }
            },
            None => {},
        }
        Ok(
            Array {
                path: node_path,
                shape,
                data_type,
                chunk_grid,
                chunk_key_encoding,
                fill_value,
                codecs,
                attributes,
                dimension_names,
                additional_fields,
                include_zarrs_metadata: true,
            },
        )
    }

    /// Open an array from `storage` at `path`: its metadata is read from
    /// the store and validated. Fails when no metadata is stored.
    pub fn new<TStorage: ReadableStorageTraits>(storage: &TStorage, path: &str) -> (r: Result<
        Array,
        ArrayCreateError,
    >)
        ensures
            r matches Ok(a) ==> a.wf() && a.spec_path() == path@,
    {
        let node_path = match NodePath::new(path) {
            Ok(p) => p,
            Err(e) => {
                return Err(ArrayCreateError::NodePathError(e));
            },
        };
        let key = meta_key(&node_path);
        let data = match storage.get(&key) {
            Ok(d) => d,
            Err(e) => {
                return Err(ArrayCreateError::StorageError(e));
            },
        };
        let bytes = match data {
            Some(b) => b,
            None => {
                return Err(ArrayCreateError::MissingMetadata);
            },
        };
        let text = match crate::json::string_from_utf8(bytes) {
            Some(t) => t,
            None => {
                return Err(
                    ArrayCreateError::StorageError(
                        crate::storage::StorageError::InvalidMetadata(
                            key,
                            <String as StringExecFns>::from_str("invalid UTF-8"),
                        ),
                    ),
                );
            },
        };
        let value = match parse_json(text.as_str()) {
            Ok(v) => v,
            Err(e) => {
                return Err(
                    ArrayCreateError::StorageError(
                        crate::storage::StorageError::InvalidMetadata(key, e.to_string()),
                    ),
                );
            },
        };
        Array::new_with_metadata(path, value)
    }
}

/// A chunk grid from its plugin metadata value.
fn chunk_grid_from_value(v: &JsonValue) -> (r: Result<ChunkGrid, PluginCreateError>)
    ensures
        r matches Ok(g) ==> g.wf(),
{
    let name = match v.get_field("name") {
        Some(nv) => {
            match nv.as_str() {
                Some(s) => s.clone(),
                None => {
                    return Err(
                        PluginCreateError::Other(
                            <String as StringExecFns>::from_str("invalid chunk grid name"),
                        ),
                    );
                },
            }
        },
        None => {
            return Err(
                PluginCreateError::Other(
                    <String as StringExecFns>::from_str("missing chunk grid name"),
                ),
            );
        },
    };
    let configuration = match v.get_field("configuration") {
        Some(c) => c,
        None => {
            return Err(PluginCreateError::MetadataInvalid { name });
        },
    };
    let chunk_shape_value = match configuration.get_field("chunk_shape") {
        Some(cs) => cs,
        None => {
            return Err(PluginCreateError::MetadataInvalid { name });
        },
    };
    if crate::str_equal(name.as_str(), "regular") {
        let sizes = match json_u64_vec(chunk_shape_value) {
            Some(v) => v,
            None => {
                return Err(PluginCreateError::MetadataInvalid { name });
            },
        };
        match crate::chunk_grid::regular::RegularChunkGrid::new(sizes) {
            Ok(g) => Ok(ChunkGrid::Regular(g)),
            Err(_) => Err(PluginCreateError::MetadataInvalid { name }),
        }
    } else if crate::str_equal(name.as_str(), "rectangular") {
        match chunk_shape_value {
            JsonValue::Array(dims) => {
                let mut configs: Vec<
                    crate::chunk_grid::rectangular::RectangularChunkGridDimensionConfiguration,
                > = Vec::new();
                let mut i: usize = 0;
                while i < dims.len()
                    invariant
                        0 <= i <= dims@.len(),
                        forall|j: int|
                            0 <= j < configs@.len()
                                ==> crate::chunk_grid::rectangular::config_wf(
                                #[trigger] configs@[j],
                            ),
                        forall|j: int|
                            0 <= j < configs@.len()
                                ==> ((#[trigger] configs@[j]) matches
                            crate::chunk_grid::rectangular::RectangularChunkGridDimensionConfiguration::Varying(
                                sizes,
                            ) ==> crate::chunk_grid::rectangular::sizes_sum(sizes@)
                                <= u64::MAX),
                    decreases dims@.len() - i,
                {
                    match dims[i].as_u64() {
                        Some(n) => {
                            match crate::chunk_grid::rectangular::RectangularChunkGridDimensionConfiguration::fixed(
                                n,
                            ) {
                                Ok(c) => {
                                    configs.push(c);
                                },
                                Err(_) => {
                                    return Err(PluginCreateError::MetadataInvalid { name });
                                },
                            }
                        },
                        None => {
                            let sizes = match json_u64_vec(&dims[i]) {
                                Some(v) => v,
                                None => {
                                    return Err(PluginCreateError::MetadataInvalid { name });
                                },
                            };
                            // the extents must sum within range
                            let mut total: u64 = 0;
                            let mut j: usize = 0;
                            while j < sizes.len()
                                invariant
                                    0 <= j <= sizes@.len(),
                                    total == crate::chunk_grid::rectangular::sizes_sum(
                                        sizes@.take(j as int),
                                    ),
                                decreases sizes@.len() - j,
                            {
                                proof {
                                    assert(sizes@.take(j + 1).drop_last() =~= sizes@.take(
                                        j as int,
                                    ));
                                    assert(sizes@.take(j + 1).last() == sizes@[j as int]);
                                }
                                total = match total.checked_add(sizes[j]) {
                                    Some(t) => t,
                                    None => {
                                        return Err(
                                            PluginCreateError::MetadataInvalid { name },
                                        );
                                    },
                                };
                                j = j + 1;
                            }
                            proof {
                                assert(sizes@.take(sizes@.len() as int) =~= sizes@);
                            }
                            match crate::chunk_grid::rectangular::RectangularChunkGridDimensionConfiguration::varying(
                                sizes,
                            ) {
                                Ok(c) => {
                                    configs.push(c);
                                },
                                Err(_) => {
                                    return Err(PluginCreateError::MetadataInvalid { name });
                                },
                            }
                        },
                    }
                    i = i + 1;
                }
                let g = crate::chunk_grid::rectangular::RectangularChunkGrid::new(
                    configs.as_slice(),
                );
                Ok(ChunkGrid::Rectangular(g))
            },
            _ => Err(PluginCreateError::MetadataInvalid { name }),
        }
    } else {
        Err(
            PluginCreateError::Unsupported {
                name,
                plugin_type: <String as StringExecFns>::from_str("chunk grid"),
            },
        )
    }
}

/// A chunk key encoding from its plugin metadata value.
fn chunk_key_encoding_from_value(v: &JsonValue) -> (r: Result<ChunkKeyEncoding, PluginCreateError>) {
    let name = match v.get_field("name") {
        Some(nv) => {
            match nv.as_str() {
                Some(s) => s.clone(),
                None => {
                    return Err(
                        PluginCreateError::Other(
                            <String as StringExecFns>::from_str("invalid encoding name"),
                        ),
                    );
                },
            }
        },
        None => {
            return Err(
                PluginCreateError::Other(
                    <String as StringExecFns>::from_str("missing encoding name"),
                ),
            );
        },
    };
    let slash = match v.get_field("configuration") {
        Some(c) => {
            match c.get_field("separator") {
                Some(sv) => {
                    match sv.as_str() {
                        Some(s) => crate::str_equal(s.as_str(), "/"),
                        None => {
                            return Err(PluginCreateError::MetadataInvalid { name });
                        },
                    }
                },
                None => crate::str_equal(name.as_str(), "default"),
            }
        },
        None => crate::str_equal(name.as_str(), "default"),
    };
    if crate::str_equal(name.as_str(), "default") {
        Ok(ChunkKeyEncoding::Default { slash_separator: slash })
    } else if crate::str_equal(name.as_str(), "v2") {
        Ok(ChunkKeyEncoding::V2 { slash_separator: slash })
    } else {
        Err(
            PluginCreateError::Unsupported {
                name,
                plugin_type: <String as StringExecFns>::from_str("chunk key encoding"),
            },
        )
    }
}

/// Codec plugin metadata from a metadata document entry.
fn codec_metadata_from_value(v: JsonValue) -> (r: Result<Metadata, PluginCreateError>) {
    let entries = match v {
        JsonValue::Object(entries) => entries,
        _ => {
            return Err(
                PluginCreateError::Other(
                    <String as StringExecFns>::from_str("invalid codec metadata"),
                ),
            );
        },
    };
    let mut name: Option<String> = None;
    let mut configuration: Vec<(String, JsonValue)> = Vec::new();
    let mut entries = entries;
    while entries.len() > 0
        decreases entries@.len(),
    {
        let (field, value) = entries.remove(0);
        if crate::str_equal(field.as_str(), "name") {
            match value {
                JsonValue::Str(s) => {
                    name = Some(s);
                },
                _ => {
                    return Err(
                        PluginCreateError::Other(
                            <String as StringExecFns>::from_str("invalid codec name"),
                        ),
                    );
                },
            }
        } else if crate::str_equal(field.as_str(), "configuration") {
            match value {
                JsonValue::Object(config) => {
                    configuration = config;
                },
                _ => {
                    return Err(
                        PluginCreateError::Other(
                            <String as StringExecFns>::from_str("invalid codec configuration"),
                        ),
                    );
                },
            }
        }
    }
    match name {
        Some(name) => Ok(Metadata { name, configuration }),
        None => Err(
            PluginCreateError::Other(
                <String as StringExecFns>::from_str("missing codec name"),
            ),
        ),
    }
}

/// The little-endian two's-complement bytes of a negative integer, if it
/// fits the element size.
fn i64_le_bytes(i: i64, size: usize) -> (r: Option<Vec<u8>>)
    requires
        i < 0,
    ensures
        r matches Some(v) ==> v@.len() == size,
{
    let fits = if size == 1 {
        i >= -128
    } else if size == 2 {
        i >= -32768
    } else if size == 4 {
        i >= -2147483648
    } else {
        size == 8
    };
    if !fits {
        return None;
    }
    let u = i as u64;
    let mut out: Vec<u8> = Vec::new();
    let mut rem = u;
    let mut k: usize = 0;
    while k < size
        invariant
            0 <= k <= size,
            out@.len() == k,
        decreases size - k,
    {
        out.push((rem % 256) as u8);
        rem = rem / 256;
        k = k + 1;
    }
    Some(out)
}

/// The bytes of a non-finite floating-point token (`NaN`, `Infinity`,
/// `-Infinity`) for a floating-point data type: the format's canonical
/// quiet NaN and its infinities, little endian.
fn non_finite_fill_bytes(token: &str, data_type: &DataType) -> (r: Option<Vec<u8>>)
    ensures
        r matches Some(v) ==> v@.len() == data_type.spec_size(),
{
    let kind: u8 = if crate::str_equal(token, "NaN") {
        0
    } else if crate::str_equal(token, "Infinity") {
        1
    } else if crate::str_equal(token, "-Infinity") {
        2
    } else {
        return None;
    };
    let mut out: Vec<u8> = Vec::new();
    match data_type {
        DataType::Float16 => {
            out.push(0x00);
            out.push(
                if kind == 0 {
                    0x7E
                } else if kind == 1 {
                    0x7C
                } else {
                    0xFC
                },
            );
        },
        DataType::BFloat16 => {
            out.push(
                if kind == 0 {
                    0xC0
                } else {
                    0x80
                },
            );
            out.push(
                if kind == 2 {
                    0xFF
                } else {
                    0x7F
                },
            );
        },
        DataType::Float32 => {
            out.push(0x00);
            out.push(0x00);
            out.push(
                if kind == 0 {
                    0xC0
                } else {
                    0x80
                },
            );
            out.push(
                if kind == 2 {
                    0xFF
                } else {
                    0x7F
                },
            );
        },
        DataType::Float64 => {
            let mut k: usize = 0;
            while k < 6
                invariant
                    0 <= k <= 6,
                    out@.len() == k,
                decreases 6 - k,
            {
                out.push(0x00);
                k = k + 1;
            }
            out.push(
                if kind == 0 {
                    0xF8
                } else {
                    0xF0
                },
            );
            out.push(
                if kind == 2 {
                    0xFF
                } else {
                    0x7F
                },
            );
        },
        _ => {
            return None;
        },
    }
    Some(out)
}

/// A fill value from its metadata representation: an integer for integer
/// data types (two's complement for negative values), a boolean for the
/// boolean type, the `NaN`, `Infinity` and `-Infinity` tokens for
/// floating-point types, or a hexadecimal byte string for any type.
fn fill_value_from_value(v: &JsonValue, data_type: &DataType) -> (r: Option<FillValue>)
    ensures
        r matches Some(f) ==> f.spec_bytes().len() == data_type.spec_size(),
{
    let size = data_type.size();
    match v {
        JsonValue::Bool(b) => {
            if size == 1 {
                let mut bytes: Vec<u8> = Vec::new();
                bytes.push(
                    if *b {
                        1
                    } else {
                        0
                    },
                );
                Some(FillValue::new(bytes))
            } else {
                None
            }
        },
        JsonValue::UInt(n) => {
            match u64_le_bytes(*n, size) {
                Some(bytes) => Some(FillValue::new(bytes)),
                None => None,
            }
        },
        JsonValue::Int(i) => {
            let signed = match data_type {
                DataType::Int8 | DataType::Int16 | DataType::Int32 | DataType::Int64 => true,
                _ => false,
            };
            if !signed || *i >= 0 {
                return None;
            }
            match i64_le_bytes(*i, size) {
                Some(bytes) => Some(FillValue::new(bytes)),
                None => None,
            }
        },
        JsonValue::Str(s) => {
            match non_finite_fill_bytes(s.as_str(), data_type) {
                Some(bytes) => Some(FillValue::new(bytes)),
                None => {
                    match fill_value_from_hex(s.as_str(), size) {
                        Some(bytes) => Some(FillValue::new(bytes)),
                        None => None,
                    }
                },
            }
        },
        _ => None,
    }
}

} // verus!
