//! Zarr groups: nodes of a hierarchy with JSON metadata.

use vstd::prelude::*;
use vstd::string::StringExecFns;

use crate::json::{
    json_text, object_text, parse_json, quoted_text, value_wf, write_quoted, write_value,
    JsonValue,
};
use crate::metadata::{
    additional_field_permitted, additional_fields_wf, AdditionalFields,
    UnsupportedAdditionalFieldError,
};
use crate::node::{node_path_valid, NodePath, NodePathError};
use crate::storage::{
    meta_key, meta_key_of, ReadableStorageTraits, StorageError, WritableStorageTraits,
};
use crate::text::dec_of;

verus! {

/// Group metadata, version 3.
#[derive(Debug)]
pub struct GroupMetadataV3 {
    /// The Zarr format version; must be 3.
    pub zarr_format: u64,
    /// The node type; must be `group`.
    pub node_type: String,
    /// User attributes, in document order.
    pub attributes: Vec<(String, JsonValue)>,
    /// Additional fields beyond the format.
    pub additional_fields: AdditionalFields,
}

/// Group metadata of any recognised version.
#[derive(Debug)]
pub enum GroupMetadata {
    /// Version 3 metadata.
    V3(GroupMetadataV3),
}

/// Attribute values of metadata are well formed.
pub open spec fn group_metadata_wf(m: GroupMetadataV3) -> bool {
    &&& forall|i: int| 0 <= i < m.attributes@.len() ==> value_wf((#[trigger] m.attributes@[i]).1)
    &&& additional_fields_wf(m.additional_fields)
}

/// The JSON text of group metadata: node type, format, attributes when
/// non-empty, then the additional fields.
pub open spec fn group_metadata_text(m: GroupMetadataV3) -> Seq<char> {
    seq!['{'] + quoted_text("node_type"@) + seq![':'] + quoted_text(m.node_type@) + seq![',']
        + quoted_text("zarr_format"@) + seq![':'] + dec_of(m.zarr_format as nat) + (
    if m.attributes@.len() > 0 {
        seq![','] + quoted_text("attributes"@) + seq![':'] + seq!['{'] + object_text(
            m.attributes@,
        ) + seq!['}']
    } else {
        Seq::<char>::empty()
    }) + (if m.additional_fields.fields@.len() > 0 {
        seq![','] + object_text(m.additional_fields.fields@)
    } else {
        Seq::<char>::empty()
    }) + seq!['}']
}

impl GroupMetadataV3 {
    /// Metadata of an empty group: format 3, node type `group`, no
    /// attributes.
    pub fn new() -> (r: Self)
        ensures
            r.zarr_format == 3,
            r.node_type@ == "group"@,
            r.attributes@.len() == 0,
            r.additional_fields.fields@.len() == 0,
            group_metadata_wf(r),
    {
        GroupMetadataV3 {
            zarr_format: 3,
            node_type: String::from_str("group"),
            attributes: Vec::new(),
            additional_fields: AdditionalFields::new(),
        }
    }

    /// Whether the format version is the supported one.
    pub fn validate_format(&self) -> (r: bool)
        ensures
            r == (self.zarr_format == 3),
    {
        self.zarr_format == 3
    }

    /// Whether the node type is `group`.
    pub fn validate_node_type(&self) -> (r: bool)
        ensures
            r == (self.node_type@ == "group"@),
    {
        crate::str_equal(self.node_type.as_str(), "group")
    }

    /// The JSON text of the metadata.
    pub fn to_string(&self) -> (r: String)
        requires
            group_metadata_wf(*self),
        ensures
            r@ == group_metadata_text(*self),
    {
        let mut s = String::new();
        proof {
            reveal_strlit("{");
            reveal_strlit("}");
            reveal_strlit(":");
            reveal_strlit(",");
            assert("{"@ =~= seq!['{']);
            assert("}"@ =~= seq!['}']);
            assert(":"@ =~= seq![':']);
            assert(","@ =~= seq![',']);
        }
        s.append("{");
        write_quoted(&mut s, "node_type");
        s.append(":");
        write_quoted(&mut s, self.node_type.as_str());
        s.append(",");
        write_quoted(&mut s, "zarr_format");
        s.append(":");
        let zf = crate::text::u64_to_dec_string(self.zarr_format);
        s.append(zf.as_str());
        if self.attributes.len() > 0 {
            s.append(",");
            write_quoted(&mut s, "attributes");
            s.append(":");
            s.append("{");
            write_object_entries(&mut s, &self.attributes);
            s.append("}");
        }
        if self.additional_fields.fields.len() > 0 {
            s.append(",");
            write_object_entries(&mut s, &self.additional_fields.fields);
        }
        s.append("}");
        proof {
            assert(s@ =~= group_metadata_text(*self));
        }
        s
    }

    /// Read group metadata from a parsed JSON document.
    ///
    /// Succeeds exactly when the document is an object whose known fields
    /// have the right types; `zarr_format` must be an integer and defaults
    /// to 3 when absent, `node_type` must be a string and defaults to
    /// `group` when absent, `attributes` must be an object and defaults to
    /// empty; every other top-level field becomes an additional field, and
    /// of a repeated field the last occurrence wins.
    pub fn from_value(v: JsonValue) -> (r: Result<Self, String>)
        requires
            value_wf(v),
        ensures
            r matches Ok(m) ==> group_metadata_wf(m),
            r is Ok <==> group_document_ok(v),
            r matches Ok(m) ==> (v matches JsonValue::Object(es) && {
                let n = es@.len() as int;
                &&& m.zarr_format == group_doc_zarr_format(es@, n)
                &&& m.node_type@ == group_doc_node_type(es@, n)
                &&& m.attributes@ == group_doc_attributes(es@, n)
                &&& m.additional_fields.fields@ == group_doc_additional(es@, n)
            }),
    {
        proof {
            reveal_strlit("zarr_format");
            reveal_strlit("node_type");
            reveal_strlit("attributes");
            assert(("zarr_format"@).len() == 11);
            assert(("node_type"@).len() == 9);
            assert(("attributes"@).len() == 10);
        }
        let entries = match v {
            JsonValue::Object(entries) => entries,
            _ => {
                return Err(String::from_str("expected a metadata object"));
            },
        };
        let mut zarr_format: u64 = 3;
        let mut node_type: String = String::from_str("group");
        let mut attributes: Vec<(String, JsonValue)> = Vec::new();
        let mut additional: Vec<(String, JsonValue)> = Vec::new();
        let ghost gv = JsonValue::Object(entries);
        let ghost ges = entries@;
        proof {
            assert(forall|i: int|
                0 <= i < entries@.len() ==> value_wf((#[trigger] entries@[i]).1));
            assert(ges.skip(0) =~= ges);
        }
        let mut entries = entries;
        while entries.len() > 0
            invariant
                v matches JsonValue::Object(es0) && es0@ == ges,
                entries@.len() <= ges.len(),
                entries@ == ges.skip((ges.len() - entries@.len()) as int),
                forall|j: int| 0 <= j < entries@.len() ==> value_wf((#[trigger] entries@[j]).1),
                forall|j: int|
                    0 <= j < attributes@.len() ==> value_wf((#[trigger] attributes@[j]).1),
                forall|j: int|
                    0 <= j < additional@.len() ==> value_wf((#[trigger] additional@[j]).1),
                forall|j: int|
                    0 <= j < ges.len() - entries@.len() ==> group_entry_ok(#[trigger] ges[j]),
                zarr_format == group_doc_zarr_format(ges, ges.len() - entries@.len()),
                node_type@ == group_doc_node_type(ges, ges.len() - entries@.len()),
                attributes@ == group_doc_attributes(ges, ges.len() - entries@.len()),
                additional@ == group_doc_additional(ges, ges.len() - entries@.len()),
            decreases entries@.len(),
        {
            let ghost pre = entries@;
            let ghost k = ges.len() - pre.len();
            let (name, value) = entries.remove(0);
            proof {
                assert(pre[0].1 == value);
                assert(entries@ == pre.remove(0));
                assert(forall|j: int|
                    0 <= j < entries@.len() ==> entries@[j] == pre[j + 1] && value_wf(
                        (#[trigger] entries@[j]).1,
                    ));
                assert(ges[k as int] == pre[0]);
                assert(entries@ =~= ges.skip(k + 1));
            }
            if crate::str_equal(name.as_str(), "zarr_format") {
                match value.as_u64() {
                    Some(n) => {
                        zarr_format = n;
                    },
                    None => {
                        proof {
                            assert(!group_entry_ok(ges[k as int]));
                        }
                        return Err(String::from_str("invalid type: zarr_format"));
                    },
                }
            } else if crate::str_equal(name.as_str(), "node_type") {
                match value {
                    JsonValue::Str(s) => {
                        node_type = s;
                    },
                    _ => {
                        proof {
                            assert(!group_entry_ok(ges[k as int]));
                        }
                        return Err(String::from_str("invalid type: node_type"));
                    },
                }
            } else if crate::str_equal(name.as_str(), "attributes") {
                match value {
                    JsonValue::Object(attrs) => {
                        proof {
                            assert(value_wf(pre[0].1));
                        }
                        attributes = attrs;
                    },
                    _ => {
                        proof {
                            assert(!group_entry_ok(ges[k as int]));
                        }
                        return Err(String::from_str("invalid type: attributes"));
                    },
                }
            } else {
                additional.push((name, value));
            }
            proof {
                reveal_strlit("zarr_format");
                reveal_strlit("node_type");
                reveal_strlit("attributes");
                assert(("zarr_format"@).len() == 11);
                assert(("node_type"@).len() == 9);
                assert(("attributes"@).len() == 10);
                assert(group_entry_ok(ges[k as int]));
                assert(zarr_format == group_doc_zarr_format(ges, k + 1));
                assert(node_type@ == group_doc_node_type(ges, k + 1));
                assert(attributes@ == group_doc_attributes(ges, k + 1));
                assert(additional@ == group_doc_additional(ges, k + 1));
            }
        }
        Ok(
            GroupMetadataV3 {
                zarr_format,
                node_type,
                attributes,
                additional_fields: AdditionalFields { fields: additional },
            },
        )
    }
}

/// Whether one top-level entry of a group metadata document has the type
/// its field demands: an integer `zarr_format`, a string `node_type`, an
/// object `attributes`; any other field is free.
pub open spec fn group_entry_ok(e: (String, JsonValue)) -> bool {
    if e.0@ == "zarr_format"@ {
        e.1 is UInt
    } else if e.0@ == "node_type"@ {
        e.1 is Str
    } else if e.0@ == "attributes"@ {
        e.1 is Object
    } else {
        true
    }
}

/// Whether a parsed document can be read as group metadata: an object whose
/// known fields have the right types.
pub open spec fn group_document_ok(v: JsonValue) -> bool {
    v matches JsonValue::Object(es) && (forall|j: int|
        0 <= j < es@.len() ==> group_entry_ok(#[trigger] es@[j]))
}

/// The format version the first `j` entries of a document yield: the last
/// `zarr_format` entry, or 3.
pub open spec fn group_doc_zarr_format(es: Seq<(String, JsonValue)>, j: int) -> u64
    decreases j,
{
    if j <= 0 {
        3
    } else if es[j - 1].0@ == "zarr_format"@ {
        es[j - 1].1->UInt_0
    } else {
        group_doc_zarr_format(es, j - 1)
    }
}

/// The node type the first `j` entries of a document yield: the last
/// `node_type` entry, or `group`.
pub open spec fn group_doc_node_type(es: Seq<(String, JsonValue)>, j: int) -> Seq<char>
    decreases j,
{
    if j <= 0 {
        "group"@
    } else if es[j - 1].0@ == "node_type"@ {
        es[j - 1].1->Str_0@
    } else {
        group_doc_node_type(es, j - 1)
    }
}

/// The attributes the first `j` entries of a document yield: the last
/// `attributes` entry, or none.
pub open spec fn group_doc_attributes(es: Seq<(String, JsonValue)>, j: int) -> Seq<
    (String, JsonValue),
>
    decreases j,
{
    if j <= 0 {
        Seq::empty()
    } else if es[j - 1].0@ == "attributes"@ {
        es[j - 1].1->Object_0@
    } else {
        group_doc_attributes(es, j - 1)
    }
}

/// The additional fields the first `j` entries of a document yield: every
/// entry under an unknown name, in order.
pub open spec fn group_doc_additional(es: Seq<(String, JsonValue)>, j: int) -> Seq<
    (String, JsonValue),
>
    decreases j,
{
    if j <= 0 {
        Seq::empty()
    } else if es[j - 1].0@ == "zarr_format"@ || es[j - 1].0@ == "node_type"@ || es[j - 1].0@
        == "attributes"@ {
        group_doc_additional(es, j - 1)
    } else {
        group_doc_additional(es, j - 1).push(es[j - 1])
    }
}

/// Write object entries, comma separated, as the body of a JSON object.
fn write_object_entries(out: &mut String, entries: &Vec<(String, JsonValue)>)
    requires
        forall|i: int| 0 <= i < entries@.len() ==> value_wf((#[trigger] entries@[i]).1),
    ensures
        final(out)@ == old(out)@ + object_text(entries@),
{
    let tmp = JsonValue::Object(Vec::new());
    let mut i: usize = 0;
    proof {
        assert(crate::json::object_prefix_text(entries@, 0) =~= Seq::<char>::empty());
        assert(old(out)@ + Seq::<char>::empty() =~= old(out)@);
    }
    while i < entries.len()
        invariant
            0 <= i <= entries@.len(),
            forall|j: int| 0 <= j < entries@.len() ==> value_wf((#[trigger] entries@[j]).1),
            out@ == old(out)@ + crate::json::object_prefix_text(entries@, i as int),
        decreases entries@.len() - i,
    {
        proof {
            reveal_strlit(",");
            reveal_strlit(":");
            assert(","@ =~= seq![',']);
            assert(":"@ =~= seq![':']);
        }
        if i > 0 {
            out.append(",");
        }
        write_quoted(out, entries[i].0.as_str());
        out.append(":");
        write_value(out, &entries[i].1);
        i = i + 1;
        proof {
            crate::json::lemma_object_prefix_snoc(entries@, i as int);
            assert(out@ =~= old(out)@ + crate::json::object_prefix_text(entries@, i as int));
        }
    }
    proof {
        crate::json::lemma_object_prefix_full(entries@);
    }
}

/// A group creation error.
#[derive(Debug)]
pub enum GroupCreateError {
    /// An invalid Zarr format version.
    InvalidZarrFormat(u64),
    /// An invalid node type.
    InvalidNodeType(String),
    /// An invalid node path.
    NodePathError(NodePathError),
    /// An unsupported additional field.
    UnsupportedAdditionalFieldError(UnsupportedAdditionalFieldError),
    /// A storage error.
    StorageError(StorageError),
}

impl GroupCreateError {
    /// The error message.
    pub fn to_string(&self) -> (r: String)
        ensures
            match self {
                GroupCreateError::InvalidZarrFormat(zf) => r@ == "invalid zarr format "@ + dec_of(
                    *zf as nat,
                ) + ", expected 3"@,
                GroupCreateError::InvalidNodeType(nt) => r@ == "invalid zarr format "@ + nt@
                    + ", expected group"@,
                GroupCreateError::NodePathError(e) => r@ == "invalid node path "@ + e.path@,
                GroupCreateError::UnsupportedAdditionalFieldError(e) => r@
                    == "unsupported additional field "@ + e.name@ + " with value "@
                    + e.value_text@,
                GroupCreateError::StorageError(e) => r@ == match e {
                    StorageError::InvalidMetadata(key, msg) => "error parsing metadata for "@
                        + key.spec_key() + ": "@ + msg@,
                    StorageError::InvalidByteRange(_) => "invalid byte range"@,
                    StorageError::Other(msg) => msg@,
                },
            },
    {
        match self {
            GroupCreateError::InvalidZarrFormat(zf) => {
                let mut s = String::new();
                s.append("invalid zarr format ");
                let t = crate::text::u64_to_dec_string(*zf);
                s.append(t.as_str());
                s.append(", expected 3");
                proof {
                    assert(Seq::<char>::empty() + "invalid zarr format "@ + dec_of(
                        self->InvalidZarrFormat_0 as nat,
                    ) + ", expected 3"@ =~= "invalid zarr format "@ + dec_of(
                        self->InvalidZarrFormat_0 as nat,
                    ) + ", expected 3"@);
                }
                s
            },
            GroupCreateError::InvalidNodeType(nt) => {
                let mut s = String::new();
                s.append("invalid zarr format ");
                s.append(nt.as_str());
                s.append(", expected group");
                proof {
                    assert(Seq::<char>::empty() + "invalid zarr format "@
                        + self->InvalidNodeType_0@ + ", expected group"@
                        =~= "invalid zarr format "@ + self->InvalidNodeType_0@
                        + ", expected group"@);
                }
                s
            },
            GroupCreateError::NodePathError(e) => e.to_string(),
            GroupCreateError::UnsupportedAdditionalFieldError(e) => e.to_string(),
            GroupCreateError::StorageError(e) => e.to_string(),
        }
    }
}

/// Validate group metadata: the format version must be 3, the node type
/// `group`, and every additional field must be permitted.
pub fn validate_group_metadata(metadata: &GroupMetadataV3) -> (r: Result<(), GroupCreateError>)
    requires
        group_metadata_wf(*metadata),
    ensures
        r is Ok <==> metadata.zarr_format == 3 && metadata.node_type@ == "group"@ && (forall|
            i: int,
        |
            0 <= i < metadata.additional_fields.fields@.len() ==> additional_field_permitted(
                (#[trigger] metadata.additional_fields.fields@[i]).1,
            )),
        r matches Err(e) ==> match e {
            GroupCreateError::InvalidZarrFormat(zf) => zf == metadata.zarr_format
                && metadata.zarr_format != 3,
            GroupCreateError::InvalidNodeType(nt) => metadata.zarr_format == 3 && nt@
                == metadata.node_type@ && metadata.node_type@ != "group"@,
            GroupCreateError::UnsupportedAdditionalFieldError(_) => metadata.zarr_format == 3
                && metadata.node_type@ == "group"@ && !(forall|i: int|
                0 <= i < metadata.additional_fields.fields@.len()
                    ==> additional_field_permitted(
                    (#[trigger] metadata.additional_fields.fields@[i]).1,
                )),
            _ => false,
        },
{
    if !metadata.validate_format() {
        Err(GroupCreateError::InvalidZarrFormat(metadata.zarr_format))
    } else if !metadata.validate_node_type() {
        Err(GroupCreateError::InvalidNodeType(metadata.node_type.clone()))
    } else {
        match metadata.additional_fields.validate() {
            Ok(_) => Ok(()),
            Err(e) => Err(GroupCreateError::UnsupportedAdditionalFieldError(e)),
        }
    }
}

/// A group: a node of the hierarchy holding metadata.
#[derive(Debug)]
pub struct Group {
    path: NodePath,
    metadata: GroupMetadataV3,
}

impl Group {
    /// The path of the group.
    pub closed spec fn spec_path(&self) -> Seq<char> {
        self.path.spec_path()
    }

    /// The metadata of the group.
    pub closed spec fn spec_metadata(&self) -> GroupMetadataV3 {
        self.metadata
    }

    /// The group is well formed.
    pub open spec fn wf(&self) -> bool {
        &&& node_path_valid(self.spec_path())
        &&& group_metadata_wf(self.spec_metadata())
        &&& self.spec_metadata().zarr_format == 3
        &&& self.spec_metadata().node_type@ == "group"@
    }

    /// Create a group at `path` with `metadata`.
    ///
    /// This does not write to a store; use
    /// [`store_metadata`](Group::store_metadata) for that. Fails if and only
    /// if the path or the metadata is invalid.
    pub fn new_with_metadata(path: &str, metadata: GroupMetadata) -> (r: Result<
        Self,
        GroupCreateError,
    >)
        requires
            metadata matches GroupMetadata::V3(m) ==> group_metadata_wf(m),
        ensures
            r matches Ok(g) ==> {
                &&& g.wf()
                &&& g.spec_path() == path@
                &&& metadata matches GroupMetadata::V3(m) && g.spec_metadata() == m
            },
            r is Ok <==> node_path_valid(path@) && (metadata matches GroupMetadata::V3(m)
                && m.zarr_format == 3 && m.node_type@ == "group"@ && (forall|i: int|
                0 <= i < m.additional_fields.fields@.len() ==> additional_field_permitted(
                    (#[trigger] m.additional_fields.fields@[i]).1,
                ))),
            r matches Err(e) ==> match e {
                GroupCreateError::NodePathError(_) => !node_path_valid(path@),
                GroupCreateError::InvalidZarrFormat(zf) => node_path_valid(path@) && (
                metadata matches GroupMetadata::V3(m) && zf == m.zarr_format && m.zarr_format
                    != 3),
                GroupCreateError::InvalidNodeType(nt) => node_path_valid(path@) && (
                metadata matches GroupMetadata::V3(m) && m.zarr_format == 3 && nt@
                    == m.node_type@ && m.node_type@ != "group"@),
                GroupCreateError::UnsupportedAdditionalFieldError(_) => node_path_valid(path@)
                    && (metadata matches GroupMetadata::V3(m) && m.zarr_format == 3
                    && m.node_type@ == "group"@ && !(forall|i: int|
                    0 <= i < m.additional_fields.fields@.len() ==> additional_field_permitted(
                        (#[trigger] m.additional_fields.fields@[i]).1,
                    ))),
                _ => false,
            },
    {
        let path = match NodePath::new(path) {
            Ok(p) => p,
            Err(e) => {
                return Err(GroupCreateError::NodePathError(e));
            },
        };
        let metadata = match metadata {
            GroupMetadata::V3(m) => m,
        };
        match validate_group_metadata(&metadata) {
            Ok(_) => Ok(Group { path, metadata }),
            Err(e) => Err(e),
        }
    }

    /// Read a group from `storage` at `path`.
    ///
    /// Absent metadata denotes an empty group; present metadata is parsed
    /// and validated.
    pub fn new<TStorage: ReadableStorageTraits>(storage: &TStorage, path: &str) -> (r: Result<
        Self,
        GroupCreateError,
    >)
        ensures
            r matches Ok(g) ==> g.wf() && g.spec_path() == path@,
            !node_path_valid(path@) ==> r is Err,
            node_path_valid(path@) && !storage.store_view().contains_key(meta_key_of(path@))
                ==> match r {
                Ok(g) => g.spec_metadata().zarr_format == 3 && g.spec_metadata().node_type@
                    == "group"@ && g.spec_metadata().attributes@.len() == 0
                    && g.spec_metadata().additional_fields.fields@.len() == 0,
                Err(e) => e is StorageError,
            },
    {
        let node_path = match NodePath::new(path) {
            Ok(p) => p,
            Err(e) => {
                return Err(GroupCreateError::NodePathError(e));
            },
        };
        let key = meta_key(&node_path);
        let data = match storage.get(&key) {
            Ok(d) => d,
            Err(e) => {
                return Err(GroupCreateError::StorageError(e));
            },
        };
        let metadata = match data {
            Some(bytes) => {
                let text = match crate::json::string_from_utf8(bytes) {
                    Some(t) => t,
                    None => {
                        return Err(
                            GroupCreateError::StorageError(
                                StorageError::InvalidMetadata(
                                    key,
                                    String::from_str("invalid UTF-8"),
                                ),
                            ),
                        );
                    },
                };
                let value = match parse_json(text.as_str()) {
                    Ok(v) => v,
                    Err(e) => {
                        return Err(
                            GroupCreateError::StorageError(
                                StorageError::InvalidMetadata(key, e.to_string()),
                            ),
                        );
                    },
                };
                match GroupMetadataV3::from_value(value) {
                    Ok(m) => m,
                    Err(msg) => {
                        return Err(
                            GroupCreateError::StorageError(
                                StorageError::InvalidMetadata(key, msg),
                            ),
                        );
                    },
                }
            },
            None => GroupMetadataV3::new(),
        };
        match validate_group_metadata(&metadata) {
            Ok(_) => Ok(Group { path: node_path, metadata }),
            Err(e) => Err(e),
        }
    }

    /// The path of the group.
    pub fn path(&self) -> (r: &NodePath)
        ensures
            r.spec_path() == self.spec_path(),
    {
        &self.path
    }

    /// The attributes of the group.
    pub fn attributes(&self) -> (r: &Vec<(String, JsonValue)>)
        ensures
            r@ == self.spec_metadata().attributes@,
    {
        &self.metadata.attributes
    }

    /// The additional fields of the group.
    pub fn additional_fields(&self) -> (r: &AdditionalFields)
        ensures
            *r == self.spec_metadata().additional_fields,
    {
        &self.metadata.additional_fields
    }

    /// The metadata of the group.
    pub fn metadata(&self) -> (r: &GroupMetadataV3)
        ensures
            *r == self.spec_metadata(),
    {
        &self.metadata
    }

    /// Replace the attributes of the group, returning the previous ones.
    ///
    /// A mutable borrow of the attributes cannot be returned here, so the
    /// attributes are exchanged by value.
    pub fn attributes_mut(&mut self, attributes: Vec<(String, JsonValue)>) -> (r: Vec<
        (String, JsonValue),
    >)
        ensures
            r@ == old(self).spec_metadata().attributes@,
            final(self).spec_metadata().attributes == attributes,
            final(self).spec_path() == old(self).spec_path(),
            final(self).spec_metadata().zarr_format == old(self).spec_metadata().zarr_format,
            final(self).spec_metadata().node_type == old(self).spec_metadata().node_type,
            final(self).spec_metadata().additional_fields == old(
                self,
            ).spec_metadata().additional_fields,
    {
        let mut attributes = attributes;
        core::mem::swap(&mut attributes, &mut self.metadata.attributes);
        attributes
    }

    /// Replace the additional fields of the group, returning the previous
    /// ones.
    ///
    /// A mutable borrow of the fields cannot be returned here, so the fields
    /// are exchanged by value.
    pub fn additional_fields_mut(&mut self, additional_fields: AdditionalFields) -> (r:
        AdditionalFields)
        ensures
            r == old(self).spec_metadata().additional_fields,
            final(self).spec_metadata().additional_fields == additional_fields,
            final(self).spec_path() == old(self).spec_path(),
            final(self).spec_metadata().zarr_format == old(self).spec_metadata().zarr_format,
            final(self).spec_metadata().node_type == old(self).spec_metadata().node_type,
            final(self).spec_metadata().attributes == old(self).spec_metadata().attributes,
    {
        let mut additional_fields = additional_fields;
        core::mem::swap(&mut additional_fields, &mut self.metadata.additional_fields);
        additional_fields
    }

    /// The description of the group: its path and its metadata text.
    pub fn to_string(&self) -> (r: String)
        requires
            group_metadata_wf(self.spec_metadata()),
        ensures
            r@ == "group at "@ + self.spec_path() + " with metadata "@ + group_metadata_text(
                self.spec_metadata(),
            ),
    {
        let mut s = String::new();
        s.append("group at ");
        s.append(self.path.as_str());
        s.append(" with metadata ");
        let m = self.metadata.to_string();
        s.append(m.as_str());
        proof {
            assert(Seq::<char>::empty() + "group at "@ + self.spec_path() + " with metadata "@
                + group_metadata_text(self.spec_metadata()) =~= "group at "@ + self.spec_path()
                + " with metadata "@ + group_metadata_text(self.spec_metadata()));
        }
        s
    }

    /// Write the metadata of the group to `storage`.
    ///
    /// On success the store holds, at the group's metadata key, exactly the
    /// UTF-8 bytes of the group's metadata text.
    pub fn store_metadata<TStorage: WritableStorageTraits>(&self, storage: &mut TStorage) -> (r:
        Result<(), StorageError>)
        requires
            self.wf(),
        ensures
            r is Ok ==> final(storage).store_view() == old(storage).store_view().insert(
                meta_key_of(self.spec_path()),
                vstd::utf8::encode_utf8(group_metadata_text(self.spec_metadata())),
            ),
    {
        let key = meta_key(&self.path);
        let text = self.metadata.to_string();
        let bytes = vstd::string::StrSliceExecFns::as_bytes_vec(text.as_str());
        storage.set(&key, bytes.as_slice())
    }
}

} // verus!
