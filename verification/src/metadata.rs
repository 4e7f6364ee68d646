//! Metadata building blocks shared by arrays and groups.

use vstd::prelude::*;
use vstd::string::StringExecFns;

use crate::json::{json_text, object_get, value_wf, write_value, JsonValue};

verus! {

/// Named metadata of a plugin: a name and an optional configuration object.
#[derive(Debug)]
pub struct Metadata {
    /// The plugin name.
    pub name: String,
    /// The configuration entries, in document order.
    pub configuration: Vec<(String, JsonValue)>,
}

/// A plugin creation error.
#[derive(Debug)]
pub enum PluginCreateError {
    /// The named plugin is not supported.
    Unsupported {
        /// The requested plugin name.
        name: String,
        /// The kind of plugin requested.
        plugin_type: String,
    },
    /// The metadata of the plugin is invalid.
    MetadataInvalid {
        /// The plugin name.
        name: String,
    },
    /// Any other creation failure.
    Other(String),
}

/// An additional field is permitted if and only if it is an object holding
/// `"must_understand": false`.
pub open spec fn additional_field_permitted(v: JsonValue) -> bool {
    match v {
        JsonValue::Object(entries) => object_get(entries@, "must_understand"@) == Some(
            JsonValue::Bool(false),
        ),
        _ => false,
    }
}

/// An unsupported additional field.
#[derive(Clone, Debug)]
pub struct UnsupportedAdditionalFieldError {
    /// The name of the field.
    pub name: String,
    /// The JSON text of the value of the field.
    pub value_text: String,
}

impl UnsupportedAdditionalFieldError {
    /// The error message.
    pub fn to_string(&self) -> (r: String)
        ensures
            r@ == "unsupported additional field "@ + self.name@ + " with value "@
                + self.value_text@,
    {
        let mut s = String::new();
        s.append("unsupported additional field ");
        s.append(self.name.as_str());
        s.append(" with value ");
        s.append(self.value_text.as_str());
        proof {
            assert(Seq::<char>::empty() + "unsupported additional field "@ + self.name@
                + " with value "@ + self.value_text@ =~= "unsupported additional field "@
                + self.name@ + " with value "@ + self.value_text@);
        }
        s
    }
}

/// Additional fields of a metadata document: fields beyond those the format
/// defines, each tagged with `"must_understand": false` when permitted.
#[derive(Debug)]
pub struct AdditionalFields {
    /// The fields, in document order.
    pub fields: Vec<(String, JsonValue)>,
}

/// Every additional field holds a well-formed value.
pub open spec fn additional_fields_wf(f: AdditionalFields) -> bool {
    forall|i: int| 0 <= i < f.fields@.len() ==> value_wf((#[trigger] f.fields@[i]).1)
}

impl AdditionalFields {
    /// An empty set of additional fields.
    pub fn new() -> (r: Self)
        ensures
            r.fields@.len() == 0,
            additional_fields_wf(r),
    {
        AdditionalFields { fields: Vec::new() }
    }

    /// Whether there are no additional fields.
    pub fn is_empty(&self) -> (r: bool)
        ensures
            r == (self.fields@.len() == 0),
    {
        self.fields.len() == 0
    }

    /// Validate the additional fields.
    ///
    /// Succeeds if and only if every field is an object holding
    /// `"must_understand": false`; otherwise reports the first offending
    /// field, in document order.
    pub fn validate(&self) -> (r: Result<(), UnsupportedAdditionalFieldError>)
        requires
            additional_fields_wf(*self),
        ensures
            r is Ok <==> (forall|i: int|
                0 <= i < self.fields@.len() ==> additional_field_permitted(
                    (#[trigger] self.fields@[i]).1,
                )),
            r matches Err(e) ==> exists|i: int|
                0 <= i < self.fields@.len() && !additional_field_permitted(
                    (#[trigger] self.fields@[i]).1,
                ) && e.name@ == self.fields@[i].0@ && e.value_text@ == json_text(
                    self.fields@[i].1,
                ),
    {
        let mut i: usize = 0;
        while i < self.fields.len()
            invariant
                0 <= i <= self.fields@.len(),
                additional_fields_wf(*self),
                forall|j: int|
                    0 <= j < i ==> additional_field_permitted((#[trigger] self.fields@[j]).1),
            decreases self.fields@.len() - i,
        {
            let v = &self.fields[i].1;
            let permitted = match v.get_field("must_understand") {
                Some(mv) => {
                    match mv.as_bool() {
                        Some(b) => !b,
                        None => false,
                    }
                },
                None => false,
            };
            if !permitted {
                proof {
                    assert(!additional_field_permitted(self.fields@[i as int].1));
                    assert(value_wf(self.fields@[i as int].1));
                }
                let name = self.fields[i].0.clone();
                let mut value_text = String::new();
                write_value(&mut value_text, v);
                proof {
                    assert(Seq::<char>::empty() + json_text(self.fields@[i as int].1)
                        =~= json_text(self.fields@[i as int].1));
                }
                return Err(UnsupportedAdditionalFieldError { name, value_text });
            }
            i = i + 1;
        }
        Ok(())
    }
}

/// The value of the first configuration entry named `name`.
pub fn config_get<'x>(config: &'x Vec<(String, JsonValue)>, name: &str) -> (r: Option<
    &'x JsonValue,
>)
    ensures
        match r {
            Some(v) => object_get(config@, name@) == Some(*v),
            None => object_get(config@, name@) is None,
        },
{
    let mut i: usize = 0;
    proof {
        assert(config@.skip(0) =~= config@);
    }
    while i < config.len()
        invariant
            0 <= i <= config@.len(),
            object_get(config@, name@) == object_get(config@.skip(i as int), name@),
        decreases config@.len() - i,
    {
        proof {
            assert(config@.skip(i as int)[0] == config@[i as int]);
            assert(config@.skip(i as int).skip(1) =~= config@.skip(i + 1));
        }
        if crate::str_equal(config[i].0.as_str(), name) {
            return Some(&config[i].1);
        }
        i = i + 1;
    }
    proof {
        assert(config@.skip(config@.len() as int) =~= Seq::<(String, JsonValue)>::empty());
    }
    None
}

} // verus!
