//! Data types of array elements.
//!
//! Each data type has a fixed element size in bytes; element values are
//! carried as raw bytes throughout the library, so the data type governs
//! sizes and byte interpretation only.

use vstd::prelude::*;

verus! {

/// The data type of an array element.
#[derive(Clone, Copy, Debug, PartialEq, Eq, Structural)]
pub enum DataType {
    /// A boolean, one byte per element.
    Bool,
    /// A signed 8-bit integer.
    Int8,
    /// A signed 16-bit integer.
    Int16,
    /// A signed 32-bit integer.
    Int32,
    /// A signed 64-bit integer.
    Int64,
    /// An unsigned 8-bit integer.
    UInt8,
    /// An unsigned 16-bit integer.
    UInt16,
    /// An unsigned 32-bit integer.
    UInt32,
    /// An unsigned 64-bit integer.
    UInt64,
    /// A 16-bit floating point number, carried as raw bytes.
    Float16,
    /// A 32-bit floating point number, carried as raw bytes.
    Float32,
    /// A 64-bit floating point number, carried as raw bytes.
    Float64,
    /// A 16-bit brain floating point number, carried as raw bytes.
    BFloat16,
    /// A complex number of two 32-bit floating point parts.
    Complex64,
    /// A complex number of two 64-bit floating point parts.
    Complex128,
}

/// An unknown data type name was requested.
#[derive(Clone, Debug)]
pub struct UnsupportedDataTypeError {
    /// The name that was requested.
    pub name: String,
}

impl DataType {
    /// The element size of the data type in bytes.
    pub open spec fn spec_size(&self) -> usize {
        match self {
            DataType::Bool => 1,
            DataType::Int8 => 1,
            DataType::Int16 => 2,
            DataType::Int32 => 4,
            DataType::Int64 => 8,
            DataType::UInt8 => 1,
            DataType::UInt16 => 2,
            DataType::UInt32 => 4,
            DataType::UInt64 => 8,
            DataType::Float16 => 2,
            DataType::Float32 => 4,
            DataType::Float64 => 8,
            DataType::BFloat16 => 2,
            DataType::Complex64 => 8,
            DataType::Complex128 => 16,
        }
    }

    /// The name of the data type in metadata.
    pub open spec fn spec_name(&self) -> Seq<char> {
        match self {
            DataType::Bool => "bool"@,
            DataType::Int8 => "int8"@,
            DataType::Int16 => "int16"@,
            DataType::Int32 => "int32"@,
            DataType::Int64 => "int64"@,
            DataType::UInt8 => "uint8"@,
            DataType::UInt16 => "uint16"@,
            DataType::UInt32 => "uint32"@,
            DataType::UInt64 => "uint64"@,
            DataType::Float16 => "float16"@,
            DataType::Float32 => "float32"@,
            DataType::Float64 => "float64"@,
            DataType::BFloat16 => "bfloat16"@,
            DataType::Complex64 => "complex64"@,
            DataType::Complex128 => "complex128"@,
        }
    }

    /// The element size of the data type in bytes.
    pub fn size(&self) -> (r: usize)
        ensures
            r == self.spec_size(),
            1 <= r <= 16,
    {
        match self {
            DataType::Bool => 1,
            DataType::Int8 => 1,
            DataType::Int16 => 2,
            DataType::Int32 => 4,
            DataType::Int64 => 8,
            DataType::UInt8 => 1,
            DataType::UInt16 => 2,
            DataType::UInt32 => 4,
            DataType::UInt64 => 8,
            DataType::Float16 => 2,
            DataType::Float32 => 4,
            DataType::Float64 => 8,
            DataType::BFloat16 => 2,
            DataType::Complex64 => 8,
            DataType::Complex128 => 16,
        }
    }

    /// The name of the data type in metadata.
    pub fn name(&self) -> (r: &'static str)
        ensures
            r@ == self.spec_name(),
    {
        match self {
            DataType::Bool => "bool",
            DataType::Int8 => "int8",
            DataType::Int16 => "int16",
            DataType::Int32 => "int32",
            DataType::Int64 => "int64",
            DataType::UInt8 => "uint8",
            DataType::UInt16 => "uint16",
            DataType::UInt32 => "uint32",
            DataType::UInt64 => "uint64",
            DataType::Float16 => "float16",
            DataType::Float32 => "float32",
            DataType::Float64 => "float64",
            DataType::BFloat16 => "bfloat16",
            DataType::Complex64 => "complex64",
            DataType::Complex128 => "complex128",
        }
    }

    /// The data type named `name`.
    ///
    /// Fails with [`UnsupportedDataTypeError`] if and only if `name` is not
    /// a recognised data type name.
    pub fn from_name(name: &str) -> (r: Result<DataType, UnsupportedDataTypeError>)
        ensures
            r matches Ok(dt) ==> dt.spec_name() == name@,
            r is Err ==> forall|dt: DataType| #[trigger] dt.spec_name() != name@,
    {
        if crate::str_equal(name, "bool") {
            Ok(DataType::Bool)
        } else if crate::str_equal(name, "int8") {
            Ok(DataType::Int8)
        } else if crate::str_equal(name, "int16") {
            Ok(DataType::Int16)
        } else if crate::str_equal(name, "int32") {
            Ok(DataType::Int32)
        } else if crate::str_equal(name, "int64") {
            Ok(DataType::Int64)
        } else if crate::str_equal(name, "uint8") {
            Ok(DataType::UInt8)
        } else if crate::str_equal(name, "uint16") {
            Ok(DataType::UInt16)
        } else if crate::str_equal(name, "uint32") {
            Ok(DataType::UInt32)
        } else if crate::str_equal(name, "uint64") {
            Ok(DataType::UInt64)
        } else if crate::str_equal(name, "float16") {
            Ok(DataType::Float16)
        } else if crate::str_equal(name, "float32") {
            Ok(DataType::Float32)
        } else if crate::str_equal(name, "float64") {
            Ok(DataType::Float64)
        } else if crate::str_equal(name, "bfloat16") {
            Ok(DataType::BFloat16)
        } else if crate::str_equal(name, "complex64") {
            Ok(DataType::Complex64)
        } else if crate::str_equal(name, "complex128") {
            Ok(DataType::Complex128)
        } else {
            proof {
                assert forall|dt: DataType| #[trigger] dt.spec_name() != name@ by {}
            }
            Err(UnsupportedDataTypeError { name: name.to_owned() })
        }
    }
}

} // verus!
