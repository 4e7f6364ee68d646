//! Representations of decoded chunks and encoded byte streams.

use vstd::prelude::*;

use crate::data_type::DataType;
use crate::fill_value::FillValue;
use crate::indexing::{shape_positive, shape_product};

verus! {

/// The fill value does not match the data type's element size.
#[derive(Clone, Debug)]
pub struct IncompatibleFillValueError {
    /// The element size of the data type in bytes.
    pub data_type_size: usize,
    /// The size of the fill value in bytes.
    pub fill_value_size: usize,
}

/// The decoded representation of one chunk: its shape, data type and fill
/// value.
#[derive(Clone, Debug)]
pub struct ChunkRepresentation {
    shape: Vec<u64>,
    data_type: DataType,
    fill_value: FillValue,
}

impl ChunkRepresentation {
    /// The shape of the chunk.
    pub closed spec fn spec_shape(&self) -> Seq<u64> {
        self.shape@
    }

    /// The data type of the chunk.
    pub closed spec fn spec_data_type(&self) -> DataType {
        self.data_type
    }

    /// The fill value of the chunk.
    pub closed spec fn spec_fill_value(&self) -> FillValue {
        self.fill_value
    }

    /// The number of elements of the chunk.
    pub open spec fn spec_num_elements(&self) -> nat {
        shape_product(self.spec_shape())
    }

    /// The size of the decoded chunk in bytes.
    pub open spec fn spec_size(&self) -> nat {
        (self.spec_num_elements() * self.spec_data_type().spec_size()) as nat
    }

    /// The representation is well formed: positive extents, a fill value of
    /// one element, and a decoded size that fits in memory.
    pub open spec fn wf(&self) -> bool {
        &&& shape_positive(self.spec_shape())
        &&& self.spec_fill_value().spec_bytes().len() == self.spec_data_type().spec_size()
        &&& self.spec_size() <= usize::MAX
    }

    /// Create a chunk representation.
    ///
    /// Fails with [`IncompatibleFillValueError`] if and only if the fill
    /// value size differs from the data type's element size.
    pub fn new(shape: Vec<u64>, data_type: DataType, fill_value: FillValue) -> (r: Result<
        Self,
        IncompatibleFillValueError,
    >)
        requires
            shape_positive(shape@),
            shape_product(shape@) * data_type.spec_size() <= usize::MAX,
        ensures
            r is Ok <==> fill_value.spec_bytes().len() == data_type.spec_size(),
            r matches Ok(c) ==> {
                &&& c.spec_shape() == shape@
                &&& c.spec_data_type() == data_type
                &&& c.spec_fill_value() == fill_value
                &&& c.wf()
            },
    {
        if fill_value.size() != data_type.size() {
            return Err(IncompatibleFillValueError {
                data_type_size: data_type.size(),
                fill_value_size: fill_value.size(),
            });
        }
        Ok(Self { shape, data_type, fill_value })
    }

    /// A structural copy of the representation.
    pub fn duplicate(&self) -> (r: Self)
        ensures
            r.spec_shape() == self.spec_shape(),
            r.spec_data_type() == self.spec_data_type(),
            r.spec_fill_value().spec_bytes() == self.spec_fill_value().spec_bytes(),
    {
        ChunkRepresentation {
            shape: self.shape.clone(),
            data_type: self.data_type,
            fill_value: FillValue::new(vstd::slice::slice_to_vec(self.fill_value.as_slice())),
        }
    }

    /// The shape of the chunk.
    pub fn shape(&self) -> (r: &[u64])
        ensures
            r@ == self.spec_shape(),
    {
        self.shape.as_slice()
    }

    /// The data type of the chunk.
    pub fn data_type(&self) -> (r: &DataType)
        ensures
            *r == self.spec_data_type(),
    {
        &self.data_type
    }

    /// The fill value of the chunk.
    pub fn fill_value(&self) -> (r: &FillValue)
        ensures
            *r == self.spec_fill_value(),
    {
        &self.fill_value
    }

    /// The element size of the chunk's data type in bytes.
    pub fn element_size(&self) -> (r: usize)
        ensures
            r == self.spec_data_type().spec_size(),
    {
        self.data_type.size()
    }

    /// The number of elements of the chunk.
    pub fn num_elements(&self) -> (r: u64)
        requires
            self.wf(),
        ensures
            r == self.spec_num_elements(),
    {
        proof {
            crate::indexing::lemma_shape_product_positive(self.spec_shape());
            assert(self.spec_num_elements() <= self.spec_num_elements()
                * self.spec_data_type().spec_size()) by (nonlinear_arith)
                requires
                    self.spec_data_type().spec_size() >= 1,
                    self.spec_num_elements() >= 0,
            ;
        }
        crate::indexing::num_elements_of(self.shape.as_slice())
    }

    /// The size of the decoded chunk in bytes.
    pub fn size(&self) -> (r: usize)
        requires
            self.wf(),
        ensures
            r == self.spec_size(),
    {
        let n = self.num_elements();
        proof {
            assert((n as nat) * (self.spec_data_type().spec_size() as nat) == self.spec_size());
        }
        (n as usize) * self.data_type.size()
    }
}

/// The representation of an encoded byte stream: its exact size, an upper
/// bound on its size, or unbounded.
#[derive(Clone, Copy, Debug)]
pub enum BytesRepresentation {
    /// The encoded size is known exactly.
    FixedSize(u64),
    /// The encoded size is at most the given bound.
    BoundedSize(u64),
    /// Nothing is known of the encoded size.
    UnboundedSize,
}

impl BytesRepresentation {
    /// The known exact or bounded size, if any.
    pub fn size(&self) -> (r: Option<u64>)
        ensures
            r == match *self {
                BytesRepresentation::FixedSize(s) => Some(s),
                BytesRepresentation::BoundedSize(s) => Some(s),
                BytesRepresentation::UnboundedSize => None::<u64>,
            },
    {
        match self {
            BytesRepresentation::FixedSize(s) => Some(*s),
            BytesRepresentation::BoundedSize(s) => Some(*s),
            BytesRepresentation::UnboundedSize => None,
        }
    }
}

} // verus!
