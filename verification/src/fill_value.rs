//! Fill values: the byte pattern of one element used for unwritten regions.

use vstd::prelude::*;

verus! {

/// Whether `data` is exactly `fill` repeated end to end.
pub open spec fn all_fill(fill: Seq<u8>, data: Seq<u8>) -> bool
    recommends
        fill.len() > 0,
{
    &&& data.len() % fill.len() == 0
    &&& forall|i: int| 0 <= i < data.len() ==> #[trigger] data[i] == fill[i % fill.len() as int]
}

/// The byte pattern of one element, used wherever no chunk is stored.
#[derive(Clone, Debug)]
pub struct FillValue {
    bytes: Vec<u8>,
}

impl FillValue {
    /// The bytes of the fill value.
    pub closed spec fn spec_bytes(&self) -> Seq<u8> {
        self.bytes@
    }

    /// Create a fill value from the bytes of one element.
    pub fn new(bytes: Vec<u8>) -> (r: Self)
        ensures
            r.spec_bytes() == bytes@,
    {
        Self { bytes }
    }

    /// The bytes of the fill value.
    pub fn as_slice(&self) -> (r: &[u8])
        ensures
            r@ == self.spec_bytes(),
    {
        self.bytes.as_slice()
    }

    /// The size of the fill value in bytes.
    pub fn size(&self) -> (r: usize)
        ensures
            r == self.spec_bytes().len(),
    {
        self.bytes.len()
    }

    /// Whether `data` is entirely made of this fill value, repeated.
    pub fn equals_all(&self, data: &[u8]) -> (r: bool)
        requires
            self.spec_bytes().len() >= 1,
        ensures
            r == all_fill(self.spec_bytes(), data@),
    {
        let flen = self.bytes.len();
        if data.len() % flen != 0 {
            return false;
        }
        let mut i: usize = 0;
        while i < data.len()
            invariant
                0 <= i <= data@.len(),
                flen == self.spec_bytes().len(),
                flen >= 1,
                data@.len() as int % flen as int == 0,
                forall|j: int|
                    0 <= j < i ==> #[trigger] data@[j] == self.spec_bytes()[j % flen as int],
            decreases data@.len() - i,
        {
            if data[i] != self.bytes[i % flen] {
                return false;
            }
            i = i + 1;
        }
        true
    }

    /// A buffer holding this fill value repeated `n` times.
    pub fn repeated(&self, n: usize) -> (r: Vec<u8>)
        requires
            self.spec_bytes().len() * n <= usize::MAX,
        ensures
            r@.len() == self.spec_bytes().len() * n,
            self.spec_bytes().len() >= 1 ==> all_fill(self.spec_bytes(), r@),
    {
        let flen = self.bytes.len();
        let mut out: Vec<u8> = Vec::new();
        let mut k: usize = 0;
        while k < n
            invariant
                0 <= k <= n,
                flen == self.spec_bytes().len(),
                flen * n <= usize::MAX,
                out@.len() == flen * k,
                forall|j: int|
                    0 <= j < out@.len() ==> #[trigger] out@[j] == self.spec_bytes()[j
                        % flen as int],
            decreases n - k,
        {
            proof {
                assert(flen * (k + 1) <= flen * n) by (nonlinear_arith)
                    requires
                        k + 1 <= n,
                        flen >= 0,
                ;
                assert(flen * k + flen == flen * (k + 1)) by (nonlinear_arith);
            }
            let mut b: usize = 0;
            while b < flen
                invariant
                    0 <= b <= flen,
                    flen == self.spec_bytes().len(),
                    out@.len() == flen * k + b,
                    flen * k + flen <= usize::MAX,
                    forall|j: int|
                        0 <= j < out@.len() ==> #[trigger] out@[j] == self.spec_bytes()[j
                            % flen as int],
                decreases flen - b,
            {
                self.push_fill_byte(&mut out, b, Ghost(k as nat));
                b = b + 1;
            }
            k = k + 1;
            proof {
                assert(flen * k == flen * (k - 1) + flen) by (nonlinear_arith)
                    requires
                        k >= 1,
                ;
            }
        }
        proof {
            assert(flen * n == self.spec_bytes().len() * n);
            if flen >= 1 {
                assert((flen * n) as int % flen as int == 0) by (nonlinear_arith)
                    requires
                        flen >= 1,
                ;
            }
        }
        out
    }

    /// Append byte `b` of the fill value to a buffer whose length is a whole
    /// number of fill values plus `b`.
    fn push_fill_byte(&self, out: &mut Vec<u8>, b: usize, k: Ghost<nat>)
        requires
            b < self.spec_bytes().len(),
            old(out)@.len() == self.spec_bytes().len() * k@ + b,
            old(out)@.len() < usize::MAX,
            forall|j: int|
                0 <= j < old(out)@.len() ==> #[trigger] old(out)@[j] == self.spec_bytes()[j
                    % self.spec_bytes().len() as int],
        ensures
            final(out)@ == old(out)@.push(self.spec_bytes()[b as int]),
            final(out)@.len() == old(out)@.len() + 1,
            forall|j: int|
                0 <= j < final(out)@.len() ==> #[trigger] final(out)@[j] == self.spec_bytes()[j
                    % self.spec_bytes().len() as int],
    {
        proof {
            let flen = self.spec_bytes().len() as int;
            let p = old(out)@.len() as int;
            assert(p % flen == b) by (nonlinear_arith)
                requires
                    flen >= 1,
                    0 <= b < flen,
                    p == flen * k@ + b,
            ;
        }
        out.push(self.bytes[b]);
    }
}

} // verus!
