//! Variable-dimension binary quantization: one bit per component, set
//! when the source component is positive. Bits are packed
//! little-endian: byte 0 holds bits 0 through 7, and so on.

use vstd::prelude::*;
use crate::metric::hamming;

verus! {

/// Errors of quantization operations.
#[derive(Clone, Debug, PartialEq, Eq, Structural)]
pub enum QuantizationError {
    /// Dimension must be positive, divisible by 8, and fit in 32 bits.
    InvalidDimension {
        /// The dimension provided.
        dimension: usize,
    },
    /// Dimension mismatch between two vectors.
    DimensionMismatch {
        /// Dimension expected.
        expected: usize,
        /// Dimension provided.
        actual: usize,
    },
    /// Byte length does not match the dimension.
    ByteLengthMismatch {
        /// Byte length expected (dimension / 8).
        expected: usize,
        /// Byte length provided.
        actual: usize,
    },
}

impl QuantizationError {
    /// The error as text.
    ///
    /// Relies on std's string formatting to render the fields.
    #[verifier::external_body]
    pub fn message(&self) -> String {
        match self {
            Self::InvalidDimension { dimension } => format!(
                "dimension must be divisible by 8, got {dimension}. \
                 Try using a dimension like 128, 384, 768, 1024, or 1536."
            ),
            Self::DimensionMismatch { expected, actual } => format!(
                "dimension mismatch: expected {expected}, got {actual}"
            ),
            Self::ByteLengthMismatch { expected, actual } => format!(
                "byte length mismatch: expected {expected}, got {actual}"
            ),
        }
    }
}

/// Whether a dimension is accepted: positive, divisible by 8, within
/// 32 bits.
pub open spec fn valid_dimension(dimension: int) -> bool {
    dimension > 0 && dimension % 8 == 0 && dimension <= u32::MAX
}

/// Bit `i` of a packed little-endian bit vector.
pub open spec fn spec_bit(bytes: Seq<u8>, i: int) -> bool {
    (bytes[i / 8] >> ((i % 8) as u8)) & 1 == 1
}

/// Setting bit `kk` of a byte leaves every other bit as it was.
proof fn lemma_set_bit(y: u8, kk: u8)
    by (bit_vector)
    requires
        kk < 8,
    ensures
        forall|tt: u8| tt < 8 && tt != kk ==> (#[trigger] (((y | (1u8 << kk)) >> tt) & 1)) == ((y
            >> tt) & 1),
        ((y | (1u8 << kk)) >> kk) & 1 == 1,
{
}

/// A binary quantized vector: `dimension` bits packed into
/// `dimension / 8` bytes.
#[derive(Clone, Debug, PartialEq, Eq)]
pub struct BinaryVector {
    data: Vec<u8>,
    dimension: usize,
}

impl BinaryVector {
    /// The packed bytes.
    pub closed spec fn data_bytes(&self) -> Seq<u8> {
        self.data@
    }

    /// The dimension in bits.
    pub closed spec fn dim(&self) -> int {
        self.dimension as int
    }

    /// Every constructed vector satisfies this: an accepted dimension
    /// and one bit of data per dimension.
    pub closed spec fn wf(&self) -> bool {
        valid_dimension(self.dim()) && self.data@.len() * 8 == self.dim()
    }

    /// What well-formedness gives: an accepted dimension and one bit
    /// of data per dimension.
    pub proof fn lemma_wf(&self)
        requires
            self.wf(),
        ensures
            valid_dimension(self.dim()),
            self.data_bytes().len() * 8 == self.dim(),
    {
    }

    /// Wraps raw packed bytes with a known dimension.
    pub fn from_bytes(data: Vec<u8>, dimension: usize) -> (r: Result<Self, QuantizationError>)
        ensures
            match r {
                Result::Ok(bv) => {
                    &&& valid_dimension(dimension as int)
                    &&& data@.len() * 8 == dimension
                    &&& bv.wf()
                    &&& bv.data_bytes() == data@
                    &&& bv.dim() == dimension
                },
                Result::Err(e) => {
                    &&& !(valid_dimension(dimension as int) && data@.len() * 8 == dimension)
                    &&& if !valid_dimension(dimension as int) {
                        e == (QuantizationError::InvalidDimension { dimension })
                    } else {
                        e == (QuantizationError::ByteLengthMismatch {
                            expected: (dimension / 8) as usize,
                            actual: data@.len() as usize,
                        })
                    }
                },
            },
    {
        if dimension == 0 || dimension % 8 != 0 || dimension > u32::MAX as usize {
            return Err(QuantizationError::InvalidDimension { dimension });
        }
        let expected_bytes = dimension / 8;
        if data.len() != expected_bytes {
            return Err(QuantizationError::ByteLengthMismatch {
                expected: expected_bytes,
                actual: data.len(),
            });
        }
        proof {
            assert(data@.len() * 8 == dimension) by (nonlinear_arith)
                requires
                    data@.len() == dimension / 8,
                    dimension % 8 == 0,
                    dimension >= 0,
            ;
        }
        Ok(BinaryVector { data, dimension })
    }

    /// Packs sign bits into a binary vector: bit `i` is `bits[i]`.
    /// The verified core of sign quantization; the caller computes
    /// each flag as "component `i` is positive".
    pub fn from_bits(bits: &[bool]) -> (r: Result<Self, QuantizationError>)
        ensures
            match r {
                Result::Ok(bv) => {
                    &&& valid_dimension(bits@.len() as int)
                    &&& bv.wf()
                    &&& bv.dim() == bits@.len()
                    &&& forall|i: int|
                        0 <= i < bits@.len() ==> spec_bit(bv.data_bytes(), i) == bits@[i]
                },
                Result::Err(e) => {
                    &&& !valid_dimension(bits@.len() as int)
                    &&& e == (QuantizationError::InvalidDimension {
                        dimension: bits@.len() as usize,
                    })
                },
            },
    {
        let dimension = bits.len();
        if dimension == 0 || dimension % 8 != 0 || dimension > u32::MAX as usize {
            return Err(QuantizationError::InvalidDimension { dimension });
        }
        let nbytes = dimension / 8;
        let mut data: Vec<u8> = Vec::new();
        let mut b: usize = 0;
        while b < nbytes
            invariant
                0 <= b <= nbytes,
                nbytes == dimension / 8,
                dimension % 8 == 0,
                dimension == bits@.len(),
                data@.len() == b,
                forall|i: int| 0 <= i < b * 8 ==> spec_bit(data@, i) == bits@[i],
            decreases nbytes - b,
        {
            let ghost olddata = data@;
            proof {
                assert(b * 8 + 8 <= dimension) by (nonlinear_arith)
                    requires
                        0 <= b < nbytes,
                        nbytes == dimension / 8,
                        dimension % 8 == 0,
                ;
                assert(forall|tt: u8| tt < 8 ==> #[trigger] ((0u8 >> tt) & 1) == 0)
                    by (bit_vector);
            }
            let mut byte: u8 = 0;
            let mut k: usize = 0;
            while k < 8
                invariant
                    0 <= k <= 8,
                    b < nbytes,
                    nbytes == dimension / 8,
                    dimension % 8 == 0,
                    dimension == bits@.len(),
                    b * 8 + 8 <= dimension,
                    forall|u: int|
                        b * 8 <= u < b * 8 + k ==> ((byte >> ((u - b * 8) as u8)) & 1 == 1)
                            == #[trigger] bits@[u],
                    forall|tt: u8| k <= tt < 8 ==> #[trigger] ((byte >> tt) & 1) == 0,
                decreases 8 - k,
            {
                proof {
                    assert(b * 8 + k < dimension) by (nonlinear_arith)
                        requires
                            0 <= b < nbytes,
                            0 <= k < 8,
                            nbytes == dimension / 8,
                            dimension % 8 == 0,
                    ;
                }
                let ghost oldbyte = byte;
                if bits[b * 8 + k] {
                    let bit: u8 = 1u8 << (k as u8);
                    byte = byte | bit;
                    proof {
                        lemma_set_bit(oldbyte, k as u8);
                        assert forall|u: int|
                            b * 8 <= u < b * 8 + (k + 1) implies ((byte >> ((u - b * 8) as u8)) & 1
                            == 1) == #[trigger] bits@[u] by {
                            let tt = (u - b * 8) as u8;
                            if u - b * 8 < k {
                                assert(((byte >> tt) & 1) == ((oldbyte >> tt) & 1));
                            } else {
                                assert(tt == k as u8);
                                assert(((byte >> tt) & 1) == 1);
                            }
                        }
                        assert forall|tt: u8| k + 1 <= tt < 8 implies #[trigger] ((byte >> tt) & 1)
                            == 0 by {
                            assert(((byte >> tt) & 1) == ((oldbyte >> tt) & 1));
                        }
                    }
                } else {
                    proof {
                        assert(((byte >> (k as u8)) & 1) == 0);
                        assert forall|u: int|
                            b * 8 <= u < b * 8 + (k + 1) implies ((byte >> ((u - b * 8) as u8)) & 1
                            == 1) == #[trigger] bits@[u] by {
                            if u - b * 8 == k {
                                assert(((byte >> (k as u8)) & 1) == 0);
                            }
                        }
                    }
                }
                k = k + 1;
            }
            data.push(byte);
            proof {
                assert forall|i: int| 0 <= i < (b + 1) * 8 implies spec_bit(data@, i)
                    == bits@[i] by {
                    assert((b + 1) * 8 == b * 8 + 8);
                    if i < b * 8 {
                        assert(0 <= i / 8 < b && i % 8 == i - (i / 8) * 8) by (nonlinear_arith)
                            requires
                                0 <= i < b * 8,
                        ;
                        assert(data@[i / 8] == olddata[i / 8]);
                        assert(spec_bit(olddata, i) == bits@[i]);
                    } else {
                        assert(i / 8 == b && i % 8 == i - b * 8) by (nonlinear_arith)
                            requires
                                b * 8 <= i < b * 8 + 8,
                        ;
                        assert(((byte >> ((i - b * 8) as u8)) & 1 == 1) == bits@[i]);
                    }
                }
            }
            b = b + 1;
        }
        proof {
            assert(nbytes * 8 == dimension) by (nonlinear_arith)
                requires
                    nbytes == dimension / 8,
                    dimension % 8 == 0,
                    dimension >= 0,
            ;
        }
        Ok(BinaryVector { data, dimension })
    }

    /// The dimension of this vector, in bits.
    pub fn dimension(&self) -> (r: usize)
        ensures
            r == self.dim(),
    {
        self.dimension
    }

    /// The size in bytes.
    pub fn bytes(&self) -> (r: usize)
        ensures
            r == self.data_bytes().len(),
    {
        self.data.len()
    }

    /// The packed binary data.
    pub fn data(&self) -> (r: &[u8])
        ensures
            r@ == self.data_bytes(),
    {
        self.data.as_slice()
    }

    /// The number of differing bits between two vectors of the same
    /// dimension, or a `DimensionMismatch` error.
    pub fn hamming_distance(&self, other: &Self) -> (r: Result<u32, QuantizationError>)
        requires
            self.wf(),
            other.wf(),
        ensures
            match r {
                Result::Ok(d) => self.dim() == other.dim() && d == hamming::spec_hamming(
                    self.data_bytes(),
                    other.data_bytes(),
                ),
                Result::Err(e) => self.dim() != other.dim() && e
                    == (QuantizationError::DimensionMismatch {
                    expected: self.dim() as usize,
                    actual: other.dim() as usize,
                }),
            },
    {
        if self.dimension != other.dimension {
            return Err(QuantizationError::DimensionMismatch {
                expected: self.dimension,
                actual: other.dimension,
            });
        }
        proof {
            assert(self.data@.len() * 8 <= u32::MAX);
        }
        Ok(hamming::hamming_distance_u8(self.data.as_slice(), other.data.as_slice()))
    }
}

} // verus!
