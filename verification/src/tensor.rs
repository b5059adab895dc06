//! Host-resident tensors and their little-endian byte serialization.
//!
//! Element values are carried as the bit patterns of 32-bit floats, one `u32`
//! word per element. All storage and retrieval in this crate is bit-exact, so
//! nothing here needs to interpret the patterns numerically; the unverified
//! host boundary converts between `f32` values and these words.

use crate::errors::MicroscopeError;
use vstd::bytes::{
    lemma_auto_spec_u32_to_from_le_bytes, spec_u32_from_le_bytes, spec_u32_to_le_bytes,
    u32_from_le_bytes, u32_to_le_bytes,
};
use vstd::prelude::*;
use vstd::slice::slice_subrange;

verus! {

/// One captured tensor: a rank-3 shape `[batch, seq_len, hidden]` and a flat,
/// row-major buffer of element bit patterns.
#[derive(Debug, PartialEq, Eq)]
pub struct Tensor {
    /// Exactly three entries, each positive.
    pub shape: Vec<usize>,
    /// One 32-bit word per element; length equals the product of the shape.
    pub data: Vec<u32>,
}

/// Number of elements a rank-3 shape declares.
pub open spec fn spec_element_count(shape: Seq<usize>) -> int
    recommends
        shape.len() == 3,
{
    shape[0] * shape[1] * shape[2]
}

/// The shape error the strict constructors report: first a wrong rank, then
/// a zero dimension, then a count mismatch between the declared shape (in
/// units of `unit`, one per element or four bytes per element) and the `got`
/// buffer length, with the expectation saturated at the machine word when the
/// declared count exceeds it.
pub open spec fn spec_shape_error(shape: Seq<usize>, unit: int, got: usize) -> MicroscopeError {
    if shape.len() != 3 {
        MicroscopeError::InvalidShape { expected: 3, got: shape.len() as usize }
    } else if shape[0] == 0 || shape[1] == 0 || shape[2] == 0 {
        MicroscopeError::InvalidShape { expected: 1, got: 0 }
    } else if unit * spec_element_count(shape) > usize::MAX {
        MicroscopeError::InvalidShape { expected: usize::MAX, got }
    } else {
        MicroscopeError::InvalidShape {
            expected: (unit * spec_element_count(shape)) as usize,
            got,
        }
    }
}

/// Little-endian serialization of a word sequence, four bytes per word.
pub open spec fn spec_le_bytes(words: Seq<u32>) -> Seq<u8>
    decreases words.len(),
{
    if words.len() == 0 {
        Seq::empty()
    } else {
        spec_u32_to_le_bytes(words[0]) + spec_le_bytes(words.skip(1))
    }
}

/// Words read back from a little-endian byte sequence, four bytes at a time.
pub open spec fn spec_le_words(bytes: Seq<u8>) -> Seq<u32>
    decreases bytes.len(),
{
    if bytes.len() < 4 {
        Seq::empty()
    } else {
        seq![spec_u32_from_le_bytes(bytes.take(4))] + spec_le_words(bytes.skip(4))
    }
}

pub proof fn lemma_le_bytes_len(words: Seq<u32>)
    ensures
        spec_le_bytes(words).len() == 4 * words.len(),
    decreases words.len(),
{
    lemma_auto_spec_u32_to_from_le_bytes();
    if words.len() > 0 {
        lemma_le_bytes_len(words.skip(1));
    }
}

pub proof fn lemma_le_bytes_push(words: Seq<u32>, w: u32)
    ensures
        spec_le_bytes(words.push(w)) == spec_le_bytes(words) + spec_u32_to_le_bytes(w),
    decreases words.len(),
{
    lemma_auto_spec_u32_to_from_le_bytes();
    if words.len() == 0 {
        assert(words.push(w)[0] == w);
        assert(words.push(w).skip(1) =~= Seq::<u32>::empty());
        assert(spec_le_bytes(words.push(w)) == spec_u32_to_le_bytes(words.push(w)[0])
            + spec_le_bytes(words.push(w).skip(1)));
        assert(spec_le_bytes(words.push(w).skip(1)) == Seq::<u8>::empty());
        assert(spec_le_bytes(words) == Seq::<u8>::empty());
        assert(spec_le_bytes(words.push(w)) =~= spec_le_bytes(words) + spec_u32_to_le_bytes(w));
    } else {
        assert(words.push(w).skip(1) =~= words.skip(1).push(w));
        lemma_le_bytes_push(words.skip(1), w);
        assert(spec_le_bytes(words.push(w)) =~= spec_le_bytes(words) + spec_u32_to_le_bytes(w));
    }
}

/// Decoding undoes encoding: the serialized form of any word sequence reads
/// back as exactly that sequence.
pub proof fn lemma_le_round_trip(words: Seq<u32>)
    ensures
        spec_le_words(spec_le_bytes(words)) == words,
    decreases words.len(),
{
    lemma_auto_spec_u32_to_from_le_bytes();
    if words.len() == 0 {
    } else {
        let bytes = spec_le_bytes(words);
        let head = spec_u32_to_le_bytes(words[0]);
        lemma_le_bytes_len(words.skip(1));
        assert(bytes.take(4) =~= head);
        assert(bytes.skip(4) =~= spec_le_bytes(words.skip(1)));
        lemma_le_round_trip(words.skip(1));
        assert(spec_le_words(bytes) =~= words);
    }
}

/// Appending four bytes to a word-aligned byte sequence appends one word to
/// its decoding.
pub proof fn lemma_le_words_append(bytes: Seq<u8>, four: Seq<u8>)
    requires
        bytes.len() % 4 == 0,
        four.len() == 4,
    ensures
        spec_le_words(bytes + four) == spec_le_words(bytes).push(spec_u32_from_le_bytes(four)),
    decreases bytes.len(),
{
    lemma_auto_spec_u32_to_from_le_bytes();
    if bytes.len() == 0 {
        assert((bytes + four).take(4) =~= four);
        assert((bytes + four).skip(4) =~= Seq::<u8>::empty());
        assert(spec_le_words(bytes + four) == seq![
            spec_u32_from_le_bytes((bytes + four).take(4)),
        ] + spec_le_words((bytes + four).skip(4)));
        assert(spec_le_words((bytes + four).skip(4)) == Seq::<u32>::empty());
        assert(spec_le_words(bytes) == Seq::<u32>::empty());
        assert(spec_le_words(bytes + four) =~= spec_le_words(bytes).push(
            spec_u32_from_le_bytes(four),
        ));
    } else {
        assert((bytes + four).take(4) =~= bytes.take(4));
        assert((bytes + four).skip(4) =~= bytes.skip(4) + four);
        lemma_le_words_append(bytes.skip(4), four);
        assert(spec_le_words(bytes + four) =~= spec_le_words(bytes).push(
            spec_u32_from_le_bytes(four),
        ));
    }
}

/// Serialize a word sequence to little-endian bytes.
pub fn words_to_le_bytes(words: &Vec<u32>) -> (r: Vec<u8>)
    ensures
        r@ == spec_le_bytes(words@),
        r@.len() == 4 * words@.len(),
{
    let mut r: Vec<u8> = Vec::new();
    let mut i: usize = 0;
    assert(words@.take(0) =~= Seq::<u32>::empty());
    while i < words.len()
        invariant
            i <= words.len(),
            r@ == spec_le_bytes(words@.take(i as int)),
            r@.len() == 4 * i,
        decreases words.len() - i,
    {
        let mut b = u32_to_le_bytes(words[i]);
        proof {
            lemma_le_bytes_push(words@.take(i as int), words@[i as int]);
            assert(words@.take(i as int + 1) =~= words@.take(i as int).push(words@[i as int]));
        }
        r.append(&mut b);
        i = i + 1;
    }
    proof {
        assert(words@.take(words@.len() as int) =~= words@);
        lemma_le_bytes_len(words@);
    }
    r
}

/// Read a word-aligned little-endian byte sequence back into words.
pub fn words_from_le_bytes(bytes: &[u8]) -> (r: Vec<u32>)
    requires
        bytes@.len() % 4 == 0,
    ensures
        r@ == spec_le_words(bytes@),
        r@.len() * 4 == bytes@.len(),
{
    let n = bytes.len();
    let mut r: Vec<u32> = Vec::new();
    let mut i: usize = 0;
    assert(bytes@.take(0) =~= Seq::<u8>::empty());
    while i < n / 4
        invariant
            i <= n / 4,
            n == bytes@.len(),
            n % 4 == 0,
            r@ == spec_le_words(bytes@.take(4 * i as int)),
            r@.len() == i,
        decreases n / 4 - i,
    {
        let four = slice_subrange(bytes, 4 * i, 4 * i + 4);
        let w = u32_from_le_bytes(four);
        proof {
            lemma_le_words_append(bytes@.take(4 * i as int), four@);
            assert(bytes@.take(4 * (i as int + 1)) =~= bytes@.take(4 * i as int) + four@);
        }
        r.push(w);
        i = i + 1;
    }
    assert(bytes@.take(4 * (n / 4) as int) =~= bytes@);
    r
}

impl Tensor {
    /// The structural invariant: rank three, positive dimensions, and a data
    /// buffer of exactly the declared element count.
    pub open spec fn wf(&self) -> bool {
        &&& self.shape@.len() == 3
        &&& 1 <= self.shape@[0]
        &&& 1 <= self.shape@[1]
        &&& 1 <= self.shape@[2]
        &&& self.data@.len() == spec_element_count(self.shape@)
    }

    /// Whether a proposed shape and buffer satisfy the invariant.
    pub open spec fn spec_valid(shape: Seq<usize>, data: Seq<u32>) -> bool {
        &&& shape.len() == 3
        &&& 1 <= shape[0]
        &&& 1 <= shape[1]
        &&& 1 <= shape[2]
        &&& data.len() == spec_element_count(shape)
    }

    /// Strict constructor: accepts exactly the shape/buffer pairs that satisfy
    /// the invariant and reports the mismatch otherwise.
    pub fn new(shape: Vec<usize>, data: Vec<u32>) -> (r: Result<Tensor, MicroscopeError>)
        ensures
            Self::spec_valid(shape@, data@) <==> r is Ok,
            r matches Ok(t) ==> t.shape@ == shape@ && t.data@ == data@ && t.wf(),
            r is Err ==> r == Err::<Tensor, MicroscopeError>(
                spec_shape_error(shape@, 1, data@.len() as usize),
            ),
    {
        if shape.len() != 3 {
            return Err(MicroscopeError::InvalidShape { expected: 3, got: shape.len() });
        }
        if shape[0] == 0 || shape[1] == 0 || shape[2] == 0 {
            return Err(MicroscopeError::InvalidShape { expected: 1, got: 0 });
        }
        let c01 = shape[0].checked_mul(shape[1]);
        let count_opt: Option<usize> = match c01 {
            Some(p) => p.checked_mul(shape[2]),
            None => None,
        };
        let count = match count_opt {
            Some(c) => c,
            None => {
                // The declared count exceeds what a buffer can hold, so no
                // buffer matches it; report the saturated expectation.
                let dlen = data.len();
                assert(spec_element_count(shape@) > usize::MAX && dlen < spec_element_count(
                    shape@,
                )) by (nonlinear_arith)
                    requires
                        shape@.len() == 3,
                        shape@[0] * shape@[1] > usize::MAX || shape@[0] * shape@[1] * shape@[2]
                            > usize::MAX,
                        1 <= shape@[0] && 1 <= shape@[1] && 1 <= shape@[2],
                        dlen <= usize::MAX,
                ;
                return Err(MicroscopeError::InvalidShape { expected: usize::MAX, got: dlen });
            },
        };
        if data.len() != count {
            return Err(MicroscopeError::InvalidShape { expected: count, got: data.len() });
        }
        Ok(Tensor { shape, data })
    }

    /// Lenient constructor: a valid pair yields that tensor, anything else
    /// degrades to the zero-filled single-element fallback instead of failing.
    pub fn new_or_fallback(shape: Vec<usize>, data: Vec<u32>) -> (r: Tensor)
        ensures
            r.wf(),
            Self::spec_valid(shape@, data@) ==> r.shape@ == shape@ && r.data@ == data@,
            !Self::spec_valid(shape@, data@) ==> r.is_fallback(),
    {
        match Self::new(shape, data) {
            Ok(t) => t,
            Err(_) => Self::fallback(),
        }
    }

    /// Whether `t` is the zero-filled `[1, 1, 1]` tensor that lenient
    /// accessors degrade to.
    pub open spec fn is_fallback(&self) -> bool {
        &&& self.shape@ == seq![1usize, 1usize, 1usize]
        &&& self.data@ == seq![0u32]
    }

    /// The zero-filled `[1, 1, 1]` tensor used by lenient accessors.
    pub fn fallback() -> (r: Tensor)
        ensures
            r.is_fallback(),
            r.wf(),
    {
        let r = Tensor { shape: vec![1, 1, 1], data: vec![0] };
        assert(r.shape@ =~= seq![1usize, 1usize, 1usize]);
        assert(r.data@ =~= seq![0u32]);
        r
    }

    /// Number of elements held.
    pub fn num_elements(&self) -> (r: usize)
        ensures
            r == self.data@.len(),
    {
        self.data.len()
    }

    /// Serialize the element buffer to little-endian bytes.
    pub fn to_le_bytes(&self) -> (r: Vec<u8>)
        ensures
            r@ == spec_le_bytes(self.data@),
            r@.len() == 4 * self.data@.len(),
    {
        words_to_le_bytes(&self.data)
    }

    /// Rebuild a tensor of the given shape from serialized bytes, failing with
    /// a data-integrity error when the byte count does not match the shape.
    pub fn from_le_bytes(shape: Vec<usize>, bytes: &[u8]) -> (r: Result<
        Tensor,
        MicroscopeError,
    >)
        ensures
            r is Ok <==> (shape@.len() == 3 && 1 <= shape@[0] && 1 <= shape@[1] && 1 <= shape@[2]
                && bytes@.len() == 4 * spec_element_count(shape@)),
            r matches Ok(t) ==> t.shape@ == shape@ && t.data@ == spec_le_words(bytes@) && t.wf(),
            r is Err ==> r == Err::<Tensor, MicroscopeError>(
                spec_shape_error(shape@, 4, bytes@.len() as usize),
            ),
    {
        if shape.len() != 3 {
            return Err(MicroscopeError::InvalidShape { expected: 3, got: shape.len() });
        }
        if shape[0] == 0 || shape[1] == 0 || shape[2] == 0 {
            return Err(MicroscopeError::InvalidShape { expected: 1, got: 0 });
        }
        let c01 = shape[0].checked_mul(shape[1]);
        let c012: Option<usize> = match c01 {
            Some(p) => p.checked_mul(shape[2]),
            None => None,
        };
        let count_opt: Option<usize> = match c012 {
            Some(c) => c.checked_mul(4),
            None => None,
        };
        let count = match count_opt {
            Some(c) => c,
            None => {
                let blen = bytes.len();
                assert(4 * spec_element_count(shape@) > usize::MAX && blen < 4
                    * spec_element_count(shape@)) by (nonlinear_arith)
                    requires
                        shape@.len() == 3,
                        shape@[0] * shape@[1] > usize::MAX || shape@[0] * shape@[1] * shape@[2]
                            > usize::MAX || shape@[0] * shape@[1] * shape@[2] * 4 > usize::MAX,
                        1 <= shape@[0] && 1 <= shape@[1] && 1 <= shape@[2],
                        blen <= usize::MAX,
                ;
                return Err(MicroscopeError::InvalidShape { expected: usize::MAX, got: blen });
            },
        };
        if bytes.len() != count {
            return Err(MicroscopeError::InvalidShape { expected: count, got: bytes.len() });
        }
        let data = words_from_le_bytes(bytes);
        Ok(Tensor { shape, data })
    }
}

impl Clone for Tensor {
    /// Cloning preserves the shape and the exact element bit patterns.
    fn clone(&self) -> (r: Self)
        ensures
            r.shape@ == self.shape@,
            r.data@ == self.data@,
    {
        let shape = self.shape.clone();
        let data = self.data.clone();
        assert(shape@ =~= self.shape@);
        assert(data@ =~= self.data@);
        Tensor { shape, data }
    }
}

} // verus!
