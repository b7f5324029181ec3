//! The linear model and its wire encoding.
//!
//! A model is a weight matrix (`output_dim` rows by `input_dim` columns,
//! stored row-major) and a bias vector of length `output_dim`.  Every
//! parameter is held as the raw bit pattern of a 32-bit IEEE 754 float;
//! nothing in this crate interprets the patterns numerically, so the
//! structural guarantees (shapes, encodings, bookkeeping) hold for every
//! possible parameter value.

use vstd::prelude::*;

use crate::wire::{
    lemma_u64_le_at, lemma_words_le_at, lemma_words_le_len, push_u64_le, push_words_le,
    read_u32_le, read_u64_le, u32_at, u64_at, u64_le, words_le,
};

verus! {

/// The mathematical value of a [`LinearModel`]: its two dimensions and the
/// parameter words, free of any executable representation.
pub struct ModelView {
    pub input_dim: int,
    pub output_dim: int,
    pub weights: Seq<u32>,
    pub bias: Seq<u32>,
}

impl ModelView {
    /// Shape consistency: the weight matrix holds exactly
    /// `output_dim * input_dim` entries, the bias one entry per output, and
    /// both dimensions fit the machine's word size.
    pub open spec fn wf(self) -> bool {
        &&& 0 <= self.input_dim <= usize::MAX
        &&& 0 <= self.output_dim <= usize::MAX
        &&& self.weights.len() == self.output_dim * self.input_dim
        &&& self.bias.len() == self.output_dim
    }

    /// Two models have the same shape when their dimensions agree.
    pub open spec fn same_shape(self, other: ModelView) -> bool {
        self.input_dim == other.input_dim && self.output_dim == other.output_dim
    }
}

/// A linear model's parameters, as raw 32-bit float bit patterns.
pub struct LinearModel {
    pub input_dim: usize,
    pub output_dim: usize,
    pub weights: Vec<u32>,
    pub bias: Vec<u32>,
}

impl View for LinearModel {
    type V = ModelView;

    open spec fn view(&self) -> ModelView {
        ModelView {
            input_dim: self.input_dim as int,
            output_dim: self.output_dim as int,
            weights: self.weights@,
            bias: self.bias@,
        }
    }
}

impl LinearModel {
    /// A model of the given shape with every parameter word zero — the bit
    /// pattern of `+0.0`.  Callers that want a different initialisation (the
    /// usual small random draw) build the words themselves and go through
    /// [`LinearModel::from_bits`].
    pub fn new(input_dim: usize, output_dim: usize) -> (m: LinearModel)
        requires
            output_dim * input_dim <= usize::MAX,
        ensures
            m@.wf(),
            m@.input_dim == input_dim,
            m@.output_dim == output_dim,
            forall|k: int| 0 <= k < m@.weights.len() ==> m@.weights[k] == 0u32,
            forall|k: int| 0 <= k < m@.bias.len() ==> m@.bias[k] == 0u32,
    {
        let n: usize = output_dim * input_dim;
        let mut weights: Vec<u32> = Vec::new();
        let mut k: usize = 0;
        while k < n
            invariant
                k <= n,
                weights@.len() == k,
                forall|j: int| 0 <= j < k ==> weights@[j] == 0u32,
            decreases n - k,
        {
            weights.push(0);
            k = k + 1;
        }
        let mut bias: Vec<u32> = Vec::new();
        let mut o: usize = 0;
        while o < output_dim
            invariant
                o <= output_dim,
                bias@.len() == o,
                forall|j: int| 0 <= j < o ==> bias@[j] == 0u32,
            decreases output_dim - o,
        {
            bias.push(0);
            o = o + 1;
        }
        LinearModel { input_dim, output_dim, weights, bias }
    }

    /// Builds a model from explicit parameter words, rejecting word vectors
    /// whose lengths do not match the requested shape.
    pub fn from_bits(
        input_dim: usize,
        output_dim: usize,
        weights: Vec<u32>,
        bias: Vec<u32>,
    ) -> (r: Option<LinearModel>)
        ensures
            match r {
                Some(m) => {
                    &&& m@.wf()
                    &&& m@.input_dim == input_dim
                    &&& m@.output_dim == output_dim
                    &&& m@.weights == weights@
                    &&& m@.bias == bias@
                },
                None => weights@.len() != output_dim * input_dim || bias@.len()
                    != output_dim as int,
            },
    {
        let held = weights.len();
        let expected = output_dim.checked_mul(input_dim);
        match expected {
            Some(n) => {
                if held == n && bias.len() == output_dim {
                    Some(LinearModel { input_dim, output_dim, weights, bias })
                } else {
                    None
                }
            },
            None => {
                // The requested shape needs more entries than a vector can
                // hold (`held <= usize::MAX` but the product overflows), so
                // no word vector can match it.
                None
            },
        }
    }

    /// Encodes the model as bytes: both dimensions as 64-bit words, then
    /// every weight, then every bias entry, all little-endian.
    pub fn serialize(&self) -> (r: Vec<u8>)
        ensures
            r@ == encode_spec(self@),
    {
        let mut out: Vec<u8> = Vec::new();
        push_u64_le(&mut out, self.input_dim as u64);
        push_u64_le(&mut out, self.output_dim as u64);
        push_words_le(&mut out, &self.weights);
        push_words_le(&mut out, &self.bias);
        out
    }

    /// Decodes bytes produced by [`LinearModel::serialize`], rejecting any
    /// byte string that is not exactly the encoding of some model: too short
    /// a header, dimensions beyond the machine's word size, or a length that
    /// does not match the dimensions.
    pub fn deserialize(bytes: &[u8]) -> (r: Result<LinearModel, DeserializationError>)
        ensures
            match r {
                Ok(m) => decode_spec(bytes@) == Some(m@) && m@.wf(),
                Err(_) => decode_spec(bytes@) is None,
            },
    {
        let blen = bytes.len();
        if blen < 16 {
            return Err(DeserializationError);
        }
        let din64 = read_u64_le(bytes, 0);
        let dout64 = read_u64_le(bytes, 8);
        if din64 > usize::MAX as u64 || dout64 > usize::MAX as u64 {
            return Err(DeserializationError);
        }
        let din = din64 as usize;
        let dout = dout64 as usize;
        proof {
            vstd::arithmetic::mul::lemma_mul_upper_bound(
                dout as int,
                u64::MAX as int,
                din as int,
                u64::MAX as int,
            );
        }
        let wlen128: u128 = (dout as u128) * (din as u128);
        if wlen128 > usize::MAX as u128 {
            // The length equation below could never hold: the weight block
            // alone would be longer than any slice.
            return Err(DeserializationError);
        }
        let need128: u128 = 16 + 4 * (wlen128 + dout as u128);
        if need128 != blen as u128 {
            return Err(DeserializationError);
        }
        let wlen = wlen128 as usize;
        let mut weights: Vec<u32> = Vec::new();
        let mut k: usize = 0;
        while k < wlen
            invariant
                k <= wlen,
                weights@.len() == k,
                bytes@.len() == blen,
                16 + 4 * (wlen + dout) == blen,
                forall|j: int| 0 <= j < k ==> weights@[j] == u32_at(bytes@, 16 + 4 * j),
            decreases wlen - k,
        {
            let w = read_u32_le(bytes, 16 + 4 * k);
            weights.push(w);
            k = k + 1;
        }
        let mut bias: Vec<u32> = Vec::new();
        let mut o: usize = 0;
        while o < dout
            invariant
                o <= dout,
                bias@.len() == o,
                bytes@.len() == blen,
                16 + 4 * (wlen + dout) == blen,
                forall|j: int| 0 <= j < o ==> bias@[j] == u32_at(bytes@, 16 + 4 * wlen + 4 * j),
            decreases dout - o,
        {
            let w = read_u32_le(bytes, 16 + 4 * wlen + 4 * o);
            bias.push(w);
            o = o + 1;
        }
        let m = LinearModel { input_dim: din, output_dim: dout, weights, bias };
        proof {
            let dv = decode_spec(bytes@);
            assert(m@.weights =~= Seq::new((dout as int * din as int) as nat,
                |j: int| u32_at(bytes@, 16 + 4 * j)));
            assert(m@.bias =~= Seq::new(dout as nat,
                |j: int| u32_at(bytes@, 16 + 4 * (dout as int * din as int) + 4 * j)));
            assert(dv == Some(m@));
        }
        Ok(m)
    }
}

/// The byte encoding of a model value.
pub open spec fn encode_spec(v: ModelView) -> Seq<u8> {
    u64_le(v.input_dim as u64) + u64_le(v.output_dim as u64) + words_le(v.weights) + words_le(
        v.bias)
}

/// The model value encoded in a byte string, or `None` where the bytes are
/// not the encoding of any model.
pub open spec fn decode_spec(b: Seq<u8>) -> Option<ModelView> {
    if b.len() < 16 {
        None
    } else {
        let din = u64_at(b, 0);
        let dout = u64_at(b, 8);
        if din > usize::MAX || dout > usize::MAX {
            None
        } else {
            let wlen = dout as int * din as int;
            if b.len() == 16 + 4 * (wlen + dout) {
                Some(ModelView {
                    input_dim: din as int,
                    output_dim: dout as int,
                    weights: Seq::new(wlen as nat, |k: int| u32_at(b, 16 + 4 * k)),
                    bias: Seq::new(dout as nat, |k: int| u32_at(b, 16 + 4 * wlen + 4 * k)),
                })
            } else {
                None
            }
        }
    }
}

/// The bytes a model produces decode back to exactly that model: the
/// encoding loses nothing, bit for bit.
pub proof fn lemma_decode_encode(v: ModelView)
    requires
        v.wf(),
    ensures
        decode_spec(encode_spec(v)) == Some(v),
{
    let b = encode_spec(v);
    let head = u64_le(v.input_dim as u64) + u64_le(v.output_dim as u64);
    let wbytes = words_le(v.weights);
    let bbytes = words_le(v.bias);
    lemma_words_le_len(v.weights);
    lemma_words_le_len(v.bias);
    assert(b.len() == 16 + 4 * (v.weights.len() + v.bias.len()));
    assert(b.subrange(0, 8) =~= u64_le(v.input_dim as u64));
    assert(b.subrange(8, 16) =~= u64_le(v.output_dim as u64));
    lemma_u64_le_at(v.input_dim as u64);
    lemma_u64_le_at(v.output_dim as u64);
    assert(u64_at(b, 0) == v.input_dim as u64) by {
        assert forall|j: int| 0 <= j < 8 implies b[j] == u64_le(v.input_dim as u64)[j] by {}
    }
    assert(u64_at(b, 8) == v.output_dim as u64) by {
        assert forall|j: int| 0 <= j < 8 implies b[8 + j] == #[trigger] u64_le(v.output_dim as u64)[j] by {}
    }
    let wlen = v.output_dim * v.input_dim;
    assert(u64_at(b, 0) as int == v.input_dim);
    assert(u64_at(b, 8) as int == v.output_dim);
    assert forall|k: int| 0 <= k < wlen implies #[trigger] u32_at(b, 16 + 4 * k)
        == v.weights[k] by {
        lemma_words_le_at(v.weights, k);
        assert forall|j: int| 0 <= j < 4 implies b[16 + 4 * k + j] == #[trigger] wbytes[4 * k + j] by {}
        assert(u32_at(b, 16 + 4 * k) == u32_at(wbytes, 4 * k));
    }
    assert forall|k: int| 0 <= k < v.bias.len() implies #[trigger] u32_at(b, 16 + 4 * wlen + 4 * k)
        == v.bias[k] by {
        lemma_words_le_at(v.bias, k);
        assert forall|j: int| 0 <= j < 4 implies b[16 + 4 * wlen + 4 * k + j]
            == #[trigger] bbytes[4 * k + j] by {}
        assert(u32_at(b, 16 + 4 * wlen + 4 * k) == u32_at(bbytes, 4 * k));
    }
    let d = decode_spec(b).unwrap();
    assert(d.weights =~= v.weights);
    assert(d.bias =~= v.bias);
}

/// Failure of [`LinearModel::deserialize`]: the bytes are not the encoding
/// of any model.
#[derive(Clone, Copy, Debug, PartialEq, Eq, Structural)]
pub struct DeserializationError;

} // verus!
