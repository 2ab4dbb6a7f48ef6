//! One training or inference sample and its blob format.
//!
//! A sample is an input vector and a target vector of fixed-point values;
//! a sample built for inference only carries an empty target. Samples own
//! their serialization so batches can be persisted independently of the
//! model; decoding a malformed blob fails with `SampleParsingError`.

use vstd::prelude::*;
use crate::errors::NeuralError;
use crate::serial::{
    btw_s, bytes_to_words, lemma_unwords_words, lemma_words_round_trip, lemma_wtb_len, push_words,
    unwords_s, words_of_s, words_to_bytes, wtb_s,
};

verus! {

/// The mathematical view of a sample.
#[verifier::ext_equal]
pub struct SampleModel {
    pub input: Seq<i64>,
    pub target: Seq<i64>,
}

/// One (input, target) pair.
#[derive(Clone, Debug)]
pub struct Sample {
    pub input: Vec<i64>,
    pub target: Vec<i64>,
}

impl View for Sample {
    type V = SampleModel;

    open spec fn view(&self) -> SampleModel {
        SampleModel { input: self.input@, target: self.target@ }
    }
}

/// The word layout of a sample: each vector preceded by its length.
pub open spec fn sample_words_s(m: SampleModel) -> Seq<u64> {
    seq![m.input.len() as u64] + words_of_s(m.input) + seq![m.target.len() as u64]
        + words_of_s(m.target)
}

/// The byte blob of a sample.
pub open spec fn ser_sample_s(m: SampleModel) -> Seq<u8> {
    wtb_s(sample_words_s(m))
}

/// Decoding the word layout: `None` exactly on malformed input, including
/// trailing words.
pub open spec fn parse_sample_words_s(ws: Seq<u64>) -> Option<SampleModel> {
    if ws.len() < 1 {
        None
    } else {
        let n1 = ws[0] as int;
        if ws.len() < 1 + n1 + 1 {
            None
        } else {
            let n2 = ws[1 + n1] as int;
            if ws.len() != 1 + n1 + 1 + n2 {
                None
            } else {
                Some(
                    SampleModel {
                        input: unwords_s(ws.subrange(1, 1 + n1)),
                        target: unwords_s(ws.subrange(1 + n1 + 1, 1 + n1 + 1 + n2)),
                    },
                )
            }
        }
    }
}

/// Decoding the byte blob.
pub open spec fn parse_sample_s(bs: Seq<u8>) -> Option<SampleModel> {
    if bs.len() % 8 != 0 {
        None
    } else {
        parse_sample_words_s(btw_s(bs))
    }
}

/// A sample's blob decodes back to the sample.
pub proof fn lemma_sample_round_trip(m: SampleModel)
    requires
        m.input.len() <= u64::MAX,
        m.target.len() <= u64::MAX,
    ensures
        parse_sample_s(ser_sample_s(m)) == Some(m),
{
    let ws = sample_words_s(m);
    lemma_wtb_len(ws);
    lemma_words_round_trip(ws);
    let n1 = m.input.len() as int;
    let n2 = m.target.len() as int;
    assert(ws.len() == 1 + n1 + 1 + n2);
    assert(ws[0] == m.input.len() as u64);
    assert(ws[1 + n1] == m.target.len() as u64);
    assert(ws.subrange(1, 1 + n1) =~= words_of_s(m.input));
    assert(ws.subrange(1 + n1 + 1, 1 + n1 + 1 + n2) =~= words_of_s(m.target));
    lemma_unwords_words(m.input);
    lemma_unwords_words(m.target);
    assert(parse_sample_words_s(ws) == Some(SampleModel {
        input: unwords_s(words_of_s(m.input)),
        target: unwords_s(words_of_s(m.target)),
    }));
    assert(parse_sample_s(ser_sample_s(m)) == Some(SampleModel {
        input: m.input,
        target: m.target,
    }));
    assert(SampleModel { input: m.input, target: m.target } =~= m);
}

/// Copies `count` words starting at `*pos` into signed values, advancing
/// the cursor.
pub(crate) fn read_i64s(ws: &Vec<u64>, pos: &mut usize, count: usize) -> (r: Vec<i64>)
    requires
        *old(pos) + count <= ws@.len(),
    ensures
        r@ == unwords_s(ws@.subrange(*old(pos) as int, *old(pos) + count)),
        *final(pos) == *old(pos) + count,
{
    let limit = ws.len();
    let mut r: Vec<i64> = Vec::new();
    let mut i: usize = 0;
    while i < count
        invariant
            0 <= i <= count,
            limit == ws@.len(),
            *old(pos) + count <= ws@.len(),
            *pos == *old(pos) + i,
            r@ =~= unwords_s(ws@.subrange(*old(pos) as int, *old(pos) + i)),
        decreases count - i,
    {
        proof {
            assert(unwords_s(ws@.subrange(*old(pos) as int, *old(pos) + i + 1))
                =~= unwords_s(ws@.subrange(*old(pos) as int, *old(pos) + i)).push(
                    ws@[*old(pos) + i] as i64));
        }
        r.push(ws[*pos] as i64);
        *pos = *pos + 1;
        i = i + 1;
    }
    r
}

impl Sample {
    /// A labeled sample.
    pub fn new(input: Vec<i64>, target: Vec<i64>) -> (s: Sample)
        ensures
            s@.input == input@,
            s@.target == target@,
    {
        Sample { input, target }
    }

    /// An inference-only sample with no target.
    pub fn predict(input: Vec<i64>) -> (s: Sample)
        ensures
            s@.input == input@,
            s@.target.len() == 0,
    {
        Sample { input, target: Vec::new() }
    }

    /// The sample's byte blob.
    pub fn get_serial(&self) -> (r: Vec<u8>)
        ensures
            r@ == ser_sample_s(self@),
    {
        let mut ws: Vec<u64> = Vec::new();
        ws.push(self.input.len() as u64);
        push_words(&mut ws, &self.input);
        ws.push(self.target.len() as u64);
        push_words(&mut ws, &self.target);
        proof {
            assert(ws@ =~= sample_words_s(self@));
        }
        words_to_bytes(&ws)
    }

    /// Decodes a sample blob; fails with `SampleParsingError` exactly on
    /// blobs that no sample serializes to.
    pub fn from_string(bytes: Vec<u8>) -> (res: Result<Sample, NeuralError>)
        ensures
            match res {
                Ok(s) => parse_sample_s(bytes@) == Some(s@),
                Err(e) => parse_sample_s(bytes@) is None && e == NeuralError::SampleParsingError,
            },
    {
        if bytes.len() % 8 != 0 {
            return Err(NeuralError::SampleParsingError);
        }
        let ws = bytes_to_words(&bytes);
        if ws.len() < 1 {
            return Err(NeuralError::SampleParsingError);
        }
        let n1w = ws[0];
        if n1w > (ws.len() - 1) as u64 {
            return Err(NeuralError::SampleParsingError);
        }
        let n1 = n1w as usize;
        if ws.len() - 1 - n1 < 1 {
            return Err(NeuralError::SampleParsingError);
        }
        let mut pos: usize = 1;
        let input = read_i64s(&ws, &mut pos, n1);
        let n2w = ws[pos];
        pos = pos + 1;
        if n2w > (ws.len() - pos) as u64 {
            return Err(NeuralError::SampleParsingError);
        }
        let n2 = n2w as usize;
        if ws.len() - pos != n2 {
            return Err(NeuralError::SampleParsingError);
        }
        let target = read_i64s(&ws, &mut pos, n2);
        let s = Sample { input, target };
        proof {
            assert(parse_sample_words_s(ws@) == Some(s@));
        }
        Ok(s)
    }
}

} // verus!
