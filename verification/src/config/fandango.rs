//! The Fandango configuration: inputs are plain bytes, seeded from the corpus,
//! and handed to the target unchanged.
use vstd::prelude::*;
use libafl::inputs::{BytesInput, HasMutatorBytes, ValueInput};

verus! {

#[verifier::external_type_specification]
#[verifier::external_body]
#[verifier::reject_recursive_types(T)]
pub struct ExValueInput<T>(ValueInput<T>);

/// The bytes that a `BytesInput` holds.
pub uninterp spec fn bytes_input_contents(input: BytesInput) -> Seq<u8>;

/// `BytesInput::new`: the input holds exactly the given bytes.
#[verifier::external_body]
fn bytes_input_new(bytes: Vec<u8>) -> (r: BytesInput)
    ensures
        bytes_input_contents(r) == bytes@,
{
    BytesInput::new(bytes)
}

/// `HasMutatorBytes::mutator_bytes` on a `BytesInput`: the bytes it holds.
#[verifier::external_body]
fn bytes_input_bytes(input: &BytesInput) -> (r: &[u8])
    ensures
        r@ == bytes_input_contents(*input),
{
    input.mutator_bytes()
}

/// Fuzzing with inputs generated and mutated by a Fandango grammar.
pub struct FandangoConfig;

impl FandangoConfig {
    /// Each input is mutated once per stage run.
    pub fn max_iterations() -> (r: usize)
        ensures
            r == 1,
    {
        1
    }

    /// The initial inputs: one input per corpus file, holding its bytes, in order.
    pub fn initial_inputs(corpus: &Vec<Vec<u8>>) -> (r: Vec<BytesInput>)
        ensures
            r@.len() == corpus@.len(),
            forall|i: int| 0 <= i < corpus@.len() ==> bytes_input_contents(#[trigger] r@[i]) == corpus@[i]@,
    {
        let mut inputs: Vec<BytesInput> = Vec::new();
        let mut i: usize = 0;
        while i < corpus.len()
            invariant
                i <= corpus@.len(),
                inputs@.len() == i,
                forall|k: int| 0 <= k < i ==> bytes_input_contents(#[trigger] inputs@[k]) == corpus@[k]@,
            decreases corpus@.len() - i,
        {
            let bytes = corpus[i].clone();
            inputs.push(bytes_input_new(bytes));
            i = i + 1;
        }
        inputs
    }

    /// What the target is run on: the bytes of the input, unchanged.
    pub fn run_harness<'a>(_init: &'a mut (), input: &'a BytesInput) -> (r: &'a [u8])
        ensures
            r@ == bytes_input_contents(*input),
    {
        bytes_input_bytes(input)
    }
}

} // verus!
