//! The Nautilus configuration: inputs are sequences of token codes. Grammar
//! output is split into tokens, each distinct token gets the next free code,
//! and before each run the codes are turned back into text for the target.
use vstd::prelude::*;
use vstd::utf8::{encode_utf8, valid_utf8};
use libafl::inputs::{EncodedInput, InputDecoder, InputEncoder, NaiveTokenizer, TokenInputEncoderDecoder};
use libafl::stages::mutational::DEFAULT_MUTATIONAL_MAX_ITERATIONS;
use crate::text::{decimal, push_decimal};

verus! {

#[verifier::external_type_specification]
#[verifier::external_body]
pub struct ExTokenInputEncoderDecoder(TokenInputEncoderDecoder);

#[verifier::external_type_specification]
#[verifier::external_body]
pub struct ExEncodedInput(EncodedInput);

/// The tokens that a `TokenInputEncoderDecoder` knows, by code: the token at
/// index `i` is the one with code `i`. Codes are handed out as `0, 1, 2, ..`,
/// so its table of codes covers exactly the indices of this sequence.
pub uninterp spec fn decoder_tokens(coder: TokenInputEncoderDecoder) -> Seq<Seq<char>>;

/// The codes that an `EncodedInput` holds.
pub uninterp spec fn encoded_codes(input: EncodedInput) -> Seq<u32>;

/// The tokens that the default `NaiveTokenizer` splits `bytes` into
/// (`None` when it refuses them).
pub uninterp spec fn naive_tokens(bytes: Seq<u8>) -> Option<Seq<Seq<char>>>;

/// Encoding `toks` on top of the known tokens `table`: a known token gets its
/// code, a new one is appended to the table and gets the next code. Gives the
/// new table and the codes.
pub open spec fn encode_tokens(table: Seq<Seq<char>>, toks: Seq<Seq<char>>) -> (Seq<Seq<char>>, Seq<u32>)
    decreases toks.len(),
{
    if toks.len() == 0 {
        (table, seq![])
    } else {
        let prev = encode_tokens(table, toks.drop_last());
        let tok = toks.last();
        if prev.0.contains(tok) {
            (prev.0, prev.1.push(prev.0.index_of(tok) as u32))
        } else {
            (prev.0.push(tok), prev.1.push(prev.0.len() as u32))
        }
    }
}

/// Decoding `codes` with the known tokens `table`: each code's token (the code
/// taken modulo the table's size), in UTF-8, followed by a space.
pub open spec fn decoded_bytes(table: Seq<Seq<char>>, codes: Seq<u32>) -> Seq<u8>
    decreases codes.len(),
{
    if codes.len() == 0 {
        seq![]
    } else {
        decoded_bytes(table, codes.drop_last()) + encode_utf8(table[codes.last() as int % table.len() as int])
            + seq![32u8]
    }
}

/// `TokenInputEncoderDecoder::new`: no token is known.
#[verifier::external_body]
fn new_token_coder() -> (r: TokenInputEncoderDecoder)
    ensures
        decoder_tokens(r) == Seq::<Seq<char>>::empty(),
{
    TokenInputEncoderDecoder::new()
}

/// `InputEncoder::encode` with a default `NaiveTokenizer`. The tokenizer
/// refuses exactly the bytes that are not UTF-8, and then nothing changes;
/// otherwise the tokens are encoded as `encode_tokens` says. Each token is a
/// nonempty piece of the text, so there are at most `bytes.len()` tokens and
/// codes, and the bound in `requires` keeps the next free code within a `u32`.
#[verifier::external_body]
fn encode_with_naive_tokenizer(coder: &mut TokenInputEncoderDecoder, bytes: &[u8]) -> (r: Option<EncodedInput>)
    requires
        decoder_tokens(*old(coder)).no_duplicates(),
        decoder_tokens(*old(coder)).len() + bytes@.len() <= u32::MAX,
    ensures
        r is None <==> !valid_utf8(bytes@),
        r matches Some(e) ==> encoded_codes(e).len() <= bytes@.len(),
        match naive_tokens(bytes@) {
            None => r is None && decoder_tokens(*final(coder)) == decoder_tokens(*old(coder)),
            Some(toks) => r matches Some(e) && encode_tokens(decoder_tokens(*old(coder)), toks) == (
            decoder_tokens(*final(coder)), encoded_codes(e)),
        },
{
    match coder.encode(bytes, &mut NaiveTokenizer::default()) {
        Ok(e) => Some(e),
        Err(_) => None,
    }
}

/// `InputDecoder::decode`: appends each code's token and a space to `bytes`.
/// With at least one known token every code is found (codes are taken modulo
/// the number of tokens), so it never fails.
#[verifier::external_body]
fn decode_with_coder(coder: &TokenInputEncoderDecoder, input: &EncodedInput, bytes: &mut Vec<u8>) -> (ok: bool)
    requires
        decoder_tokens(*coder).len() > 0 || encoded_codes(*input).len() == 0,
    ensures
        ok,
        final(bytes)@ == old(bytes)@ + decoded_bytes(decoder_tokens(*coder), encoded_codes(*input)),
{
    coder.decode(input, bytes).is_ok()
}

/// `EncodedInput::codes`.
#[verifier::external_body]
fn encoded_input_codes(input: &EncodedInput) -> (r: &[u32])
    ensures
        r@ == encoded_codes(*input),
{
    input.codes()
}

/// `DEFAULT_MUTATIONAL_MAX_ITERATIONS` of LibAFL's mutational stage.
#[verifier::external_body]
fn default_mutational_max_iterations() -> (r: usize)
    ensures
        r == 128,
{
    DEFAULT_MUTATIONAL_MAX_ITERATIONS
}

/// Bytes with a NUL byte at the end: added unless the last byte already is one.
pub open spec fn nul_terminated(b: Seq<u8>) -> Seq<u8> {
    if b.len() > 0 && b.last() == 0 {
        b
    } else {
        b.push(0)
    }
}

/// Each decoded token adds at least its space.
proof fn lemma_decoded_len(table: Seq<Seq<char>>, codes: Seq<u32>)
    ensures
        decoded_bytes(table, codes).len() >= codes.len(),
    decreases codes.len(),
{
    if codes.len() > 0 {
        lemma_decoded_len(table, codes.drop_last());
    }
}

/// The tokens, each in UTF-8 and followed by a space.
pub open spec fn spaced_tokens(toks: Seq<Seq<char>>) -> Seq<u8>
    decreases toks.len(),
{
    if toks.len() == 0 {
        seq![]
    } else {
        spaced_tokens(toks.drop_last()) + encode_utf8(toks.last()) + seq![32u8]
    }
}

/// One code per token.
proof fn lemma_encode_codes_len(table: Seq<Seq<char>>, toks: Seq<Seq<char>>)
    ensures
        encode_tokens(table, toks).1.len() == toks.len(),
    decreases toks.len(),
{
    if toks.len() > 0 {
        lemma_encode_codes_len(table, toks.drop_last());
    }
}

/// What encoding does to the table and the codes: known tokens keep their
/// codes, no token is known twice, each code names its token, and the highest
/// new code is used.
pub proof fn lemma_encode_tokens(table: Seq<Seq<char>>, toks: Seq<Seq<char>>)
    requires
        table.no_duplicates(),
        table.len() + toks.len() <= u32::MAX,
    ensures
        ({
            let (t, c) = encode_tokens(table, toks);
            &&& t.no_duplicates()
            &&& table.len() <= t.len() <= table.len() + toks.len()
            &&& t.subrange(0, table.len() as int) == table
            &&& c.len() == toks.len()
            &&& forall|i: int| 0 <= i < c.len() ==> (#[trigger] c[i]) < t.len() && t[c[i] as int] == toks[i]
            &&& t.len() > table.len() ==> exists|i: int| 0 <= i < c.len() && #[trigger] c[i] == t.len() - 1
        }),
    decreases toks.len(),
{
    if toks.len() > 0 {
        let p = toks.drop_last();
        lemma_encode_tokens(table, p);
        let (t1, c1) = encode_tokens(table, p);
        let tok = toks.last();
        let (t, c) = encode_tokens(table, toks);
        if t1.contains(tok) {
            let k = t1.index_of(tok);
            assert(0 <= k < t1.len() && t1[k] == tok);
            assert(c == c1.push(k as u32));
            assert forall|i: int| 0 <= i < c.len() implies (#[trigger] c[i]) < t.len() && t[c[i] as int] == toks[i] by {
                if i < c1.len() {
                    assert(c[i] == c1[i]);
                    assert(toks[i] == p[i]);
                }
            }
            if t.len() > table.len() {
                let j = choose|j: int| 0 <= j < c1.len() && #[trigger] c1[j] == t1.len() - 1;
                assert(c[j] == c1[j]);
            }
        } else {
            assert(t == t1.push(tok));
            assert(c == c1.push(t1.len() as u32));
            assert(t.subrange(0, table.len() as int) =~= t1.subrange(0, table.len() as int));
            assert forall|i: int| 0 <= i < c.len() implies (#[trigger] c[i]) < t.len() && t[c[i] as int] == toks[i] by {
                if i < c1.len() {
                    assert(c[i] == c1[i]);
                    assert(toks[i] == p[i]);
                }
            }
            assert forall|i: int, j: int| 0 <= i < t.len() && 0 <= j < t.len() && i != j implies t[i] != t[j] by {
                if i < t1.len() && j < t1.len() {
                } else if i == t1.len() {
                    assert(t1[j] != tok);
                } else {
                    assert(t1[i] != tok);
                }
            }
            assert(c[c.len() - 1] == t.len() - 1);
        }
    }
}

/// Decoding codes that all name a known token gives those tokens, spaced.
proof fn lemma_decode_known_codes(table: Seq<Seq<char>>, codes: Seq<u32>)
    requires
        forall|i: int| 0 <= i < codes.len() ==> (#[trigger] codes[i]) < table.len(),
    ensures
        decoded_bytes(table, codes) == spaced_tokens(Seq::new(codes.len(), |i: int| table[codes[i] as int])),
    decreases codes.len(),
{
    if codes.len() > 0 {
        let p = codes.drop_last();
        lemma_decode_known_codes(table, p);
        let whole = Seq::new(codes.len(), |i: int| table[codes[i] as int]);
        assert(whole.drop_last() =~= Seq::new(p.len(), |i: int| table[p[i] as int]));
        assert(codes.last() < table.len());
        vstd::arithmetic::div_mod::lemma_small_mod(codes.last() as nat, table.len() as nat);
    }
}

/// Decoding what was just encoded gives back the tokens of the encoded text,
/// each followed by a space.
pub proof fn lemma_decode_after_encode(table: Seq<Seq<char>>, toks: Seq<Seq<char>>)
    requires
        table.no_duplicates(),
        table.len() + toks.len() <= u32::MAX,
    ensures
        decoded_bytes(encode_tokens(table, toks).0, encode_tokens(table, toks).1) == spaced_tokens(toks),
{
    lemma_encode_tokens(table, toks);
    let (t, c) = encode_tokens(table, toks);
    lemma_decode_known_codes(t, c);
    assert(Seq::new(c.len(), |i: int| t[c[i] as int]) =~= toks);
}

/// An input encoded earlier decodes to the same bytes after more inputs are
/// encoded: the table only grows at its end, and the input's codes all name
/// tokens that were known when it was encoded.
pub proof fn lemma_decoding_survives_later_encoding(
    earlier: Seq<Seq<char>>,
    later: Seq<Seq<char>>,
    codes: Seq<u32>,
)
    requires
        earlier.len() <= later.len(),
        later.subrange(0, earlier.len() as int) == earlier,
        forall|i: int| 0 <= i < codes.len() ==> (#[trigger] codes[i]) < earlier.len(),
    ensures
        decoded_bytes(later, codes) == decoded_bytes(earlier, codes),
{
    assert forall|i: int| 0 <= i < codes.len() implies (#[trigger] codes[i]) < later.len() by {}
    lemma_decode_known_codes(earlier, codes);
    lemma_decode_known_codes(later, codes);
    assert forall|i: int| 0 <= i < codes.len() implies later[codes[i] as int] == earlier[codes[i] as int] by {
        assert(later.subrange(0, earlier.len() as int)[codes[i] as int] == later[codes[i] as int]);
    }
    assert(Seq::new(codes.len(), |i: int| later[codes[i] as int]) =~= Seq::new(
        codes.len(),
        |i: int| earlier[codes[i] as int],
    ));
}

/// What the target is run on for a freshly encoded input: the input's tokens,
/// each followed by a space, and a NUL byte at the end.
pub proof fn lemma_harness_runs_on_spaced_tokens(table: Seq<Seq<char>>, toks: Seq<Seq<char>>)
    requires
        table.no_duplicates(),
        table.len() + toks.len() <= u32::MAX,
        toks.len() > 0,
    ensures
        nul_terminated(decoded_bytes(encode_tokens(table, toks).0, encode_tokens(table, toks).1))
            == spaced_tokens(toks).push(0),
{
    lemma_decode_after_encode(table, toks);
    let b = spaced_tokens(toks);
    assert(b == spaced_tokens(toks.drop_last()) + encode_utf8(toks.last()) + seq![32u8]);
    assert(b.last() == 32u8);
}

/// The state shared by the encoding of the initial inputs and each run: the
/// buffer that the decoded input is written into, and the token coder.
pub struct NautilusInit {
    bytes: Vec<u8>,
    coder: TokenInputEncoderDecoder,
    token_count: u64,
}

impl NautilusInit {
    /// The tokens known so far, by code.
    pub closed spec fn tokens(&self) -> Seq<Seq<char>> {
        decoder_tokens(self.coder)
    }

    /// The bytes of the last decoded input.
    pub closed spec fn buffer(&self) -> Seq<u8> {
        self.bytes@
    }

    /// The count of known tokens is kept alongside the coder, and no token is known twice.
    pub closed spec fn wf(&self) -> bool {
        &&& self.token_count == decoder_tokens(self.coder).len()
        &&& decoder_tokens(self.coder).no_duplicates()
    }

    /// The number of tokens known so far.
    pub fn token_count(&self) -> (r: u64)
        requires
            self.wf(),
        ensures
            r == self.tokens().len(),
    {
        self.token_count
    }
}

/// Fuzzing with inputs generated from a Nautilus grammar and mutated as token codes.
pub struct NautilusConfig;

impl NautilusConfig {
    /// Each input is mutated up to LibAFL's default number of times per stage run.
    pub fn max_iterations() -> (r: usize)
        ensures
            r == 128,
    {
        default_mutational_max_iterations()
    }

    /// A fresh state: an empty buffer and no known token.
    pub fn init() -> (r: NautilusInit)
        ensures
            r.wf(),
            r.tokens() == Seq::<Seq<char>>::empty(),
            r.buffer() == Seq::<u8>::empty(),
    {
        NautilusInit { bytes: Vec::new(), coder: new_token_coder(), token_count: 0 }
    }

    /// The name of the file that the `index`-th generated input is saved under: `id_<index>`.
    pub fn initial_input_file_name(index: usize) -> (r: String)
        ensures
            r@ == "id_"@ + decimal(index as nat),
    {
        let mut name = String::from_str("id_");
        push_decimal(&mut name, index as u64);
        name
    }

    /// Encodes one generated input (the grammar's output, `bytes`) into codes,
    /// learning its new tokens. `None` when the bytes are not UTF-8, and then
    /// nothing is learned.
    pub fn encode_input(init: &mut NautilusInit, bytes: &[u8]) -> (r: Option<EncodedInput>)
        requires
            old(init).wf(),
            old(init).tokens().len() + bytes@.len() <= u32::MAX,
        ensures
            final(init).wf(),
            final(init).buffer() == old(init).buffer(),
            r is None <==> !valid_utf8(bytes@),
            match naive_tokens(bytes@) {
                None => r is None && final(init).tokens() == old(init).tokens(),
                Some(toks) => r matches Some(e) && encode_tokens(old(init).tokens(), toks) == (
                final(init).tokens(), encoded_codes(e)),
            },
    {
        let ghost table = decoder_tokens(init.coder);
        let r = encode_with_naive_tokenizer(&mut init.coder, bytes);
        match r {
            None => None,
            Some(e) => {
                let ghost toks = naive_tokens(bytes@)->0;
                proof {
                    lemma_encode_codes_len(table, toks);
                    lemma_encode_tokens(table, toks);
                }
                let codes = encoded_input_codes(&e);
                let mut count: u64 = init.token_count;
                let mut i: usize = 0;
                while i < codes.len()
                    invariant
                        i <= codes@.len(),
                        codes@ == encoded_codes(e),
                        encode_tokens(table, toks) == (decoder_tokens(init.coder), encoded_codes(e)),
                        table.len() <= count <= decoder_tokens(init.coder).len(),
                        count == table.len() || exists|j: int| 0 <= j < i && codes@[j] + 1 == count,
                        forall|j: int| 0 <= j < i ==> codes@[j] < count,
                        forall|j: int| 0 <= j < codes@.len() ==> (#[trigger] codes@[j]) < decoder_tokens(init.coder).len(),
                    decreases codes@.len() - i,
                {
                    let c = codes[i];
                    if c as u64 + 1 > count {
                        count = c as u64 + 1;
                    }
                    i = i + 1;
                }
                proof {
                    let t = decoder_tokens(init.coder);
                    if t.len() > table.len() {
                        let j = choose|j: int| 0 <= j < codes@.len() && #[trigger] codes@[j] == t.len() - 1;
                        assert(codes@[j] < count);
                    }
                }
                init.token_count = count;
                Some(e)
            },
        }
    }

    /// The bytes the target is run on: the input's codes decoded into the
    /// buffer, with a NUL byte at the end.
    pub fn run_harness<'a>(init: &'a mut NautilusInit, input: &'a EncodedInput) -> (r: &'a [u8])
        requires
            old(init).wf(),
            old(init).tokens().len() > 0,
            encoded_codes(*input).len() > 0,
        ensures
            final(init).wf(),
            final(init).tokens() == old(init).tokens(),
            final(init).buffer() == r@,
            r@ == nul_terminated(decoded_bytes(old(init).tokens(), encoded_codes(*input))),
    {
        init.bytes.clear();
        let ok = decode_with_coder(&init.coder, input, &mut init.bytes);
        proof {
            lemma_decoded_len(decoder_tokens(init.coder), encoded_codes(*input));
            assert(init.bytes@ =~= decoded_bytes(decoder_tokens(init.coder), encoded_codes(*input)));
        }
        let n = init.bytes.len();
        if init.bytes[n - 1] != 0 {
            init.bytes.push(0);
        }
        init.bytes.as_slice()
    }

    /// `run_harness` where it can run: `None` when the input has no codes or
    /// no token is known yet (the cases where decoding would have nothing to
    /// end with, or no table to look codes up in).
    pub fn run_harness_checked<'a>(init: &'a mut NautilusInit, input: &'a EncodedInput) -> (r: Option<&'a [u8]>)
        requires
            old(init).wf(),
        ensures
            final(init).wf(),
            final(init).tokens() == old(init).tokens(),
            r is None <==> (old(init).tokens().len() == 0 || encoded_codes(*input).len() == 0),
            r matches Some(b) ==> b@ == nul_terminated(decoded_bytes(old(init).tokens(), encoded_codes(*input)))
                && final(init).buffer() == b@,
            r is None ==> final(init).buffer() == old(init).buffer(),
    {
        let codes = encoded_input_codes(input);
        if init.token_count == 0 || codes.len() == 0 {
            None
        } else {
            Some(Self::run_harness(init, input))
        }
    }
}

} // verus!
