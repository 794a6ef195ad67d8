use libafl::inputs::{BytesInput, HasMutatorBytes};
use nautilus_fuzzer::config::nautilus::NautilusConfig;
use nautilus_fuzzer::config::{corpus_from_reads, FandangoConfig};

#[test]
fn corpus_keeps_the_files_that_were_read_in_order() {
    let reads = vec![Some(b"a".to_vec()), None, Some(vec![]), Some(b"int x;".to_vec()), None];
    assert_eq!(
        corpus_from_reads(reads),
        Some(vec![b"a".to_vec(), vec![], b"int x;".to_vec()])
    );
}

#[test]
fn corpus_without_any_file_is_refused() {
    assert_eq!(corpus_from_reads(vec![]), None);
    assert_eq!(corpus_from_reads(vec![None, None]), None);
}

#[test]
fn fandango_inputs_are_the_corpus_bytes() {
    let corpus = vec![b"int main() {}".to_vec(), vec![], vec![0, 255]];
    let inputs = FandangoConfig::initial_inputs(&corpus);
    assert_eq!(inputs.len(), 3);
    for (input, bytes) in inputs.iter().zip(corpus.iter()) {
        assert_eq!(input.mutator_bytes(), bytes.as_slice());
        assert_eq!(FandangoConfig::run_harness(&mut (), input), bytes.as_slice());
    }
    let direct = BytesInput::new(b"xyz".to_vec());
    assert_eq!(FandangoConfig::run_harness(&mut (), &direct), b"xyz");
    assert_eq!(FandangoConfig::max_iterations(), 1);
}

#[test]
fn nautilus_file_names_and_iterations() {
    assert_eq!(NautilusConfig::initial_input_file_name(0), "id_0");
    assert_eq!(NautilusConfig::initial_input_file_name(4095), "id_4095");
    assert_eq!(NautilusConfig::max_iterations(), 128);
}

#[test]
fn nautilus_encodes_and_decodes_tokens() {
    let mut init = NautilusConfig::init();
    assert_eq!(init.token_count(), 0);
    let first = NautilusConfig::encode_input(&mut init, b"int main() {}").unwrap();
    assert_eq!(first.codes(), &[0, 1, 2, 3]);
    assert_eq!(init.token_count(), 4);
    let second = NautilusConfig::encode_input(&mut init, b"int x = \"a b\";").unwrap();
    assert_eq!(second.codes(), &[0, 4, 5, 6, 7]);
    assert_eq!(init.token_count(), 8);
    assert_eq!(NautilusConfig::run_harness(&mut init, &first), b"int main () {} \0");
    assert_eq!(NautilusConfig::run_harness(&mut init, &second), b"int x = \"a b\" ; \0");
}

#[test]
fn nautilus_refuses_invalid_utf8_and_learns_nothing() {
    let mut init = NautilusConfig::init();
    assert!(NautilusConfig::encode_input(&mut init, &[0x61, 0xff]).is_none());
    assert_eq!(init.token_count(), 0);
}

#[test]
fn nautilus_harness_needs_codes_and_tokens() {
    let mut init = NautilusConfig::init();
    let nothing = NautilusConfig::encode_input(&mut init, b"").unwrap();
    assert!(nothing.codes().is_empty());
    assert!(NautilusConfig::run_harness_checked(&mut init, &nothing).is_none());
    let some = NautilusConfig::encode_input(&mut init, b"a").unwrap();
    assert_eq!(NautilusConfig::run_harness_checked(&mut init, &some), Some(&b"a \0"[..]));
    assert!(NautilusConfig::run_harness_checked(&mut init, &nothing).is_none());
    let mut fresh = NautilusConfig::init();
    assert!(NautilusConfig::run_harness_checked(&mut fresh, &some).is_none());
}
