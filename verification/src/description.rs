//! The description of the shared coverage map that the fuzzer hands to the
//! preloaded helper in the target's environment: its size and its id.
use vstd::prelude::*;
use libafl_bolts::shmem::ShMemDescription;

verus! {

/// The size and the 20-byte id that `serde_json` reads from the JSON text of
/// a shared-map description (`None` when the text is not such a description).
pub uninterp spec fn described_map(text: Seq<char>) -> Option<(usize, Seq<u8>)>;

/// `serde_json::from_str::<ShMemDescription>`: the map's size and id.
#[verifier::external_body]
fn parse_map_description(text: &str) -> (r: Option<(usize, [u8; 20])>)
    ensures
        match described_map(text@) {
            None => r is None,
            Some((s, id)) => r matches Some((s2, id2)) && s2 == s && id2@ == id,
        },
{
    match serde_json::from_str::<ShMemDescription>(text) {
        Ok(d) => Some((d.size, *d.id.as_array())),
        Err(_) => None,
    }
}

/// Why the shared-map description could not be had.
#[derive(Debug, Clone, Copy, PartialEq, Eq, Structural)]
pub enum DescriptionError {
    /// The environment holds no description.
    Missing,
    /// The text is not a shared-map description.
    Unparseable,
}

/// Reads the shared-map description from the value of its environment
/// variable (`None` when it is not set): the map's size and id.
pub fn map_description_from_env(value: Option<String>) -> (r: Result<(usize, [u8; 20]), DescriptionError>)
    ensures
        value is None ==> r == Err::<(usize, [u8; 20]), DescriptionError>(DescriptionError::Missing),
        value matches Some(t) ==> match described_map(t@) {
            None => r == Err::<(usize, [u8; 20]), DescriptionError>(DescriptionError::Unparseable),
            Some((s, id)) => r matches Ok((s2, id2)) && s2 == s && id2@ == id,
        },
{
    match value {
        None => Err(DescriptionError::Missing),
        Some(text) => match parse_map_description(text.as_str()) {
            Some(d) => Ok(d),
            None => Err(DescriptionError::Unparseable),
        },
    }
}

} // verus!
