//! The two fuzzer configurations (Fandango and Nautilus grammars) and the
//! corpus that seeds them.
use vstd::prelude::*;

pub mod fandango;
pub mod nautilus;

pub use fandango::FandangoConfig;
pub use nautilus::NautilusConfig;

verus! {

/// The files that were read, in the order of the directory entries; an entry
/// that is not a regular file, or that could not be read, is `None`.
pub open spec fn read_files(reads: Seq<Option<Vec<u8>>>) -> Seq<Seq<u8>>
    decreases reads.len(),
{
    if reads.len() == 0 {
        seq![]
    } else {
        match reads.last() {
            Some(b) => read_files(reads.drop_last()).push(b@),
            None => read_files(reads.drop_last()),
        }
    }
}

/// The bytes of one directory entry, if it was a file that could be read.
pub open spec fn file_bytes(entry: Option<Vec<u8>>) -> Option<Seq<u8>> {
    match entry {
        Some(b) => Some(b@),
        None => None,
    }
}

/// The corpus is the read files kept by vstd's `filter_map`: exactly the
/// entries that are `Some`, with their bytes, in the order of the entries.
pub proof fn lemma_corpus_keeps_every_read_file(reads: Seq<Option<Vec<u8>>>)
    ensures
        read_files(reads) == reads.filter_map(|o: Option<Vec<u8>>| file_bytes(o)),
    decreases reads.len(),
{
    if reads.len() > 0 {
        lemma_corpus_keeps_every_read_file(reads.drop_last());
        let rest = reads.drop_last().filter_map(|o: Option<Vec<u8>>| file_bytes(o));
        match reads.last() {
            Some(b) => {
                assert(rest.push(b@) =~= rest + seq![b@]);
            },
            None => {},
        }
    }
}

/// Every file that was read is in the corpus, at the position given by the
/// number of files read before it; and the corpus has one entry per file read.
pub proof fn lemma_corpus_positions(reads: Seq<Option<Vec<u8>>>)
    ensures
        forall|i: int|
            0 <= i < reads.len() && (#[trigger] reads[i]) is Some ==> read_files(reads.take(i)).len()
                < read_files(reads).len() && read_files(reads)[read_files(reads.take(i)).len() as int]
                == reads[i]->0@,
        read_files(reads).len() <= reads.len(),
    decreases reads.len(),
{
    if reads.len() > 0 {
        let p = reads.drop_last();
        lemma_corpus_positions(p);
        assert forall|i: int|
            0 <= i < reads.len() && (#[trigger] reads[i]) is Some implies read_files(reads.take(i)).len()
                < read_files(reads).len() && read_files(reads)[read_files(reads.take(i)).len() as int]
                == reads[i]->0@ by {
            if i == reads.len() - 1 {
                assert(reads.take(i) =~= p);
            } else {
                assert(p[i] == reads[i]);
                assert(p.take(i) =~= reads.take(i));
                lemma_read_files_prefix_len(p, i);
            }
        }
    }
}

proof fn lemma_read_files_prefix_len(reads: Seq<Option<Vec<u8>>>, i: int)
    requires
        0 <= i <= reads.len(),
    ensures
        read_files(reads.take(i)).len() <= read_files(reads).len(),
    decreases reads.len() - i,
{
    if i < reads.len() {
        lemma_read_files_prefix_len(reads, i + 1);
        assert(reads.take(i + 1).drop_last() =~= reads.take(i));
    } else {
        assert(reads.take(i) =~= reads);
    }
}

/// There is no corpus exactly when no entry could be read.
pub proof fn lemma_corpus_empty_iff_nothing_read(reads: Seq<Option<Vec<u8>>>)
    ensures
        read_files(reads).len() == 0 <==> forall|i: int| 0 <= i < reads.len() ==> (#[trigger] reads[i]) is None,
    decreases reads.len(),
{
    if reads.len() > 0 {
        let p = reads.drop_last();
        lemma_corpus_empty_iff_nothing_read(p);
        if read_files(reads).len() == 0 {
            assert forall|i: int| 0 <= i < reads.len() implies (#[trigger] reads[i]) is None by {
                if i < p.len() {
                    assert(p[i] == reads[i]);
                }
            }
        }
        if forall|i: int| 0 <= i < reads.len() ==> (#[trigger] reads[i]) is None {
            assert(reads[reads.len() - 1] is None);
            assert forall|i: int| 0 <= i < p.len() implies (#[trigger] p[i]) is None by {
                assert(reads[i] is None);
            }
        }
    }
}

/// Builds the corpus from what reading each entry of the corpus directory
/// gave. The corpus is the bytes of every file read, in order; when no file
/// could be read at all there is no corpus (`None`), which the fuzzer treats
/// as fatal.
pub fn corpus_from_reads(reads: Vec<Option<Vec<u8>>>) -> (r: Option<Vec<Vec<u8>>>)
    ensures
        r is None <==> read_files(reads@).len() == 0,
        r matches Some(c) ==> c@.map_values(|v: Vec<u8>| v@) == read_files(reads@),
        r is None <==> forall|i: int| 0 <= i < reads@.len() ==> (#[trigger] reads@[i]) is None,
        r matches Some(c) ==> c@.map_values(|v: Vec<u8>| v@) == reads@.filter_map(
            |o: Option<Vec<u8>>| file_bytes(o),
        ),
{
    let ghost all = reads@;
    let mut inputs: Vec<Vec<u8>> = Vec::new();
    for entry in it: reads.into_iter()
        invariant
            it.seq() == all,
            inputs@.map_values(|v: Vec<u8>| v@) == read_files(all.take(it.index() as int)),
    {
        let ghost i = it.index() as int;
        proof {
            assert(all.take(i + 1).drop_last() =~= all.take(i));
        }
        match entry {
            Some(bytes) => {
                inputs.push(bytes);
                assert(inputs@.map_values(|v: Vec<u8>| v@) =~= read_files(all.take(i)).push(all[i]->0@));
            },
            None => {},
        }
    }
    assert(all.take(all.len() as int) =~= all);
    proof {
        lemma_corpus_keeps_every_read_file(all);
        lemma_corpus_empty_iff_nothing_read(all);
    }
    if inputs.len() == 0 {
        None
    } else {
        Some(inputs)
    }
}

} // verus!
