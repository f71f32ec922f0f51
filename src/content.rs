use std::collections::hash_map::DefaultHasher;
use std::hash::Hasher;
use vstd::prelude::*;

use crate::keys::hash_of_writes;

verus! {

/// Size of the pieces in which file content is read and hashed (4 MiB).
pub const CHUNK_SIZE: usize = 0x400000;

/// `bytes` cut into pieces of `CHUNK_SIZE` bytes, the last one possibly
/// shorter; no piece is empty.
pub open spec fn blocks_of(bytes: Seq<u8>) -> Seq<Seq<u8>>
    decreases bytes.len(),
{
    if bytes.len() == 0 {
        seq![]
    } else if bytes.len() <= CHUNK_SIZE {
        seq![bytes]
    } else {
        seq![bytes.take(CHUNK_SIZE as int)] + blocks_of(bytes.skip(CHUNK_SIZE as int))
    }
}

/// Key of the `exhaustive` strategy: the `DefaultHasher` hash of the content,
/// written one piece of [`blocks_of`] at a time. It depends on the bytes alone.
pub open spec fn content_hash(bytes: Seq<u8>) -> u64 {
    hash_of_writes(blocks_of(bytes))
}

proof fn lemma_blocks_append(c: Seq<u8>, d: Seq<u8>, k: nat)
    requires
        c.len() == k * CHUNK_SIZE,
        0 < d.len() <= CHUNK_SIZE,
    ensures
        blocks_of(c + d) == blocks_of(c).push(d),
    decreases k,
{
    if k == 0 {
        assert(c + d =~= d);
        assert(blocks_of(c) =~= seq![]);
        assert(blocks_of(d) =~= seq![d]);
    } else {
        let cd = c + d;
        assert(cd.take(CHUNK_SIZE as int) =~= c.take(CHUNK_SIZE as int));
        if k == 1 {
            assert(c.take(CHUNK_SIZE as int) =~= c);
            assert(cd.skip(CHUNK_SIZE as int) =~= d);
            assert(blocks_of(d) =~= seq![d]);
            assert(blocks_of(cd) =~= seq![c, d]);
        } else {
            assert(cd.skip(CHUNK_SIZE as int) =~= c.skip(CHUNK_SIZE as int) + d);
            lemma_blocks_append(c.skip(CHUNK_SIZE as int), d, (k - 1) as nat);
            assert(blocks_of(cd) =~= blocks_of(c).push(d));
        }
    }
}

/// A content hash in progress: the bytes read so far, always a whole number
/// of chunks.
pub struct FileHasher {
    hasher: DefaultHasher,
    content: Ghost<Seq<u8>>,
    chunks: Ghost<nat>,
}

/// What comes of handing one read to [`file_hash`].
pub enum HashStep {
    /// A full chunk was read: read on, with this state.
    Continue(FileHasher),
    /// The end of the content was reached: its hash.
    Finished(u64),
    /// The read failed: the file has no key.
    Failed,
}

impl FileHasher {
    /// The bytes hashed so far.
    pub closed spec fn content(&self) -> Seq<u8> {
        self.content@
    }

    /// The state may take another read.
    pub closed spec fn wf(&self) -> bool {
        &&& self.content@.len() == self.chunks@ * CHUNK_SIZE
        &&& self.hasher@ == blocks_of(self.content@)
    }

    /// The state before the first read.
    pub fn new() -> (r: FileHasher)
        ensures
            r.wf(),
            r.content() == Seq::<u8>::empty(),
    {
        let r = FileHasher { hasher: DefaultHasher::new(), content: Ghost(Seq::empty()), chunks: Ghost(0nat) };
        assert(blocks_of(r.content@) =~= seq![]);
        r
    }
}

/// One step of hashing a file read in chunks. `read` is the outcome of
/// reading up to `CHUNK_SIZE` further bytes. A failed read ends the hash with
/// no key; a full chunk asks for more; a shorter one ends the content, and the
/// result is [`content_hash`] of all the bytes read.
pub fn file_hash(state: FileHasher, read: Result<&[u8], ()>) -> (r: HashStep)
    requires
        state.wf(),
        read matches Ok(c) ==> c@.len() <= CHUNK_SIZE,
    ensures
        read is Err ==> r is Failed,
        read matches Ok(c) ==> if c@.len() == CHUNK_SIZE {
            r matches HashStep::Continue(next) && next.wf() && next.content() == state.content()
                + c@
        } else {
            r == HashStep::Finished(content_hash(state.content() + c@))
        },
{
    match read {
        Err(_) => HashStep::Failed,
        Ok(chunk) => {
            let mut state = state;
            if chunk.len() == 0 {
                assert(state.content@ + chunk@ =~= state.content@);
                return HashStep::Finished(state.hasher.finish());
            }
            proof {
                lemma_blocks_append(state.content@, chunk@, state.chunks@);
            }
            state.hasher.write(chunk);
            let ghost c = state.content@ + chunk@;
            state.content = Ghost(c);
            if chunk.len() == CHUNK_SIZE {
                state.chunks = Ghost(state.chunks@ + 1);
                assert(c.len() == state.chunks@ * CHUNK_SIZE) by (nonlinear_arith)
                    requires
                        c.len() == (state.chunks@ - 1) * CHUNK_SIZE + CHUNK_SIZE,
                ;
                HashStep::Continue(state)
            } else {
                HashStep::Finished(state.hasher.finish())
            }
        },
    }
}

} // verus!
