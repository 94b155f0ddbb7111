//! The entropy calculator's integer core: admission of a file by its metadata,
//! partition of its bytes into chunks, the frequency table of each chunk, and the
//! summation of per-chunk entropies into the file's score.
use crate::structs::{sum_of, FileEntropy};
use vstd::prelude::*;

verus! {

broadcast use vstd::seq_lib::group_to_multiset_ensures, vstd::multiset::group_multiset_axioms;

/// Largest file admitted by the standard configuration: 2 GiB.
pub const DEFAULT_MAX_FILE_SIZE: u64 = 2147483648;

/// Chunk length of the standard configuration, in bytes.
pub const DEFAULT_CHUNK_SIZE: usize = 2560000;

/// Most chunks a configuration may let one file have, so that the sum of their
/// entropies fits the fixed-point representation.
pub const MAX_CHUNKS: usize = 8191;

/// Largest entropy of one chunk: 8 bits, in fixed-point units.
pub const MAX_CHUNK_ENTROPY: u32 = 524288;

/// Why a file could not be scored.
#[derive(Clone, Copy, Debug, PartialEq, Eq, Structural)]
pub enum ScanError {
    MetadataUnavailable,
    FileTooLarge,
    IsADirectory,
    ReadFailure,
}

/// What the calculator reads of a file before its contents.
#[derive(Clone, Copy, Debug, PartialEq, Eq, Structural)]
pub struct FileMetadata {
    pub len: u64,
    pub is_dir: bool,
}

/// Number of chunks of `size` bytes that cover `len` bytes; the last may be shorter.
pub open spec fn chunk_count(len: nat, size: nat) -> nat
    recommends
        size > 0,
{
    if len == 0 {
        0
    } else {
        ((len - 1) as nat / size + 1) as nat
    }
}

/// The `k`-th chunk of `s` (counting from 0) when cut into pieces of `size` bytes.
pub open spec fn chunk_of(s: Seq<u8>, size: nat, k: int) -> Seq<u8> {
    let lo = k * size;
    let hi = lo + size;
    s.subrange(lo, if hi < s.len() { hi } else { s.len() as int })
}

/// Limits of the calculator: the largest file it reads, and the chunk length.
#[derive(Clone, Copy, Debug)]
pub struct ScanConfig {
    pub max_file_size: u64,
    pub chunk_size: usize,
}

impl ScanConfig {
    /// Chunks are non-empty, and no admitted file has more than `MAX_CHUNKS` of them.
    pub open spec fn wf(&self) -> bool {
        &&& self.chunk_size > 0
        &&& chunk_count(self.max_file_size as nat, self.chunk_size as nat) <= MAX_CHUNKS
    }

    /// The outcome of the checks on a file's metadata, in their order: metadata
    /// present, size within the limit, not a directory.
    pub open spec fn admission(&self, meta: Option<FileMetadata>) -> Result<(), ScanError> {
        match meta {
            None => Err(ScanError::MetadataUnavailable),
            Some(m) => if m.len > self.max_file_size {
                Err(ScanError::FileTooLarge)
            } else if m.is_dir {
                Err(ScanError::IsADirectory)
            } else {
                Ok(())
            },
        }
    }

    /// The configuration with the given limits, if they are well formed.
    pub fn new(max_file_size: u64, chunk_size: usize) -> (r: Option<ScanConfig>)
        ensures
            r is Some <==> (chunk_size > 0 && chunk_count(max_file_size as nat, chunk_size as nat)
                <= MAX_CHUNKS),
            r matches Some(c) ==> c.wf() && c.max_file_size == max_file_size && c.chunk_size
                == chunk_size,
    {
        if chunk_size == 0 {
            return None;
        }
        let count: u64 = if max_file_size == 0 {
            0
        } else {
            (max_file_size - 1) / (chunk_size as u64) + 1
        };
        if count <= MAX_CHUNKS as u64 {
            Some(ScanConfig { max_file_size, chunk_size })
        } else {
            None
        }
    }

    /// The standard limits: files up to 2 GiB, chunks of 2,560,000 bytes.
    pub fn standard() -> (r: ScanConfig)
        ensures
            r.wf(),
            r.max_file_size == DEFAULT_MAX_FILE_SIZE,
            r.chunk_size == DEFAULT_CHUNK_SIZE,
    {
        let r = ScanConfig { max_file_size: DEFAULT_MAX_FILE_SIZE, chunk_size: DEFAULT_CHUNK_SIZE };
        proof {
            vstd::arithmetic::div_mod::lemma_fundamental_div_mod_converse(
                2147483647,
                2560000,
                838,
                2203647,
            );
        }
        r
    }

    /// Decides from a file's metadata (`None` where it could not be had) whether
    /// the file may be read.
    pub fn check_metadata(&self, meta: Option<FileMetadata>) -> (r: Result<(), ScanError>)
        ensures
            r == self.admission(meta),
    {
        match meta {
            None => Err(ScanError::MetadataUnavailable),
            Some(m) => {
                if m.len > self.max_file_size {
                    Err(ScanError::FileTooLarge)
                } else if m.is_dir {
                    Err(ScanError::IsADirectory)
                } else {
                    Ok(())
                }
            },
        }
    }

    /// The frequency table of each chunk of an admitted file's bytes, in order.
    pub fn chunk_frequencies(&self, bytes: &[u8]) -> (r: Vec<Vec<u64>>)
        requires
            self.wf(),
            bytes@.len() <= self.max_file_size,
        ensures
            r@.len() == chunk_count(bytes@.len(), self.chunk_size as nat),
            r@.len() <= MAX_CHUNKS,
            forall|k: int|
                0 <= k < r@.len() ==> is_frequency_table(
                    #[trigger] r@[k]@,
                    chunk_of(bytes@, self.chunk_size as nat, k),
                ),
    {
        let size = self.chunk_size;
        let len = bytes.len();
        let mut tables: Vec<Vec<u64>> = Vec::new();
        let mut start: usize = 0;
        assert(0 * size == 0);
        while start < len
            invariant
                size == self.chunk_size,
                size > 0,
                len == bytes@.len(),
                start <= len,
                start < len ==> start == tables@.len() * size,
                start == len ==> tables@.len() * size >= len,
                tables@.len() > 0 ==> (tables@.len() - 1) * size < len,
                forall|k: int|
                    0 <= k < tables@.len() ==> is_frequency_table(
                        #[trigger] tables@[k]@,
                        chunk_of(bytes@, size as nat, k),
                    ),
            decreases len - start,
        {
            let ghost k = tables@.len() as int;
            let remaining = len - start;
            let take = if remaining < size {
                remaining
            } else {
                size
            };
            let end = start + take;
            assert((k + 1) * size == k * size + size) by (nonlinear_arith);
            let table = frequencies_in(bytes, start, end);
            tables.push(table);
            start = end;
        }
        let ghost n = tables@.len() as int;
        proof {
            if len > 0 {
                let q = n - 1;
                let rem = (len - 1) - q * size;
                assert(n * size == q * size + size) by (nonlinear_arith)
                    requires
                        q == n - 1,
                ;
                vstd::arithmetic::div_mod::lemma_fundamental_div_mod_converse(
                    len - 1,
                    size as int,
                    q,
                    rem,
                );
                vstd::arithmetic::div_mod::lemma_div_is_ordered(
                    len - 1,
                    self.max_file_size - 1,
                    size as int,
                );
            }
        }
        tables
    }
}

/// How many times the byte `b` occurs in `s`.
pub open spec fn byte_count(s: Seq<u8>, b: u8) -> nat {
    s.to_multiset().count(b)
}

/// `t` holds, for each of the 256 byte values, how often it occurs in `s`.
pub open spec fn is_frequency_table(t: Seq<u64>, s: Seq<u8>) -> bool {
    &&& t.len() == 256
    &&& forall|v: int| 0 <= v < 256 ==> #[trigger] t[v] == byte_count(s, v as u8)
}

/// The frequency table of one chunk of bytes.
pub fn byte_frequencies(chunk: &[u8]) -> (r: Vec<u64>)
    ensures
        is_frequency_table(r@, chunk@),
{
    assert(chunk@.subrange(0, chunk@.len() as int) =~= chunk@);
    frequencies_in(chunk, 0, chunk.len())
}

/// The frequency table of the bytes at positions `lo .. hi`.
fn frequencies_in(bytes: &[u8], lo: usize, hi: usize) -> (r: Vec<u64>)
    requires
        lo <= hi <= bytes@.len(),
    ensures
        is_frequency_table(r@, bytes@.subrange(lo as int, hi as int)),
{
    let ghost chunk = bytes@.subrange(lo as int, hi as int);
    let mut table: Vec<u64> = Vec::new();
    let mut v: usize = 0;
    while v < 256
        invariant
            v <= 256,
            table@.len() == v,
            forall|j: int| 0 <= j < v ==> table@[j] == 0,
        decreases 256 - v,
    {
        table.push(0);
        v = v + 1;
    }
    let mut i: usize = 0;
    while i < hi - lo
        invariant
            lo <= hi <= bytes@.len(),
            chunk == bytes@.subrange(lo as int, hi as int),
            i <= chunk.len(),
            table@.len() == 256,
            forall|j: int|
                0 <= j < 256 ==> #[trigger] table@[j] == byte_count(chunk.subrange(0, i as int), j as u8),
            forall|j: int| 0 <= j < 256 ==> #[trigger] table@[j] <= i,
        decreases chunk.len() - i,
    {
        let b = bytes[lo + i];
        assert(b == chunk[i as int]);
        let ghost before = chunk.subrange(0, i as int);
        assert(chunk.subrange(0, i as int + 1) =~= before.push(b));
        assert(table@[b as int] == byte_count(before, b as u8));
        let c = table[b as usize];
        table.set(b as usize, c + 1);
        i = i + 1;
        assert forall|j: int| 0 <= j < 256 implies #[trigger] table@[j] == byte_count(
            chunk.subrange(0, i as int),
            j as u8,
        ) by {
            assert(chunk.subrange(0, i as int) =~= before.push(b));
            if j != b as int {
                assert((j as u8) != b);
            }
        }
    }
    assert(chunk.subrange(0, chunk.len() as int) =~= chunk);
    table
}

/// The files that were scored, in the order of their outcomes; failures are skipped.
pub open spec fn scored(outcomes: Seq<Result<FileEntropy, ScanError>>) -> Seq<FileEntropy>
    decreases outcomes.len(),
{
    if outcomes.len() == 0 {
        Seq::empty()
    } else {
        let rest = scored(outcomes.drop_last());
        match outcomes.last() {
            Ok(e) => rest.push(e),
            Err(_) => rest,
        }
    }
}

/// A file's entropy: the sum, not the mean, of the entropies of its chunks.
pub fn file_entropy(path: String, chunk_entropies: &[u32]) -> (r: FileEntropy)
    requires
        chunk_entropies@.len() <= MAX_CHUNKS,
        forall|k: int| 0 <= k < chunk_entropies@.len() ==> #[trigger] chunk_entropies@[k] <= MAX_CHUNK_ENTROPY,
    ensures
        r.path == path,
        r.entropy == sum_of(chunk_entropies@),
{
    let mut total: u32 = 0;
    let mut k: usize = 0;
    while k < chunk_entropies.len()
        invariant
            k <= chunk_entropies@.len() <= MAX_CHUNKS,
            forall|j: int| 0 <= j < chunk_entropies@.len() ==> #[trigger] chunk_entropies@[j] <= MAX_CHUNK_ENTROPY,
            total == sum_of(chunk_entropies@.subrange(0, k as int)),
            total <= k * MAX_CHUNK_ENTROPY,
        decreases chunk_entropies@.len() - k,
    {
        assert(chunk_entropies@.subrange(0, k as int + 1).drop_last() =~= chunk_entropies@.subrange(0, k as int));
        assert((k + 1) * MAX_CHUNK_ENTROPY <= MAX_CHUNKS * MAX_CHUNK_ENTROPY) by (nonlinear_arith)
            requires
                k + 1 <= MAX_CHUNKS,
        ;
        total = total + chunk_entropies[k];
        k = k + 1;
    }
    assert(chunk_entropies@.subrange(0, k as int) =~= chunk_entropies@);
    FileEntropy::new(path, total)
}

/// The scored files among per-file outcomes, in order; a failed file is skipped
/// and contributes to nothing that is computed from the result.
pub fn collect_entropies(outcomes: &Vec<Result<FileEntropy, ScanError>>) -> (r: Vec<FileEntropy>)
    ensures
        r@ == scored(outcomes@),
{
    let mut out: Vec<FileEntropy> = Vec::new();
    let mut i: usize = 0;
    while i < outcomes.len()
        invariant
            i <= outcomes@.len(),
            out@ == scored(outcomes@.subrange(0, i as int)),
        decreases outcomes@.len() - i,
    {
        assert(outcomes@.subrange(0, i as int + 1).drop_last() =~= outcomes@.subrange(0, i as int));
        match &outcomes[i] {
            Ok(e) => out.push(e.duplicate()),
            Err(_) => {},
        }
        i = i + 1;
    }
    assert(outcomes@.subrange(0, i as int) =~= outcomes@);
    out
}

/// Byte frequencies ignore order: two chunks that are rearrangements of each
/// other have the same frequency table.
pub proof fn lemma_frequencies_ignore_order(a: Seq<u8>, b: Seq<u8>, ta: Seq<u64>, tb: Seq<u64>)
    requires
        a.to_multiset() == b.to_multiset(),
        is_frequency_table(ta, a),
        is_frequency_table(tb, b),
    ensures
        ta == tb,
{
    assert(ta =~= tb);
}

/// A non-empty chunk made of one repeated byte has a frequency table with a single
/// non-zero entry, equal to the chunk's length.
pub proof fn lemma_uniform_chunk_table(s: Seq<u8>, b: u8, t: Seq<u64>)
    requires
        s.len() >= 1,
        forall|i: int| 0 <= i < s.len() ==> s[i] == b,
        is_frequency_table(t, s),
    ensures
        t[b as int] == s.len(),
        forall|v: int| 0 <= v < 256 && v != b as int ==> t[v] == 0,
{
    lemma_repeated_byte_count(s, b);
    assert(t[b as int] == byte_count(s, b as int as u8));
    assert forall|v: int| 0 <= v < 256 && v != b as int implies t[v] == 0 by {
        assert(t[v] == byte_count(s, v as u8));
    }
}

proof fn lemma_repeated_byte_count(s: Seq<u8>, b: u8)
    requires
        forall|i: int| 0 <= i < s.len() ==> s[i] == b,
    ensures
        byte_count(s, b) == s.len(),
        forall|c: u8| c != b ==> byte_count(s, c) == 0,
    decreases s.len(),
{
    if s.len() > 0 {
        let rest = s.drop_last();
        lemma_repeated_byte_count(rest, b);
        assert(s =~= rest.push(b));
    }
}

/// Bytes that fill exactly two chunks are cut into their two halves, and the
/// file's entropy is then the sum of the two chunk entropies.
pub proof fn lemma_two_full_chunks(s: Seq<u8>, size: nat, a: u32, b: u32)
    requires
        size > 0,
        s.len() == 2 * size,
    ensures
        chunk_count(s.len(), size) == 2,
        chunk_of(s, size, 0) == s.subrange(0, size as int),
        chunk_of(s, size, 1) == s.subrange(size as int, 2 * size as int),
        sum_of(seq![a, b]) == a + b,
{
    vstd::arithmetic::div_mod::lemma_fundamental_div_mod_converse(
        2 * size - 1,
        size as int,
        1,
        size - 1,
    );
    assert(seq![a, b].drop_last() =~= seq![a]);
    assert(seq![a].drop_last() =~= Seq::<u32>::empty());
    assert(sum_of(Seq::<u32>::empty()) == 0);
    assert(seq![a].last() == a);
    assert(sum_of(seq![a]) == a);
    assert(sum_of(seq![a, b]) == sum_of(seq![a]) + b);
}

} // verus!
