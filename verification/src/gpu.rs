//! Optional GPU compute for pipeline stages: what a device can take, and the
//! byte-exact reference for what it computes.
use crate::number::{decimal, decimal_of};
use crate::text::{glue3, same, trim, trimmed};
use vstd::prelude::*;
use vstd::string::*;

verus! {

/// What was found on this machine. Reported to the user rather than kept
/// internal: "GPU acceleration is on" is a claim they should be able to check.
#[derive(Debug, Clone, PartialEq, Eq)]
pub struct GpuInfo {
    /// Adapter name as the driver reports it.
    pub name: String,
    /// Graphics API actually in use: Vulkan, Dx12, Metal, Gl.
    pub backend: String,
    /// DiscreteGpu, IntegratedGpu, VirtualGpu, Cpu or Other.
    pub device_type: String,
    /// Driver name and version, useful when a machine misbehaves.
    pub driver: String,
    /// Largest single storage buffer the device will bind, in bytes. This is
    /// the real cap on batch size, and it is often far below total VRAM.
    pub max_buffer_bytes: u64,
    /// Largest workgroup dispatch in one dimension.
    pub max_workgroups_per_dim: u32,
}

/// How many records one workgroup takes.
pub const WORKGROUP: usize = 64;

/// The smaller of two numbers.
pub open spec fn lesser(a: int, b: int) -> int {
    if a <= b {
        a
    } else {
        b
    }
}

/// The most records of that many bytes that a device can hash in one dispatch:
/// limited by the buffer for the records, by the buffer for one 32-bit hash of
/// each, and by the number of workgroups.
pub open spec fn record_limit(info: GpuInfo, record_bytes: usize) -> int {
    let buffer = info.max_buffer_bytes as usize;
    let width: int = if record_bytes == 0 {
        1
    } else {
        record_bytes as int
    };
    let dispatch = lesser(info.max_workgroups_per_dim * WORKGROUP, usize::MAX as int);
    lesser(lesser(buffer as int / width, buffer as int / 4), dispatch)
}

impl GpuInfo {
    /// Whether this is a real discrete device rather than a software or
    /// integrated fallback. An integrated GPU shares system memory with the
    /// CPU, so it should not be picked silently.
    pub fn is_discrete(&self) -> (r: bool)
        ensures
            r == (self.device_type@ == "DiscreteGpu"@),
    {
        same(self.device_type.as_str(), "DiscreteGpu")
    }

    /// Largest number of fixed-width records this device can hash in one
    /// dispatch. Callers must chunk to this; exceeding it is a device error,
    /// not a slow path.
    pub fn max_records(&self, record_bytes: usize) -> (r: usize)
        ensures
            r == record_limit(*self, record_bytes),
    {
        let buffer = self.max_buffer_bytes as usize;
        let width: usize = if record_bytes == 0 {
            1
        } else {
            record_bytes
        };
        let by_buffer: usize = buffer / width;
        let by_output: usize = buffer / 4;
        let groups = self.max_workgroups_per_dim as usize;
        let by_dispatch: usize = if groups > usize::MAX / WORKGROUP {
            usize::MAX
        } else {
            groups * WORKGROUP
        };
        let most: usize = if by_buffer <= by_output {
            by_buffer
        } else {
            by_output
        };
        if most <= by_dispatch {
            most
        } else {
            by_dispatch
        }
    }
}

/// The driver's name and version in one text.
pub fn driver_text(name: &str, version: &str) -> (r: String)
    ensures
        r@ == trimmed(name@ + " "@ + version@),
{
    let both = glue3(name, " ", version);
    trim(both.as_str())
}

/// The hash of one more byte.
pub open spec fn hash_byte(h: u32, byte: u32) -> u32 {
    (((h ^ byte) * 16_777_619) % 0x1_0000_0000) as u32
}

/// The hash of one more word: its four bytes, the lowest first.
pub open spec fn hash_word(h: u32, word: u32) -> u32 {
    let h0 = hash_byte(h, word & 0xff);
    let h1 = hash_byte(h0, (word >> 8) & 0xff);
    let h2 = hash_byte(h1, (word >> 16) & 0xff);
    hash_byte(h2, (word >> 24) & 0xff)
}

/// The FNV-1a hash of a record, in 32 bits.
pub open spec fn hash_record(words: Seq<u32>) -> u32
    decreases words.len(),
{
    if words.len() == 0 {
        2_166_136_261
    } else {
        hash_word(hash_record(words.drop_last()), words.last())
    }
}

/// The `i`-th record of that many words.
pub open spec fn record(data: Seq<u32>, words: int, i: int) -> Seq<u32> {
    data.subrange(i * words, (i + 1) * words)
}

fn next_byte(h: u32, byte: u32) -> (r: u32)
    ensures
        r == hash_byte(h, byte),
{
    (h ^ byte).wrapping_mul(16_777_619)
}

/// The hash of each whole record.
pub open spec fn record_hashes(data: Seq<u32>, words: int) -> Seq<u32> {
    Seq::new((data.len() as int / words) as nat, |i: int| hash_record(record(data, words, i)))
}

/// The hash of each whole record, one 32-bit hash per record. This is the exact
/// reference for what the device computes; what is left over after the last
/// whole record is not hashed.
pub fn hash_records_cpu(data: &[u32], record_words: usize) -> (r: Vec<u32>)
    ensures
        record_words == 0 ==> r@.len() == 0,
        record_words > 0 ==> {
            &&& r@.len() == data@.len() / (record_words as nat)
            &&& r@ == record_hashes(data@, record_words as int)
        },
{
    let mut out: Vec<u32> = Vec::new();
    if record_words == 0 {
        return out;
    }
    let total: usize = data.len();
    let n: usize = total / record_words;
    let ghost w = record_words as int;
    let mut i: usize = 0;
    let mut at: usize = 0;
    while i < n
        invariant
            i <= n,
            record_words > 0,
            total == data@.len(),
            w == record_words,
            n == data@.len() / (record_words as nat),
            at == i * w,
            out@.len() == i,
            forall|j: int| 0 <= j < i ==> #[trigger] out@[j] == hash_record(record(data@, w, j)),
        decreases n - i,
    {
        assert((i + 1) * w <= data@.len()) by (nonlinear_arith)
            requires
                i < n,
                n == data@.len() / (w as nat),
                w > 0,
        ;
        assert((i + 1) * w == i * w + w) by (nonlinear_arith);
        let ghost rec = record(data@, w, i as int);
        let mut h: u32 = 2_166_136_261;
        let mut k: usize = 0;
        assert(rec.take(0).len() == 0);
        while k < record_words
            invariant
                k <= record_words,
                w == record_words,
                total == data@.len(),
                at == i * w,
                at + w <= data@.len(),
                rec == data@.subrange(at as int, at + w),
                h == hash_record(rec.take(k as int)),
            decreases record_words - k,
        {
            let word = data[at + k];
            assert(rec.take(k + 1).drop_last() == rec.take(k as int));
            assert(rec.take(k + 1).last() == word);
            let h0 = next_byte(h, word & 0xff);
            let h1 = next_byte(h0, (word >> 8) & 0xff);
            let h2 = next_byte(h1, (word >> 16) & 0xff);
            h = next_byte(h2, (word >> 24) & 0xff);
            k = k + 1;
        }
        assert(rec.take(k as int) == rec);
        out.push(h);
        at = at + record_words;
        i = i + 1;
    }
    assert(out@ == record_hashes(data@, w));
    out
}

/// What is to be done with a buffer of records.
#[derive(Debug, PartialEq, Eq)]
pub enum Dispatch {
    /// There is nothing in it.
    Nothing,
    /// It holds this many records.
    Records(usize),
}

/// What is to be done with a buffer of records.
pub open spec fn is_plan(
    info: &GpuInfo,
    data_words: usize,
    record_words: usize,
    r: Result<Dispatch, String>,
) -> bool {
    if record_words == 0 || data_words == 0 {
        r == Ok::<Dispatch, String>(Dispatch::Nothing)
    } else if data_words % record_words != 0 {
        r matches Err(e) && e@ == "buffer of "@ + decimal(data_words as nat)
            + " words is not a whole number of "@ + decimal(record_words as nat) + "-word records"@
    } else {
        let n = data_words as nat / record_words as nat;
        let cap = record_limit(*info, (record_words * 4) as usize);
        if n > cap {
            r matches Err(e) && e@ == decimal(n) + " records exceeds this device's limit of "@
                + decimal(cap as nat) + "; chunk the batch"@
        } else {
            r == Ok::<Dispatch, String>(Dispatch::Records(n as usize))
        }
    }
}

/// Plan a dispatch of a buffer: how many records it holds, or why the device
/// cannot take it.
pub fn plan_dispatch(info: &GpuInfo, data_words: usize, record_words: usize) -> (r: Result<Dispatch, String>)
    requires
        data_words * 4 <= usize::MAX,
    ensures
        is_plan(info, data_words, record_words, r),
{
    if record_words == 0 || data_words == 0 {
        return Ok(Dispatch::Nothing);
    }
    let words = decimal_of(data_words as u64);
    if data_words % record_words != 0 {
        let each = decimal_of(record_words as u64);
        let mut why = glue3("buffer of ", words.as_str(), " words is not a whole number of ");
        why.append(each.as_str());
        why.append("-word records");
        return Err(why);
    }
    let n: usize = data_words / record_words;
    assert(record_words <= data_words) by (nonlinear_arith)
        requires
            data_words > 0,
            record_words > 0,
            data_words % record_words == 0,
    ;
    let cap: usize = info.max_records(record_words * 4);
    if n > cap {
        let count = decimal_of(n as u64);
        let most = decimal_of(cap as u64);
        let mut why = glue3(count.as_str(), " records exceeds this device's limit of ", most.as_str());
        why.append("; chunk the batch");
        return Err(why);
    }
    Ok(Dispatch::Records(n))
}

/// How many workgroups that many records take.
pub fn workgroups(n_records: usize) -> (r: usize)
    ensures
        r * WORKGROUP >= n_records,
        n_records == 0 ==> r == 0,
        n_records > 0 ==> (r - 1) * WORKGROUP < n_records,
{
    let whole: usize = n_records / WORKGROUP;
    if n_records % WORKGROUP == 0 {
        whole
    } else {
        whole + 1
    }
}

/// A hash depends on nothing but its own record: equal records hash alike,
/// wherever they stand.
pub proof fn law_records_hash_by_themselves(a: Seq<u32>, b: Seq<u32>, words: int, i: int, j: int)
    requires
        record(a, words, i) == record(b, words, j),
    ensures
        hash_record(record(a, words, i)) == hash_record(record(b, words, j)),
{
}

/// Hashing two buffers one after the other is hashing them joined, as long as the
/// first is a whole number of records.
pub proof fn law_joined_buffers_hash_in_turn(a: Seq<u32>, b: Seq<u32>, words: int)
    requires
        words > 0,
        a.len() as int % words == 0,
    ensures
        record_hashes(a + b, words) == record_hashes(a, words) + record_hashes(b, words),
        record_hashes(b, words).len() == b.len() as int / words,
{
    let n = a.len() as int / words;
    let m = b.len() as int / words;
    assert(n * words == a.len()) by (nonlinear_arith)
        requires
            n == a.len() as int / words,
            a.len() as int % words == 0,
            words > 0,
    ;
    assert((a.len() + b.len()) as int / words == n + m) by (nonlinear_arith)
        requires
            n * words == a.len(),
            m == b.len() as int / words,
            words > 0,
    ;
    assert(m >= 0 && m * words <= b.len()) by (nonlinear_arith)
        requires
            m == b.len() as int / words,
            words > 0,
    ;
    assert(n >= 0) by (nonlinear_arith)
        requires
            n * words == a.len(),
            words > 0,
    ;
    let joined = record_hashes(a + b, words);
    let each = record_hashes(a, words) + record_hashes(b, words);
    assert forall|i: int| 0 <= i < n + m implies joined[i] == each[i] by {
        assert((i + 1) * words == i * words + words) by (nonlinear_arith);
        if i < n {
            assert(0 <= i * words && (i + 1) * words <= a.len()) by (nonlinear_arith)
                requires
                    0 <= i < n,
                    n * words == a.len(),
                    words > 0,
            ;
            assert(record(a + b, words, i) =~= record(a, words, i));
        } else {
            let j = i - n;
            assert((j + 1) * words == j * words + words) by (nonlinear_arith);
            assert(i * words == a.len() + j * words && (i + 1) * words == a.len() + (j + 1) * words)
                by (nonlinear_arith)
                requires
                    i == n + j,
                    n * words == a.len(),
            ;
            assert(0 <= j * words && (j + 1) * words <= b.len()) by (nonlinear_arith)
                requires
                    0 <= j < m,
                    m * words <= b.len(),
                    words > 0,
            ;
            assert(record(a + b, words, i) =~= record(b, words, j));
        }
    }
    assert(joined =~= each);
}

/// What fits one dispatch fits the buffers: the records, and a hash of each.
pub proof fn law_a_dispatch_fits_its_buffers(info: GpuInfo, record_bytes: usize, n: int)
    requires
        0 <= n <= record_limit(info, record_bytes),
        record_bytes > 0,
    ensures
        n * record_bytes <= info.max_buffer_bytes as usize,
        n * 4 <= info.max_buffer_bytes as usize,
        n <= info.max_workgroups_per_dim * WORKGROUP,
{
    let buffer = info.max_buffer_bytes as usize;
    let width = record_bytes as int;
    assert(n * width <= buffer) by (nonlinear_arith)
        requires
            0 <= n <= buffer as int / width,
            width > 0,
    ;
}

/// The limit is the greatest that fits: any number of records whose words and
/// hashes fit the buffers, and whose workgroups of 64 fit one dispatch, is within
/// it.
pub proof fn law_what_fits_is_within_the_limit(info: GpuInfo, record_bytes: usize, n: int)
    requires
        0 <= n <= usize::MAX,
        n * record_bytes <= info.max_buffer_bytes as usize,
        n * 4 <= info.max_buffer_bytes as usize,
        n <= info.max_workgroups_per_dim * 64,
        record_bytes > 0,
    ensures
        n <= record_limit(info, record_bytes),
{
    let buffer = info.max_buffer_bytes as usize as int;
    let width = record_bytes as int;
    assert(n <= buffer / width) by (nonlinear_arith)
        requires
            n * width <= buffer,
            width > 0,
            0 <= n,
    ;
}

/// What is within the limit fits, with 64 records to a workgroup; and no limit
/// is below zero.
pub proof fn law_the_limit_fits(info: GpuInfo, record_bytes: usize)
    ensures
        0 <= record_limit(info, record_bytes) <= info.max_workgroups_per_dim * 64,
        record_limit(info, record_bytes) * 4 <= info.max_buffer_bytes as usize,
        record_limit(info, record_bytes) * record_bytes <= info.max_buffer_bytes as usize,
{
    let n = record_limit(info, record_bytes);
    let buffer = info.max_buffer_bytes as usize as int;
    let width: int = if record_bytes == 0 {
        1
    } else {
        record_bytes as int
    };
    assert(buffer / width >= 0) by (nonlinear_arith)
        requires
            buffer >= 0,
            width > 0,
    ;
    assert(n * width <= buffer) by (nonlinear_arith)
        requires
            0 <= n <= buffer / width,
            width > 0,
    ;
    if record_bytes == 0 {
        assert(n * record_bytes == 0) by (nonlinear_arith)
            requires
                record_bytes == 0,
        ;
    }
}

/// A device that can do more takes at least as many records.
pub proof fn law_a_larger_device_takes_as_many(a: GpuInfo, b: GpuInfo, record_bytes: usize)
    requires
        a.max_buffer_bytes as usize <= b.max_buffer_bytes as usize,
        a.max_workgroups_per_dim <= b.max_workgroups_per_dim,
        record_bytes > 0,
    ensures
        record_limit(a, record_bytes) <= record_limit(b, record_bytes),
{
    let n = record_limit(a, record_bytes);
    law_the_limit_fits(a, record_bytes);
    assert(n * record_bytes <= b.max_buffer_bytes as usize);
    law_what_fits_is_within_the_limit(b, record_bytes, n);
}

/// The hash is FNV-1a over the bytes of the words, the lowest byte of each first.
pub proof fn law_a_hash_takes_byte_after_byte(words: Seq<u32>, w: u32)
    ensures
        hash_record(Seq::empty()) == 2_166_136_261,
        ({
            let step = |h: u32, byte: u32| ((((h ^ byte) as int) * 16_777_619) % 0x1_0000_0000) as u32;
            hash_record(words.push(w)) == step(
                step(
                    step(step(hash_record(words), w % 256), (w / 256) % 256),
                    (w / 65_536) % 256,
                ),
                w / 16_777_216,
            )
        }),
{
    assert(words.push(w).drop_last() == words);
    assert(w & 0xff == w % 256) by (bit_vector);
    assert((w >> 8) & 0xff == (w / 256) % 256) by (bit_vector);
    assert((w >> 16) & 0xff == (w / 65_536) % 256) by (bit_vector);
    assert((w >> 24) & 0xff == w / 16_777_216) by (bit_vector);
}

/// Each hash is that of its own words, record after record; words that fill no
/// record count for nothing.
pub proof fn law_each_record_is_its_own_words(data: Seq<u32>, words: int, i: int)
    requires
        words > 0,
        0 <= i,
        (i + 1) * words <= data.len(),
    ensures
        i < record_hashes(data, words).len(),
        record_hashes(data, words)[i] == hash_record(data.subrange(i * words, i * words + words)),
        record_hashes(data, words).len() * words <= data.len(),
        data.len() < (record_hashes(data, words).len() + 1) * words,
{
    let n = data.len() as int / words;
    assert((i + 1) * words == i * words + words) by (nonlinear_arith);
    assert(i < n) by (nonlinear_arith)
        requires
            n == data.len() as int / words,
            (i + 1) * words <= data.len(),
            words > 0,
    ;
    assert(n * words <= data.len() && data.len() < (n + 1) * words) by (nonlinear_arith)
        requires
            n == data.len() as int / words,
            words > 0,
    ;
}

/// A buffer is dispatched where it is a whole number of records that fit the
/// device, and all of them are.
pub proof fn law_what_fits_is_dispatched(
    info: &GpuInfo,
    n: usize,
    record_words: usize,
    data_words: usize,
    r: Result<Dispatch, String>,
)
    requires
        is_plan(info, data_words, record_words, r),
        n > 0 && record_words > 0,
        data_words == n * record_words,
        data_words * 4 <= usize::MAX,
        data_words * 4 <= info.max_buffer_bytes as usize,
        n * 4 <= info.max_buffer_bytes as usize,
        n <= info.max_workgroups_per_dim * 64,
    ensures
        r == Ok::<Dispatch, String>(Dispatch::Records(n)),
{
    assert(data_words > 0 && data_words as int % record_words as int == 0 && data_words as int
        / record_words as int == n) by (nonlinear_arith)
        requires
            n > 0 && record_words > 0,
            data_words == n * record_words,
    ;
    assert(record_words <= data_words) by (nonlinear_arith)
        requires
            n > 0 && record_words > 0,
            data_words == n * record_words,
    ;
    let bytes = (record_words * 4) as usize;
    assert(n * bytes == data_words * 4) by (nonlinear_arith)
        requires
            bytes == record_words * 4,
            data_words == n * record_words,
    ;
    law_what_fits_is_within_the_limit(*info, bytes, n as int);
}

/// There is nothing to do without records, and what is dispatched is the whole
/// buffer, within the limits of the device.
pub proof fn law_what_is_dispatched_fits(
    info: &GpuInfo,
    data_words: usize,
    record_words: usize,
    r: Result<Dispatch, String>,
)
    requires
        is_plan(info, data_words, record_words, r),
        data_words * 4 <= usize::MAX,
    ensures
        data_words == 0 || record_words == 0 ==> r == Ok::<Dispatch, String>(Dispatch::Nothing),
        r matches Ok(Dispatch::Records(n)) ==> {
            &&& n * record_words == data_words
            &&& n > 0
            &&& n * 4 <= info.max_buffer_bytes as usize
            &&& data_words * 4 <= info.max_buffer_bytes as usize
            &&& n <= info.max_workgroups_per_dim * 64
        },
        data_words > 0 && record_words > 0 ==> r != Ok::<Dispatch, String>(Dispatch::Nothing),
{
    if data_words > 0 && record_words > 0 {
        if let Ok(Dispatch::Records(n)) = r {
            assert(n == data_words as nat / record_words as nat);
            assert(n * record_words == data_words && n > 0) by (nonlinear_arith)
                requires
                    n == data_words as nat / record_words as nat,
                    data_words as int % record_words as int == 0,
                    data_words > 0 && record_words > 0,
            ;
            assert(record_words <= data_words) by (nonlinear_arith)
                requires
                    n * record_words == data_words,
                    n > 0,
            ;
            let bytes = (record_words * 4) as usize;
            law_a_dispatch_fits_its_buffers(*info, bytes, n as int);
            assert(n * bytes == data_words * 4) by (nonlinear_arith)
                requires
                    bytes == record_words * 4,
                    n * record_words == data_words,
            ;
        }
    }
}

} // verus!
