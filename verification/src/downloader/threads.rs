//! The byte ranges that a resource is fetched in.
use crate::downloader::decompress::{joined, views, ArchiveFormat, Decompressed};
use crate::downloader::text::{decimal, push_decimal};
use crate::downloader::verify::Checksum;
use crate::error::{first_error, take_first_error, ArchiveError, DownloadError};
use vstd::arithmetic::div_mod::{lemma_div_is_ordered_by_denominator, lemma_fundamental_div_mod};
use vstd::prelude::*;
use vstd::seq_lib::{to_multiset_build, to_multiset_insert};
use vstd::slice::slice_subrange;
use vstd::string::StringExecFns;

verus! {

/// The size of each range when `length` bytes are split `threads` ways:
/// `length / threads`, rounded up.
pub open spec fn chunk_size(threads: nat, length: nat) -> nat {
    if length % threads == 0 {
        length / threads
    } else {
        length / threads + 1
    }
}

/// Where range `i` begins.
pub open spec fn range_begin(threads: nat, length: nat, i: nat) -> nat {
    chunk_size(threads, length) * i
}

/// Where range `i` ends: one size further, but not beyond the resource.
pub open spec fn range_end(threads: nat, length: nat, i: nat) -> nat {
    if chunk_size(threads, length) * (i + 1) <= length {
        chunk_size(threads, length) * (i + 1)
    } else {
        length
    }
}

/// Whether offset `x` lies in range `i`.
pub open spec fn in_range(threads: nat, length: nat, i: nat, x: nat) -> bool {
    range_begin(threads, length, i) <= x < range_end(threads, length, i)
}

/// Whether offset `x` lies in one of the `threads` ranges.
pub open spec fn covered(threads: nat, length: nat, x: nat) -> bool {
    exists|i: nat| i < threads && #[trigger] in_range(threads, length, i, x)
}

/// The value of the `Range` header for the range from `begin` to `end` of a
/// resource of `length` bytes: none where the range is the whole resource,
/// open-ended where it reaches the end.
pub open spec fn range_value(begin: nat, end: nat, length: nat) -> Option<Seq<char>> {
    if end == length {
        if begin == 0 {
            None
        } else {
            Some("bytes="@ + decimal(begin) + "-"@)
        }
    } else {
        Some("bytes="@ + decimal(begin) + "-"@ + decimal(end))
    }
}

/// The ranges that `Chunks::new` makes cover the resource exactly: the last
/// one ends where the resource ends, every offset of the resource lies in a
/// range, no range holds an offset outside it, and no offset lies in two
/// ranges.
pub proof fn lemma_partition_covers(threads: nat, length: nat)
    requires
        threads >= 1,
    ensures
        range_end(threads, length, (threads - 1) as nat) == length,
        forall|x: nat| x < length ==> #[trigger] covered(threads, length, x),
        forall|i: nat, x: nat| #[trigger] in_range(threads, length, i, x) ==> x < length,
        forall|i: nat, j: nat, x: nat|
            #[trigger] in_range(threads, length, i, x) && #[trigger] in_range(threads, length, j, x)
                ==> i == j,
{
    let size = chunk_size(threads, length);
    lemma_fundamental_div_mod(length as int, threads as int);
    assert(size * threads >= length) by (nonlinear_arith)
        requires
            length == threads * (length / threads) + (length % threads),
            0 <= length % threads < threads,
            size == if length % threads == 0 {
                length / threads
            } else {
                length / threads + 1
            },
    ;
    assert(size * ((threads - 1) + 1) == size * threads);
    assert forall|x: nat| x < length implies #[trigger] covered(threads, length, x) by {
        assert(size > 0) by (nonlinear_arith)
            requires
                size * threads >= length,
                length > 0,
        ;
        let i = x / size;
        lemma_fundamental_div_mod(x as int, size as int);
        assert(size * i <= x < size * (i + 1)) by (nonlinear_arith)
            requires
                x == size * i + (x % size),
                0 <= x % size < size,
        ;
        assert(i < threads) by (nonlinear_arith)
            requires
                size * i <= x,
                x < length,
                length <= size * threads,
                size > 0,
        ;
        assert(in_range(threads, length, i, x));
    }
    assert forall|i: nat, j: nat, x: nat|
        #[trigger] in_range(threads, length, i, x) && #[trigger] in_range(
            threads,
            length,
            j,
            x,
        ) implies i == j by {
        if i < j {
            assert(size * (i + 1) <= size * j) by (nonlinear_arith)
                requires
                    i + 1 <= j,
                    size >= 0,
            ;
        }
        if j < i {
            assert(size * (j + 1) <= size * i) by (nonlinear_arith)
                requires
                    j + 1 <= i,
                    size >= 0,
            ;
        }
    }
}

/// A chunk that is the whole resource is asked for without a `Range` header.
/// One that begins later and reaches the end of the resource is asked for
/// with `bytes=`, its begin and a hyphen. Every chunk that ends before the
/// resource does is asked for with both ends of its range.
pub proof fn lemma_range_header(begin: nat, end: nat, length: nat)
    ensures
        begin == 0 && end == length ==> range_value(begin, end, length) is None,
        begin > 0 && end == length ==> range_value(begin, end, length) == Some(
            "bytes="@ + decimal(begin) + "-"@,
        ),
        end != length ==> range_value(begin, end, length) == Some(
            "bytes="@ + decimal(begin) + "-"@ + decimal(end),
        ),
{
}

/// A resource that is fetched in one chunk is fetched whole, from its first
/// byte to its last, and without a `Range` header.
pub proof fn lemma_single_chunk(length: nat)
    ensures
        range_begin(1, length, 0) == 0,
        range_end(1, length, 0) == length,
        range_value(range_begin(1, length, 0), range_end(1, length, 0), length) is None,
{
    lemma_partition_covers(1, length);
}

/// Every chunk of an empty resource is empty: there is nothing to fetch.
pub proof fn lemma_empty_resource(threads: nat, i: nat)
    requires
        threads >= 1,
    ensures
        range_begin(threads, 0, i) == 0,
        range_end(threads, 0, i) == 0,
{
    assert(chunk_size(threads, 0) == 0);
    assert(chunk_size(threads, 0) * i == 0) by (nonlinear_arith)
        requires
            chunk_size(threads, 0) == 0,
    ;
}

/// The last chunk of a resource asks for its bytes with an open-ended range,
/// `bytes=` and where it begins and `-`, unless it is the whole resource. A
/// chunk that ends before the resource does names both ends of its range.
pub proof fn lemma_range_forms(threads: nat, length: nat, i: nat)
    requires
        threads >= 1,
        i < threads,
    ensures
        i == threads - 1 && range_begin(threads, length, i) > 0 ==> range_value(
            range_begin(threads, length, i),
            range_end(threads, length, i),
            length,
        ) == Some("bytes="@ + decimal(range_begin(threads, length, i)) + "-"@),
        range_end(threads, length, i) < length ==> range_value(
            range_begin(threads, length, i),
            range_end(threads, length, i),
            length,
        ) == Some(
            "bytes="@ + decimal(range_begin(threads, length, i)) + "-"@ + decimal(
                range_end(threads, length, i),
            ),
        ),
{
    lemma_partition_covers(threads, length);
}

/// Where a range begins fits in 64 bits, whatever the resource's length.
proof fn lemma_begin_fits(threads: nat, length: nat, i: nat)
    requires
        1 <= threads <= 255,
        i < threads,
        length <= u64::MAX,
    ensures
        chunk_size(threads, length) * i <= u64::MAX,
        chunk_size(threads, length) <= u64::MAX,
        chunk_size(threads, length) * (i + 1) == chunk_size(threads, length) * i + chunk_size(
            threads,
            length,
        ),
{
    let q = length / threads;
    let size = chunk_size(threads, length);
    lemma_fundamental_div_mod(length as int, threads as int);
    assert(threads * q <= length);
    if threads >= 2 {
        lemma_div_is_ordered_by_denominator(length as int, 2, threads as int);
    }
    if q >= threads {
        assert(size * i <= (q + 1) * (threads - 1)) by (nonlinear_arith)
            requires
                0 <= size <= q + 1,
                0 <= i <= threads - 1,
        ;
        assert((q + 1) * (threads - 1) == threads * q + threads - q - 1) by (nonlinear_arith);
    } else {
        assert(size * i <= 255 * 255) by (nonlinear_arith)
            requires
                0 <= size <= 255,
                0 <= i <= 255,
        ;
    }
    assert(size * (i + 1) == size * i + size) by (nonlinear_arith);
}

/// What a chunk stands for: its range, the resource's length, and the bytes
/// it has received.
pub struct ChunkView {
    pub begin: nat,
    pub end: nat,
    pub length: nat,
    pub body: Seq<u8>,
}

impl ChunkView {
    /// The chunk holds at least the bytes of its range.
    pub open spec fn complete(self) -> bool {
        self.begin <= self.end && self.end - self.begin <= self.body.len()
    }

    /// The bytes of the chunk's range.
    pub open spec fn payload(self) -> Seq<u8> {
        self.body.take(self.end - self.begin)
    }

    /// The chunk after `more` bytes have arrived.
    pub open spec fn extended(self, more: Seq<u8>) -> ChunkView {
        ChunkView { begin: self.begin, end: self.end, length: self.length, body: self.body + more }
    }
}

/// What happened last in the transfer of one chunk.
pub enum Arrival<'a> {
    /// Nothing yet.
    Start,
    /// The request could not be sent.
    Refused(reqwest_middleware::Error),
    /// A slice of the body arrived.
    Slice(&'a [u8]),
    /// The body broke off.
    Broken(reqwest::Error),
    /// The body has ended.
    End,
}

/// What is done next in the transfer of one chunk.
pub enum Demand {
    /// Send one GET for the resource, with this value in its `Range` header,
    /// or without that header, and await the body.
    Get(Option<String>),
    /// Advance the download's own bar by this much, and await more of the
    /// body.
    Advance(u64),
    /// The transfer has succeeded.
    Done,
    /// The transfer has failed.
    Fail(DownloadError),
}

/// One contiguous byte range of a resource, with the bytes fetched for it.
#[derive(Debug)]
pub struct Chunk {
    buf: Vec<u8>,
    begin: u64,
    end: u64,
    length: u64,
}

impl View for Chunk {
    type V = ChunkView;

    closed spec fn view(&self) -> ChunkView {
        ChunkView {
            begin: self.begin as nat,
            end: self.end as nat,
            length: self.length as nat,
            body: self.buf@,
        }
    }
}

impl Chunk {
    /// The chunk for the range from `begin` to `end` of a resource of
    /// `length` bytes, with nothing received yet.
    pub fn new(begin: u64, end: u64, length: u64) -> (r: Self)
        ensures
            r@ == (ChunkView {
                begin: begin as nat,
                end: end as nat,
                length: length as nat,
                body: Seq::empty(),
            }),
    {
        Chunk { buf: Vec::new(), begin, end, length }
    }

    /// The value of the `Range` header to fetch this chunk with, if it needs
    /// one.
    pub fn range(&self) -> (r: Option<String>)
        ensures
            match range_value(self@.begin, self@.end, self@.length) {
                Some(value) => r matches Some(text) && text@ == value,
                None => r is None,
            },
    {
        if self.end == self.length && self.begin == 0 {
            return None;
        }
        let mut text = String::from_str("bytes=");
        push_decimal(&mut text, self.begin);
        text.append("-");
        if self.end != self.length {
            push_decimal(&mut text, self.end);
        }
        Some(text)
    }

    /// Takes in a slice of the body as it arrives, and returns by how much
    /// the transfer has advanced.
    pub fn receive(&mut self, slice: &[u8]) -> (advance: u64)
        ensures
            final(self)@ == old(self)@.extended(slice@),
            advance == slice@.len(),
    {
        self.buf.extend_from_slice(slice);
        assert(self@.body =~= old(self)@.body + slice@);
        slice.len() as u64
    }

    /// Decides what is done next in the transfer of this chunk, given what
    /// happened last. The transfer begins with one GET: without a `Range`
    /// header where the chunk is the whole resource, with `bytes=` and the
    /// begin and a hyphen where the chunk reaches the end of the resource,
    /// and with the end behind the hyphen where it does not. Every slice
    /// that arrives is appended to what the chunk holds. A request that
    /// cannot be sent is a `RequestError`, a body that breaks off a
    /// `ReqwestError`.
    pub fn download(&mut self, arrival: Arrival<'_>) -> (demand: Demand)
        ensures
            final(self)@ == match arrival {
                Arrival::Slice(slice) => old(self)@.extended(slice@),
                _ => old(self)@,
            },
            arrival is Start && old(self)@.begin == 0 && old(self)@.end == old(self)@.length
                ==> demand == Demand::Get(None),
            arrival is Start && old(self)@.begin > 0 && old(self)@.end == old(self)@.length ==> (
            demand matches Demand::Get(Some(text)) && text@ == "bytes="@ + decimal(old(self)@.begin)
                + "-"@),
            arrival is Start && old(self)@.end != old(self)@.length ==> (
            demand matches Demand::Get(Some(text)) && text@ == "bytes="@ + decimal(old(self)@.begin)
                + "-"@ + decimal(old(self)@.end)),
            arrival matches Arrival::Refused(e) ==> demand == Demand::Fail(
                DownloadError::RequestError(e),
            ),
            arrival matches Arrival::Slice(slice) ==> demand == Demand::Advance(slice@.len() as u64),
            arrival matches Arrival::Broken(e) ==> demand == Demand::Fail(
                DownloadError::ReqwestError(e),
            ),
            arrival is End ==> demand is Done,
    {
        match arrival {
            Arrival::Start => Demand::Get(self.range()),
            Arrival::Refused(e) => Demand::Fail(DownloadError::RequestError(e)),
            Arrival::Slice(slice) => Demand::Advance(self.receive(slice)),
            Arrival::Broken(e) => Demand::Fail(DownloadError::ReqwestError(e)),
            Arrival::End => Demand::Done,
        }
    }

    /// The offset at which the chunk's range begins.
    pub fn begin(&self) -> (r: u64)
        ensures
            r == self@.begin,
    {
        self.begin
    }

    /// The offset before which the chunk's range ends.
    pub fn end(&self) -> (r: u64)
        ensures
            r == self@.end,
    {
        self.end
    }

    /// The length of the whole resource.
    pub fn length(&self) -> (r: u64)
        ensures
            r == self@.length,
    {
        self.length
    }

    /// All that the chunk has received.
    pub fn body(&self) -> (r: &[u8])
        ensures
            r@ == self@.body,
    {
        self.buf.as_slice()
    }

    /// Whether the chunk holds at least the bytes of its range.
    pub fn is_complete(&self) -> (r: bool)
        ensures
            r == self@.complete(),
    {
        self.begin <= self.end && self.end - self.begin <= self.buf.len() as u64
    }

    /// The bytes of the chunk's range.
    pub fn payload(&self) -> (r: &[u8])
        requires
            self@.complete(),
        ensures
            r@ == self@.payload(),
    {
        let held = self.buf.len();
        assert(self.end - self.begin <= held);
        slice_subrange(self.buf.as_slice(), 0, (self.end - self.begin) as usize)
    }

    /// Where the chunk is written in the output, and what is written there:
    /// all that it received.
    pub fn save(self) -> (r: (u64, Vec<u8>))
        ensures
            r.0 == self@.begin,
            r.1@ == self@.body,
    {
        (self.begin, self.buf)
    }
}

/// Whether the chunks stand in the order of their offsets.
pub open spec fn ordered(chunks: Seq<ChunkView>) -> bool {
    forall|i: int, j: int| 0 <= i < j < chunks.len() ==> chunks[i].begin <= chunks[j].begin
}

/// Where `chunk` goes among `chunks`: behind the last one that does not begin
/// after it.
pub open spec fn slot(chunks: Seq<ChunkView>, chunk: ChunkView) -> int
    decreases chunks.len(),
{
    if chunks.len() == 0 {
        0
    } else if chunks.last().begin <= chunk.begin {
        chunks.len() as int
    } else {
        slot(chunks.drop_last(), chunk)
    }
}

/// The chunks sorted by offset; chunks with the same offset keep their order.
pub open spec fn by_begin(chunks: Seq<ChunkView>) -> Seq<ChunkView>
    decreases chunks.len(),
{
    if chunks.len() == 0 {
        chunks
    } else {
        let front = by_begin(chunks.drop_last());
        front.insert(slot(front, chunks.last()), chunks.last())
    }
}

/// The bytes of each chunk's range, chunk by chunk.
pub open spec fn payloads(chunks: Seq<ChunkView>) -> Seq<Seq<u8>> {
    chunks.map_values(|chunk: ChunkView| chunk.payload())
}

/// All that each chunk has received, chunk by chunk.
pub open spec fn bodies(chunks: Seq<ChunkView>) -> Seq<Seq<u8>> {
    chunks.map_values(|chunk: ChunkView| chunk.body)
}

/// Every chunk holds at least the bytes of its range.
pub open spec fn all_complete(chunks: Seq<ChunkView>) -> bool {
    forall|i: int| 0 <= i < chunks.len() ==> (#[trigger] chunks[i]).complete()
}

/// A file after `bytes` were written at `offset`: a gap before the offset
/// reads as zeros, and what lay behind the written bytes stays.
pub open spec fn written(file: Seq<u8>, offset: nat, bytes: Seq<u8>) -> Seq<u8> {
    let size = if file.len() < offset + bytes.len() {
        offset + bytes.len()
    } else {
        file.len()
    };
    Seq::new(
        size,
        |i: int|
            if offset <= i < offset + bytes.len() {
                bytes[i - offset]
            } else if i < file.len() {
                file[i]
            } else {
                0u8
            },
    )
}

/// An empty file after each chunk was written at its offset, in order.
pub open spec fn saved(chunks: Seq<ChunkView>) -> Seq<u8>
    decreases chunks.len(),
{
    if chunks.len() == 0 {
        Seq::empty()
    } else {
        written(saved(chunks.drop_last()), chunks.last().begin, chunks.last().body)
    }
}

/// Each chunk begins where the bytes of those before it end.
pub open spec fn stacked(chunks: Seq<ChunkView>) -> bool {
    forall|i: int|
        0 <= i < chunks.len() ==> (#[trigger] chunks[i]).begin == joined(bodies(chunks).take(i)).len()
}

/// Where `slot` points, the chunks before do not begin later and the chunks
/// from there on do.
pub proof fn lemma_slot(chunks: Seq<ChunkView>, chunk: ChunkView)
    ensures
        0 <= slot(chunks, chunk) <= chunks.len(),
        forall|k: int| slot(chunks, chunk) <= k < chunks.len() ==> chunks[k].begin > chunk.begin,
        slot(chunks, chunk) > 0 ==> chunks[slot(chunks, chunk) - 1].begin <= chunk.begin,
    decreases chunks.len(),
{
    if chunks.len() > 0 && chunks.last().begin > chunk.begin {
        let front = chunks.drop_last();
        lemma_slot(front, chunk);
        assert forall|k: int| slot(chunks, chunk) <= k < chunks.len() implies chunks[k].begin
            > chunk.begin by {
            if k < front.len() {
                assert(chunks[k] == front[k]);
            }
        }
        if slot(chunks, chunk) > 0 {
            assert(chunks[slot(chunks, chunk) - 1] == front[slot(front, chunk) - 1]);
        }
    }
}

/// Sorting keeps every chunk, as often as it occurs, and puts the chunks in
/// the order of their offsets.
pub proof fn lemma_by_begin(chunks: Seq<ChunkView>)
    ensures
        by_begin(chunks).len() == chunks.len(),
        by_begin(chunks).to_multiset() == chunks.to_multiset(),
        ordered(by_begin(chunks)),
    decreases chunks.len(),
{
    if chunks.len() > 0 {
        let front = by_begin(chunks.drop_last());
        let last = chunks.last();
        let at = slot(front, last);
        lemma_by_begin(chunks.drop_last());
        lemma_slot(front, last);
        to_multiset_insert(front, at, last);
        to_multiset_build(chunks.drop_last(), last);
        assert(chunks.drop_last().push(last) =~= chunks);
        let sorted = front.insert(at, last);
        assert forall|i: int, j: int| 0 <= i < j < sorted.len() implies sorted[i].begin
            <= sorted[j].begin by {
            if j < at {
                assert(sorted[i] == front[i] && sorted[j] == front[j]);
            } else if j == at {
                if at > 0 {
                    assert(sorted[i] == front[i]);
                    assert(front[i].begin <= front[at - 1].begin);
                }
            } else if i < at {
                assert(sorted[i] == front[i] && sorted[j] == front[j - 1]);
            } else if i == at {
                assert(sorted[j] == front[j - 1]);
            } else {
                assert(sorted[i] == front[i - 1] && sorted[j] == front[j - 1]);
            }
        }
    }
}

/// Sorting chunks that are in order already changes nothing; so sorting
/// twice is sorting once.
pub proof fn lemma_sort_idempotent(chunks: Seq<ChunkView>)
    ensures
        ordered(chunks) ==> by_begin(chunks) == chunks,
        by_begin(by_begin(chunks)) == by_begin(chunks),
    decreases chunks.len(),
{
    if ordered(chunks) {
        lemma_ordered_fixed(chunks);
    }
    lemma_by_begin(chunks);
    lemma_ordered_fixed(by_begin(chunks));
}

/// Sorting chunks that are in order already changes nothing.
proof fn lemma_ordered_fixed(chunks: Seq<ChunkView>)
    requires
        ordered(chunks),
    ensures
        by_begin(chunks) == chunks,
    decreases chunks.len(),
{
    if chunks.len() > 0 {
        let front = chunks.drop_last();
        lemma_ordered_fixed(front);
        if front.len() > 0 {
            assert(front.last() == chunks[chunks.len() - 2]);
        }
        assert(slot(front, chunks.last()) == front.len());
        assert(front.insert(front.len() as int, chunks.last()) =~= chunks);
    }
}

/// Written one after the other, chunks that begin where the ones before end
/// give the file that holds their bodies joined in order.
pub proof fn lemma_saved_joined(chunks: Seq<ChunkView>)
    requires
        stacked(chunks),
    ensures
        saved(chunks) == joined(bodies(chunks)),
    decreases chunks.len(),
{
    if chunks.len() > 0 {
        let front = chunks.drop_last();
        let n = chunks.len() - 1;
        assert(bodies(chunks).drop_last() =~= bodies(front));
        assert(bodies(chunks).take(n) =~= bodies(front));
        assert forall|i: int| 0 <= i < front.len() implies (#[trigger] front[i]).begin == joined(
            bodies(front).take(i),
        ).len() by {
            assert(front[i] == chunks[i]);
            assert(bodies(front).take(i) =~= bodies(chunks).take(i));
        }
        lemma_saved_joined(front);
        assert(chunks[n].begin == joined(bodies(front)).len());
        assert(saved(chunks) =~= joined(bodies(front)) + chunks.last().body);
    }
}

/// Writes to ranges that do not overlap can be made in either order.
pub proof fn lemma_writes_commute(
    file: Seq<u8>,
    first: nat,
    head: Seq<u8>,
    second: nat,
    tail: Seq<u8>,
)
    requires
        first + head.len() <= second,
    ensures
        written(written(file, first, head), second, tail) == written(
            written(file, second, tail),
            first,
            head,
        ),
{
    assert(written(written(file, first, head), second, tail) =~= written(
        written(file, second, tail),
        first,
        head,
    ));
}

/// The chunks that a resource of `length` bytes is split into for `threads`
/// transfers, nothing received yet.
pub open spec fn partition(threads: nat, length: nat) -> Seq<ChunkView> {
    Seq::new(
        threads,
        |i: int|
            ChunkView {
                begin: range_begin(threads, length, i as nat),
                end: range_end(threads, length, i as nat),
                length,
                body: Seq::empty(),
            },
    )
}

/// The chunks of one resource.
#[derive(Debug)]
pub struct Chunks {
    chunks: Vec<Chunk>,
}

impl View for Chunks {
    type V = Seq<ChunkView>;

    closed spec fn view(&self) -> Seq<ChunkView> {
        self.chunks@.map_values(|chunk: Chunk| chunk@)
    }
}

impl Chunks {
    /// Splits a resource of `length` bytes into `threads` ranges of equal
    /// size, the last ones cut off at the end of the resource.
    pub fn new(threads: u8, length: u64) -> (r: Self)
        requires
            threads >= 1,
        ensures
            r@ == partition(threads as nat, length as nat),
    {
        let t = threads as u64;
        proof {
            lemma_begin_fits(threads as nat, length as nat, 0);
        }
        let size: u64 = if length % t == 0 {
            length / t
        } else {
            length / t + 1
        };
        let mut r = Chunks { chunks: Vec::new() };
        let mut i: u8 = 0;
        while i < threads
            invariant
                1 <= threads,
                i <= threads,
                size == chunk_size(threads as nat, length as nat),
                r@.len() == i,
                forall|k: int|
                    0 <= k < i ==> #[trigger] r@[k] == (ChunkView {
                        begin: range_begin(threads as nat, length as nat, k as nat),
                        end: range_end(threads as nat, length as nat, k as nat),
                        length: length as nat,
                        body: Seq::empty(),
                    }),
            decreases threads - i,
        {
            proof {
                lemma_begin_fits(threads as nat, length as nat, i as nat);
            }
            let begin = size * (i as u64);
            let end = if begin <= length && size <= length - begin {
                begin + size
            } else {
                length
            };
            let ghost before = r@;
            r.chunks.push(Chunk::new(begin, end, length));
            assert(r@ =~= before.push(r.chunks@[i as int]@));
            i = i + 1;
        }
        assert(r@ =~= partition(threads as nat, length as nat));
        r
    }

    /// The chunks `chunks`, as they stand.
    pub fn from_chunks(chunks: Vec<Chunk>) -> (r: Self)
        ensures
            r@ == chunks@.map_values(|chunk: Chunk| chunk@),
    {
        Chunks { chunks }
    }

    /// How many chunks there are.
    pub fn len(&self) -> (r: usize)
        ensures
            r == self@.len(),
    {
        self.chunks.len()
    }

    /// Chunk `index`.
    pub fn get(&self, index: usize) -> (r: &Chunk)
        requires
            index < self@.len(),
        ensures
            r@ == self@[index as int],
    {
        &self.chunks[index]
    }

    /// Whether every chunk holds at least the bytes of its range.
    pub fn is_complete(&self) -> (r: bool)
        ensures
            r == all_complete(self@),
    {
        let mut i: usize = 0;
        while i < self.chunks.len()
            invariant
                i <= self@.len(),
                self@.len() == self.chunks@.len(),
                forall|k: int| 0 <= k < i ==> (#[trigger] self@[k]).complete(),
            decreases self@.len() - i,
        {
            assert(self@[i as int] == self.chunks@[i as int]@);
            if !self.chunks[i].is_complete() {
                assert(!self@[i as int].complete());
                return false;
            }
            i = i + 1;
        }
        true
    }

    /// The chunks one by one, for their transfers.
    pub fn into_chunks(self) -> (r: Vec<Chunk>)
        ensures
            r@.map_values(|chunk: Chunk| chunk@) == self@,
    {
        self.chunks
    }

    /// Puts the chunks in the order of their offsets; chunks with the same
    /// offset keep their order.
    fn sort(&mut self)
        ensures
            final(self)@ == by_begin(old(self)@),
    {
        let mut i: usize = 0;
        assert(self@ =~= by_begin(old(self)@.take(0)) + old(self)@.skip(0));
        while i < self.chunks.len()
            invariant
                i <= old(self)@.len(),
                self.chunks@.len() == old(self)@.len(),
                self@ == by_begin(old(self)@.take(i as int)) + old(self)@.skip(i as int),
                by_begin(old(self)@.take(i as int)).len() == i,
            decreases old(self)@.len() - i,
        {
            let ghost front = by_begin(old(self)@.take(i as int));
            let ghost rest = old(self)@.skip(i + 1);
            let ghost before = self@;
            assert(before[i as int] == old(self)@.skip(i as int)[0]);
            assert(before[i as int] == self.chunks@[i as int]@);
            let chunk = self.chunks.remove(i);
            assert(chunk@ == old(self)@[i as int]);
            assert(self@ =~= before.remove(i as int));
            assert(before.remove(i as int) =~= front + rest);
            let mut at: usize = i;
            assert(front.take(i as int) =~= front);
            while at > 0 && self.chunks[at - 1].begin > chunk.begin
                invariant
                    at <= i,
                    front.len() == i,
                    self.chunks@.len() == front.len() + rest.len(),
                    self@ == front + rest,
                    slot(front, chunk@) == slot(front.take(at as int), chunk@),
                decreases at,
            {
                assert(self@[at - 1] == front[at - 1]);
                assert(front.take(at as int).drop_last() =~= front.take(at - 1));
                at = at - 1;
            }
            proof {
                if at > 0 {
                    assert(self@[at - 1] == front[at - 1]);
                    assert(front.take(at as int).last() == front[at - 1]);
                }
                assert(slot(front, chunk@) == at);
                assert(old(self)@.take(i + 1).drop_last() =~= old(self)@.take(i as int));
                lemma_by_begin(old(self)@.take(i + 1));
            }
            self.chunks.insert(at, chunk);
            proof {
                let grown = old(self)@.take(i + 1);
                assert(grown.last() == old(self)@[i as int]);
                assert(by_begin(grown) == front.insert(at as int, chunk@));
                assert(self@ =~= (front + rest).insert(at as int, chunk@));
                assert((front + rest).insert(at as int, chunk@) =~= front.insert(at as int, chunk@)
                    + rest);
            }
            assert(self@ =~= by_begin(old(self)@.take(i + 1)) + old(self)@.skip(i + 1));
            i = i + 1;
        }
        assert(old(self)@.take(i as int) =~= old(self)@);
        assert(self@ =~= by_begin(old(self)@));
    }

    /// Closes the transfer of all chunks, given how each one ended. The
    /// first failure, if there is one, is the result, and the chunks stay as
    /// they are. Where every transfer succeeded the chunks are put in the
    /// order of their offsets.
    pub fn download(&mut self, outcomes: Vec<Result<(), DownloadError>>) -> (r: Result<
        (),
        DownloadError,
    >)
        ensures
            match first_error(outcomes@) {
                Some(e) => r == Err::<(), DownloadError>(e) && final(self)@ == old(self)@,
                None => r is Ok && final(self)@ == by_begin(old(self)@),
            },
    {
        let first = take_first_error(outcomes);
        match first {
            Some(e) => Err(e),
            None => {
                self.sort();
                Ok(())
            },
        }
    }

    /// Holds the bytes of the chunks' ranges, in the order in which the
    /// chunks stand, against `checksum`: `InvalidChecksum` unless their
    /// digest is the expected one.
    pub fn verify(&self, checksum: Checksum) -> (r: Result<(), DownloadError>)
        requires
            all_complete(self@),
        ensures
            checksum.matches_after(joined(payloads(self@))) ==> r is Ok,
            !checksum.matches_after(joined(payloads(self@))) ==> r matches Err(
                DownloadError::InvalidChecksum,
            ),
    {
        let ghost start = checksum.taken();
        let ghost kind = checksum.kind();
        let ghost expected = checksum.expected();
        let mut running = checksum;
        let mut i: usize = 0;
        assert(payloads(self@).take(0).len() == 0);
        assert(start + joined(payloads(self@).take(0)) =~= start);
        while i < self.chunks.len()
            invariant
                all_complete(self@),
                i <= self@.len(),
                self@.len() == self.chunks@.len(),
                running.kind() == kind,
                running.expected() == expected,
                running.taken() == start + joined(payloads(self@).take(i as int)),
            decreases self@.len() - i,
        {
            assert(self@[i as int].complete());
            assert(self@[i as int] == self.chunks@[i as int]@);
            running.update(self.chunks[i].payload());
            proof {
                crate::downloader::decompress::lemma_joined_take(payloads(self@), i as int);
                assert(running.taken() =~= start + joined(payloads(self@).take(i + 1)));
            }
            i = i + 1;
        }
        assert(payloads(self@).take(i as int) =~= payloads(self@));
        if running.verify() {
            Ok(())
        } else {
            Err(DownloadError::InvalidChecksum)
        }
    }

    /// Decodes the bytes of the chunks' ranges, taken in the order in which
    /// the chunks stand as one stream, as `format` has it.
    pub fn save_archive(&self, format: ArchiveFormat) -> (r: Result<Decompressed, ArchiveError>)
        requires
            all_complete(self@),
        ensures
            format.decompressed(joined(payloads(self@)), r),
    {
        let mut data: Vec<&[u8]> = Vec::new();
        let mut i: usize = 0;
        while i < self.chunks.len()
            invariant
                all_complete(self@),
                i <= self@.len(),
                self@.len() == self.chunks@.len(),
                data@.len() == i,
                views(data@) == payloads(self@).take(i as int),
            decreases self@.len() - i,
        {
            assert(self@[i as int].complete());
            assert(self@[i as int] == self.chunks@[i as int]@);
            let ghost gathered = data@;
            data.push(self.chunks[i].payload());
            assert(data@ == gathered.push(data@[i as int]));
            assert(views(data@) =~= views(gathered).push(self@[i as int].payload()));
            assert(views(data@) =~= payloads(self@).take(i + 1));
            i = i + 1;
        }
        assert(payloads(self@).take(i as int) =~= payloads(self@));
        format.decompress(data.as_slice())
    }

    /// What is to be written to the output, chunk by chunk: the offset to
    /// write at, and all that the chunk received.
    pub fn save(self) -> (r: Vec<(u64, Vec<u8>)>)
        ensures
            r@.len() == self@.len(),
            forall|i: int|
                0 <= i < r@.len() ==> (#[trigger] r@[i]).0 == self@[i].begin && r@[i].1@
                    == self@[i].body,
    {
        let mut chunks = self.chunks;
        let mut pieces: Vec<(u64, Vec<u8>)> = Vec::new();
        while chunks.len() > 0
            invariant
                pieces@.len() + chunks@.len() == self@.len(),
                forall|i: int|
                    0 <= i < pieces@.len() ==> (#[trigger] pieces@[i]).0 == self@[i].begin
                        && pieces@[i].1@ == self@[i].body,
                forall|i: int|
                    0 <= i < chunks@.len() ==> (#[trigger] chunks@[i])@ == self@[pieces@.len() + i],
            decreases chunks@.len(),
        {
            let chunk = chunks.remove(0);
            pieces.push(chunk.save());
        }
        pieces
    }
}

} // verus!
