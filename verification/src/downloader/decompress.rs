//! The virtual reader over chunk bodies and the pipeline that decodes them.
use crate::downloader::codec::{
    bz_copy, bz_decoded, gz_copy, gz_decoded, xz_copy, xz_decoded, zip_files, zip_len, zip_listing,
    zip_open, zip_read, zst_copy, zst_decoded,
};
use crate::error::ArchiveError;
use std::io::Read;
use vstd::prelude::*;
use vstd::slice::slice_subrange;
use vstd::string::StringSliceAdditionalSpecFns;

verus! {

/// The bytes of `parts` laid end to end.
pub open spec fn joined(parts: Seq<Seq<u8>>) -> Seq<u8>
    decreases parts.len(),
{
    if parts.len() == 0 {
        Seq::empty()
    } else {
        joined(parts.drop_last()) + parts.last()
    }
}

/// The byte sequences that a list of slices stands for.
pub open spec fn views(slices: Seq<&[u8]>) -> Seq<Seq<u8>> {
    slices.map_values(|s: &[u8]| s@)
}

/// The unread rest of the part under the cursor `(index, inner)`, or of the
/// next part that is not empty; 0 when every part is used up.
spec fn run_at(parts: Seq<Seq<u8>>, index: int, inner: int) -> nat
    decreases parts.len() - index,
{
    if index < 0 || index >= parts.len() {
        0
    } else if inner < parts[index].len() {
        (parts[index].len() - inner) as nat
    } else {
        run_at(parts, index + 1, 0)
    }
}

/// How many bytes lie between offset `position` of the joined parts and the
/// end of the part that holds it; where `position` lies at the end of a
/// part, the length of the next part that is not empty, and 0 when there is
/// none.
pub open spec fn rest_at(parts: Seq<Seq<u8>>, position: int) -> nat
    decreases parts.len(),
{
    if parts.len() == 0 {
        0
    } else if position < parts.first().len() {
        (parts.first().len() - position) as nat
    } else {
        rest_at(parts.drop_first(), position - parts.first().len())
    }
}

/// The smaller of two numbers.
pub open spec fn least(a: int, b: int) -> int {
    if a <= b {
        a
    } else {
        b
    }
}

/// Joining one part more appends it.
pub proof fn lemma_joined_take(parts: Seq<Seq<u8>>, i: int)
    requires
        0 <= i < parts.len(),
    ensures
        joined(parts.take(i + 1)) == joined(parts.take(i)) + parts[i],
{
    assert(parts.take(i + 1).drop_last() =~= parts.take(i));
    assert(parts.take(i + 1).last() == parts[i]);
}

/// The joined length grows with the number of parts taken.
pub proof fn lemma_joined_monotone(parts: Seq<Seq<u8>>, i: int, j: int)
    requires
        0 <= i <= j <= parts.len(),
    ensures
        joined(parts.take(i)).len() <= joined(parts.take(j)).len(),
    decreases j - i,
{
    if i < j {
        lemma_joined_take(parts, j - 1);
        lemma_joined_monotone(parts, i, j - 1);
    }
}

/// Part `i` lies in the joined bytes right after the parts before it.
pub proof fn lemma_joined_part(parts: Seq<Seq<u8>>, i: int, a: int, b: int)
    requires
        0 <= i < parts.len(),
        0 <= a <= b <= parts[i].len(),
    ensures
        joined(parts.take(i)).len() + b <= joined(parts).len(),
        joined(parts).subrange(
            joined(parts.take(i)).len() + a,
            joined(parts.take(i)).len() + b,
        ) == parts[i].subrange(a, b),
    decreases parts.len(),
{
    let before = joined(parts.take(i)).len() as int;
    if i == parts.len() - 1 {
        assert(parts.take(i) =~= parts.drop_last());
        assert(joined(parts).subrange(before + a, before + b) =~= parts[i].subrange(a, b));
    } else {
        let front = parts.drop_last();
        assert(front.take(i) =~= parts.take(i));
        lemma_joined_part(front, i, a, b);
        assert(joined(parts).subrange(before + a, before + b) =~= joined(front).subrange(
            before + a,
            before + b,
        ));
    }
}

/// Where nothing is left to read, the cursor stands at the end.
proof fn lemma_run_zero(parts: Seq<Seq<u8>>, index: int, inner: int)
    requires
        0 <= index <= parts.len(),
        index < parts.len() ==> 0 <= inner <= parts[index].len(),
        index == parts.len() ==> inner == 0,
    ensures
        run_at(parts, index, inner) == 0 <==> joined(parts.take(index)).len() + inner == joined(
            parts,
        ).len(),
        joined(parts.take(index)).len() + inner + run_at(parts, index, inner) <= joined(
            parts,
        ).len(),
    decreases parts.len() - index,
{
    assert(parts.take(parts.len() as int) =~= parts);
    if index < parts.len() {
        lemma_joined_take(parts, index);
        lemma_joined_monotone(parts, index + 1, parts.len() as int);
        if inner == parts[index].len() {
            lemma_run_zero(parts, index + 1, 0);
        }
    }
}

/// The parts before part `i` are the first part and the parts before part
/// `i - 1` of the rest.
proof fn lemma_joined_front(parts: Seq<Seq<u8>>, i: int)
    requires
        1 <= i <= parts.len(),
    ensures
        joined(parts.take(i)).len() == parts.first().len() + joined(
            parts.drop_first().take(i - 1),
        ).len(),
    decreases i,
{
    lemma_joined_take(parts, i - 1);
    if i == 1 {
        assert(parts.take(0).len() == 0);
        assert(parts.drop_first().take(0).len() == 0);
    } else {
        lemma_joined_front(parts, i - 1);
        lemma_joined_take(parts.drop_first(), i - 2);
    }
}

/// A cursor behind the first part sees what it sees in the rest.
proof fn lemma_run_shift(parts: Seq<Seq<u8>>, index: int, inner: int)
    requires
        1 <= index <= parts.len(),
    ensures
        run_at(parts, index, inner) == run_at(parts.drop_first(), index - 1, inner),
    decreases parts.len() - index,
{
    if index < parts.len() {
        assert(parts[index] == parts.drop_first()[index - 1]);
        if inner >= parts[index].len() {
            lemma_run_shift(parts, index + 1, 0);
        }
    }
}

/// What the cursor `(index, inner)` has before it in its part is what lies
/// between its offset and the end of that part.
proof fn lemma_run_rest(parts: Seq<Seq<u8>>, index: int, inner: int)
    requires
        0 <= index <= parts.len(),
        index < parts.len() ==> 0 <= inner <= parts[index].len(),
        index == parts.len() ==> inner == 0,
    ensures
        run_at(parts, index, inner) == rest_at(parts, joined(parts.take(index)).len() + inner),
    decreases parts.len(),
{
    if parts.len() > 0 {
        let tail = parts.drop_first();
        if index == 0 {
            assert(parts.take(0).len() == 0);
            if inner == parts[0].len() {
                lemma_run_shift(parts, 1, 0);
                assert(tail.take(0).len() == 0);
                lemma_run_rest(tail, 0, 0);
            }
        } else {
            lemma_joined_front(parts, index);
            lemma_run_shift(parts, index, inner);
            if index < parts.len() {
                assert(parts[index] == tail[index - 1]);
            }
            lemma_run_rest(tail, index - 1, inner);
        }
    } else {
        assert(parts.take(0).len() == 0);
    }
}

/// Where a seek is to go: counted from the start, from the end, or from the
/// current position.
#[derive(Debug, Clone, Copy, PartialEq, Eq, Structural)]
pub enum SeekTarget {
    Start(u64),
    End(i64),
    Current(i64),
}

/// `std::io::SeekFrom`, which the `Seek` trait hands over.
#[verifier::external_type_specification]
#[verifier::external_body]
pub struct ExSeekFrom(std::io::SeekFrom);

/// What a `std::io::SeekFrom` names: its variant with its offset.
pub uninterp spec fn seek_named(from: std::io::SeekFrom) -> SeekTarget;

/// Whether `std::io::Error::kind` of the error is `InvalidInput`.
pub uninterp spec fn is_invalid_input(error: std::io::Error) -> bool;

/// Reads the variant and offset of a `std::io::SeekFrom`.
#[verifier::external_body]
fn seek_target(from: std::io::SeekFrom) -> (r: SeekTarget)
    ensures
        r == seek_named(from),
{
    match from {
        std::io::SeekFrom::Start(offset) => SeekTarget::Start(offset),
        std::io::SeekFrom::End(offset) => SeekTarget::End(offset),
        std::io::SeekFrom::Current(offset) => SeekTarget::Current(offset),
    }
}

/// Makes the error of a refused seek with `std::io::Error::new`, which
/// gives the error the kind it is handed: `InvalidInput`.
#[verifier::external_body]
fn invalid_seek() -> (r: std::io::Error)
    ensures
        is_invalid_input(r),
{
    std::io::Error::new(std::io::ErrorKind::InvalidInput, "Invalid seek")
}

/// A readable, seekable view of a list of byte slices as one stream, without
/// copying them together.
pub struct SliceReader<'a> {
    slices: &'a [&'a [u8]],
    index: usize,
    inner_index: usize,
}

impl<'a> SliceReader<'a> {
    #[verifier::type_invariant]
    spec fn cursor_in_bounds(self) -> bool {
        self.wf()
    }

    /// The cursor lies within the slices. Every reader that a program holds
    /// is well formed.
    pub closed spec fn wf(&self) -> bool {
        &&& self.index <= self.slices@.len()
        &&& self.index < self.slices@.len() ==> self.inner_index <= self.slices@[self.index as int]@.len()
        &&& self.index == self.slices@.len() ==> self.inner_index == 0
    }

    /// The slices, in order.
    pub closed spec fn parts(&self) -> Seq<Seq<u8>> {
        views(self.slices@)
    }

    /// The whole stream.
    pub open spec fn content(&self) -> Seq<u8> {
        joined(self.parts())
    }

    /// How many bytes of the stream lie before the cursor.
    pub closed spec fn position(&self) -> nat {
        joined(self.parts().take(self.index as int)).len() + self.inner_index as nat
    }

    /// How many bytes one `read` can deliver: the unread rest of the slice
    /// that the cursor stands in, or of the next one that is not empty.
    pub open spec fn run(&self) -> nat {
        rest_at(self.parts(), self.position() as int)
    }

    /// What is still to be read.
    pub open spec fn remaining(&self) -> Seq<u8> {
        self.content().skip(self.position() as int)
    }

    /// The position never leaves the stream, and `run` is 0 exactly at its end.
    pub proof fn lemma_position_in_bounds(&self)
        requires
            self.wf(),
        ensures
            self.position() <= self.content().len(),
            self.run() == 0 <==> self.position() == self.content().len(),
            self.position() + self.run() <= self.content().len(),
    {
        let parts = self.parts();
        let index = self.index as int;
        lemma_run_rest(parts, index, self.inner_index as int);
        lemma_run_zero(parts, index, self.inner_index as int);
        lemma_joined_monotone(parts, index, parts.len() as int);
        assert(parts.take(parts.len() as int) =~= parts);
        if index < parts.len() {
            lemma_joined_take(parts, index);
            lemma_joined_monotone(parts, index + 1, parts.len() as int);
        }
    }

    /// The offset that `to` names, counted from the start of the stream.
    pub open spec fn target(&self, to: SeekTarget) -> int {
        match to {
            SeekTarget::Start(offset) => offset as int,
            SeekTarget::End(offset) => self.content().len() + offset,
            SeekTarget::Current(offset) => self.position() + offset,
        }
    }

    /// Whether `to` names an offset of the stream, its end included, that a
    /// `u64` can hold.
    pub open spec fn reachable(&self, to: SeekTarget) -> bool {
        0 <= self.target(to) <= self.content().len() && self.target(to) <= u64::MAX
    }

    /// A reader at the start of `slices`.
    pub fn new(slices: &'a [&'a [u8]]) -> (r: Self)
        ensures
            r.wf(),
            r.parts() == views(slices@),
            r.position() == 0,
    {
        let r = Self { slices, index: 0, inner_index: 0 };
        assert(r.parts().take(0).len() == 0);
        r
    }

    /// The joined length of the first `upto` slices.
    fn span(&self, upto: usize) -> (r: u128)
        requires
            upto <= self.parts().len(),
        ensures
            r == joined(self.parts().take(upto as int)).len(),
            r <= 0xFFFF_FFFF_FFFF_FFFE_0000_0000_0000_0001,
    {
        let slices = self.slices;
        let ghost parts = self.parts();
        let mut sum: u128 = 0;
        let mut i: usize = 0;
        assert(parts.take(0).len() == 0);
        while i < upto
            invariant
                parts == views(slices@),
                i <= upto <= slices@.len(),
                sum == joined(parts.take(i as int)).len(),
                sum <= i * 0xFFFF_FFFF_FFFF_FFFF,
            decreases upto - i,
        {
            let size = slices[i].len();
            proof {
                lemma_joined_take(parts, i as int);
                assert((i + 1) * 0xFFFF_FFFF_FFFF_FFFF <= 0xFFFF_FFFF_FFFF_FFFF
                    * 0xFFFF_FFFF_FFFF_FFFF) by (nonlinear_arith)
                    requires
                        i + 1 <= 0xFFFF_FFFF_FFFF_FFFF,
                ;
            }
            sum = sum + size as u128;
            i = i + 1;
        }
        proof {
            assert(upto * 0xFFFF_FFFF_FFFF_FFFF <= 0xFFFF_FFFF_FFFF_FFFF * 0xFFFF_FFFF_FFFF_FFFF)
                by (nonlinear_arith)
                requires
                    upto <= 0xFFFF_FFFF_FFFF_FFFF,
            ;
        }
        sum
    }

    /// Where a seek to `to` would land, if it can.
    fn resolve(&self, to: SeekTarget) -> (r: Option<u64>)
        ensures
            self.reachable(to) ==> r == Some(self.target(to) as u64),
            !self.reachable(to) ==> r is None,
    {
        proof {
            use_type_invariant(self);
            self.lemma_position_in_bounds();
            assert(self.parts().take(self.parts().len() as int) =~= self.parts());
        }
        let total = self.span(self.slices.len());
        match to {
            SeekTarget::Start(offset) => {
                if offset as u128 <= total {
                    Some(offset)
                } else {
                    None
                }
            },
            SeekTarget::End(offset) => {
                if offset > 0 {
                    None
                } else {
                    let back = (-(offset as i128)) as u128;
                    if back > total || total - back > u64::MAX as u128 {
                        None
                    } else {
                        Some((total - back) as u64)
                    }
                }
            },
            SeekTarget::Current(offset) => {
                let here = self.span(self.index) + self.inner_index as u128;
                if offset >= 0 {
                    let there = here + offset as u128;
                    if there > total || there > u64::MAX as u128 {
                        None
                    } else {
                        Some(there as u64)
                    }
                } else {
                    let back = (-(offset as i128)) as u128;
                    if back > here || here - back > u64::MAX as u128 {
                        None
                    } else {
                        Some((here - back) as u64)
                    }
                }
            },
        }
    }

    /// Moves the cursor to the offset that `to` names and returns that
    /// offset. A target outside the stream is refused with `None`, and the
    /// cursor then stands at the start.
    pub fn seek_to(&mut self, to: SeekTarget) -> (r: Option<u64>)
        ensures
            final(self).wf(),
            final(self).parts() == old(self).parts(),
            old(self).reachable(to) ==> r == Some(old(self).target(to) as u64)
                && final(self).position() == old(self).target(to),
            !old(self).reachable(to) ==> r is None && final(self).position() == 0,
    {
        let slices = self.slices;
        let ghost parts = self.parts();
        assert(parts.take(0).len() == 0);
        match self.resolve(to) {
            None => {
                *self = SliceReader { slices, index: 0, inner_index: 0 };
                None
            },
            Some(at) => {
                let mut i: usize = 0;
                let mut before: u64 = 0;
                while i < slices.len()
                    invariant
                        parts == views(slices@),
                        parts == old(self).parts(),
                        old(self).reachable(to),
                        at == old(self).target(to),
                        i <= slices@.len(),
                        before == joined(parts.take(i as int)).len(),
                        before <= at <= joined(parts).len(),
                    decreases slices@.len() - i,
                {
                    let size = slices[i].len();
                    proof {
                        lemma_joined_take(parts, i as int);
                    }
                    if ((at - before) as u128) < size as u128 {
                        *self = SliceReader { slices, index: i, inner_index: (at - before) as usize };
                        return Some(at);
                    }
                    before = before + size as u64;
                    i = i + 1;
                }
                proof {
                    assert(parts.take(parts.len() as int) =~= parts);
                }
                *self = SliceReader { slices, index: i, inner_index: 0 };
                Some(at)
            },
        }
    }
}

impl<'a> std::io::Read for SliceReader<'a> {
    /// Fills `buf` from the current slice, or from the next one that is not
    /// empty, and returns how many bytes it copied; it never fails. A result
    /// of 0 leaves the reader at the end of the stream.
    fn read(&mut self, buf: &mut [u8]) -> (out: Result<usize, std::io::Error>)
        ensures
            final(self).wf(),
            final(self).parts() == old(self).parts(),
            out matches Ok(n) && n == least(old(buf)@.len() as int, old(self).run() as int)
                && old(self).position() + n <= old(self).content().len() && final(buf)@ == old(
                self,
            ).content().subrange(old(self).position() as int, old(self).position() + n) + old(
                buf,
            )@.skip(n as int) && final(self).position() == if n > 0 {
                old(self).position() + n
            } else {
                old(self).content().len() as int
            },
    {
        proof {
            use_type_invariant(&*self);
            self.lemma_position_in_bounds();
        }
        let ghost parts = self.parts();
        let ghost start = self.position();
        let ghost aim = self.run();
        proof {
            lemma_run_rest(parts, self.index as int, self.inner_index as int);
        }
        let slices = self.slices;
        let mut index = self.index;
        let mut inner = self.inner_index;
        while index < slices.len()
            invariant
                slices == self.slices,
                parts == views(slices@),
                parts == old(self).parts(),
                start == old(self).position(),
                aim == old(self).run(),
                start + aim <= joined(parts).len(),
                index <= slices@.len(),
                index < slices@.len() ==> inner <= slices@[index as int]@.len(),
                index == slices@.len() ==> inner == 0,
                buf@ == old(buf)@,
                buf@.len() > 0 ==> run_at(parts, index as int, inner as int) == aim
                    && joined(parts.take(index as int)).len() + inner == start,
            decreases slices@.len() - index,
        {
            let slice = slices[index];
            let size = slice.len();
            let unread = size - inner;
            let n = if unread < buf.len() {
                unread
            } else {
                buf.len()
            };
            if n == 0 {
                proof {
                    lemma_joined_take(parts, index as int);
                }
                index = index + 1;
                inner = 0;
            } else {
                let mut k: usize = 0;
                while k < n
                    invariant
                        k <= n <= buf@.len(),
                        buf@.len() == old(buf)@.len(),
                        inner + n <= size == slice@.len(),
                        forall|j: int| 0 <= j < k ==> buf@[j] == slice@[inner + j],
                        forall|j: int| k <= j < buf@.len() ==> buf@[j] == old(buf)@[j],
                    decreases n - k,
                {
                    buf[k] = slice[inner + k];
                    k = k + 1;
                }
                proof {
                    lemma_joined_part(parts, index as int, inner as int, inner + n);
                    assert(slice@ == parts[index as int]);
                    assert(buf@ =~= slice@.subrange(inner as int, inner + n) + old(buf)@.skip(
                        n as int,
                    ));
                }
                *self = SliceReader { slices, index, inner_index: inner + n };
                return Ok(n);
            }
        }
        proof {
            assert(parts.take(parts.len() as int) =~= parts);
            assert(old(self).content().subrange(start as int, start as int) =~= Seq::<u8>::empty());
            assert(buf@ =~= Seq::<u8>::empty() + old(buf)@.skip(0));
        }
        *self = SliceReader { slices, index, inner_index: 0 };
        Ok(0)
    }
}

impl<'a> std::io::Seek for SliceReader<'a> {
    /// Moves the cursor to the offset that `pos` names and returns that
    /// offset. A target outside the stream is refused with an error of kind
    /// `InvalidInput`, and the cursor then stands at the start.
    fn seek(&mut self, pos: std::io::SeekFrom) -> (out: Result<u64, std::io::Error>)
        ensures
            final(self).wf(),
            final(self).parts() == old(self).parts(),
            old(self).reachable(seek_named(pos)) ==> (out matches Ok(at) && at == old(self).target(
                seek_named(pos),
            ) && final(self).position() == at),
            !old(self).reachable(seek_named(pos)) ==> (out matches Err(e) && is_invalid_input(e)
                && final(self).position() == 0),
    {
        match self.seek_to(seek_target(pos)) {
            Some(at) => Ok(at),
            None => Err(invalid_seek()),
        }
    }
}

/// The archive and compression formats that a download can be unpacked
/// from.
#[derive(Debug, Clone, Copy, PartialEq, Eq, Structural)]
pub enum ArchiveFormat {
    Tar,
    TarBz2,
    TarGz,
    TarXz,
    TarZst,
    Zip,
    Xz,
    Gz,
    Bz2,
    Zst,
}

/// Where decoded bytes are gathered: the tarball that is unpacked afterwards,
/// or the contents of the output file.
#[derive(Debug)]
pub enum Output {
    Tarball(Vec<u8>),
    File(Vec<u8>),
}

impl Output {
    /// The bytes gathered so far.
    pub open spec fn bytes(&self) -> Seq<u8> {
        match self {
            Output::Tarball(data) => data@,
            Output::File(data) => data@,
        }
    }

    /// Appends `data`.
    pub fn append(&mut self, data: &[u8])
        ensures
            final(self).bytes() == old(self).bytes() + data@,
            *final(self) is Tarball <==> *old(self) is Tarball,
    {
        match self {
            Output::Tarball(bytes) => bytes.extend_from_slice(data),
            Output::File(bytes) => bytes.extend_from_slice(data),
        }
    }
}

impl std::io::Write for Output {
    /// Appends the whole of `buf`; it never fails.
    fn write(&mut self, buf: &[u8]) -> (out: Result<usize, std::io::Error>)
        ensures
            out matches Ok(n) && n == buf@.len(),
            final(self).bytes() == old(self).bytes() + buf@,
            *final(self) is Tarball <==> *old(self) is Tarball,
    {
        self.append(buf);
        Ok(buf.len())
    }

    /// Nothing is held back, so there is nothing to flush.
    fn flush(&mut self) -> (out: Result<(), std::io::Error>)
        ensures
            out is Ok,
            *final(self) == *old(self),
    {
        Ok(())
    }
}

/// One file of a zip archive: its name as the archive gives it, and its
/// contents.
#[derive(Debug)]
pub struct Entry {
    pub name: String,
    pub contents: Vec<u8>,
}

/// What a download unpacks to.
#[derive(Debug)]
pub enum Decompressed {
    /// The contents of the output file.
    File(Vec<u8>),
    /// A tarball, to be unpacked into the extraction directory.
    Tarball(Vec<u8>),
    /// The files of a zip archive, to be created in the extraction directory.
    Entries(Vec<Entry>),
}

/// Whether `byte` separates the segments of a path: a slash or a backslash.
pub open spec fn is_separator(byte: u8) -> bool {
    byte == 0x2f || byte == 0x5c
}

/// Whether the segment `..` stands at offset `at` of `path`.
pub open spec fn parent_at(path: Seq<u8>, at: int) -> bool {
    &&& 0 <= at
    &&& at + 2 <= path.len()
    &&& path[at] == 0x2e
    &&& path[at + 1] == 0x2e
    &&& (at == 0 || is_separator(path[at - 1]))
    &&& (at + 2 == path.len() || is_separator(path[at + 2]))
}

/// Whether a file of this name, given as UTF-8, could end up outside the
/// directory it is unpacked in: the name is absolute, or one of its segments
/// is `..`.
pub open spec fn escaping(path: Seq<u8>) -> bool {
    (path.len() > 0 && is_separator(path[0])) || exists|at: int| parent_at(path, at)
}

/// Whether a file of a zip archive can be read in full and has a name that
/// stays in the directory it is unpacked in.
pub open spec fn zip_file_sound(file: Option<(Seq<char>, Option<Seq<u8>>)>) -> bool {
    file matches Some((name, Some(_))) && !escaping(vstd::utf8::encode_utf8(name))
}

/// Whether a file of this name could end up outside the directory it is
/// unpacked in.
pub fn escapes(name: &str) -> (r: bool)
    ensures
        r == escaping(name.spec_bytes()),
{
    let path = name.as_bytes();
    let n = path.len();
    if n > 0 && (path[0] == 0x2f || path[0] == 0x5c) {
        return true;
    }
    if n < 2 {
        return false;
    }
    let mut at: usize = 0;
    while at <= n - 2
        invariant
            2 <= n == path@.len(),
            path@ == name.spec_bytes(),
            !is_separator(path@[0]),
            forall|k: int| 0 <= k < at ==> !parent_at(path@, k),
        decreases n - at,
    {
        if path[at] == 0x2e && path[at + 1] == 0x2e && (at == 0 || path[at - 1] == 0x2f || path[at
            - 1] == 0x5c) && (at + 2 == n || path[at + 2] == 0x2f || path[at + 2] == 0x5c) {
            assert(parent_at(path@, at as int));
            return true;
        }
        at = at + 1;
    }
    false
}

/// What unpacking the zip archive `data` comes to: every file in order, or
/// the failure of the first file that cannot be had. A file that the archive
/// cannot give, or whose name leads out of the directory, is an
/// `UnarchiveError`; one whose contents cannot be read is a `FileError`.
pub open spec fn unzipped(data: Seq<u8>, r: Result<Decompressed, ArchiveError>) -> bool {
    match zip_listing(data) {
        None => r matches Err(ArchiveError::UnarchiveError),
        Some(files) => match r {
            Ok(Decompressed::Entries(entries)) => {
                &&& entries@.len() == files.len()
                &&& forall|i: int|
                    0 <= i < files.len() ==> #[trigger] files[i] == Some(
                        (entries@[i].name@, Some(entries@[i].contents@)),
                    ) && zip_file_sound(files[i])
            },
            Ok(_) => false,
            Err(e) => exists|k: int|
                {
                    &&& 0 <= k < files.len()
                    &&& forall|i: int| 0 <= i < k ==> zip_file_sound(#[trigger] files[i])
                    &&& match #[trigger] files[k] {
                        None => e is UnarchiveError,
                        Some((name, contents)) => if escaping(vstd::utf8::encode_utf8(name)) {
                            e is UnarchiveError
                        } else {
                            contents is None && e is FileError
                        },
                    }
                },
        },
    }
}

/// Copies what is left of `reader` to `output`.
fn copy_all(reader: &mut SliceReader<'_>, output: &mut Output)
    ensures
        final(reader).wf(),
        final(reader).parts() == old(reader).parts(),
        final(output).bytes() == old(output).bytes() + old(reader).remaining(),
        *final(output) is Tarball <==> *old(output) is Tarball,
{
    proof {
        use_type_invariant(&*reader);
        reader.lemma_position_in_bounds();
    }
    let ghost content = reader.content();
    let ghost start = reader.position() as int;
    let ghost done = start;
    let mut buf: Vec<u8> = vec![0u8; 8192];
    let mut n = match reader.read(buf.as_mut_slice()) {
        Ok(n) => n,
        Err(_) => 0,
    };
    assert(output.bytes() =~= old(output).bytes() + content.subrange(start, done));
    while n > 0
        invariant
            reader.wf(),
            reader.parts() == old(reader).parts(),
            content == reader.content(),
            buf@.len() == 8192,
            n <= 8192,
            0 <= start <= done <= done + n <= content.len(),
            n == 0 ==> done == content.len(),
            reader.position() == if n > 0 {
                done + n
            } else {
                content.len() as int
            },
            buf@.take(n as int) == content.subrange(done, done + n),
            output.bytes() == old(output).bytes() + content.subrange(start, done),
            *output is Tarball <==> *old(output) is Tarball,
        decreases
                content.len() - reader.position() + if n > 0 {
                    1int
                } else {
                    0int
                },
    {
        let ghost before = output.bytes();
        output.append(slice_subrange(buf.as_slice(), 0, n));
        proof {
            assert(output.bytes() == before + buf@.take(n as int));
            assert(content.subrange(start, done) + content.subrange(done, done + n)
                =~= content.subrange(start, done + n));
            assert(output.bytes() =~= old(output).bytes() + content.subrange(start, done + n));
            done = done + n;
            reader.lemma_position_in_bounds();
        }
        n = match reader.read(buf.as_mut_slice()) {
            Ok(n) => n,
            Err(_) => 0,
        };
        proof {
            assert(buf@.take(n as int) =~= content.subrange(done, done + n));
        }
    }
    assert(output.bytes() =~= old(output).bytes() + old(reader).remaining());
}

/// Reads every file of the zip archive in `data`, in order.
fn unzip<'a>(data: &'a [&'a [u8]]) -> (r: Result<Decompressed, ArchiveError>)
    ensures
        unzipped(joined(views(data@)), r),
{
    let mut archive = match zip_open(SliceReader::new(data)) {
        Ok(archive) => archive,
        Err(_) => {
            return Err(ArchiveError::UnarchiveError);
        },
    };
    let ghost files = zip_files(archive);
    let count = zip_len(&archive);
    let mut entries: Vec<Entry> = Vec::new();
    let mut index: usize = 0;
    while index < count
        invariant
            zip_listing(joined(views(data@))) == Some(files),
            zip_files(archive) == files,
            count == files.len(),
            index <= count,
            entries@.len() == index,
            forall|i: int|
                0 <= i < index ==> #[trigger] files[i] == Some(
                    (entries@[i].name@, Some(entries@[i].contents@)),
                ) && zip_file_sound(files[i]),
        decreases count - index,
    {
        match zip_read(&mut archive, index) {
            Err(_) => {
                assert(files[index as int] is None);
                return Err(ArchiveError::UnarchiveError);
            },
            Ok((name, read)) => {
                if escapes(name.as_str()) {
                    assert(files[index as int] is Some);
                    return Err(ArchiveError::UnarchiveError);
                }
                match read {
                    Err(e) => {
                        assert(files[index as int] matches Some((_, None)));
                        return Err(ArchiveError::FileError(e));
                    },
                    Ok(contents) => {
                        entries.push(Entry { name, contents });
                    },
                }
            },
        }
        index = index + 1;
    }
    Ok(Decompressed::Entries(entries))
}

impl ArchiveFormat {
    /// Whether the format is a tarball, compressed or not.
    pub open spec fn is_tarball(self) -> bool {
        self is Tar || self is TarBz2 || self is TarGz || self is TarXz || self is TarZst
    }

    /// What decoding yields for the stream `data`: the stream itself for a
    /// plain tarball, else what the format's decoder reads out of it. `None`
    /// where the decoder reports an error, and for a zip archive, which is
    /// no stream.
    pub open spec fn decoded(self, data: Seq<u8>) -> Option<Seq<u8>> {
        match self {
            ArchiveFormat::Tar => Some(data),
            ArchiveFormat::Bz2 | ArchiveFormat::TarBz2 => bz_decoded(data),
            ArchiveFormat::Gz | ArchiveFormat::TarGz => gz_decoded(data),
            ArchiveFormat::Xz | ArchiveFormat::TarXz => xz_decoded(data),
            ArchiveFormat::Zst | ArchiveFormat::TarZst => zst_decoded(data),
            ArchiveFormat::Zip => None,
        }
    }

    /// What `decompress` returns for the stream `data`.
    pub open spec fn decompressed(self, data: Seq<u8>, r: Result<Decompressed, ArchiveError>) -> bool {
        if self is Zip {
            unzipped(data, r)
        } else {
            match self.decoded(data) {
                Some(plain) => if self.is_tarball() {
                    r matches Ok(Decompressed::Tarball(bytes)) && bytes@ == plain
                } else {
                    r matches Ok(Decompressed::File(bytes)) && bytes@ == plain
                },
                None => r matches Err(ArchiveError::FileError(_)),
            }
        }
    }

    /// Whether the format is a tarball, compressed or not.
    pub fn tarball(&self) -> (r: bool)
        ensures
            r == self.is_tarball(),
    {
        match self {
            ArchiveFormat::Tar
            | ArchiveFormat::TarBz2
            | ArchiveFormat::TarGz
            | ArchiveFormat::TarXz
            | ArchiveFormat::TarZst => true,
            _ => false,
        }
    }

    /// Decodes the stream that `data` holds in consecutive slices. A single
    /// compressed file gives the contents of the output file, a tarball the
    /// archive to unpack, a zip archive its files. A decoder's error comes
    /// back as `FileError`, a malformed zip archive as `UnarchiveError`.
    pub fn decompress<'a>(&self, data: &'a [&'a [u8]]) -> (r: Result<Decompressed, ArchiveError>)
        ensures
            self.decompressed(joined(views(data@)), r),
    {
        let mut output = if self.tarball() {
            Output::Tarball(Vec::new())
        } else {
            Output::File(Vec::new())
        };
        let mut reader = SliceReader::new(data);
        assert(reader.remaining() =~= joined(views(data@)));
        assert(output.bytes() =~= Seq::<u8>::empty());
        let copied = match self {
            ArchiveFormat::Bz2 | ArchiveFormat::TarBz2 => bz_copy(reader, &mut output),
            ArchiveFormat::Gz | ArchiveFormat::TarGz => gz_copy(reader, &mut output),
            ArchiveFormat::Xz | ArchiveFormat::TarXz => xz_copy(reader, &mut output),
            ArchiveFormat::Zst | ArchiveFormat::TarZst => zst_copy(reader, &mut output),
            ArchiveFormat::Zip => {
                return unzip(data);
            },
            ArchiveFormat::Tar => {
                copy_all(&mut reader, &mut output);
                Ok(0)
            },
        };
        match copied {
            Err(e) => Err(ArchiveError::FileError(e)),
            Ok(_) => {
                assert(self.decoded(joined(views(data@))) is Some);
                assert(output.bytes() =~= self.decoded(joined(views(data@)))->0);
                match output {
                    Output::Tarball(bytes) => Ok(Decompressed::Tarball(bytes)),
                    Output::File(bytes) => Ok(Decompressed::File(bytes)),
                }
            },
        }
    }
}

} // verus!
