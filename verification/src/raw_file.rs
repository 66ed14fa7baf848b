//! The raw file reader: a cursor over the clusters that back one file.
//!
//! A `RawFile` holds what the volume said about a file (its size, the size of
//! a cluster, the extents) and how far reading has come. It performs no
//! input or output itself. A read is made in two moves: `next_read` says at
//! which byte of the volume to seek and how many bytes to ask for, and
//! `finish_read` takes the number of bytes that the volume delivered, counts
//! them against the file's size and moves the cursor on.

use vstd::prelude::*;
use vstd::arithmetic::div_mod::lemma_fundamental_div_mod;
use vstd::arithmetic::mul::lemma_mul_inequality;
use vstd::arithmetic::mul::lemma_mul_is_commutative;
use crate::error::TriageError;
use crate::helpers::PointerExtent;
use crate::helpers::RetrievalPointersBuffer;

verus! {

/// One read of the volume: seek to byte `offset`, then ask for `length` bytes.
#[derive(Debug, Clone, Copy, PartialEq, Eq, Structural)]
pub struct DiskRead {
    pub offset: i64,
    pub length: u32,
}

/// The read state of one file.
#[derive(Debug)]
pub struct RawFile {
    /// Logical size of the file in bytes.
    pub file_size: u64,
    /// The extents that back the file.
    pub ret_pointers: RetrievalPointersBuffer,
    /// Bytes in one cluster of the volume.
    pub buffer_for_cluster: usize,
    /// Index of the extent that is being read.
    pub extent_i: usize,
    /// Bytes handed to the caller so far.
    pub readed_bytes: u64,
    /// Clusters of the current extent that have been read.
    pub cluster_i: usize,
}

/// The smaller of two numbers.
pub open spec fn least(a: int, b: int) -> int {
    if a <= b {
        a
    } else {
        b
    }
}

/// The first virtual cluster of extent `i`; for `i` equal to the number of
/// extents, the number of clusters of the whole file.
pub open spec fn extent_start(extents: Seq<PointerExtent>, i: int) -> int {
    if i <= 0 {
        0
    } else {
        extents[i - 1].next_vcn as int
    }
}

/// The number of clusters in extent `i`.
pub open spec fn extent_clusters(extents: Seq<PointerExtent>, i: int) -> int {
    extents[i].next_vcn - extent_start(extents, i)
}

/// Whether extent `i` is one the reader handles: it is non-empty, begins at
/// or after cluster 0 where the one before it ended, is no longer than a
/// cursor can count, and, where it is on the volume, every byte of it has an
/// offset that a seek can express.
pub open spec fn extent_supported(extents: Seq<PointerExtent>, i: int, cluster_bytes: int) -> bool {
    &&& 0 <= extent_start(extents, i) < extents[i].next_vcn
    &&& extent_clusters(extents, i) <= usize::MAX
    &&& extents[i].lcn >= 0 ==> (extents[i].lcn + extent_clusters(extents, i)) * cluster_bytes
        <= i64::MAX
}

/// Whether a retrieval-pointers answer describes a layout that the reader
/// handles on a volume with clusters of `cluster_bytes` bytes: the map starts
/// at cluster 0, the count is the number of extents, and every extent is
/// supported.
pub open spec fn supported_layout(p: RetrievalPointersBuffer, cluster_bytes: int) -> bool {
    &&& p.starting_vcn == 0
    &&& p.extent_count == p.extents@.len()
    &&& forall|i: int|
        0 <= i < p.extents@.len() ==> #[trigger] extent_supported(p.extents@, i, cluster_bytes)
}

impl RawFile {
    /// The extents of the file.
    pub open spec fn extents(self) -> Seq<PointerExtent> {
        self.ret_pointers.extents@
    }

    /// Bytes in one cluster.
    pub open spec fn cluster_bytes(self) -> int {
        self.buffer_for_cluster as int
    }

    /// The invariant of a cursor.
    pub open spec fn wf(self) -> bool {
        &&& 0 < self.buffer_for_cluster <= u32::MAX
        &&& supported_layout(self.ret_pointers, self.cluster_bytes())
        &&& self.extent_i <= self.extents().len()
        &&& self.extent_i < self.extents().len() ==> self.cluster_i < extent_clusters(
            self.extents(),
            self.extent_i as int,
        )
        &&& self.extent_i == self.extents().len() ==> self.cluster_i == 0
        &&& self.readed_bytes <= self.file_size
    }

    /// The number of clusters of the file that lie before the cursor.
    pub open spec fn position(self) -> int {
        extent_start(self.extents(), self.extent_i as int) + self.cluster_i
    }

    /// Whether reading has ended: every byte of the file was handed out, or
    /// no extent is left.
    pub open spec fn exhausted(self) -> bool {
        self.readed_bytes >= self.file_size || self.extent_i >= self.extents().len()
    }

    /// The number of whole clusters that one read into `dst_len` bytes asks
    /// for. One read of the volume is limited to `u32::MAX` bytes.
    pub open spec fn want_clusters(self, dst_len: int) -> int {
        least(dst_len, u32::MAX as int) / self.cluster_bytes()
    }

    /// The clusters of the current extent that are still unread.
    pub open spec fn extent_remaining(self) -> int {
        extent_clusters(self.extents(), self.extent_i as int) - self.cluster_i
    }

    /// The clusters that the next read takes from the volume.
    pub open spec fn step_clusters(self, dst_len: int) -> int {
        least(self.extent_remaining(), self.want_clusters(dst_len))
    }

    /// What the next read of a `dst_len`-byte buffer has to do: fail, end with
    /// nothing to read, or read from the volume.
    pub open spec fn next_read_spec(self, dst_len: int) -> Result<Option<DiskRead>, TriageError> {
        if dst_len < self.cluster_bytes() {
            Err(TriageError::BufferTooSmall)
        } else if self.exhausted() {
            Ok(None)
        } else if self.extents()[self.extent_i as int].lcn < 0 {
            Err(TriageError::Unsupported)
        } else {
            Ok(
                Some(
                    DiskRead {
                        offset: ((self.extents()[self.extent_i as int].lcn + self.cluster_i)
                            * self.cluster_bytes()) as i64,
                        length: (self.step_clusters(dst_len) * self.cluster_bytes()) as u32,
                    },
                ),
            )
        }
    }

    /// The number of bytes that a read reports to its caller when the volume
    /// delivered `os_read` bytes: never more than were asked for, and never
    /// past the end of the file.
    pub open spec fn returned(self, dst_len: int, os_read: int) -> int {
        match self.next_read_spec(dst_len) {
            Ok(Some(d)) => least(
                least(os_read, d.length as int),
                self.file_size - self.readed_bytes,
            ),
            _ => 0,
        }
    }

    /// Whether `next` is the cursor after a read into `dst_len` bytes for
    /// which the volume delivered `os_read` bytes.
    pub open spec fn read_moves_to(self, dst_len: int, os_read: int, next: RawFile) -> bool {
        &&& next.file_size == self.file_size
        &&& next.ret_pointers == self.ret_pointers
        &&& next.buffer_for_cluster == self.buffer_for_cluster
        &&& next.readed_bytes == self.readed_bytes + self.returned(dst_len, os_read)
        &&& match self.next_read_spec(dst_len) {
            Ok(Some(_)) => if self.want_clusters(dst_len) >= self.extent_remaining() {
                next.extent_i == self.extent_i + 1 && next.cluster_i == 0
            } else {
                next.extent_i == self.extent_i && next.cluster_i == self.cluster_i
                    + self.want_clusters(dst_len)
            },
            _ => next.extent_i == self.extent_i && next.cluster_i == self.cluster_i,
        }
    }

    /// Makes the cursor of a file from what the volume reported: the
    /// geometry, the file's size and its extents. The layout is refused as
    /// `Unsupported` unless the cluster size is between 1 and `u32::MAX` and
    /// the extents form a supported layout.
    pub fn open(
        sectors_in_cluster: u32,
        bytes_per_sector: u32,
        file_size: u64,
        ret_pointers: RetrievalPointersBuffer,
    ) -> (r: Result<RawFile, TriageError>)
        ensures
            r is Ok <==> 0 < sectors_in_cluster * bytes_per_sector <= u32::MAX && supported_layout(
                ret_pointers,
                sectors_in_cluster * bytes_per_sector,
            ),
            r is Err ==> r == Err::<RawFile, TriageError>(TriageError::Unsupported),
            r matches Ok(f) ==> {
                &&& f.wf()
                &&& f.file_size == file_size
                &&& f.ret_pointers == ret_pointers
                &&& f.buffer_for_cluster == sectors_in_cluster * bytes_per_sector
                &&& f.extent_i == 0
                &&& f.cluster_i == 0
                &&& f.readed_bytes == 0
            },
    {
        assert(sectors_in_cluster * bytes_per_sector <= u64::MAX) by (nonlinear_arith)
            requires
                sectors_in_cluster <= u32::MAX,
                bytes_per_sector <= u32::MAX,
        ;
        let cluster: u64 = (sectors_in_cluster as u64) * (bytes_per_sector as u64);
        if cluster == 0 || cluster > 0xFFFF_FFFF {
            return Err(TriageError::Unsupported);
        }
        if !layout_is_supported(&ret_pointers, cluster as u32) {
            return Err(TriageError::Unsupported);
        }
        proof {
            if 0 < ret_pointers.extents@.len() {
                assert(extent_supported(ret_pointers.extents@, 0, cluster as int));
            }
        }
        Ok(
            RawFile {
                file_size,
                ret_pointers,
                buffer_for_cluster: cluster as usize,
                extent_i: 0,
                readed_bytes: 0,
                cluster_i: 0,
            },
        )
    }

    /// Tests whether the cursor keeps its invariant, for callers that cannot
    /// know it otherwise.
    pub fn is_valid(&self) -> (r: bool)
        ensures
            r == self.wf(),
    {
        if self.buffer_for_cluster == 0 || self.buffer_for_cluster > 0xFFFF_FFFF {
            return false;
        }
        if !layout_is_supported(&self.ret_pointers, self.buffer_for_cluster as u32) {
            return false;
        }
        if self.readed_bytes > self.file_size {
            return false;
        }
        let count: usize = self.ret_pointers.extents.len();
        if self.extent_i > count {
            return false;
        }
        if self.extent_i == count {
            return self.cluster_i == 0;
        }
        assert(extent_supported(self.extents(), self.extent_i as int, self.cluster_bytes()));
        let next: i64 = self.ret_pointers.extents[self.extent_i].next_vcn;
        let start: i64 = if self.extent_i > 0 {
            self.ret_pointers.extents[self.extent_i - 1].next_vcn
        } else {
            0
        };
        (self.cluster_i as u64) < ((next - start) as u64)
    }

    /// The clusters of the current extent that are still unread.
    fn remaining_in_extent(&self) -> (r: u64)
        requires
            self.wf(),
            self.extent_i < self.extents().len(),
        ensures
            r == self.extent_remaining(),
            r > 0,
    {
        assert(extent_supported(self.extents(), self.extent_i as int, self.cluster_bytes()));
        let next: i64 = self.ret_pointers.extents[self.extent_i].next_vcn;
        let start: i64 = if self.extent_i > 0 {
            self.ret_pointers.extents[self.extent_i - 1].next_vcn
        } else {
            0
        };
        assert(start == extent_start(self.extents(), self.extent_i as int));
        ((next - start) as u64) - (self.cluster_i as u64)
    }

    /// The whole clusters that fit into a buffer of `dst_len` bytes.
    fn clusters_wanted(&self, dst_len: usize) -> (r: u64)
        requires
            self.wf(),
        ensures
            r == self.want_clusters(dst_len as int),
            r * self.cluster_bytes() <= u32::MAX,
            r * self.cluster_bytes() <= dst_len,
            dst_len >= self.cluster_bytes() ==> r >= 1,
    {
        let capped: usize = if dst_len > 0xFFFF_FFFF {
            0xFFFF_FFFF
        } else {
            dst_len
        };
        let r: usize = capped / self.buffer_for_cluster;
        proof {
            lemma_fundamental_div_mod(capped as int, self.cluster_bytes());
            lemma_mul_is_commutative(r as int, self.cluster_bytes());
            if dst_len >= self.cluster_bytes() {
                vstd::arithmetic::div_mod::lemma_div_is_ordered(
                    self.cluster_bytes(),
                    capped as int,
                    self.cluster_bytes(),
                );
                vstd::arithmetic::div_mod::lemma_div_basics(self.cluster_bytes());
            }
        }
        r as u64
    }

    /// Says what the next read into a buffer of `dst_len` bytes has to do.
    ///
    /// A buffer smaller than one cluster is refused and nothing is read. When
    /// reading has ended the answer is `Ok(None)`: the read returns 0. An
    /// extent that is not on the volume is refused as `Unsupported`. Otherwise
    /// the answer is one read of the volume that starts on a cluster boundary
    /// inside the current extent, takes whole clusters, ends inside that
    /// extent and fits the buffer.
    pub fn next_read(&self, dst_len: usize) -> (r: Result<Option<DiskRead>, TriageError>)
        requires
            self.wf(),
        ensures
            r == self.next_read_spec(dst_len as int),
            r == Err::<Option<DiskRead>, TriageError>(TriageError::BufferTooSmall) <==> dst_len
                < self.cluster_bytes(),
            r matches Ok(Some(d)) ==> {
                &&& self.cluster_bytes() <= d.length <= dst_len
                &&& d.length == self.step_clusters(dst_len as int) * self.cluster_bytes()
                &&& d.offset == (self.extents()[self.extent_i as int].lcn + self.cluster_i)
                    * self.cluster_bytes()
                &&& self.extents()[self.extent_i as int].lcn * self.cluster_bytes() <= d.offset
                &&& d.offset + d.length <= (self.extents()[self.extent_i as int].lcn
                    + extent_clusters(self.extents(), self.extent_i as int)) * self.cluster_bytes()
            },
    {
        if dst_len < self.buffer_for_cluster {
            return Err(TriageError::BufferTooSmall);
        }
        if self.readed_bytes >= self.file_size {
            return Ok(None);
        }
        if self.extent_i >= self.ret_pointers.extents.len() {
            return Ok(None);
        }
        let lcn: i64 = self.ret_pointers.extents[self.extent_i].lcn;
        if lcn < 0 {
            return Err(TriageError::Unsupported);
        }
        let remaining: u64 = self.remaining_in_extent();
        let want: u64 = self.clusters_wanted(dst_len);
        let clusters: u64 = if remaining < want {
            remaining
        } else {
            want
        };
        let ghost cb: int = self.cluster_bytes();
        let ghost span: int = extent_clusters(self.extents(), self.extent_i as int);
        proof {
            assert(extent_supported(self.extents(), self.extent_i as int, cb));
            lemma_mul_inequality(clusters as int, want as int, cb);
            lemma_mul_inequality(1, clusters as int, cb);
            lemma_mul_inequality(lcn as int, lcn + self.cluster_i, cb);
            lemma_mul_inequality(lcn + self.cluster_i + clusters, lcn + span, cb);
            assert((lcn + self.cluster_i) * cb + clusters * cb == (lcn + self.cluster_i
                + clusters) * cb) by (nonlinear_arith);
            assert(0 <= lcn * cb) by (nonlinear_arith)
                requires
                    lcn >= 0,
                    cb > 0,
            ;
            assert(lcn + span <= i64::MAX) by (nonlinear_arith)
                requires
                    (lcn + span) * cb <= i64::MAX,
                    lcn + span >= 0,
                    cb >= 1,
            ;
        }
        let length: u64 = clusters * (self.buffer_for_cluster as u64);
        let first: i64 = lcn + (self.cluster_i as i64);
        let offset: i64 = first * (self.buffer_for_cluster as i64);
        Ok(Some(DiskRead { offset, length: length as u32 }))
    }

    /// Accounts for a read of the volume that delivered `os_read` bytes into a
    /// buffer of `dst_len` bytes, and returns the number of bytes of the
    /// buffer that belong to the file.
    ///
    /// Where `next_read` asked for no read of the volume, nothing changes and
    /// the result is 0. Otherwise the count is cut so that no byte past the
    /// end of the file is reported, and the cursor moves by the clusters that
    /// were asked for: into the next extent when the current one is used up.
    pub fn finish_read(&mut self, dst_len: usize, os_read: u32) -> (n: usize)
        requires
            old(self).wf(),
        ensures
            final(self).wf(),
            n == old(self).returned(dst_len as int, os_read as int),
            n <= os_read,
            n <= dst_len,
            old(self).read_moves_to(dst_len as int, os_read as int, *final(self)),
    {
        let plan = self.next_read(dst_len);
        match plan {
            Ok(Some(d)) => {
                let got: u32 = if os_read < d.length {
                    os_read
                } else {
                    d.length
                };
                let left: u64 = self.file_size - self.readed_bytes;
                let n: u64 = if (got as u64) < left {
                    got as u64
                } else {
                    left
                };
                let remaining: u64 = self.remaining_in_extent();
                let want: u64 = self.clusters_wanted(dst_len);
                self.readed_bytes = self.readed_bytes + n;
                if want >= remaining {
                    proof {
                        if self.extent_i + 1 < self.extents().len() {
                            assert(extent_supported(
                                self.extents(),
                                self.extent_i + 1,
                                self.cluster_bytes(),
                            ));
                        }
                    }
                    self.extent_i = self.extent_i + 1;
                    self.cluster_i = 0;
                } else {
                    assert(extent_supported(
                        self.extents(),
                        self.extent_i as int,
                        self.cluster_bytes(),
                    ));
                    self.cluster_i = self.cluster_i + (want as usize);
                }
                n as usize
            },
            _ => 0,
        }
    }

    /// A cursor at the start of the same file: what a copy of the file reads
    /// with, while this cursor stays where it is.
    pub fn sibling(&self) -> (r: RawFile)
        requires
            self.wf(),
        ensures
            r.wf(),
            r.file_size == self.file_size,
            r.buffer_for_cluster == self.buffer_for_cluster,
            r.ret_pointers.extent_count == self.ret_pointers.extent_count,
            r.ret_pointers.starting_vcn == self.ret_pointers.starting_vcn,
            r.extents() == self.extents(),
            r.extent_i == 0,
            r.cluster_i == 0,
            r.readed_bytes == 0,
    {
        let mut extents: Vec<PointerExtent> = Vec::new();
        let mut i: usize = 0;
        while i < self.ret_pointers.extents.len()
            invariant
                i <= self.ret_pointers.extents@.len(),
                extents@ == self.ret_pointers.extents@.subrange(0, i as int),
            decreases self.ret_pointers.extents@.len() - i,
        {
            extents.push(self.ret_pointers.extents[i]);
            i += 1;
        }
        assert(extents@ == self.ret_pointers.extents@);
        proof {
            if 0 < self.extents().len() {
                assert(extent_supported(self.extents(), 0, self.cluster_bytes()));
            }
        }
        RawFile {
            file_size: self.file_size,
            ret_pointers: RetrievalPointersBuffer {
                extent_count: self.ret_pointers.extent_count,
                starting_vcn: self.ret_pointers.starting_vcn,
                extents,
            },
            buffer_for_cluster: self.buffer_for_cluster,
            extent_i: 0,
            readed_bytes: 0,
            cluster_i: 0,
        }
    }

    /// The size of the scratch buffer that a copy of the file reads into: 16
    /// clusters, or as many whole clusters as a buffer can hold if that is
    /// fewer.
    pub fn copy_buffer_len(&self) -> (r: usize)
        requires
            self.wf(),
        ensures
            r == least(16, (usize::MAX as int) / self.cluster_bytes()) * self.cluster_bytes(),
            r >= self.cluster_bytes(),
    {
        let fit: usize = usize::MAX / self.buffer_for_cluster;
        let clusters: usize = if fit < 16 {
            fit
        } else {
            16
        };
        proof {
            let cb: int = self.cluster_bytes();
            lemma_fundamental_div_mod(usize::MAX as int, cb);
            lemma_mul_is_commutative(fit as int, cb);
            lemma_mul_inequality(clusters as int, fit as int, cb);
            vstd::arithmetic::div_mod::lemma_div_is_ordered(cb, usize::MAX as int, cb);
            vstd::arithmetic::div_mod::lemma_div_basics(cb);
            lemma_mul_inequality(1, clusters as int, cb);
        }
        clusters * self.buffer_for_cluster
    }
}

/// Tests whether the reader handles extent `i`, which begins at cluster
/// `start`.
fn extent_is_supported(extents: &Vec<PointerExtent>, i: usize, start: i64, cluster_bytes: u32) -> (r:
    bool)
    requires
        i < extents@.len(),
        start == extent_start(extents@, i as int),
    ensures
        r == extent_supported(extents@, i as int, cluster_bytes as int),
{
    let e: PointerExtent = extents[i];
    if start < 0 || e.next_vcn <= start {
        return false;
    }
    let span: i64 = e.next_vcn - start;
    if span as u64 > usize::MAX as u64 {
        return false;
    }
    if e.lcn >= 0 {
        assert(0 <= (e.lcn + span) * cluster_bytes <= i128::MAX) by (nonlinear_arith)
            requires
                0 <= e.lcn <= i64::MAX,
                0 < span <= i64::MAX,
                0 <= cluster_bytes <= u32::MAX,
        ;
        let end: i128 = ((e.lcn as i128) + (span as i128)) * (cluster_bytes as i128);
        if end > 0x7FFF_FFFF_FFFF_FFFF {
            return false;
        }
    }
    true
}

/// Tests whether the reader handles a layout on a volume with clusters of
/// `cluster_bytes` bytes.
pub fn layout_is_supported(p: &RetrievalPointersBuffer, cluster_bytes: u32) -> (r: bool)
    ensures
        r == supported_layout(*p, cluster_bytes as int),
{
    if p.starting_vcn != 0 {
        return false;
    }
    if p.extents.len() > 0xFFFF_FFFF || p.extent_count as usize != p.extents.len() {
        return false;
    }
    let mut start: i64 = 0;
    let mut i: usize = 0;
    while i < p.extents.len()
        invariant
            0 <= i <= p.extents@.len(),
            start == extent_start(p.extents@, i as int),
            forall|j: int|
                0 <= j < i ==> #[trigger] extent_supported(p.extents@, j, cluster_bytes as int),
        decreases p.extents@.len() - i,
    {
        if !extent_is_supported(&p.extents, i, start, cluster_bytes) {
            return false;
        }
        start = p.extents[i].next_vcn;
        i += 1;
    }
    true
}

} // verus!
