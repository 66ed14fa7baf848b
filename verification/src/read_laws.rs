//! What holds of every sequence of reads that a `RawFile` makes.
//!
//! The laws speak of a cursor that is *in step*: it has handed out exactly
//! the bytes of the clusters that lie before it, cut at the file's size. A
//! fresh cursor is in step, and a read keeps it in step whenever the volume
//! delivers every byte that was asked for.

use vstd::prelude::*;
use vstd::arithmetic::div_mod::lemma_div_basics;
use vstd::arithmetic::div_mod::lemma_div_is_ordered;
use vstd::arithmetic::div_mod::lemma_fundamental_div_mod;
use vstd::arithmetic::div_mod::lemma_fundamental_div_mod_converse;
use vstd::arithmetic::mul::lemma_mul_inequality;
use vstd::arithmetic::mul::lemma_mul_is_commutative;
use vstd::arithmetic::mul::lemma_mul_is_distributive_add_other_way;
use crate::helpers::PointerExtent;
use crate::raw_file::extent_clusters;
use crate::raw_file::extent_start;
use crate::raw_file::extent_supported;
use crate::raw_file::least;
use crate::raw_file::DiskRead;
use crate::raw_file::RawFile;

verus! {

/// Whether extent `i` holds virtual cluster `v`.
pub open spec fn extent_holds(extents: Seq<PointerExtent>, i: int, v: int) -> bool {
    0 <= i < extents.len() && extent_start(extents, i) <= v < extents[i].next_vcn
}

/// The extent that holds virtual cluster `v`.
pub open spec fn extent_of(extents: Seq<PointerExtent>, v: int) -> int {
    choose|i: int| #[trigger] extent_holds(extents, i, v)
}

/// The byte of the volume that holds byte `k` of the file.
pub open spec fn volume_offset(extents: Seq<PointerExtent>, cluster_bytes: int, k: int) -> int {
    let v = k / cluster_bytes;
    let e = extent_of(extents, v);
    (extents[e].lcn + (v - extent_start(extents, e))) * cluster_bytes + k % cluster_bytes
}

impl RawFile {
    /// The number of clusters that the extents hold together.
    pub open spec fn total_clusters(self) -> int {
        extent_start(self.extents(), self.extents().len() as int)
    }

    /// Whether the cursor has handed out exactly the bytes of the clusters
    /// before it, cut at the file's size.
    pub open spec fn in_step(self) -> bool {
        self.readed_bytes == least(self.file_size as int, self.position() * self.cluster_bytes())
    }

    /// Whether the extents hold at least as many bytes as the file has.
    pub open spec fn covers_file(self) -> bool {
        self.total_clusters() * self.cluster_bytes() >= self.file_size
    }

    /// Whether the next read into `dst_len` bytes reads the volume.
    pub open spec fn reads_volume(self, dst_len: int) -> bool {
        self.next_read_spec(dst_len) matches Ok(Some(_))
    }

    /// The read of the volume that the next read into `dst_len` bytes makes.
    pub open spec fn disk_read(self, dst_len: int) -> DiskRead {
        self.next_read_spec(dst_len)->Ok_0->Some_0
    }
}

/// Extents begin in ascending order.
pub proof fn lemma_starts_ascend(f: RawFile, i: int, j: int)
    requires
        f.wf(),
        0 <= i <= j <= f.extents().len(),
    ensures
        extent_start(f.extents(), i) <= extent_start(f.extents(), j),
    decreases j - i,
{
    if i < j {
        assert(extent_supported(f.extents(), j - 1, f.cluster_bytes()));
        lemma_starts_ascend(f, i, j - 1);
    }
}

/// A virtual cluster lies in one extent only.
pub proof fn lemma_extent_of(f: RawFile, i: int, v: int)
    requires
        f.wf(),
        extent_holds(f.extents(), i, v),
    ensures
        extent_of(f.extents(), v) == i,
{
    let e = extent_of(f.extents(), v);
    assert(extent_holds(f.extents(), e, v));
    assert(extent_supported(f.extents(), e, f.cluster_bytes()));
    assert(extent_supported(f.extents(), i, f.cluster_bytes()));
    if e < i {
        lemma_starts_ascend(f, e + 1, i);
    } else if i < e {
        lemma_starts_ascend(f, i + 1, e);
    }
}

/// The read of the volume that `next_read` asks for, in numbers: it takes at
/// least one whole cluster, no more than the buffer holds, from the place of
/// the cursor in the current extent.
pub proof fn lemma_disk_read(f: RawFile, dst_len: int)
    requires
        f.wf(),
        f.reads_volume(dst_len),
    ensures
        1 <= f.step_clusters(dst_len),
        f.disk_read(dst_len).length == f.step_clusters(dst_len) * f.cluster_bytes(),
        f.disk_read(dst_len).offset == (f.extents()[f.extent_i as int].lcn + f.cluster_i)
            * f.cluster_bytes(),
        f.cluster_bytes() <= f.disk_read(dst_len).length <= dst_len,
        f.position() + f.step_clusters(dst_len) <= f.total_clusters(),
{
    let cb = f.cluster_bytes();
    let lcn = f.extents()[f.extent_i as int].lcn as int;
    let span = extent_clusters(f.extents(), f.extent_i as int);
    let capped = least(dst_len, u32::MAX as int);
    let want = f.want_clusters(dst_len);
    let step = f.step_clusters(dst_len);
    assert(extent_supported(f.extents(), f.extent_i as int, cb));
    lemma_fundamental_div_mod(capped, cb);
    lemma_mul_is_commutative(want, cb);
    lemma_div_is_ordered(cb, capped, cb);
    lemma_div_basics(cb);
    lemma_mul_inequality(step, want, cb);
    lemma_mul_inequality(1, step, cb);
    lemma_mul_inequality(lcn + f.cluster_i, lcn + span, cb);
    assert(0 <= (lcn + f.cluster_i) * cb) by (nonlinear_arith)
        requires
            lcn + f.cluster_i >= 0,
            cb > 0,
    ;
    lemma_starts_ascend(f, f.extent_i + 1, f.extents().len() as int);
}

/// The chunks follow one another. When the cursor is in step and the volume
/// delivers what was asked for, the byte that the volume puts at place `j` of
/// the buffer is byte `readed_bytes + j` of the file: the read starts at the
/// byte of the volume that backs the next byte of the file, and goes on
/// through the bytes that back the following ones.
pub proof fn lemma_read_is_next_bytes(f: RawFile, dst_len: int, j: int)
    requires
        f.wf(),
        f.in_step(),
        f.reads_volume(dst_len),
        0 <= j < f.disk_read(dst_len).length,
    ensures
        f.disk_read(dst_len).offset + j == volume_offset(
            f.extents(),
            f.cluster_bytes(),
            f.readed_bytes + j,
        ),
{
    let cb = f.cluster_bytes();
    let e = f.extent_i as int;
    let lcn = f.extents()[e].lcn as int;
    let start = extent_start(f.extents(), e);
    let step = f.step_clusters(dst_len);
    let pos = f.position();
    lemma_disk_read(f, dst_len);
    assert(extent_supported(f.extents(), e, cb));
    assert(0 <= pos * cb) by (nonlinear_arith)
        requires
            pos >= 0,
            cb > 0,
    ;
    let k = f.readed_bytes + j;
    assert(k == pos * cb + j);
    let q = j / cb;
    let r = j % cb;
    lemma_fundamental_div_mod(j, cb);
    assert(q < step) by (nonlinear_arith)
        requires
            j == cb * q + r,
            0 <= r,
            j < step * cb,
            cb > 0,
    ;
    assert(0 <= q) by (nonlinear_arith)
        requires
            j == cb * q + r,
            r < cb,
            0 <= j,
            cb > 0,
    ;
    assert(k == (pos + q) * cb + r) by (nonlinear_arith)
        requires
            k == pos * cb + j,
            j == cb * q + r,
    ;
    lemma_fundamental_div_mod_converse(k, cb, pos + q, r);
    lemma_extent_of(f, e, pos + q);
    assert((lcn + f.cluster_i) * cb + j == (lcn + (pos + q - start)) * cb + r) by (nonlinear_arith)
        requires
            pos == start + f.cluster_i,
            j == cb * q + r,
    ;
}

/// A read that the volume serves in full keeps the cursor in step.
pub proof fn lemma_full_read_keeps_step(f: RawFile, dst_len: int, next: RawFile)
    requires
        f.wf(),
        f.in_step(),
        f.reads_volume(dst_len),
        f.read_moves_to(dst_len, f.disk_read(dst_len).length as int, next),
    ensures
        next.in_step(),
        next.position() == f.position() + f.step_clusters(dst_len),
{
    let cb = f.cluster_bytes();
    let step = f.step_clusters(dst_len);
    let pos = f.position();
    lemma_disk_read(f, dst_len);
    assert(extent_supported(f.extents(), f.extent_i as int, cb));
    assert(next.position() == pos + step);
    lemma_mul_is_distributive_add_other_way(cb, pos, step);
}

/// Reading ends for good. Once a read has returned 0, the cursor does not
/// move and every later read returns 0.
pub proof fn lemma_exhausted_is_final(f: RawFile, dst_len: int, os_read: int, next: RawFile)
    requires
        f.wf(),
        f.exhausted(),
        dst_len >= f.cluster_bytes(),
        f.read_moves_to(dst_len, os_read, next),
    ensures
        f.next_read_spec(dst_len) == Ok::<Option<DiskRead>, crate::error::TriageError>(None),
        f.returned(dst_len, os_read) == 0,
        next.readed_bytes == f.readed_bytes,
        next.extent_i == f.extent_i,
        next.cluster_i == f.cluster_i,
        next.exhausted(),
{
}

/// A cursor in step that has come to its end has handed out the whole file,
/// provided the extents hold the whole file.
pub proof fn lemma_end_is_file_size(f: RawFile)
    requires
        f.wf(),
        f.in_step(),
        f.covers_file(),
        f.exhausted(),
    ensures
        f.readed_bytes == f.file_size,
{
}

/// What a read returns is the whole clusters that fit the buffer, or what is
/// left of the file. This holds of a cursor in step over extents that hold
/// the whole file, for a buffer of at most `u32::MAX` bytes that the volume
/// fills as asked, unless the read stops at the end of an extent that is not
/// the last.
pub proof fn lemma_read_count(f: RawFile, dst_len: int)
    requires
        f.wf(),
        f.in_step(),
        f.covers_file(),
        f.reads_volume(dst_len),
        dst_len <= u32::MAX,
        f.want_clusters(dst_len) <= f.extent_remaining() || f.extent_i + 1 == f.extents().len(),
    ensures
        ({
            let n = f.returned(dst_len, f.disk_read(dst_len).length as int);
            &&& 0 < n <= dst_len
            &&& n == (dst_len / f.cluster_bytes()) * f.cluster_bytes() || n == f.file_size
                - f.readed_bytes
        }),
{
    let cb = f.cluster_bytes();
    let step = f.step_clusters(dst_len);
    let pos = f.position();
    lemma_disk_read(f, dst_len);
    if f.want_clusters(dst_len) > f.extent_remaining() {
        assert(pos + step == f.total_clusters());
        lemma_mul_is_distributive_add_other_way(cb, pos, step);
    }
}

/// A file of whole clusters ends without a cut. Where the extents hold
/// exactly the bytes of the file, a cursor in step reports every byte that
/// the volume delivered.
pub proof fn lemma_whole_clusters_are_not_cut(f: RawFile, dst_len: int)
    requires
        f.wf(),
        f.in_step(),
        f.total_clusters() * f.cluster_bytes() == f.file_size,
        f.reads_volume(dst_len),
    ensures
        f.returned(dst_len, f.disk_read(dst_len).length as int) == f.disk_read(dst_len).length,
{
    let cb = f.cluster_bytes();
    let step = f.step_clusters(dst_len);
    let pos = f.position();
    lemma_disk_read(f, dst_len);
    lemma_mul_inequality(pos + step, f.total_clusters(), cb);
    lemma_mul_is_distributive_add_other_way(cb, pos, step);
}

/// A file that ends inside a cluster ends with a short count. The read that
/// reaches the end of the file returns a count whose remainder by the cluster
/// size is that of the file's size, and the count is that remainder itself
/// when less than a cluster was left.
pub proof fn lemma_last_read_is_short(f: RawFile, dst_len: int)
    requires
        f.wf(),
        f.in_step(),
        f.reads_volume(dst_len),
        f.readed_bytes + f.returned(dst_len, f.disk_read(dst_len).length as int) == f.file_size,
    ensures
        ({
            let n = f.returned(dst_len, f.disk_read(dst_len).length as int);
            &&& n % f.cluster_bytes() == (f.file_size as int) % f.cluster_bytes()
            &&& n < f.cluster_bytes() ==> n == (f.file_size as int) % f.cluster_bytes()
        }),
{
    let cb = f.cluster_bytes();
    let pos = f.position();
    let n = f.returned(dst_len, f.disk_read(dst_len).length as int);
    lemma_disk_read(f, dst_len);
    assert(extent_supported(f.extents(), f.extent_i as int, cb));
    assert(f.file_size == pos * cb + n);
    assert(0 <= pos * cb) by (nonlinear_arith)
        requires
            pos >= 0,
            cb > 0,
    ;
    lemma_mul_is_commutative(pos, cb);
    vstd::arithmetic::div_mod::lemma_mod_multiples_vanish(pos, n, cb);
    if n < cb {
        vstd::arithmetic::div_mod::lemma_small_mod(n as nat, cb as nat);
    }
}

/// A copy reads what the file reads. Two cursors at the same place over the
/// same file, as a cursor and its sibling are at the start, make the same
/// read of the volume, return the same count for the same delivery, and move
/// to the same place.
pub proof fn lemma_same_place_reads_alike(
    a: RawFile,
    b: RawFile,
    dst_len: int,
    os_read: int,
    next_a: RawFile,
    next_b: RawFile,
)
    requires
        a.file_size == b.file_size,
        a.buffer_for_cluster == b.buffer_for_cluster,
        a.extents() == b.extents(),
        a.extent_i == b.extent_i,
        a.cluster_i == b.cluster_i,
        a.readed_bytes == b.readed_bytes,
        a.read_moves_to(dst_len, os_read, next_a),
        b.read_moves_to(dst_len, os_read, next_b),
    ensures
        a.next_read_spec(dst_len) == b.next_read_spec(dst_len),
        a.returned(dst_len, os_read) == b.returned(dst_len, os_read),
        next_a.extents() == next_b.extents(),
        next_a.extent_i == next_b.extent_i,
        next_a.cluster_i == next_b.cluster_i,
        next_a.readed_bytes == next_b.readed_bytes,
{
}

impl RawFile {
    /// The cursor after a read into `dst_len` bytes for which the volume
    /// delivered `os_read` bytes.
    pub open spec fn after_read(self, dst_len: int, os_read: int) -> RawFile {
        if !self.reads_volume(dst_len) {
            self
        } else if self.want_clusters(dst_len) >= self.extent_remaining() {
            RawFile {
                readed_bytes: (self.readed_bytes + self.returned(dst_len, os_read)) as u64,
                extent_i: (self.extent_i + 1) as usize,
                cluster_i: 0,
                ..self
            }
        } else {
            RawFile {
                readed_bytes: (self.readed_bytes + self.returned(dst_len, os_read)) as u64,
                cluster_i: (self.cluster_i + self.want_clusters(dst_len)) as usize,
                ..self
            }
        }
    }

    /// The cursor after one read that the volume serves in full.
    pub open spec fn after_full_read(self, dst_len: int) -> RawFile {
        self.after_read(dst_len, self.disk_read(dst_len).length as int)
    }

    /// The cursor after `n` reads into `dst_len` bytes, each of which the
    /// volume serves in full.
    pub open spec fn after_full_reads(self, dst_len: int, n: nat) -> RawFile
        decreases n,
    {
        if n == 0 {
            self
        } else {
            self.after_full_read(dst_len).after_full_reads(dst_len, (n - 1) as nat)
        }
    }

    /// Whether every extent of the file is on the volume.
    pub open spec fn on_volume(self) -> bool {
        forall|i: int| 0 <= i < self.extents().len() ==> (#[trigger] self.extents()[i]).lcn >= 0
    }
}

/// `after_read` is where a read moves the cursor to, and the cursor keeps its
/// invariant there: it never hands out more than the file holds, and it
/// moves on by at least one cluster whenever the volume is read.
pub proof fn lemma_after_read(f: RawFile, dst_len: int, os_read: int)
    requires
        f.wf(),
        0 <= os_read,
    ensures
        f.read_moves_to(dst_len, os_read, f.after_read(dst_len, os_read)),
        f.after_read(dst_len, os_read).wf(),
        f.readed_bytes <= f.after_read(dst_len, os_read).readed_bytes <= f.file_size,
        f.reads_volume(dst_len) ==> f.after_read(dst_len, os_read).position() == f.position()
            + f.step_clusters(dst_len) && f.step_clusters(dst_len) >= 1,
        !f.reads_volume(dst_len) ==> f.after_read(dst_len, os_read) == f,
        f.after_read(dst_len, os_read).position() <= f.total_clusters(),
{
    let cb = f.cluster_bytes();
    lemma_starts_ascend(f, f.extent_i as int, f.extents().len() as int);
    if f.extent_i < f.extents().len() {
        assert(extent_supported(f.extents(), f.extent_i as int, cb));
        lemma_starts_ascend(f, f.extent_i + 1, f.extents().len() as int);
    }
    if f.reads_volume(dst_len) {
        lemma_disk_read(f, dst_len);
        if f.extent_i + 1 < f.extents().len() {
            assert(extent_supported(f.extents(), f.extent_i + 1, cb));
        }
    }
}

/// Reading comes to its end, and then the whole file was handed out. A
/// cursor in step over extents that are on the volume and hold the whole
/// file, read with a buffer of at least one cluster that the volume fills as
/// asked, has ended after as many reads as there are clusters left; it has
/// then handed out exactly the bytes of the file, and every further read
/// returns 0.
pub proof fn lemma_reading_ends(f: RawFile, dst_len: int, n: nat)
    requires
        f.wf(),
        f.in_step(),
        f.covers_file(),
        f.on_volume(),
        dst_len >= f.cluster_bytes(),
        n >= f.total_clusters() - f.position(),
    ensures
        f.after_full_reads(dst_len, n).wf(),
        f.after_full_reads(dst_len, n).in_step(),
        f.after_full_reads(dst_len, n).exhausted(),
        f.after_full_reads(dst_len, n).readed_bytes == f.file_size,
        f.after_full_reads(dst_len, n).file_size == f.file_size,
        f.after_full_reads(dst_len, n).next_read_spec(dst_len) == Ok::<
            Option<DiskRead>,
            crate::error::TriageError,
        >(None),
    decreases n,
{
    let next = f.after_full_read(dst_len);
    if f.reads_volume(dst_len) {
        lemma_disk_read(f, dst_len);
        lemma_after_read(f, dst_len, f.disk_read(dst_len).length as int);
        lemma_full_read_keeps_step(f, dst_len, next);
    } else {
        lemma_after_read(f, dst_len, 0);
        assert(f.exhausted()) by {
            if !f.exhausted() {
                assert(f.extents()[f.extent_i as int].lcn >= 0);
            }
        }
        lemma_end_is_file_size(f);
    }
    if n == 0 {
        lemma_after_read(f, dst_len, 0);
        if f.extent_i < f.extents().len() {
            assert(extent_supported(f.extents(), f.extent_i as int, f.cluster_bytes()));
            lemma_starts_ascend(f, f.extent_i + 1, f.extents().len() as int);
        }
        lemma_end_is_file_size(f);
    } else {
        assert(next.on_volume());
        assert(next.covers_file());
        if f.reads_volume(dst_len) {
            lemma_reading_ends(next, dst_len, (n - 1) as nat);
        } else {
            assert(next == f);
            lemma_stays_at_end(f, dst_len, n);
        }
    }
}

/// A cursor that has come to its end stays where it is, however many reads
/// follow.
pub proof fn lemma_stays_at_end(f: RawFile, dst_len: int, n: nat)
    requires
        f.wf(),
        f.exhausted(),
    ensures
        f.after_full_reads(dst_len, n) == f,
    decreases n,
{
    if n > 0 {
        lemma_stays_at_end(f, dst_len, (n - 1) as nat);
    }
}

/// The bytes of a file on a volume: byte `k` of the file is the byte of the
/// volume that backs it.
pub open spec fn file_bytes(f: RawFile, volume: Seq<u8>) -> Seq<u8> {
    Seq::new(
        f.file_size as nat,
        |k: int| volume[volume_offset(f.extents(), f.cluster_bytes(), k)],
    )
}

impl RawFile {
    /// Whether the cursor stands at the start of its file.
    pub open spec fn fresh(self) -> bool {
        self.extent_i == 0 && self.cluster_i == 0 && self.readed_bytes == 0
    }

    /// Whether two cursors are over the same file.
    pub open spec fn same_file(self, other: RawFile) -> bool {
        &&& self.file_size == other.file_size
        &&& self.buffer_for_cluster == other.buffer_for_cluster
        &&& self.extents() == other.extents()
    }

    /// What the next read into `dst_len` bytes hands to its caller when the
    /// volume serves it in full: the bytes of the volume from the place of
    /// the read on, as many as the read returns.
    pub open spec fn chunk(self, dst_len: int, volume: Seq<u8>) -> Seq<u8> {
        Seq::new(
            self.returned(dst_len, self.disk_read(dst_len).length as int) as nat,
            |j: int| volume[self.disk_read(dst_len).offset + j],
        )
    }

    /// What the next `n` reads into `dst_len` bytes hand to their caller, one
    /// chunk after the other.
    pub open spec fn chunks(self, dst_len: int, volume: Seq<u8>, n: nat) -> Seq<u8>
        decreases n,
    {
        if n == 0 {
            Seq::empty()
        } else {
            self.chunk(dst_len, volume) + self.after_full_read(dst_len).chunks(
                dst_len,
                volume,
                (n - 1) as nat,
            )
        }
    }
}

/// Reads that the volume serves in full keep a cursor valid, in step and
/// over the same file, however many they are.
pub proof fn lemma_reads_keep_step(f: RawFile, dst_len: int, n: nat)
    requires
        f.wf(),
        f.in_step(),
    ensures
        f.after_full_reads(dst_len, n).wf(),
        f.after_full_reads(dst_len, n).in_step(),
        f.after_full_reads(dst_len, n).same_file(f),
        f.readed_bytes <= f.after_full_reads(dst_len, n).readed_bytes,
        f.position() <= f.after_full_reads(dst_len, n).position(),
    decreases n,
{
    if n > 0 {
        let next = f.after_full_read(dst_len);
        lemma_after_read(f, dst_len, f.disk_read(dst_len).length as int);
        if f.reads_volume(dst_len) {
            lemma_full_read_keeps_step(f, dst_len, next);
        }
        lemma_reads_keep_step(next, dst_len, (n - 1) as nat);
    }
}

/// A cursor that has come to its end hands out nothing more.
pub proof fn lemma_no_chunk_after_the_end(f: RawFile, dst_len: int, volume: Seq<u8>, n: nat)
    requires
        f.wf(),
        f.exhausted(),
    ensures
        f.chunks(dst_len, volume, n).len() == 0,
    decreases n,
{
    if n > 0 {
        lemma_no_chunk_after_the_end(f, dst_len, volume, (n - 1) as nat);
    }
}

/// The chunks are the file. A cursor in step over extents that are on the
/// volume and hold the whole file, read to its end with a buffer of at least
/// one cluster that the volume fills as asked, hands out the bytes of the
/// file from where it stands to the last, in order and none twice. From a
/// fresh cursor the chunks, one after the other, are the whole file: as many
/// bytes as its size says.
pub proof fn lemma_chunks_are_the_file(f: RawFile, dst_len: int, volume: Seq<u8>, n: nat)
    requires
        f.wf(),
        f.in_step(),
        f.covers_file(),
        f.on_volume(),
        dst_len >= f.cluster_bytes(),
        n >= f.total_clusters() - f.position(),
    ensures
        f.chunks(dst_len, volume, n) == file_bytes(f, volume).skip(f.readed_bytes as int),
        f.fresh() ==> f.chunks(dst_len, volume, n) == file_bytes(f, volume),
        f.fresh() ==> f.chunks(dst_len, volume, n).len() == f.file_size,
    decreases n,
{
    let whole = file_bytes(f, volume);
    if !f.reads_volume(dst_len) {
        assert(f.exhausted()) by {
            if !f.exhausted() {
                assert(f.extents()[f.extent_i as int].lcn >= 0);
            }
        }
        lemma_end_is_file_size(f);
        lemma_no_chunk_after_the_end(f, dst_len, volume, n);
        assert(f.chunks(dst_len, volume, n) =~= whole.skip(f.readed_bytes as int));
    } else {
        assert(n > 0) by {
            if n == 0 {
                lemma_reading_ends(f, dst_len, 0);
                assert(f.after_full_reads(dst_len, 0) == f);
            }
        }
        let next = f.after_full_read(dst_len);
        let served = f.disk_read(dst_len).length as int;
        let got = f.returned(dst_len, served);
        lemma_disk_read(f, dst_len);
        lemma_after_read(f, dst_len, served);
        lemma_full_read_keeps_step(f, dst_len, next);
        assert(next.on_volume());
        assert(next.covers_file());
        lemma_chunks_are_the_file(next, dst_len, volume, (n - 1) as nat);
        assert(file_bytes(next, volume) =~= whole);
        let first = f.chunk(dst_len, volume);
        assert(first =~= whole.subrange(f.readed_bytes as int, f.readed_bytes + got)) by {
            assert forall|j: int| 0 <= j < got implies first[j] == whole[f.readed_bytes + j] by {
                lemma_read_is_next_bytes(f, dst_len, j);
            }
        }
        assert(first + whole.skip(next.readed_bytes as int) =~= whole.skip(f.readed_bytes as int));
    }
    if f.fresh() {
        assert(whole.skip(0) =~= whole);
    }
}

/// A copy holds what a read gives. Two fresh cursors over the same file, as
/// a cursor and its sibling are, each read to its end, hand out the same
/// bytes, whatever the sizes of their two buffers.
pub proof fn lemma_copy_is_what_is_read(
    a: RawFile,
    b: RawFile,
    dst_a: int,
    dst_b: int,
    volume: Seq<u8>,
    n_a: nat,
    n_b: nat,
)
    requires
        a.wf(),
        b.wf(),
        a.same_file(b),
        a.fresh(),
        b.fresh(),
        a.covers_file(),
        a.on_volume(),
        dst_a >= a.cluster_bytes(),
        dst_b >= b.cluster_bytes(),
        n_a >= a.total_clusters(),
        n_b >= b.total_clusters(),
    ensures
        a.chunks(dst_a, volume, n_a) == b.chunks(dst_b, volume, n_b),
{
    lemma_chunks_are_the_file(a, dst_a, volume, n_a);
    lemma_chunks_are_the_file(b, dst_b, volume, n_b);
    assert(file_bytes(a, volume) =~= file_bytes(b, volume));
}

/// A file of whole clusters ends when its extents end. Where the extents
/// hold exactly the bytes of the file, every read of a run that the volume
/// serves in full returns whole clusters, uncut, and the run has come to its
/// end exactly when no extent is left; all bytes are handed out then.
pub proof fn lemma_whole_cluster_file_ends_with_its_extents(f: RawFile, dst_len: int, n: nat)
    requires
        f.wf(),
        f.in_step(),
        f.total_clusters() * f.cluster_bytes() == f.file_size,
    ensures
        ({
            let g = f.after_full_reads(dst_len, n);
            let served = g.disk_read(dst_len).length as int;
            &&& g.reads_volume(dst_len) ==> g.returned(dst_len, served) == g.step_clusters(dst_len)
                * g.cluster_bytes()
            &&& g.exhausted() <==> g.extent_i == g.extents().len()
            &&& g.exhausted() ==> g.readed_bytes == g.file_size
        }),
{
    let g = f.after_full_reads(dst_len, n);
    let cb = g.cluster_bytes();
    lemma_reads_keep_step(f, dst_len, n);
    assert(g.total_clusters() == f.total_clusters());
    if g.reads_volume(dst_len) {
        lemma_whole_clusters_are_not_cut(g, dst_len);
        lemma_disk_read(g, dst_len);
    }
    if g.extent_i < g.extents().len() {
        assert(extent_supported(g.extents(), g.extent_i as int, cb));
        lemma_starts_ascend(g, g.extent_i + 1, g.extents().len() as int);
        assert(g.position() < g.total_clusters());
        assert(g.position() * cb < g.total_clusters() * cb) by (nonlinear_arith)
            requires
                g.position() < g.total_clusters(),
                cb > 0,
        ;
    } else {
        lemma_end_is_file_size(g);
    }
}

} // verus!
