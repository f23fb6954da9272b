//! Restoring a deleted file from a FAT32 or exFAT volume: its clusters are read along the chain
//! that the allocation table still holds.

use vstd::prelude::*;
use crate::fat::{ExfatInfo, Fat32Info};
use crate::exfat_scan::{deleted_exfat_file, SetModel};
use crate::fat_entry::entry_cluster;
use crate::fat_scan::{
    deleted_file, leads_on, read_table_value, table_value, ChainPhase, PartsModel,
    FAT_ENTRY_END_MIN, FAT_ENTRY_FREE,
};
use crate::stored::{law_stored_u32_is_read_back, stores_u32};
use crate::types::DeletedFile;
use crate::walk::{
    answer, fits, honest, piece_models, visit, visit_pieces, Device, Failure, Modelled, Outcome,
    Piece, Request, Status, Task, TaskModel,
};
use crate::walk_laws::lemma_one_result;

verus! {

/// Why a restore cannot begin.
#[derive(Debug, Clone, Copy, PartialEq, Eq, Structural)]
pub enum RestoreError {
    /// The file's address lies before the first cluster.
    BeforeData { address: u64 },
}

/// Where the clusters of a volume and their table entries are.
#[derive(Debug, Clone, Copy)]
pub struct ChainVolume {
    /// The number of bytes in a cluster.
    pub cluster_len: usize,
    /// The byte offset of cluster 2.
    pub data_at: u64,
    /// The byte offset of the allocation table.
    pub table_at: u64,
}

impl ChainVolume {
    /// The byte offset of a cluster.
    pub open spec fn cluster_at(self, cluster: int) -> int {
        self.data_at + (cluster - 2) * self.cluster_len
    }

    /// The byte offset of a cluster's table entry.
    pub open spec fn entry_at(self, cluster: int) -> int {
        self.table_at + cluster * 4
    }

    /// The read of a cluster.
    pub open spec fn contents_request(self, cluster: u32) -> Request {
        Request { offset: self.cluster_at(cluster as int) as u64, len: self.cluster_len }
    }

    /// The read of a cluster's table entry.
    pub open spec fn entry_request(self, cluster: u32) -> Request {
        Request { offset: self.entry_at(cluster as int) as u64, len: 4 }
    }

    /// Whether every cluster and every table entry has an offset that a device can have, and a
    /// cluster holds something.
    pub open spec fn valid(self) -> bool {
        &&& self.cluster_len > 0
        &&& self.cluster_at(u32::MAX as int) <= u64::MAX
        &&& self.entry_at(u32::MAX as int) <= u64::MAX
    }

    proof fn lemma_addresses(self, cluster: u32)
        requires
            self.valid(),
        ensures
            cluster >= 2 ==> 0 <= (cluster - 2) * self.cluster_len && self.cluster_at(
                cluster as int,
            ) <= u64::MAX,
            self.entry_at(cluster as int) <= u64::MAX,
    {
        let (c, n) = (cluster as int, self.cluster_len as int);
        assert(c >= 2 ==> 0 <= (c - 2) * n <= (u32::MAX - 2) * n) by (nonlinear_arith)
            requires
                0 <= c <= u32::MAX,
                n >= 0,
        ;
    }

    /// The number of the cluster at a byte offset, as far as 32 bits hold it.
    pub open spec fn cluster_of(self, address: int) -> u32 {
        (((address - self.data_at) / self.cluster_len as int + 2) % 0x1_0000_0000) as u32
    }

    /// The offset of a cluster leads back to the cluster.
    pub proof fn law_cluster_of(self, cluster: u32)
        requires
            self.cluster_len > 0,
            cluster >= 2,
        ensures
            self.cluster_of(self.cluster_at(cluster as int)) == cluster,
    {
        vstd::arithmetic::div_mod::lemma_div_multiples_vanish(
            cluster - 2,
            self.cluster_len as int,
        );
        assert((cluster - 2) * self.cluster_len == self.cluster_len * (cluster - 2))
            by (nonlinear_arith);
    }
}

// ---------------------------------------------------------------------------------------------
// The restore
// ---------------------------------------------------------------------------------------------

/// A restore along a chain, as contracts speak of it and as it is carried out.
#[derive(Debug, Clone, Copy)]
pub struct ChainRestore {
    pub volume: ChainVolume,
    pub cluster: u32,
    /// The number of bytes that are still to be written.
    pub remaining: u64,
    /// Whether the table said that the chain ends, or has been freed, where the file goes on.
    pub cut_off: bool,
    pub phase: ChainPhase,
}

impl ChainRestore {
    /// The restore of `size` bytes from `cluster` on.
    pub open spec fn begin(volume: ChainVolume, cluster: u32, size: u64) -> Self {
        ChainRestore {
            volume,
            cluster,
            remaining: size,
            cut_off: false,
            phase: if size == 0 {
                ChainPhase::Ended(Ok(()))
            } else {
                ChainPhase::Contents
            },
        }
    }

    /// How many bytes of the current cluster belong to the file.
    pub open spec fn take_len(self) -> int {
        if self.volume.cluster_len <= self.remaining {
            self.volume.cluster_len as int
        } else {
            self.remaining as int
        }
    }
}

impl TaskModel for ChainRestore {
    type Out = Seq<u8>;

    open spec fn wants(self) -> Option<Request> {
        match self.phase {
            ChainPhase::Contents => Some(self.volume.contents_request(self.cluster)),
            ChainPhase::TableEntry => Some(self.volume.entry_request(self.cluster)),
            ChainPhase::Ended(_) => None,
        }
    }

    open spec fn pieces(self, reply: Option<Seq<u8>>) -> Seq<Piece<Self, Seq<u8>>> {
        match (self.phase, reply) {
            (ChainPhase::Contents, Some(data)) => seq![Piece::Emit(data.take(self.take_len()))],
            _ => seq![],
        }
    }

    open spec fn next(self, reply: Option<Seq<u8>>) -> Self {
        match (self.phase, reply) {
            (ChainPhase::Contents, Some(data)) => {
                let left = (self.remaining - self.take_len()) as u64;
                ChainRestore {
                    remaining: left,
                    phase: if left == 0 {
                        ChainPhase::Ended(Ok(()))
                    } else {
                        ChainPhase::TableEntry
                    },
                    ..self
                }
            },
            (ChainPhase::TableEntry, Some(entry)) => {
                let value = table_value(entry);
                if 2 <= value < FAT_ENTRY_END_MIN {
                    ChainRestore { cluster: value, phase: ChainPhase::Contents, ..self }
                } else {
                    ChainRestore {
                        cut_off: !leads_on(value),
                        phase: ChainPhase::Ended(Ok(())),
                        ..self
                    }
                }
            },
            _ => ChainRestore {
                phase: ChainPhase::Ended(
                    Err(Failure::Unreadable { offset: self.wants()->0.offset }),
                ),
                ..self
            },
        }
    }

    open spec fn status(self) -> Status {
        match self.phase {
            ChainPhase::Ended(status) => status,
            _ => Ok(()),
        }
    }

    open spec fn valid(self) -> bool {
        self.volume.valid() && (self.phase is Ended || self.cluster >= 2)
    }

    open spec fn accepts(self, reply: Option<Seq<u8>>) -> bool {
        true
    }
}

impl Modelled for ChainRestore {
    type Model = ChainRestore;

    type Output = Vec<u8>;

    open spec fn model(self) -> ChainRestore {
        self
    }

    open spec fn output(out: Vec<u8>) -> Seq<u8> {
        out@
    }
}

impl Task for ChainRestore {
    fn wants(&self) -> (request: Option<Request>) {
        proof {
            self.volume.lemma_addresses(self.cluster);
        }
        match self.phase {
            ChainPhase::Contents => Some(
                Request {
                    offset: self.volume.data_at + (self.cluster - 2) as u64
                        * self.volume.cluster_len as u64,
                    len: self.volume.cluster_len,
                },
            ),
            ChainPhase::TableEntry => Some(
                Request { offset: self.volume.table_at + self.cluster as u64 * 4, len: 4 },
            ),
            ChainPhase::Ended(_) => None,
        }
    }

    fn status(&self) -> (status: Status) {
        match self.phase {
            ChainPhase::Ended(status) => status,
            _ => Ok(()),
        }
    }

    fn can_take(&self, reply: Option<&[u8]>) -> (takes: bool) {
        true
    }

    fn resume(self, reply: Option<&[u8]>) -> (turn: (Vec<Piece<Self, Vec<u8>>>, Self)) {
        let request = Task::wants(&self);
        let mut task = self;
        let mut pieces: Vec<Piece<ChainRestore, Vec<u8>>> = Vec::new();
        assert(piece_models::<ChainRestore>(pieces@) =~= seq![]);
        match reply {
            Some(data) => {
                match task.phase {
                    ChainPhase::Contents => {
                        let n: usize = if task.volume.cluster_len as u64 <= task.remaining {
                            task.volume.cluster_len
                        } else {
                            task.remaining as usize
                        };
                        let chunk = vstd::slice::slice_to_vec(
                            vstd::slice::slice_subrange(data, 0, n),
                        );
                        assert(chunk@ =~= data@.take(n as int));
                        pieces.push(Piece::Emit(chunk));
                        assert(piece_models::<ChainRestore>(pieces@) =~= self.pieces(
                            answer(reply),
                        ));
                        task.remaining = task.remaining - n as u64;
                        task.phase = if task.remaining == 0 {
                            ChainPhase::Ended(Ok(()))
                        } else {
                            ChainPhase::TableEntry
                        };
                    },
                    _ => {
                        let value: u32 = read_table_value(data);
                        if 2 <= value && value < FAT_ENTRY_END_MIN {
                            task.cluster = value;
                            task.phase = ChainPhase::Contents;
                        } else {
                            task.cut_off = value >= FAT_ENTRY_END_MIN || value == FAT_ENTRY_FREE;
                            task.phase = ChainPhase::Ended(Ok(()));
                        }
                    },
                }
            },
            None => {
                match request {
                    Some(r) => {
                        task.phase = ChainPhase::Ended(
                            Err(Failure::Unreadable { offset: r.offset }),
                        );
                    },
                    None => {},
                }
            },
        }
        (pieces, task)
    }
}

// ---------------------------------------------------------------------------------------------
// Beginning a restore
// ---------------------------------------------------------------------------------------------

impl Fat32Info {
    /// Where the clusters and the table entries of the volume are.
    pub open spec fn chain_volume(self) -> ChainVolume {
        ChainVolume {
            cluster_len: self.cluster_len() as usize,
            data_at: self.cluster_at(2) as u64,
            table_at: self.entry_at(0) as u64,
        }
    }

    /// The volume has its clusters and its table entries where the geometry says.
    pub proof fn law_chain_volume(self)
        requires
            self.addressable(),
        ensures
            self.cluster_len() > 0 ==> self.chain_volume().valid(),
            forall|c: int| self.chain_volume().cluster_at(c) == #[trigger] self.cluster_at(c),
            forall|c: int| self.chain_volume().entry_at(c) == #[trigger] self.entry_at(c),
            self.chain_volume().cluster_len == self.cluster_len(),
    {
        self.lemma_addressable(2);
        self.lemma_addressable(0);
        let (a, b) = (self.bytes_per_sector as int, self.sectors_per_cluster as int);
        assert(0 <= a * b < 0x100_0000) by (nonlinear_arith)
            requires
                0 <= a <= 0xFFFF,
                0 <= b <= 0xFF,
        ;
        let lba = self.data_lba();
        assert forall|c: int| self.chain_volume().cluster_at(c) == #[trigger] self.cluster_at(
            c,
        ) by {
            assert((lba + (c - 2) * b) * a == (lba + (2 - 2) * b) * a + (c - 2) * (a * b))
                by (nonlinear_arith);
        }
    }
}

impl ExfatInfo {
    /// Where the clusters and the table entries of the volume are.
    pub open spec fn chain_volume(self) -> ChainVolume {
        ChainVolume {
            cluster_len: self.cluster_len() as usize,
            data_at: self.cluster_at(2) as u64,
            table_at: self.entry_at(0) as u64,
        }
    }

    /// The volume has its clusters and its table entries where the geometry says.
    pub proof fn law_chain_volume(self)
        requires
            self.addressable(),
        ensures
            self.cluster_len() > 0 ==> self.chain_volume().valid(),
            forall|c: int| self.chain_volume().cluster_at(c) == #[trigger] self.cluster_at(c),
            forall|c: int| self.chain_volume().entry_at(c) == #[trigger] self.entry_at(c),
            self.chain_volume().cluster_len == self.cluster_len(),
    {
        self.lemma_addressable(2);
        self.lemma_addressable(0);
        let (a, b) = (self.bytes_per_sector as int, self.sectors_per_cluster as int);
        assert(0 <= a * b) by (nonlinear_arith)
            requires
                0 <= a,
                0 <= b,
        ;
        let lba = self.cluster_heap_offset as int;
        assert forall|c: int| self.chain_volume().cluster_at(c) == #[trigger] self.cluster_at(
            c,
        ) by {
            assert((lba + (c - 2) * b) * a == (lba + (2 - 2) * b) * a + (c - 2) * (a * b))
                by (nonlinear_arith);
        }
    }
}

/// Whether the clusters of a file can be addressed: clusters hold something, and the number of the
/// first can be computed and, unless the file is empty, is one of a cluster. Of an address before
/// the clusters nothing is asked.
pub open spec fn cluster_computable(volume: ChainVolume, address: u64, size: u64) -> bool {
    address >= volume.data_at ==> {
        &&& volume.cluster_len > 0
        &&& (address - volume.data_at) / volume.cluster_len as int + 2 <= u64::MAX
        &&& size > 0 ==> volume.cluster_of(address as int) >= 2
    }
}

/// The restore of the file with this address and size, or why there is none.
pub open spec fn restore_plan(volume: ChainVolume, address: u64, size: u64) -> Result<
    ChainRestore,
    RestoreError,
> {
    if address < volume.data_at {
        Err(RestoreError::BeforeData { address })
    } else {
        Ok(ChainRestore::begin(volume, volume.cluster_of(address as int), size))
    }
}

/// Tells whether the clusters of a file can be addressed.
pub fn is_cluster_computable(volume: &ChainVolume, entry: &DeletedFile) -> (answer: bool)
    ensures
        answer == cluster_computable(*volume, entry.start_address, entry.size),
{
    if entry.start_address < volume.data_at {
        return true;
    }
    if volume.cluster_len == 0 {
        return false;
    }
    let index: u64 = (entry.start_address - volume.data_at) / volume.cluster_len as u64;
    if index > u64::MAX - 2 {
        return false;
    }
    entry.size == 0 || (index + 2) % 0x1_0000_0000 >= 2
}

/// Begins the restore of a file from a volume.
pub fn begin_restore(volume: &ChainVolume, entry: &DeletedFile) -> (plan: Result<
    ChainRestore,
    RestoreError,
>)
    requires
        volume.cluster_len > 0 ==> volume.valid(),
        cluster_computable(*volume, entry.start_address, entry.size),
    ensures
        plan == restore_plan(*volume, entry.start_address, entry.size),
        plan matches Ok(task) ==> task.valid(),
{
    if entry.start_address < volume.data_at {
        return Err(RestoreError::BeforeData { address: entry.start_address });
    }
    let index: u64 = (entry.start_address - volume.data_at) / volume.cluster_len as u64;
    let cluster: u32 = ((index + 2) % 0x1_0000_0000) as u32;
    Ok(
        ChainRestore {
            volume: *volume,
            cluster,
            remaining: entry.size,
            cut_off: false,
            phase: if entry.size == 0 {
                ChainPhase::Ended(Ok(()))
            } else {
                ChainPhase::Contents
            },
        },
    )
}

/// Where the clusters and the table entries of a FAT32 volume are.
pub fn fat32_chain_volume(fs: &Fat32Info) -> (volume: ChainVolume)
    requires
        fs.addressable(),
    ensures
        volume == fs.chain_volume(),
{
    proof {
        fs.lemma_addressable(2);
        fs.lemma_addressable(0);
    }
    ChainVolume {
        cluster_len: fs.bytes_per_cluster() as usize,
        data_at: fs.cluster_to_offset(2),
        table_at: fs.fat_entry_offset(0),
    }
}

/// Where the clusters and the table entries of an exFAT volume are.
pub fn exfat_chain_volume(fs: &ExfatInfo) -> (volume: ChainVolume)
    requires
        fs.addressable(),
    ensures
        volume == fs.chain_volume(),
{
    proof {
        fs.lemma_addressable(2);
        fs.lemma_addressable(0);
    }
    ChainVolume {
        cluster_len: fs.bytes_per_cluster() as usize,
        data_at: fs.cluster_to_offset(2),
        table_at: fs.fat_entry_offset(0),
    }
}

/// Begins the restore of a file from a FAT32 volume.
pub fn restore_fat32(fs: &Fat32Info, entry: &DeletedFile) -> (plan: Result<
    ChainRestore,
    RestoreError,
>)
    requires
        fs.addressable(),
        cluster_computable(fs.chain_volume(), entry.start_address, entry.size),
    ensures
        plan == restore_plan(fs.chain_volume(), entry.start_address, entry.size),
        plan matches Ok(task) ==> task.valid(),
{
    proof {
        fs.law_chain_volume();
    }
    begin_restore(&fat32_chain_volume(fs), entry)
}

/// Begins the restore of a file from an exFAT volume.
pub fn restore_exfat(fs: &ExfatInfo, entry: &DeletedFile) -> (plan: Result<
    ChainRestore,
    RestoreError,
>)
    requires
        fs.addressable(),
        cluster_computable(fs.chain_volume(), entry.start_address, entry.size),
    ensures
        plan == restore_plan(fs.chain_volume(), entry.start_address, entry.size),
        plan matches Ok(task) ==> task.valid(),
{
    proof {
        fs.law_chain_volume();
    }
    begin_restore(&exfat_chain_volume(fs), entry)
}

/// The address of a cluster leads back to it: a file recorded at it can be restored, beginning
/// with that cluster.
proof fn lemma_recorded_cluster(volume: ChainVolume, cluster: u32, address: u64, size: u64)
    requires
        volume.valid(),
        cluster >= 2,
        address == volume.cluster_at(cluster as int),
    ensures
        cluster_computable(volume, address, size),
        restore_plan(volume, address, size) == Ok::<ChainRestore, RestoreError>(
            ChainRestore::begin(volume, cluster, size),
        ),
{
    volume.law_cluster_of(cluster);
    volume.lemma_addresses(cluster);
    let n = volume.cluster_len as int;
    let q = cluster - 2;
    vstd::arithmetic::div_mod::lemma_div_multiples_vanish(q, n);
    assert(q * n == n * q) by (nonlinear_arith);
}

/// A file that a FAT32 scan found with its first cluster can be restored, and the restore begins
/// with that cluster.
pub proof fn law_fat32_scan_then_restore(
    info: Fat32Info,
    path: Seq<char>,
    parts: PartsModel,
    entry: Seq<u8>,
)
    requires
        info.addressable(),
        info.cluster_len() > 0,
        entry_cluster(entry) >= 2,
    ensures
        ({
            let file = deleted_file(info, path, parts, entry);
            let volume = info.chain_volume();
            &&& cluster_computable(volume, file.start_address, file.size)
            &&& restore_plan(volume, file.start_address, file.size) == Ok::<
                ChainRestore,
                RestoreError,
            >(ChainRestore::begin(volume, entry_cluster(entry), file.size))
        }),
{
    let cluster = entry_cluster(entry);
    let file = deleted_file(info, path, parts, entry);
    info.law_chain_volume();
    info.lemma_addressable(cluster);
    assert(info.chain_volume().cluster_at(cluster as int) == info.cluster_at(cluster as int));
    lemma_recorded_cluster(info.chain_volume(), cluster, file.start_address, file.size);
}

/// A file that an exFAT scan found with its first cluster can be restored, and the restore begins
/// with that cluster.
pub proof fn law_exfat_scan_then_restore(
    info: ExfatInfo,
    path: Seq<char>,
    attr: u8,
    set: SetModel,
)
    requires
        info.addressable(),
        info.cluster_len() > 0,
        set.cluster >= 2,
    ensures
        ({
            let file = deleted_exfat_file(info, path, attr, set);
            let volume = info.chain_volume();
            &&& cluster_computable(volume, file.start_address, file.size)
            &&& restore_plan(volume, file.start_address, file.size) == Ok::<
                ChainRestore,
                RestoreError,
            >(ChainRestore::begin(volume, set.cluster, file.size))
        }),
{
    let file = deleted_exfat_file(info, path, attr, set);
    info.law_chain_volume();
    info.lemma_addressable(set.cluster);
    assert(info.chain_volume().cluster_at(set.cluster as int) == info.cluster_at(
        set.cluster as int,
    ));
    lemma_recorded_cluster(info.chain_volume(), set.cluster, file.start_address, file.size);
}

// ---------------------------------------------------------------------------------------------
// What a restore writes
// ---------------------------------------------------------------------------------------------

/// Whether four bytes are a table entry that states a value: its lower 28 bits are the value, the
/// upper four may be anything.
pub open spec fn states(entry: Seq<u8>, value: int) -> bool {
    exists|high: int| 0 <= high < 16 && stores_u32(entry, 0, #[trigger] (high * 0x1000_0000) + value)
}

/// The value of a table entry is read back as it was stored, all 28 bits of it and nothing of the
/// upper four.
pub proof fn law_table_value_is_read_back(entry: Seq<u8>, value: int)
    requires
        0 <= value < 0x1000_0000,
        states(entry, value),
    ensures
        table_value(entry) == value,
{
    let high = choose|high: int|
        0 <= high < 16 && stores_u32(entry, 0, #[trigger] (high * 0x1000_0000) + value);
    law_stored_u32_is_read_back(entry, 0, high * 0x1000_0000 + value);
}

/// What a restore does about the table entry behind a cluster: it goes on at the cluster that the
/// entry states; where the entry is free or states the end, the file is cut off there; and it ends
/// at an entry that states no cluster.
pub proof fn law_restore_goes_where_the_entry_leads(task: ChainRestore, entry: Seq<u8>, value: int)
    requires
        task.phase is TableEntry,
        0 <= value < 0x1000_0000,
        states(entry, value),
    ensures
        ({
            let next = task.next(Some(entry));
            &&& next.remaining == task.remaining
            &&& next.volume == task.volume
            &&& 2 <= value < 0x0FFF_FFF8 ==> next.phase is Contents && next.cluster == value
                && next.cut_off == task.cut_off
            &&& value == 0 || value >= 0x0FFF_FFF8 ==> next.wants() is None && next.status() == Ok::<
                (),
                Failure,
            >(()) && next.cut_off && next.cluster == task.cluster
            &&& value == 1 ==> next.wants() is None && next.status() == Ok::<(), Failure>(())
                && !next.cut_off
            &&& task.pieces(Some(entry)).len() == 0
        }),
{
    law_table_value_is_read_back(entry, value);
}

/// A restore that cannot read what it needs fails there, and writes nothing more.
pub proof fn law_restore_fails_where_nothing_is_read(task: ChainRestore)
    requires
        task.wants() is Some,
    ensures
        task.next(None).wants() is None,
        task.next(None).status() == Err::<(), Failure>(
            Failure::Unreadable { offset: task.wants()->0.offset },
        ),
        task.next(None).remaining == task.remaining,
        task.pieces(None).len() == 0,
{
}

/// Whether the table entry of cluster `i` of a chain leads to the next.
pub open spec fn linked(volume: ChainVolume, device: Device, chain: Seq<u32>, i: int) -> bool {
    let reply = device(volume.entry_request(chain[i]));
    reply is Some && states(reply->0, chain[i + 1] as int)
}

/// Whether `chain` is a chain of clusters on a device, each but the last followed, in the
/// allocation table, by the next, and `contents` is what they hold.
pub open spec fn chain_on(
    volume: ChainVolume,
    device: Device,
    chain: Seq<u32>,
    contents: Seq<Seq<u8>>,
) -> bool {
    &&& chain.len() == contents.len()
    &&& forall|i: int|
        0 <= i < chain.len() ==> device(volume.contents_request(#[trigger] chain[i])) == Some(
            contents[i],
        ) && contents[i].len() == volume.cluster_len
    &&& forall|i: int|
        0 <= i < chain.len() - 1 ==> #[trigger] linked(volume, device, chain, i)
    &&& forall|i: int|
        0 < i < chain.len() ==> 2 <= #[trigger] chain[i] < 0x0FFF_FFF8
}

/// A restore whose chain is whole writes the file: the contents of the clusters along the chain,
/// one after another, up to the size of the file. It needs no more clusters than hold the file.
pub proof fn law_restore_writes_the_file(
    volume: ChainVolume,
    device: Device,
    chain: Seq<u32>,
    contents: Seq<Seq<u8>>,
    size: u64,
)
    requires
        volume.cluster_len > 0,
        chain.len() > 0,
        chain_on(volume, device, chain, contents),
        (chain.len() - 1) * volume.cluster_len < size <= chain.len() * volume.cluster_len,
    ensures
        ({
            let outcome = visit(
                ChainRestore::begin(volume, chain[0], size),
                device,
                2 * chain.len(),
            );
            &&& outcome is Some
            &&& outcome->0.status == Ok::<(), Failure>(())
            &&& outcome->0.yielded.flatten() == contents.flatten().take(size as int)
        }),
    decreases chain.len(),
{
    let n = volume.cluster_len as int;
    let k = chain.len() as int;
    let data = contents[0];
    let f = (2 * k - 2) as nat;
    assert((k - 1) * n >= 0) by (nonlinear_arith)
        requires
            k >= 1,
            n > 0,
    ;
    if k == 1 {
        assert(size <= n) by (nonlinear_arith)
            requires
                size <= k * n,
                k == 1,
        ;
        lemma_last_cluster(volume, device, chain[0], size, data, f);
        assert(contents =~= seq![data]);
        seq![data].lemma_flatten_one_element();
        seq![data.take(size as int)].lemma_flatten_one_element();
    } else {
        assert(size > n && size - n <= (k - 1) * n && (k - 2) * n < size - n) by (nonlinear_arith)
            requires
                (k - 1) * n < size <= k * n,
                k >= 2,
                n > 0,
        ;
        let left = (size - n) as u64;
        let rest_chain = chain.drop_first();
        let rest_contents = contents.drop_first();
        lemma_rest_of_chain(volume, device, chain, contents);
        law_restore_writes_the_file(volume, device, rest_chain, rest_contents, left);
        assert(rest_chain[0] == chain[1]);
        assert(linked(volume, device, chain, 0));
        law_table_value_is_read_back(
            device(volume.entry_request(chain[0]))->0,
            chain[1] as int,
        );
        lemma_one_cluster(volume, device, chain[0], size, data, f);
        let rest = visit(ChainRestore::begin(volume, chain[1], left), device, f)->0.yielded;
        let all = seq![data] + rest;
        assert(all.drop_first() =~= rest);
        lemma_flatten_first(all);
        lemma_flatten_first(contents);
        assert forall|i: int| 0 <= i < rest_contents.len() implies (
        #[trigger] rest_contents[i]).len() == n by {
            assert(rest_chain[i] == chain[i + 1]);
        }
        lemma_flatten_len(rest_contents, n as nat);
        assert(all.flatten() =~= contents.flatten().take(size as int));
    }
}

/// A deleted file that a FAT32 scan found is recovered: where the clusters of its chain are still
/// there, a restore writes their contents up to the size of the file.
pub proof fn law_fat32_file_is_recovered(
    info: Fat32Info,
    path: Seq<char>,
    parts: PartsModel,
    entry: Seq<u8>,
    device: Device,
    chain: Seq<u32>,
    contents: Seq<Seq<u8>>,
)
    requires
        info.addressable(),
        info.cluster_len() > 0,
        entry_cluster(entry) >= 2,
        chain.len() > 0,
        chain[0] == entry_cluster(entry),
        chain_on(info.chain_volume(), device, chain, contents),
        (chain.len() - 1) * info.cluster_len() < deleted_file(info, path, parts, entry).size
            <= chain.len() * info.cluster_len(),
    ensures
        ({
            let file = deleted_file(info, path, parts, entry);
            let plan = restore_plan(info.chain_volume(), file.start_address, file.size);
            let outcome = visit(plan->Ok_0, device, 2 * chain.len());
            &&& plan is Ok
            &&& outcome is Some
            &&& outcome->0.status == Ok::<(), Failure>(())
            &&& outcome->0.yielded.flatten() == contents.flatten().take(file.size as int)
        }),
{
    info.law_chain_volume();
    law_fat32_scan_then_restore(info, path, parts, entry);
    let size = deleted_file(info, path, parts, entry).size;
    law_restore_writes_the_file(info.chain_volume(), device, chain, contents, size);
}

/// A deleted file that an exFAT scan found is recovered: where the clusters of its chain are still
/// there, a restore writes their contents up to the size of the file.
pub proof fn law_exfat_file_is_recovered(
    info: ExfatInfo,
    path: Seq<char>,
    attr: u8,
    set: SetModel,
    device: Device,
    chain: Seq<u32>,
    contents: Seq<Seq<u8>>,
)
    requires
        info.addressable(),
        info.cluster_len() > 0,
        set.cluster >= 2,
        chain.len() > 0,
        chain[0] == set.cluster,
        chain_on(info.chain_volume(), device, chain, contents),
        (chain.len() - 1) * info.cluster_len() < set.size <= chain.len() * info.cluster_len(),
    ensures
        ({
            let file = deleted_exfat_file(info, path, attr, set);
            let plan = restore_plan(info.chain_volume(), file.start_address, file.size);
            let outcome = visit(plan->Ok_0, device, 2 * chain.len());
            &&& plan is Ok
            &&& outcome is Some
            &&& outcome->0.status == Ok::<(), Failure>(())
            &&& outcome->0.yielded.flatten() == contents.flatten().take(file.size as int)
        }),
{
    info.law_chain_volume();
    law_exfat_scan_then_restore(info, path, attr, set);
    law_restore_writes_the_file(info.chain_volume(), device, chain, contents, set.size);
}

proof fn lemma_rest_of_chain(
    volume: ChainVolume,
    device: Device,
    chain: Seq<u32>,
    contents: Seq<Seq<u8>>,
)
    requires
        chain.len() > 0,
        chain_on(volume, device, chain, contents),
    ensures
        chain_on(volume, device, chain.drop_first(), contents.drop_first()),
{
    let rest_chain = chain.drop_first();
    let rest_contents = contents.drop_first();
    assert forall|i: int| 0 <= i < rest_chain.len() implies device(
        volume.contents_request(#[trigger] rest_chain[i]),
    ) == Some(rest_contents[i]) && rest_contents[i].len() == volume.cluster_len by {
        assert(rest_chain[i] == chain[i + 1]);
    }
    assert forall|i: int| 0 <= i < rest_chain.len() - 1 implies #[trigger] linked(
        volume,
        device,
        rest_chain,
        i,
    ) by {
        assert(linked(volume, device, chain, i + 1));
    }
}

/// The last cluster of a file ends the restore.
proof fn lemma_last_cluster(
    volume: ChainVolume,
    device: Device,
    cluster: u32,
    size: u64,
    data: Seq<u8>,
    fuel: nat,
)
    requires
        0 < size <= volume.cluster_len,
        device(volume.contents_request(cluster)) == Some(data),
    ensures
        visit(ChainRestore::begin(volume, cluster, size), device, fuel + 2) == Some(
            (Outcome { yielded: seq![data.take(size as int)], status: Ok(()) }),
        ),
{
    let task = ChainRestore::begin(volume, cluster, size);
    let chunk = data.take(size as int);
    assert(task.pieces(Some(data)) =~= seq![Piece::Emit(chunk)]);
    lemma_one_result::<ChainRestore>(chunk, device, fuel + 1);
    let next = task.next(Some(data));
    assert(next.wants() is None);
    assert(visit(next, device, fuel + 1) == Some(
        (Outcome { yielded: Seq::<Seq<u8>>::empty(), status: Ok(()) }),
    ));
    assert(seq![chunk] + Seq::<Seq<u8>>::empty() =~= seq![chunk]);
}

/// A cluster that is not the last is written whole, and the restore goes on at the next.
proof fn lemma_one_cluster(
    volume: ChainVolume,
    device: Device,
    cluster: u32,
    size: u64,
    data: Seq<u8>,
    fuel: nat,
)
    requires
        volume.cluster_len < size,
        device(volume.contents_request(cluster)) == Some(data),
        data.len() == volume.cluster_len,
        device(volume.entry_request(cluster)) is Some,
        2 <= table_value(device(volume.entry_request(cluster))->0) < FAT_ENTRY_END_MIN,
        visit(
            ChainRestore::begin(
                volume,
                table_value(device(volume.entry_request(cluster))->0),
                (size - volume.cluster_len) as u64,
            ),
            device,
            fuel,
        ) is Some,
    ensures
        ({
            let next = table_value(device(volume.entry_request(cluster))->0);
            let left = (size - volume.cluster_len) as u64;
            let rest = visit(ChainRestore::begin(volume, next, left), device, fuel)->0;
            visit(ChainRestore::begin(volume, cluster, size), device, fuel + 2) == Some(
                (Outcome { yielded: seq![data] + rest.yielded, status: rest.status }),
            )
        }),
{
    let task = ChainRestore::begin(volume, cluster, size);
    let next = task.next(Some(data));
    let entry = device(volume.entry_request(cluster));
    let left = (size - volume.cluster_len) as u64;
    let onward = ChainRestore::begin(volume, table_value(entry->0), left);
    let rest = visit(onward, device, fuel)->0;
    assert(data.take(task.take_len()) =~= data);
    assert(task.pieces(Some(data)) =~= seq![Piece::Emit(data)]);
    lemma_one_result::<ChainRestore>(data, device, fuel + 1);
    assert(next.next(entry) == onward);
    assert(next.pieces(entry) =~= seq![]);
    assert(visit_pieces(next.pieces(entry), device, fuel) == Some(Seq::<Seq<u8>>::empty()));
    assert(Seq::<Seq<u8>>::empty() + rest.yielded =~= rest.yielded);
    assert(visit(next, device, fuel + 1) == Some(
        (Outcome { yielded: rest.yielded, status: rest.status }),
    ));
}

proof fn lemma_flatten_first(parts: Seq<Seq<u8>>)
    requires
        parts.len() > 0,
    ensures
        parts.flatten() == parts[0] + parts.drop_first().flatten(),
{
}

proof fn lemma_flatten_len(parts: Seq<Seq<u8>>, n: nat)
    requires
        forall|i: int| 0 <= i < parts.len() ==> (#[trigger] parts[i]).len() == n,
    ensures
        parts.flatten().len() == parts.len() * n,
    decreases parts.len(),
{
    if parts.len() > 0 {
        lemma_flatten_len(parts.drop_first(), n);
        lemma_flatten_first(parts);
        let k = parts.len();
        assert(n + (k - 1) * n == k * n) by (nonlinear_arith);
    } else {
        assert(parts.flatten() =~= seq![]);
    }
}

/// A restore never writes more than the size of the file.
pub proof fn law_restore_is_bounded(task: ChainRestore, device: Device, fuel: nat)
    requires
        honest(device),
        visit(task, device, fuel) is Some,
    ensures
        visit(task, device, fuel)->0.yielded.flatten().len() <= task.remaining,
    decreases fuel,
{
    match task.wants() {
        None => {
            assert(Seq::<Seq<u8>>::empty().flatten() =~= seq![]);
        },
        Some(request) => {
            let f = (fuel - 1) as nat;
            let reply = device(request);
            let pieces = task.pieces(reply);
            let next = task.next(reply);
            law_restore_is_bounded(next, device, f);
            let rest = visit(next, device, f)->0.yielded;
            if pieces.len() > 0 {
                let chunk = reply->0.take(task.take_len());
                lemma_one_result::<ChainRestore>(chunk, device, f);
                assert(pieces =~= seq![Piece::Emit(chunk)]);
                assert(fits(request, reply));
                let all = visit(task, device, fuel)->0.yielded;
                assert(all =~= seq![chunk] + rest);
                assert(all.drop_first() =~= rest);
                lemma_flatten_first(all);
            } else {
                assert(visit_pieces(pieces, device, f) == Some(Seq::<Seq<u8>>::empty()));
                assert(Seq::<Seq<u8>>::empty() + rest =~= rest);
            }
        },
    }
}

} // verus!
