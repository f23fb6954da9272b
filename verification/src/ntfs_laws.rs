//! What a scan of an NTFS volume finds and what a restore writes.

use vstd::prelude::*;
use crate::ntfs::{attributes, resident_data, NameModel, NtfsInfo, ATTR_DATA};
use crate::ntfs_restore::{
    cluster_len, next_run, place, restorable, restore_plan, NtfsPlanModel, NtfsRestoreModel,
};
use crate::ntfs_scan::{
    blank, contents_attribute, contents_readable, deleted_ntfs_file, dirs_after, file_record,
    first_data, in_use, last_unnamed_data, unnamed, NtfsScanModel, Pass, MAX_RECORDS,
    RESERVED_RECORDS,
};
use crate::types::FileModel;
use crate::walk::{
    fits, honest, visit, visit_pieces, Device, Failure, Outcome, Piece, Request, TaskModel,
};
use crate::walk_laws::lemma_one_result;

verus! {

// ---------------------------------------------------------------------------------------------
// What a scan finds
// ---------------------------------------------------------------------------------------------

/// The read of record `index`.
pub open spec fn record_request(info: NtfsInfo, index: int) -> Request {
    Request {
        offset: NtfsScanModel::open(info).record_at(index) as u64,
        len: info.mft_record_size as usize,
    }
}

/// Whether `records` are the records of a volume on a device that are gone through: all before the
/// first that cannot be read, or as many as are gone through at most.
pub open spec fn table_on(info: NtfsInfo, device: Device, records: Seq<Seq<u8>>) -> bool {
    &&& records.len() <= 100_000
    &&& forall|i: int|
        0 <= i < records.len() ==> #[trigger] device(record_request(info, i)) == Some(records[i])
    &&& records.len() < 100_000 ==> device(record_request(info, records.len() as int)) is None
}

/// The directories among the records from `i` on, added to those already known. The first empty
/// record behind the reserved ones ends the search.
pub open spec fn dirs_from(
    dirs: Map<u64, NameModel>,
    records: Seq<Seq<u8>>,
    i: int,
) -> Map<u64, NameModel>
    decreases records.len() - i,
{
    if i < 0 || i >= records.len() {
        dirs
    } else if !file_record(records[i]) && i > 100 && blank(records[i]) {
        dirs
    } else {
        dirs_from(dirs_after(dirs, i as u64, records[i]), records, i + 1)
    }
}

/// Whether a record is that of a deleted file.
pub open spec fn deleted_record(record: Seq<u8>) -> bool {
    file_record(record) && !in_use(record)
}

/// The files of the deleted records from `i` on.
pub open spec fn files_from(
    info: NtfsInfo,
    dirs: Map<u64, NameModel>,
    records: Seq<Seq<u8>>,
    i: int,
) -> Seq<FileModel>
    decreases records.len() - i,
{
    if i < 0 || i >= records.len() {
        seq![]
    } else if deleted_record(records[i]) {
        seq![deleted_ntfs_file(info, dirs, i as u64, records[i])] + files_from(
            info,
            dirs,
            records,
            i + 1,
        )
    } else {
        files_from(info, dirs, records, i + 1)
    }
}

proof fn lemma_files_pass(
    info: NtfsInfo,
    dirs: Map<u64, NameModel>,
    device: Device,
    records: Seq<Seq<u8>>,
    i: int,
    fuel: nat,
)
    requires
        table_on(info, device, records),
        0 <= i <= records.len(),
        i < MAX_RECORDS,
        fuel > records.len() - i,
    ensures
        visit(NtfsScanModel { info, pass: Pass::Files, index: i as u64, dirs }, device, fuel)
            == Some(
            (Outcome { yielded: files_from(info, dirs, records, i), status: Ok(()) }),
        ),
    decreases records.len() - i,
{
    let task = NtfsScanModel { info, pass: Pass::Files, index: i as u64, dirs };
    let f = (fuel - 1) as nat;
    let reply = device(record_request(info, i));
    assert(task.wants() == Some(record_request(info, i)));
    let next = task.next(reply);
    if next.pass is Ended {
        assert(visit(next, device, f) == Some(
            (Outcome { yielded: Seq::<FileModel>::empty(), status: Ok(()) }),
        ));
    }
    if i == records.len() {
        assert(visit_pieces(task.pieces(reply), device, f) == Some(Seq::<FileModel>::empty()));
        assert(Seq::<FileModel>::empty() + Seq::<FileModel>::empty() =~= files_from(
            info,
            dirs,
            records,
            i,
        ));
    } else {
        if i + 1 < MAX_RECORDS {
            lemma_files_pass(info, dirs, device, records, i + 1, f);
        } else {
            assert(files_from(info, dirs, records, i + 1) =~= seq![]);
        }
        let rest = files_from(info, dirs, records, i + 1);
        if deleted_record(records[i]) {
            let file = deleted_ntfs_file(info, dirs, i as u64, records[i]);
            lemma_one_result::<NtfsScanModel>(file, device, f);
            assert(task.pieces(reply) =~= seq![Piece::Emit(file)]);
        } else {
            assert(visit_pieces(task.pieces(reply), device, f) == Some(Seq::<FileModel>::empty()));
            assert(Seq::<FileModel>::empty() + rest =~= rest);
        }
    }
}

proof fn lemma_directories_pass(
    info: NtfsInfo,
    dirs: Map<u64, NameModel>,
    device: Device,
    records: Seq<Seq<u8>>,
    i: int,
    fuel: nat,
)
    requires
        table_on(info, device, records),
        0 <= i <= records.len(),
        i < MAX_RECORDS,
        fuel > 2 * records.len() - i + 1,
    ensures
        visit(NtfsScanModel { info, pass: Pass::Directories, index: i as u64, dirs }, device, fuel)
            == Some(
            (Outcome {
                yielded: files_from(info, dirs_from(dirs, records, i), records, 0),
                status: Ok(()),
            }),
        ),
    decreases records.len() - i,
{
    let task = NtfsScanModel { info, pass: Pass::Directories, index: i as u64, dirs };
    let f = (fuel - 1) as nat;
    let reply = device(record_request(info, i));
    assert(task.wants() == Some(record_request(info, i)));
    assert(visit_pieces(task.pieces(reply), device, f) == Some(Seq::<FileModel>::empty()));
    let found = files_from(info, dirs_from(dirs, records, i), records, 0);
    assert(Seq::<FileModel>::empty() + found =~= found);
    if i == records.len() || (!file_record(records[i]) && i > RESERVED_RECORDS && blank(
        records[i],
    )) {
        lemma_files_pass(info, dirs, device, records, 0, f);
    } else {
        let more = dirs_after(dirs, i as u64, records[i]);
        if i + 1 < MAX_RECORDS {
            lemma_directories_pass(info, more, device, records, i + 1, f);
        } else {
            lemma_files_pass(info, more, device, records, 0, f);
        }
    }
}

/// A scan finds the file of every deleted record that can be reached and nothing else, in the order
/// of the records, with the paths that the directories in use give; and it does not fail.
pub proof fn law_scan_finds_the_deleted_records(
    info: NtfsInfo,
    device: Device,
    records: Seq<Seq<u8>>,
)
    requires
        table_on(info, device, records),
    ensures
        visit(NtfsScanModel::open(info), device, 2 * records.len() + 2) == Some(
            (Outcome {
                yielded: files_from(info, dirs_from(Map::empty(), records, 0), records, 0),
                status: Ok(()),
            }),
        ),
{
    lemma_directories_pass(info, Map::empty(), device, records, 0, 2 * records.len() + 2);
}

/// The file of every deleted record is among the files that a scan finds.
pub proof fn law_every_deleted_record_is_found(
    info: NtfsInfo,
    dirs: Map<u64, NameModel>,
    records: Seq<Seq<u8>>,
    i: int,
)
    requires
        0 <= i < records.len(),
        deleted_record(records[i]),
    ensures
        files_from(info, dirs, records, 0).contains(
            deleted_ntfs_file(info, dirs, i as u64, records[i]),
        ),
{
    lemma_found_from(info, dirs, records, 0, i);
}

proof fn lemma_found_from(
    info: NtfsInfo,
    dirs: Map<u64, NameModel>,
    records: Seq<Seq<u8>>,
    from: int,
    i: int,
)
    requires
        0 <= from <= i < records.len(),
        deleted_record(records[i]),
    ensures
        files_from(info, dirs, records, from).contains(
            deleted_ntfs_file(info, dirs, i as u64, records[i]),
        ),
    decreases i - from,
{
    let files = files_from(info, dirs, records, from);
    let file = deleted_ntfs_file(info, dirs, i as u64, records[i]);
    if from == i {
        assert(files[0] == file);
    } else {
        lemma_found_from(info, dirs, records, from + 1, i);
        let rest = files_from(info, dirs, records, from + 1);
        let k = choose|k: int| 0 <= k < rest.len() && rest[k] == file;
        if deleted_record(records[from]) {
            assert(files[k + 1] == file);
        } else {
            assert(files[k] == file);
        }
    }
}

/// Every file that a scan finds is that of a deleted record.
pub proof fn law_only_deleted_records_are_found(
    info: NtfsInfo,
    dirs: Map<u64, NameModel>,
    records: Seq<Seq<u8>>,
    file: FileModel,
)
    requires
        files_from(info, dirs, records, 0).contains(file),
    ensures
        exists|i: int|
            0 <= i < records.len() && #[trigger] deleted_record(records[i]) && file
                == deleted_ntfs_file(info, dirs, i as u64, records[i]),
{
    lemma_only_from(info, dirs, records, 0, file);
}

proof fn lemma_only_from(
    info: NtfsInfo,
    dirs: Map<u64, NameModel>,
    records: Seq<Seq<u8>>,
    from: int,
    file: FileModel,
)
    requires
        0 <= from <= records.len(),
        files_from(info, dirs, records, from).contains(file),
    ensures
        exists|i: int|
            from <= i < records.len() && #[trigger] deleted_record(records[i]) && file
                == deleted_ntfs_file(info, dirs, i as u64, records[i]),
    decreases records.len() - from,
{
    let files = files_from(info, dirs, records, from);
    let k = choose|k: int| 0 <= k < files.len() && files[k] == file;
    if from < records.len() {
        let rest = files_from(info, dirs, records, from + 1);
        if deleted_record(records[from]) {
            if k > 0 {
                assert(rest[k - 1] == file);
                lemma_only_from(info, dirs, records, from + 1, file);
            }
        } else {
            lemma_only_from(info, dirs, records, from + 1, file);
        }
    }
}

// ---------------------------------------------------------------------------------------------
// What a restore writes
// ---------------------------------------------------------------------------------------------

/// The clusters of the runs, from cluster `done` of run `at` on.
pub open spec fn clusters_from(runs: Seq<(u64, u64)>, at: int, done: int) -> Seq<int>
    decreases runs.len() - at,
{
    if at < 0 || at >= runs.len() {
        seq![]
    } else {
        Seq::new((runs[at].1 - done) as nat, |i: int| runs[at].0 + done + i) + clusters_from(
            runs,
            at + 1,
            0,
        )
    }
}

proof fn lemma_clusters_place(runs: Seq<(u64, u64)>, at: int, done: u64)
    requires
        0 <= at < runs.len() && done <= runs[at].1 || (0 <= at <= runs.len() && done == 0),
    ensures
        ({
            let (to, from) = place(runs, at, done);
            &&& clusters_from(runs, at, done as int) == clusters_from(runs, to, from as int)
            &&& 0 <= to <= runs.len()
            &&& to < runs.len() ==> from < runs[to].1
        }),
    decreases runs.len() - at,
{
    if at < runs.len() && done == runs[at].1 {
        assert(clusters_from(runs, at, done as int) =~= clusters_from(runs, at + 1, 0));
        lemma_clusters_place(runs, at + 1, 0);
        if at + 1 < runs.len() && runs[at + 1].1 > 0 {
            assert(next_run(runs, at + 1) == at + 1);
        }
    }
}

proof fn lemma_first_cluster(runs: Seq<(u64, u64)>, at: int, done: u64)
    requires
        0 <= at < runs.len(),
        done < runs[at].1,
    ensures
        clusters_from(runs, at, done as int) == seq![runs[at].0 + done] + clusters_from(
            runs,
            at,
            done + 1,
        ),
{
    assert(clusters_from(runs, at, done as int) =~= seq![runs[at].0 + done] + clusters_from(
        runs,
        at,
        done + 1,
    ));
}

/// Whether the device holds `contents` in the first of the clusters.
pub open spec fn clusters_on(
    base: u64,
    cluster_len: u32,
    device: Device,
    clusters: Seq<int>,
    contents: Seq<Seq<u8>>,
) -> bool {
    &&& contents.len() <= clusters.len()
    &&& forall|i: int|
        0 <= i < contents.len() ==> (#[trigger] contents[i]).len() == cluster_len && device(
            Request {
                offset: (base + clusters[i] * cluster_len) as u64,
                len: cluster_len as usize,
            },
        ) == Some(contents[i])
}

/// Whether as many clusters as `count` are read for `size` bytes: just those that hold them, or
/// all where that is not enough.
pub open spec fn clusters_needed(
    count: int,
    clusters: Seq<int>,
    cluster_len: u32,
    size: u64,
) -> bool {
    ||| (count - 1) * cluster_len < size <= count * cluster_len
    ||| count == clusters.len() && count * cluster_len < size
}

proof fn lemma_restore_from(task: NtfsRestoreModel, device: Device, contents: Seq<Seq<u8>>)
    requires
        task.cluster_len > 0,
        task.ended is None,
        task.remaining > 0,
        0 <= task.at < task.runs.len(),
        task.done < task.runs[task.at].1,
        clusters_on(
            task.base,
            task.cluster_len,
            device,
            clusters_from(task.runs, task.at, task.done as int),
            contents,
        ),
        contents.len() > 0,
        clusters_needed(
            contents.len() as int,
            clusters_from(task.runs, task.at, task.done as int),
            task.cluster_len,
            task.remaining,
        ),
    ensures
        ({
            let outcome = visit(task, device, contents.len());
            let all = contents.flatten();
            &&& outcome is Some
            &&& outcome->0.status == Ok::<(), Failure>(())
            &&& outcome->0.yielded.flatten() == all.take(
                if task.remaining < all.len() {
                    task.remaining as int
                } else {
                    all.len() as int
                },
            )
        }),
    decreases contents.len(),
{
    let clusters = clusters_from(task.runs, task.at, task.done as int);
    let n = task.cluster_len as int;
    let k = contents.len() as int;
    let data = contents[0];
    lemma_first_cluster(task.runs, task.at, task.done);
    lemma_clusters_place(task.runs, task.at, (task.done + 1) as u64);
    assert(task.wants() == Some(
        Request { offset: (task.base + clusters[0] * n) as u64, len: n as usize },
    ));
    let f = (k - 1) as nat;
    let next = task.next(Some(data));
    let left = clusters_from(next.runs, next.at, next.done as int);
    assert(left =~= clusters.drop_first());
    let chunk = data.take(task.take_len());
    assert(task.pieces(Some(data)) =~= seq![Piece::Emit(chunk)]);
    lemma_one_result::<NtfsRestoreModel>(chunk, device, f);
    let rest_contents = contents.drop_first();
    lemma_flatten_first(contents);
    if next.ended is Some {
        assert(visit(next, device, f) == Some(
            (Outcome { yielded: Seq::<Seq<u8>>::empty(), status: Ok(()) }),
        ));
        assert(seq![chunk] + Seq::<Seq<u8>>::empty() =~= seq![chunk]);
        seq![chunk].lemma_flatten_one_element();
        if next.at >= next.runs.len() {
            assert(left =~= seq![]);
            assert(k == 1);
        } else {
            assert(k == 1) by (nonlinear_arith)
                requires
                    k >= 1,
                    n > 0,
                    task.remaining <= n,
                    (k - 1) * n < task.remaining || k * n < task.remaining,
            ;
        }
        assert(rest_contents =~= seq![]);
        assert(rest_contents.flatten() =~= seq![]);
        assert(contents.flatten() =~= data);
    } else {
        assert(task.remaining > n);
        assert(left.len() > 0);
        assert(k > 1) by (nonlinear_arith)
            requires
                k >= 1,
                n > 0,
                task.remaining > n,
                left.len() > 0,
                clusters.len() == left.len() + 1,
                ((k - 1) * n < task.remaining <= k * n) || k == clusters.len(),
        ;
        assert forall|i: int| 0 <= i < rest_contents.len() implies (
        #[trigger] rest_contents[i]).len() == n && device(
            Request { offset: (task.base + left[i] * n) as u64, len: n as usize },
        ) == Some(rest_contents[i]) by {
            assert(rest_contents[i] == contents[i + 1]);
            assert(left[i] == clusters[i + 1]);
        }
        assert(clusters_needed(k - 1, left, task.cluster_len, next.remaining)) by {
            assert((k - 1) * n - n == (k - 2) * n && k * n - n == (k - 1) * n) by (nonlinear_arith);
        }
        assert(chunk =~= data);
        lemma_restore_from(next, device, rest_contents);
        let rest = visit(next, device, f)->0.yielded;
        let all = seq![chunk] + rest;
        assert(all.drop_first() =~= rest);
        lemma_flatten_first(all);
        let whole = contents.flatten();
        assert(whole =~= data + rest_contents.flatten());
        if task.remaining < whole.len() {
            assert(all.flatten() =~= whole.take(task.remaining as int));
        } else {
            assert(all.flatten() =~= whole.take(whole.len() as int));
        }
    }
}

proof fn lemma_flatten_first(parts: Seq<Seq<u8>>)
    requires
        parts.len() > 0,
    ensures
        parts.flatten() == parts[0] + parts.drop_first().flatten(),
{
}

/// A restore writes the contents of the clusters of the runs, one after another and across the
/// boundaries of the runs, up to the size of the file; or all of them where the file is larger.
pub proof fn law_restore_follows_the_runs(
    cluster_len: u32,
    base: u64,
    runs: Seq<(u64, u64)>,
    size: u64,
    device: Device,
    contents: Seq<Seq<u8>>,
)
    requires
        cluster_len > 0,
        size > 0,
        clusters_on(base, cluster_len, device, clusters_from(runs, 0, 0), contents),
        clusters_needed(contents.len() as int, clusters_from(runs, 0, 0), cluster_len, size),
    ensures
        ({
            let outcome = visit(
                NtfsRestoreModel::begin(cluster_len, base, runs, size),
                device,
                contents.len(),
            );
            let all = contents.flatten();
            &&& outcome is Some
            &&& outcome->0.status == Ok::<(), Failure>(())
            &&& outcome->0.yielded.flatten() == all.take(
                if size < all.len() {
                    size as int
                } else {
                    all.len() as int
                },
            )
        }),
{
    let task = NtfsRestoreModel::begin(cluster_len, base, runs, size);
    lemma_clusters_place(runs, 0, 0);
    let (k, n) = (contents.len() as int, cluster_len as int);
    if task.ended is None {
        lemma_first_cluster(task.runs, task.at, task.done);
        assert(k > 0) by (nonlinear_arith)
            requires
                k >= 0,
                n > 0,
                size > 0,
                size <= k * n || k > 0,
        ;
        lemma_restore_from(task, device, contents);
    } else {
        assert(contents =~= seq![]);
        assert(contents.flatten() =~= seq![]);
        assert(Seq::<Seq<u8>>::empty().flatten() =~= seq![]);
        assert(contents.flatten().take(0) =~= seq![]);
    }
}

/// A restore never writes more than the size of the file.
pub proof fn law_restore_is_bounded(task: NtfsRestoreModel, device: Device, fuel: nat)
    requires
        honest(device),
        visit(task, device, fuel) is Some,
    ensures
        visit(task, device, fuel)->0.yielded.flatten().len() <= task.remaining,
    decreases fuel,
{
    match task.wants() {
        None => {
            assert(Seq::<Seq<u8>>::empty().flatten() =~= seq![]);
        },
        Some(request) => {
            let f = (fuel - 1) as nat;
            let reply = device(request);
            let next = task.next(reply);
            law_restore_is_bounded(next, device, f);
            let rest = visit(next, device, f)->0.yielded;
            match reply {
                Some(data) => {
                    let chunk = data.take(task.take_len());
                    lemma_one_result::<NtfsRestoreModel>(chunk, device, f);
                    assert(task.pieces(reply) =~= seq![Piece::Emit(chunk)]);
                    assert(fits(request, reply));
                    let all = visit(task, device, fuel)->0.yielded;
                    assert(all =~= seq![chunk] + rest);
                    assert(all.drop_first() =~= rest);
                    lemma_flatten_first(all);
                },
                None => {
                    assert(visit_pieces(task.pieces(reply), device, f) == Some(
                        Seq::<Seq<u8>>::empty(),
                    ));
                    assert(Seq::<Seq<u8>>::empty() + rest =~= rest);
                },
            }
        },
    }
}

/// A file that a scan found with its clusters can be restored along its runs, beginning at the
/// address that the scan recorded.
pub proof fn law_scan_then_restore(
    info: NtfsInfo,
    dirs: Map<u64, NameModel>,
    index: u64,
    record: Seq<u8>,
)
    requires
        contents_readable(info, attributes(record)),
        deleted_ntfs_file(info, dirs, index, record).data_runs.len() > 0,
        deleted_ntfs_file(info, dirs, index, record).data_runs[0].1 > 0,
        deleted_ntfs_file(info, dirs, index, record).size > 0,
    ensures
        ({
            let file = deleted_ntfs_file(info, dirs, index, record);
            &&& restorable(info, file)
            &&& restore_plan(info, file) matches NtfsPlanModel::Clusters(task) && task.wants()
                == Some(
                Request { offset: file.start_address, len: cluster_len(info) as usize },
            ) && task.remaining == file.size
        }),
{
    let file = deleted_ntfs_file(info, dirs, index, record);
    let (c, b, s) = (
        file.data_runs[0].0 as int,
        info.bytes_per_sector as int,
        info.sectors_per_cluster as int,
    );
    assert(c * b * s == (c + 0) * (b * s)) by (nonlinear_arith);
    assert(0 <= b * s <= 0xFFFF * 0xFF) by (nonlinear_arith)
        requires
            0 <= b <= 0xFFFF,
            0 <= s <= 0xFF,
    ;
    assert(0 <= c * (b * s)) by (nonlinear_arith)
        requires
            c >= 0,
            b >= 0,
            s >= 0,
    ;
}

/// A deleted file that a scan found with its clusters is recovered: a restore writes the contents
/// of the clusters of its runs up to the size of the file, or all of them where it is larger.
pub proof fn law_file_is_recovered(
    info: NtfsInfo,
    dirs: Map<u64, NameModel>,
    index: u64,
    record: Seq<u8>,
    device: Device,
    contents: Seq<Seq<u8>>,
)
    requires
        cluster_len(info) > 0,
        deleted_ntfs_file(info, dirs, index, record).data_runs.len() > 0,
        deleted_ntfs_file(info, dirs, index, record).size > 0,
        clusters_on(
            info.partition_offset,
            cluster_len(info) as u32,
            device,
            clusters_from(deleted_ntfs_file(info, dirs, index, record).data_runs, 0, 0),
            contents,
        ),
        clusters_needed(
            contents.len() as int,
            clusters_from(deleted_ntfs_file(info, dirs, index, record).data_runs, 0, 0),
            cluster_len(info) as u32,
            deleted_ntfs_file(info, dirs, index, record).size,
        ),
    ensures
        ({
            let file = deleted_ntfs_file(info, dirs, index, record);
            let all = contents.flatten();
            &&& restore_plan(info, file) matches NtfsPlanModel::Clusters(task) && {
                let outcome = visit(task, device, contents.len());
                &&& outcome is Some
                &&& outcome->0.status == Ok::<(), Failure>(())
                &&& outcome->0.yielded.flatten() == all.take(
                    if file.size < all.len() {
                        file.size as int
                    } else {
                        all.len() as int
                    },
                )
            }
        }),
{
    let file = deleted_ntfs_file(info, dirs, index, record);
    let (b, s) = (info.bytes_per_sector as int, info.sectors_per_cluster as int);
    assert(0 <= b * s <= 0xFFFF * 0xFF) by (nonlinear_arith)
        requires
            0 <= b <= 0xFFFF,
            0 <= s <= 0xFF,
    ;
    law_restore_follows_the_runs(
        cluster_len(info) as u32,
        info.partition_offset,
        file.data_runs,
        file.size,
        device,
        contents,
    );
}

/// Whether attribute `k` is a data attribute without a name.
pub open spec fn unnamed_data_at(attrs: Seq<(u32, Seq<u8>)>, k: int) -> bool {
    attrs[k].0 == ATTR_DATA && unnamed(attrs[k].1)
}

/// A data attribute without a name holds the contents, whatever others there are with one; where
/// there are several, the last does.
pub proof fn law_unnamed_data_is_preferred(attrs: Seq<(u32, Seq<u8>)>, k: int)
    requires
        0 <= k < attrs.len(),
        unnamed_data_at(attrs, k),
        forall|j: int| k < j < attrs.len() ==> !#[trigger] unnamed_data_at(attrs, j),
    ensures
        contents_attribute(attrs) == Some(attrs[k].1),
    decreases attrs.len(),
{
    if k < attrs.len() - 1 {
        let rest = attrs.drop_last();
        assert(!unnamed_data_at(attrs, attrs.len() - 1));
        assert(unnamed_data_at(rest, k));
        assert forall|j: int| k < j < rest.len() implies !#[trigger] unnamed_data_at(rest, j) by {
            assert(!unnamed_data_at(attrs, j));
        }
        law_unnamed_data_is_preferred(rest, k);
        lemma_unnamed_is_found(rest, k);
    }
}

proof fn lemma_unnamed_is_found(attrs: Seq<(u32, Seq<u8>)>, k: int)
    requires
        0 <= k < attrs.len(),
        unnamed_data_at(attrs, k),
    ensures
        last_unnamed_data(attrs) is Some,
    decreases attrs.len(),
{
    if k < attrs.len() - 1 {
        assert(unnamed_data_at(attrs.drop_last(), k));
        lemma_unnamed_is_found(attrs.drop_last(), k);
    }
}

/// Where no data attribute is without a name, the first of those with one holds the contents.
pub proof fn law_first_named_data_is_taken(attrs: Seq<(u32, Seq<u8>)>, k: int)
    requires
        0 <= k < attrs.len(),
        attrs[k].0 == ATTR_DATA,
        forall|j: int| 0 <= j < k ==> (#[trigger] attrs[j]).0 != ATTR_DATA,
        forall|j: int| 0 <= j < attrs.len() ==> !#[trigger] unnamed_data_at(attrs, j),
    ensures
        contents_attribute(attrs) == Some(attrs[k].1),
{
    lemma_no_unnamed_data(attrs);
    lemma_first_data(attrs, k);
}

proof fn lemma_no_unnamed_data(attrs: Seq<(u32, Seq<u8>)>)
    requires
        forall|j: int| 0 <= j < attrs.len() ==> !#[trigger] unnamed_data_at(attrs, j),
    ensures
        last_unnamed_data(attrs) is None,
    decreases attrs.len(),
{
    if attrs.len() > 0 {
        let rest = attrs.drop_last();
        assert(!unnamed_data_at(attrs, attrs.len() - 1));
        assert forall|j: int| 0 <= j < rest.len() implies !#[trigger] unnamed_data_at(rest, j) by {
            assert(!unnamed_data_at(attrs, j));
        }
        lemma_no_unnamed_data(rest);
    }
}

proof fn lemma_first_data(attrs: Seq<(u32, Seq<u8>)>, k: int)
    requires
        0 <= k <= attrs.len(),
        forall|j: int| 0 <= j < k ==> (#[trigger] attrs[j]).0 != ATTR_DATA,
        k < attrs.len() ==> attrs[k].0 == ATTR_DATA,
    ensures
        first_data(attrs) == if k < attrs.len() {
            Some(attrs[k].1)
        } else {
            None
        },
    decreases attrs.len(),
{
    if attrs.len() > 0 {
        let rest = attrs.drop_last();
        let n = if k < attrs.len() {
            k
        } else {
            k - 1
        };
        assert forall|j: int| 0 <= j < n implies (#[trigger] rest[j]).0 != ATTR_DATA by {
            assert(attrs[j].0 != ATTR_DATA);
        }
        lemma_first_data(rest, n);
    }
}

/// A file that a scan found with its contents inside its record is restored from there: what is
/// written are those contents, as many bytes as the scan recorded as the size.
pub proof fn law_contents_inside_are_restored(
    info: NtfsInfo,
    dirs: Map<u64, NameModel>,
    index: u64,
    record: Seq<u8>,
    attr: Seq<u8>,
)
    requires
        contents_attribute(attributes(record)) == Some(attr),
        resident_data(attr) is Some,
    ensures
        ({
            let file = deleted_ntfs_file(info, dirs, index, record);
            &&& restorable(info, file)
            &&& restore_plan(info, file) == NtfsPlanModel::Whole(resident_data(attr)->0)
            &&& file.size == resident_data(attr)->0.len()
        }),
{
}

} // verus!
