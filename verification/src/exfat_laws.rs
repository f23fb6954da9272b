//! What the bytes of an exFAT directory say: which sets of entries are deleted files, under which
//! names, of which sizes, and where they were; and where the directory goes on.

use vstd::prelude::*;
use crate::exfat_scan::{
    active_primary, active_run, active_secondaries, active_secondary, active_set,
    deleted_exfat_file, deleted_run, deleted_secondaries, deleted_secondary, deleted_set,
    entry_count, name_entry, name_entry_units, stream_entry, ExfatDirModel, SetModel,
};
use crate::fat::ExfatInfo;
use crate::fat_entry::{lemma_name_units, units_text};
use crate::fat_laws::{entry_byte, entry_bytes, law_sub_path};
use crate::fat_restore::{
    law_exfat_file_is_recovered, law_table_value_is_read_back, linked, restore_plan, states,
};
use crate::fat_scan::{entry_of, ChainPhase};
use crate::reach_laws::{hands_out, leads_to};
use crate::scan_laws::{
    exfat_reads, law_exfat_deleted_set_is_handed_out, law_exfat_subdirectory_is_entered, name_unit,
    primary_from,
};
use crate::stored::{
    law_stored_u16_is_read_back, law_stored_u32_is_read_back, stores_u16, stores_u32,
};
use crate::text::{hex, law_utf16_recovers, utf16_encode};
use crate::types::FileModel;
use crate::walk::{visit, Device, Failure, Request, TaskModel};

verus! {

// ---------------------------------------------------------------------------------------------
// Entries
// ---------------------------------------------------------------------------------------------

/// What an entry is, is told by its bytes: a deleted secondary entry is marked E5 and has a zero in
/// byte 2, and byte 3 tells a stream extension from a part of the name; an entry that is there and
/// belongs to another has the upper bit; and an odd byte below 80, or 85, begins a set.
pub proof fn law_exfat_entry_marks(entry: Seq<u8>)
    ensures
        deleted_secondary(entry) <==> entry[0] == 0xE5 && entry[2] == 0,
        stream_entry(entry) <==> entry[2] == 0 && entry[3] != 0,
        name_entry(entry) <==> entry[2] == 0 && entry[3] == 0,
        active_secondary(entry) <==> entry[0] >= 128,
        active_primary(entry[0]) <==> entry[0] == 0x85 || entry[0] < 128 && entry[0] as int % 2 == 1,
{
}

/// Whether an entry is a stream extension that stores a first cluster and a size.
pub open spec fn stores_stream(entry: Seq<u8>, cluster: int, size: int) -> bool {
    &&& entry[2] == 0
    &&& entry[3] != 0
    &&& stores_u32(entry, 20, cluster)
    &&& stores_u32(entry, 24, size)
}

/// Whether an entry is one that stores a part of a name, of up to fourteen units, with a unit behind
/// it that ends the name where there is room for one.
pub open spec fn stores_part(entry: Seq<u8>, part: Seq<char>) -> bool {
    let units = utf16_encode(part);
    &&& entry[2] == 0
    &&& entry[3] == 0
    &&& units.len() <= 14
    &&& forall|i: int|
        0 <= i < units.len() ==> stores_u16(entry, 4 + 2 * i, #[trigger] units[i] as int)
            && name_unit(units[i])
    &&& units.len() < 14 ==> stores_u16(entry, 4 + 2 * units.len() as int, 0) || stores_u16(
        entry,
        4 + 2 * units.len() as int,
        0xFFFF,
    )
}

proof fn lemma_part(entry: Seq<u8>, part: Seq<char>)
    requires
        stores_part(entry, part),
    ensures
        units_text(name_entry_units(entry)) == part,
{
    let units = utf16_encode(part);
    let all = name_entry_units(entry);
    let n = units.len() as int;
    assert forall|i: int| 0 <= i < n implies all[i] == units[i] && all[i] != 0x0000 && all[i]
        != 0xFFFF by {
        assert(name_unit(units[i]));
        law_stored_u16_is_read_back(entry, 4 + 2 * i, units[i] as int);
    }
    if n < 14 {
        if stores_u16(entry, 4 + 2 * n, 0) {
            law_stored_u16_is_read_back(entry, 4 + 2 * n, 0);
        } else {
            law_stored_u16_is_read_back(entry, 4 + 2 * n, 0xFFFF);
        }
    }
    lemma_name_units(all, n);
    assert(all.take(n) =~= units);
    law_utf16_recovers(part);
}

/// What an entry adds to what is known of a set: a stream extension its size, and its cluster where
/// that is one; a part of the name that part, behind those before; another entry nothing.
pub proof fn law_entry_adds_to_the_set(
    set: SetModel,
    entry: Seq<u8>,
    cluster: int,
    size: int,
    part: Seq<char>,
)
    ensures
        stores_stream(entry, cluster, size) ==> set.with(entry).size == size && set.with(
            entry,
        ).name == set.name && set.with(entry).cluster == if cluster >= 2 {
            cluster
        } else {
            set.cluster as int
        },
        stores_part(entry, part) ==> set.with(entry) == (SetModel { name: set.name + part, ..set }),
        entry[2] != 0 ==> set.with(entry) == set,
{
    if stores_stream(entry, cluster, size) {
        law_stored_u32_is_read_back(entry, 20, cluster);
        law_stored_u32_is_read_back(entry, 24, size);
    }
    if stores_part(entry, part) {
        lemma_part(entry, part);
    }
}

proof fn lemma_entry_of(data: Seq<u8>, i: int)
    requires
        0 <= i,
        32 * i + 32 <= data.len(),
    ensures
        entry_of(data, i) == entry_bytes(data, i),
{
    assert(entry_of(data, i) =~= entry_bytes(data, i));
}

// ---------------------------------------------------------------------------------------------
// Deleted sets
// ---------------------------------------------------------------------------------------------

/// The size of a deleted set is the one that its last stream extension stores, and nothing else in
/// the set changes it.
pub proof fn law_set_size_is_that_of_the_last_stream(
    data: Seq<u8>,
    from: int,
    n: nat,
    k: int,
    cluster: int,
    size: int,
)
    requires
        0 <= from,
        0 <= k < n,
        32 * (from + n) <= data.len(),
        stores_stream(entry_bytes(data, from + k), cluster, size),
        forall|j: int|
            k < j < n ==> #[trigger] entry_byte(data, from + j, 2) != 0 || entry_byte(
                data,
                from + j,
                3,
            ) == 0,
    ensures
        deleted_set(data, from, n).size == size,
    decreases n,
{
    let entry = entry_of(data, from + n - 1);
    lemma_entry_of(data, from + n - 1);
    if k == n - 1 {
        law_entry_adds_to_the_set(
            deleted_set(data, from, (n - 1) as nat),
            entry,
            cluster,
            size,
            seq![],
        );
    } else {
        assert(entry_byte(data, from + (n - 1), 2) != 0 || entry_byte(data, from + (n - 1), 3) == 0);
        law_set_size_is_that_of_the_last_stream(data, from, (n - 1) as nat, k, cluster, size);
    }
}

/// The first cluster of a deleted set is the one that the last of its stream extensions with a
/// cluster stores.
pub proof fn law_set_cluster_is_that_of_the_last_stream(
    data: Seq<u8>,
    from: int,
    n: nat,
    k: int,
    cluster: int,
    size: int,
)
    requires
        0 <= from,
        0 <= k < n,
        32 * (from + n) <= data.len(),
        cluster >= 2,
        stores_stream(entry_bytes(data, from + k), cluster, size),
        forall|j: int|
            k < j < n ==> #[trigger] entry_byte(data, from + j, 2) != 0 || entry_byte(
                data,
                from + j,
                3,
            ) == 0 || stores_u32(entry_bytes(data, from + j), 20, 0),
    ensures
        deleted_set(data, from, n).cluster == cluster,
    decreases n,
{
    let entry = entry_of(data, from + n - 1);
    lemma_entry_of(data, from + n - 1);
    if k == n - 1 {
        law_entry_adds_to_the_set(
            deleted_set(data, from, (n - 1) as nat),
            entry,
            cluster,
            size,
            seq![],
        );
    } else {
        let j = n - 1;
        assert(entry_byte(data, from + j, 2) != 0 || entry_byte(data, from + j, 3) == 0
            || stores_u32(entry_bytes(data, from + j), 20, 0));
        if stores_u32(entry, 20, 0) {
            law_stored_u32_is_read_back(entry, 20, 0);
        }
        law_set_cluster_is_that_of_the_last_stream(data, from, (n - 1) as nat, k, cluster, size);
    }
}

/// The number of deleted secondary entries behind entry `i` is that of the entries that are marked
/// as such, one behind another, up to twenty and to the end of the cluster.
pub proof fn law_deleted_secondaries_are_counted(data: Seq<u8>, i: int, n: nat)
    requires
        0 <= i,
        n <= 20,
        32 * (i + 1 + n) <= data.len(),
        forall|j: int|
            i < j <= i + n ==> #[trigger] entry_byte(data, j, 0) == 0xE5 && entry_byte(data, j, 2)
                == 0,
        n == 20 || 32 * (i + n + 2) > data.len() || entry_byte(data, i + n + 1, 0) != 0xE5
            || entry_byte(data, i + n + 1, 2) != 0,
    ensures
        deleted_secondaries(data, i) == n,
{
    let limit = if i + 21 <= data.len() as int / 32 {
        i + 21
    } else {
        data.len() as int / 32
    };
    lemma_deleted_run(data, i + 1, i + 1 + n, limit);
}

proof fn lemma_deleted_run(data: Seq<u8>, from: int, end: int, limit: int)
    requires
        0 <= from <= end <= limit,
        32 * limit <= data.len(),
        forall|j: int|
            from <= j < end ==> #[trigger] entry_byte(data, j, 0) == 0xE5 && entry_byte(data, j, 2)
                == 0,
        end == limit || entry_byte(data, end, 0) != 0xE5 || entry_byte(data, end, 2) != 0,
    ensures
        deleted_run(data, from, limit) == end - from,
    decreases end - from,
{
    if from < limit {
        lemma_entry_of(data, from);
    }
    if from < end {
        assert(entry_byte(data, from, 0) == 0xE5);
        lemma_deleted_run(data, from + 1, end, limit);
    }
}

/// The deleted set whose first entry is `i` reaches over the entries up to `i + n`.
pub open spec fn deleted_set_at(data: Seq<u8>, i: int, n: int) -> bool {
    &&& 0 <= i
    &&& 0 <= n <= 20
    &&& 32 * (i + 1 + n) <= data.len()
    &&& entry_byte(data, i, 0) == 0xE5
    &&& forall|j: int|
        i < j <= i + n ==> #[trigger] entry_byte(data, j, 0) == 0xE5 && entry_byte(data, j, 2) == 0
    &&& n == 20 || 32 * (i + n + 2) > data.len() || entry_byte(data, i + n + 1, 0) != 0xE5
        || entry_byte(data, i + n + 1, 2) != 0
}

proof fn lemma_set_parts(data: Seq<u8>, from: int, cluster: int, size: int, parts: Seq<Seq<char>>)
    requires
        0 <= from,
        32 * (from + 1 + parts.len()) <= data.len(),
        cluster >= 2,
        stores_stream(entry_bytes(data, from), cluster, size),
        forall|k: int|
            0 <= k < parts.len() ==> stores_part(
                entry_bytes(data, from + 1 + k),
                #[trigger] parts[k],
            ),
    ensures
        deleted_set(data, from, 1 + parts.len()) == (SetModel {
            name: parts.flatten(),
            size: size as u64,
            cluster: cluster as u32,
        }),
    decreases parts.len(),
{
    let n = parts.len();
    lemma_entry_of(data, from + n);
    if n == 0 {
        law_entry_adds_to_the_set(SetModel::none(), entry_of(data, from), cluster, size, seq![]);
        assert(deleted_set(data, from, 0) == SetModel::none());
        assert(parts.flatten() =~= seq![]);
        assert(deleted_set(data, from, 1).name =~= parts.flatten());
    } else {
        let before = parts.drop_last();
        assert forall|k: int| 0 <= k < before.len() implies stores_part(
            entry_bytes(data, from + 1 + k),
            #[trigger] before[k],
        ) by {
            assert(stores_part(entry_bytes(data, from + 1 + k), parts[k]));
        }
        lemma_set_parts(data, from, cluster, size, before);
        assert(stores_part(entry_bytes(data, from + 1 + (n - 1)), parts[n - 1]));
        law_entry_adds_to_the_set(
            deleted_set(data, from, n),
            entry_of(data, from + n),
            cluster,
            size,
            parts.last(),
        );
        lemma_flatten_last(parts);
    }
}

proof fn lemma_flatten_last(parts: Seq<Seq<char>>)
    requires
        parts.len() > 0,
    ensures
        parts.flatten() == parts.drop_last().flatten() + parts.last(),
    decreases parts.len(),
{
    if parts.len() == 1 {
        assert(parts =~= seq![parts.last()]);
        seq![parts.last()].lemma_flatten_one_element();
        assert(parts.drop_last().flatten() =~= seq![]);
        assert(parts.flatten() =~= parts.drop_last().flatten() + parts.last());
    } else {
        let rest = parts.drop_first();
        lemma_flatten_last(rest);
        assert(rest.drop_last() =~= parts.drop_last().drop_first());
        assert(parts.flatten() =~= parts[0] + rest.flatten());
        assert(parts.drop_last().flatten() =~= parts[0] + rest.drop_last().flatten());
        assert(parts.flatten() =~= parts.drop_last().flatten() + parts.last());
    }
}

/// What a deleted file is called, how large it is and where it was, as the scan reports it.
pub open spec fn reported(
    dir: ExfatDirModel,
    device: Device,
    name: Seq<char>,
    cluster: int,
    size: int,
    attr: u8,
) -> bool {
    hands_out(
        dir,
        device,
        FileModel {
            name,
            size: size as u64,
            start_address: if cluster >= 2 {
                dir.info.cluster_at(cluster) as u64
            } else {
                0
            },
            fs_type: "exFAT"@,
            path: dir.path,
            is_directory: attr as int % 32 >= 16,
            resident_data: None,
            data_runs: seq![],
        },
    )
}

/// A deleted set, with a stream extension and then the parts of a name, is handed out under that
/// name, with the size and the cluster that the stream extension stores.
pub proof fn law_deleted_set_is_reported(
    dir: ExfatDirModel,
    device: Device,
    data: Seq<u8>,
    i: int,
    cluster: int,
    size: int,
    parts: Seq<Seq<char>>,
)
    requires
        exfat_reads(dir, device, data),
        primary_from(data, 0, i),
        deleted_set_at(data, i, 1 + parts.len() as int),
        cluster >= 2,
        stores_stream(entry_bytes(data, i + 1), cluster, size),
        forall|k: int|
            0 <= k < parts.len() ==> stores_part(
                entry_bytes(data, i + 1 + 1 + k),
                #[trigger] parts[k],
            ),
        parts.flatten().len() > 0,
    ensures
        reported(dir, device, parts.flatten(), cluster, size, entry_byte(data, i, 3)),
{
    lemma_entry_of(data, i);
    law_deleted_secondaries_are_counted(data, i, 1 + parts.len());
    lemma_set_parts(data, i + 1, cluster, size, parts);
    law_exfat_deleted_set_is_handed_out(dir, device, data, i);
    let set = deleted_set(data, i + 1, deleted_secondaries(data, i));
    let file = deleted_exfat_file(dir.info, dir.path, entry_of(data, i)[3], set);
    assert(file.data_runs =~= seq![]);
}

/// What a set says of a deleted file is what is reported of it. A file without a name is called
/// after its first cluster.
pub proof fn law_deleted_file_is_what_the_set_says(
    info: ExfatInfo,
    path: Seq<char>,
    attr: u8,
    set: SetModel,
)
    requires
        info.addressable(),
    ensures
        ({
            let file = deleted_exfat_file(info, path, attr, set);
            &&& set.name.len() > 0 ==> file.name == set.name
            &&& set.name.len() == 0 ==> file.name == "DELETED_EXFAT_0x"@ + hex(
                set.cluster as nat,
                8,
            )
            &&& file.size == set.size
            &&& set.cluster >= 2 ==> file.start_address == info.cluster_at(set.cluster as int)
            &&& set.cluster < 2 ==> file.start_address == 0
            &&& file.path == path
            &&& file.is_directory <==> attr as int % 32 >= 16
            &&& file.fs_type == "exFAT"@
            &&& file.resident_data is None
            &&& file.data_runs.len() == 0
        }),
{
    if set.cluster >= 2 {
        info.lemma_addressable(set.cluster);
    }
}

/// Nothing is known of a set before its secondary entries are read: no name, no size, no cluster.
pub proof fn law_empty_set(data: Seq<u8>, from: int)
    ensures
        deleted_set(data, from, 0).name.len() == 0,
        deleted_set(data, from, 0).size == 0,
        deleted_set(data, from, 0).cluster == 0,
        active_set(data, from, 0).name.len() == 0,
        active_set(data, from, 0).cluster == 0,
{
}

// ---------------------------------------------------------------------------------------------
// From one set to the next
// ---------------------------------------------------------------------------------------------

/// The first entry of a cluster begins a set, unless it ends the directory.
pub proof fn law_first_entry_begins_a_set(data: Seq<u8>)
    requires
        data.len() >= 32,
        entry_byte(data, 0, 0) != 0,
    ensures
        primary_from(data, 0, 0),
{
    lemma_entry_of(data, 0);
}

/// Behind a set that begins with entry `k` the next begins: behind the last secondary entry of a
/// deleted set, behind as many entries as a set that is there states, and otherwise with the next
/// entry; unless the cluster or the directory ends there.
pub proof fn law_next_set(data: Seq<u8>, i: int, k: int, n: int)
    requires
        0 <= i,
        primary_from(data, i, k),
        32 * (k + n + 2) <= data.len(),
        entry_byte(data, k + n + 1, 0) != 0,
        deleted_set_at(data, k, n) || entry_byte(data, k, 0) != 0xE5 && n == if entry_byte(
            data,
            k,
            0,
        ) == 0x85 || entry_byte(data, k, 0) < 128 && entry_byte(data, k, 0) as int % 2 == 1 {
            entry_byte(data, k, 1) as int
        } else {
            0
        },
    ensures
        primary_from(data, i, k + n + 1),
    decreases
        (if i < entry_count(data) {
            entry_count(data) - i
        } else {
            0
        }),
{
    lemma_entry_of(data, i);
    if i == k {
        lemma_entry_of(data, k + n + 1);
        if deleted_set_at(data, k, n) {
            law_deleted_secondaries_are_counted(data, k, n as nat);
        }
        assert(primary_from(data, k + n + 1, k + n + 1));
    } else {
        let entry = entry_of(data, i);
        let to = if entry[0] == 0xE5 {
            i + 1 + deleted_secondaries(data, i)
        } else if active_primary(entry[0]) {
            i + 1 + entry[1]
        } else {
            i + 1
        };
        law_next_set(data, to, k, n);
        lemma_primary_in_order(data, to, k);
    }
}

proof fn lemma_primary_in_order(data: Seq<u8>, i: int, k: int)
    requires
        primary_from(data, i, k),
    ensures
        i <= k < entry_count(data),
    decreases
        (if i < entry_count(data) {
            entry_count(data) - i
        } else {
            0
        }),
{
    let entry = entry_of(data, i);
    if i != k {
        let to = if entry[0] == 0xE5 {
            i + 1 + deleted_secondaries(data, i)
        } else if active_primary(entry[0]) {
            i + 1 + entry[1]
        } else {
            i + 1
        };
        lemma_primary_in_order(data, to, k);
    }
}

// ---------------------------------------------------------------------------------------------
// Subdirectories
// ---------------------------------------------------------------------------------------------

/// The entries that belong to a set which is there are those behind its first that have the upper
/// bit, up to as many as it states and to the end of the cluster.
pub proof fn law_active_secondaries_are_counted(data: Seq<u8>, i: int, n: nat)
    requires
        0 <= i,
        n <= entry_byte(data, i, 1),
        32 * (i + 1 + n) <= data.len(),
        forall|j: int| i < j <= i + n ==> #[trigger] entry_byte(data, j, 0) >= 128,
        n == entry_byte(data, i, 1) || 32 * (i + n + 2) > data.len() || entry_byte(
            data,
            i + n + 1,
            0,
        ) < 128,
    ensures
        active_secondaries(data, i) == n,
{
    lemma_entry_of(data, i);
    let stated = i + 1 + entry_byte(data, i, 1);
    let limit = if stated <= data.len() as int / 32 {
        stated
    } else {
        data.len() as int / 32
    };
    lemma_active_run(data, i + 1, i + 1 + n, limit);
}

proof fn lemma_active_run(data: Seq<u8>, from: int, end: int, limit: int)
    requires
        0 <= from <= end <= limit,
        32 * limit <= data.len(),
        forall|j: int| from <= j < end ==> #[trigger] entry_byte(data, j, 0) >= 128,
        end == limit || entry_byte(data, end, 0) < 128,
    ensures
        active_run(data, from, limit) == end - from,
    decreases end - from,
{
    if from < limit {
        lemma_entry_of(data, from);
    }
    if from < end {
        assert(entry_byte(data, from, 0) >= 128);
        lemma_active_run(data, from + 1, end, limit);
    }
}

proof fn lemma_active_parts(
    data: Seq<u8>,
    from: int,
    cluster: int,
    size: int,
    parts: Seq<Seq<char>>,
)
    requires
        0 <= from,
        32 * (from + 1 + parts.len()) <= data.len(),
        cluster >= 2,
        stores_stream(entry_bytes(data, from), cluster, size),
        forall|k: int|
            0 <= k < parts.len() ==> stores_part(
                entry_bytes(data, from + 1 + k),
                #[trigger] parts[k],
            ) && entry_byte(data, from + 1 + k, 4) != 0,
    ensures
        active_set(data, from, 1 + parts.len()).name == parts.flatten(),
        active_set(data, from, 1 + parts.len()).cluster == cluster,
    decreases parts.len(),
{
    let n = parts.len();
    lemma_entry_of(data, from + n);
    if n == 0 {
        law_entry_adds_to_the_set(SetModel::none(), entry_of(data, from), cluster, size, seq![]);
        assert(active_set(data, from, 0) == SetModel::none());
        assert(parts.flatten() =~= seq![]);
        assert(active_set(data, from, 1).name =~= parts.flatten());
    } else {
        let before = parts.drop_last();
        assert forall|k: int| 0 <= k < before.len() implies stores_part(
            entry_bytes(data, from + 1 + k),
            #[trigger] before[k],
        ) && entry_byte(data, from + 1 + k, 4) != 0 by {
            assert(stores_part(entry_bytes(data, from + 1 + k), parts[k]));
        }
        lemma_active_parts(data, from, cluster, size, before);
        assert(stores_part(entry_bytes(data, from + 1 + (n - 1)), parts[n - 1]));
        law_entry_adds_to_the_set(
            active_set(data, from, n),
            entry_of(data, from + n),
            cluster,
            size,
            parts.last(),
        );
        lemma_flatten_last(parts);
    }
}

/// A set that is there and is that of a directory, with a stream extension and then the parts of a
/// name, leads to the scan of that directory, from the cluster that the stream extension stores and
/// under the name behind the path.
pub proof fn law_active_directory_is_entered(
    dir: ExfatDirModel,
    device: Device,
    data: Seq<u8>,
    i: int,
    cluster: int,
    size: int,
    parts: Seq<Seq<char>>,
)
    requires
        exfat_reads(dir, device, data),
        primary_from(data, 0, i),
        0 <= i,
        entry_byte(data, i, 0) == 0x85,
        entry_byte(data, i, 3) as int % 32 >= 16,
        entry_byte(data, i, 1) == 1 + parts.len(),
        32 * (i + 2 + parts.len()) <= data.len(),
        forall|j: int| i < j <= i + 1 + parts.len() ==> #[trigger] entry_byte(data, j, 0) >= 128,
        cluster >= 2,
        stores_stream(entry_bytes(data, i + 1), cluster, size),
        forall|k: int|
            0 <= k < parts.len() ==> stores_part(
                entry_bytes(data, i + 1 + 1 + k),
                #[trigger] parts[k],
            ) && entry_byte(data, i + 1 + 1 + k, 4) != 0,
        parts.flatten().len() > 0,
    ensures
        leads_to(
            dir,
            device,
            ExfatDirModel::open(
                dir.info,
                cluster as u32,
                if dir.path.len() == 0 {
                    parts.flatten()
                } else {
                    dir.path + seq!['/'] + parts.flatten()
                },
            ),
        ),
{
    lemma_entry_of(data, i);
    law_active_secondaries_are_counted(data, i, 1 + parts.len());
    lemma_active_parts(data, i + 1, cluster, size, parts);
    law_sub_path(dir.path, parts.flatten());
    law_exfat_subdirectory_is_entered(dir, device, data, i);
}

/// A cluster hands out one file for each deleted set and one scan at most for each set that is there,
/// in the order of the sets. A set that is there is entered only where it is that of a directory
/// with a name and a cluster. Behind an end mark nothing is handed out.
pub proof fn law_sets_are_handed_out_in_order(dir: ExfatDirModel, data: Seq<u8>, i: int, n: int)
    requires
        0 <= i,
        32 * (i + 1) <= data.len(),
    ensures
        ({
            let (first, attr) = (entry_byte(data, i, 0), entry_byte(data, i, 3));
            let all = dir.listing(data, i);
            let begins = first == 0x85 || first < 128 && first as int % 2 == 1;
            let set = active_set(data, i + 1, active_secondaries(data, i));
            &&& first == 0 ==> all.len() == 0
            &&& deleted_set_at(data, i, n) ==> all.len() > 0 && all[0] is Emit && all.drop_first()
                == dir.listing(data, i + n + 1)
            &&& begins && (attr as int % 32 < 16 || set.name.len() == 0 || set.cluster < 2)
                ==> all == dir.listing(data, i + 1 + entry_byte(data, i, 1))
            &&& begins && attr as int % 32 >= 16 && set.name.len() > 0 && set.cluster >= 2
                ==> all.len() > 0 && all[0] is Enter && all.drop_first() == dir.listing(
                data,
                i + 1 + entry_byte(data, i, 1),
            )
            &&& first != 0 && first != 0xE5 && !begins ==> all == dir.listing(data, i + 1)
        }),
{
    lemma_entry_of(data, i);
    let all = dir.listing(data, i);
    let first = entry_byte(data, i, 0);
    if deleted_set_at(data, i, n) {
        law_deleted_secondaries_are_counted(data, i, n as nat);
        assert(all.drop_first() =~= dir.listing(data, i + 1 + n));
    }
    if active_primary(first) && first != 0xE5 {
        let set = active_set(data, i + 1, active_secondaries(data, i));
        let rest = dir.listing(data, i + 1 + entry_byte(data, i, 1));
        let own = dir.active_pieces(entry_byte(data, i, 3), set);
        assert(all == own + rest);
        if own.len() == 0 {
            assert(all =~= rest);
        } else {
            assert(all.drop_first() =~= rest);
        }
    }
}

/// An entry adds to a set that is there what it adds to any set, but for a part of the name that
/// begins with a zero, which adds nothing.
pub proof fn law_entry_adds_to_an_active_set(data: Seq<u8>, from: int, n: nat)
    requires
        0 <= from,
        32 * (from + n + 1) <= data.len(),
    ensures
        ({
            let entry = entry_bytes(data, from + n);
            let before = active_set(data, from, n);
            active_set(data, from, n + 1) == if entry[2] == 0 && entry[3] == 0 && entry[4] == 0 {
                before
            } else {
                before.with(entry)
            }
        }),
        deleted_set(data, from, n + 1) == deleted_set(data, from, n).with(
            entry_bytes(data, from + n),
        ),
{
    lemma_entry_of(data, from + n);
}

/// There is one entry in every 32 bytes of a cluster.
pub proof fn law_entry_count(data: Seq<u8>, n: nat)
    requires
        32 * n <= data.len() < 32 * n + 32,
    ensures
        entry_count(data) == n,
{
}

// ---------------------------------------------------------------------------------------------
// Chains
// ---------------------------------------------------------------------------------------------

/// The scan of a directory begins with its first cluster, with nothing visited but that; where its
/// number is no cluster's, it ends at once.
pub proof fn law_exfat_directory_begins(info: ExfatInfo, start: u32, path: Seq<char>)
    ensures
        ({
            let dir = ExfatDirModel::open(info, start, path);
            &&& dir.info == info && dir.path == path
            &&& start >= 2 ==> dir.phase is Contents && dir.cluster == start && dir.visited
                == set![start]
            &&& start < 2 ==> dir.wants() is None && dir.status() == Ok::<(), Failure>(())
        }),
{
    assert(Set::<u32>::empty().insert(start) =~= set![start]);
}

/// A directory reads the whole of its cluster, and then the table entry of it.
pub proof fn law_exfat_directory_reads(dir: ExfatDirModel)
    requires
        dir.info.addressable(),
        dir.cluster >= 2,
    ensures
        dir.phase is Contents ==> dir.wants() is Some && dir.wants()->0.offset
            == dir.info.cluster_at(dir.cluster as int) && dir.wants()->0.len
            == dir.info.sectors_per_cluster * dir.info.bytes_per_sector,
        dir.phase is TableEntry ==> dir.wants() is Some && dir.wants()->0.offset
            == dir.info.entry_at(dir.cluster as int) && dir.wants()->0.len == 4,
{
    dir.info.lemma_addressable(dir.cluster);
    let (a, b) = (dir.info.bytes_per_sector as int, dir.info.sectors_per_cluster as int);
    assert(0 <= a * b && a * b == b * a) by (nonlinear_arith)
        requires
            0 <= a,
            0 <= b,
    ;
}

/// Behind a cluster the directory goes on where the table entry leads: at the cluster that it
/// states, unless that was visited before, and it ends where the entry is free, states the end or
/// states no cluster. Where something cannot be read it ends too, without a failure.
pub proof fn law_exfat_directory_goes_where_the_entry_leads(
    dir: ExfatDirModel,
    data: Seq<u8>,
    entry: Seq<u8>,
    value: int,
)
    requires
        0 <= value < 0x1000_0000,
        states(entry, value),
    ensures
        dir.phase is Contents ==> dir.next(Some(data)) == (ExfatDirModel {
            phase: ChainPhase::TableEntry,
            ..dir
        }),
        dir.phase is TableEntry ==> {
            let next = dir.next(Some(entry));
            &&& next.path == dir.path && next.info == dir.info
            &&& 2 <= value < 0x0FFF_FFF8 && !dir.visited.contains(value as u32) ==> next.phase
                is Contents && next.cluster == value && next.visited == dir.visited.insert(
                value as u32,
            )
            &&& value < 2 || value >= 0x0FFF_FFF8 || dir.visited.contains(value as u32)
                ==> next.wants() is None && next.status() == Ok::<(), Failure>(())
            &&& dir.pieces(Some(entry)).len() == 0
        },
        dir.wants() is Some ==> dir.next(None).wants() is None && dir.next(None).status() == Ok::<
            (),
            Failure,
        >(()) && dir.pieces(None).len() == 0,
{
    law_table_value_is_read_back(entry, value);
}

/// Whether the table entry of cluster `i` of a chain on an exFAT volume states the next.
pub open spec fn exfat_linked(info: ExfatInfo, device: Device, chain: Seq<u32>, i: int) -> bool {
    let reply = device(Request { offset: info.entry_at(chain[i] as int) as u64, len: 4 });
    reply is Some && states(reply->0, chain[i + 1] as int)
}

/// A deleted file is recovered from the bytes of the volume: where the table entries lead from each
/// cluster of its chain to the next, and the clusters still hold the contents, a restore of what the
/// scan reports writes those contents up to the size.
pub proof fn law_exfat_stored_file_is_recovered(
    info: ExfatInfo,
    path: Seq<char>,
    attr: u8,
    set: SetModel,
    device: Device,
    chain: Seq<u32>,
    contents: Seq<Seq<u8>>,
)
    requires
        info.addressable(),
        info.cluster_len() > 0,
        set.cluster >= 2,
        chain.len() > 0,
        chain[0] == set.cluster,
        contents.len() == chain.len(),
        forall|i: int|
            0 <= i < chain.len() ==> (#[trigger] contents[i]).len() == info.cluster_len() && device(
                Request {
                    offset: info.cluster_at(chain[i] as int) as u64,
                    len: info.cluster_len() as usize,
                },
            ) == Some(contents[i]),
        forall|i: int| 0 <= i < chain.len() - 1 ==> #[trigger] exfat_linked(info, device, chain, i),
        forall|i: int| 0 < i < chain.len() ==> 2 <= #[trigger] chain[i] < 0x0FFF_FFF8,
        (chain.len() - 1) * info.cluster_len() < set.size <= chain.len() * info.cluster_len(),
    ensures
        ({
            let file = deleted_exfat_file(info, path, attr, set);
            let plan = restore_plan(info.chain_volume(), file.start_address, file.size);
            let outcome = visit(plan->Ok_0, device, 2 * chain.len());
            &&& plan is Ok
            &&& outcome is Some
            &&& outcome->0.status == Ok::<(), Failure>(())
            &&& outcome->0.yielded.flatten() == contents.flatten().take(set.size as int)
        }),
{
    info.law_chain_volume();
    let volume = info.chain_volume();
    assert forall|i: int| 0 <= i < chain.len() implies device(
        volume.contents_request(#[trigger] chain[i]),
    ) == Some(contents[i]) && contents[i].len() == volume.cluster_len by {
        assert(contents[i].len() == info.cluster_len());
        assert(volume.cluster_at(chain[i] as int) == info.cluster_at(chain[i] as int));
    }
    assert forall|i: int| 0 <= i < chain.len() - 1 implies #[trigger] linked(
        volume,
        device,
        chain,
        i,
    ) by {
        assert(exfat_linked(info, device, chain, i));
        assert(volume.entry_at(chain[i] as int) == info.entry_at(chain[i] as int));
    }
    law_exfat_file_is_recovered(info, path, attr, set, device, chain, contents);
}

} // verus!
