//! What the bytes of an NTFS file record say: its attributes, the name and the parent directory, the
//! size of the contents, and where they are.

use vstd::prelude::*;
use crate::ntfs::{
    attributes, attributes_from, data_size, directory_path, file_name, name_readable, resident_data,
    units_at, way_up, NameModel, NtfsInfo,
};
use crate::ntfs_laws::{deleted_record, unnamed_data_at};
use crate::ntfs_restore::{cluster_len, restore_plan, NtfsPlanModel, NtfsRestoreModel};
use crate::ntfs_runs::{
    data_runs, law_narrow_runs_are_decodable, law_stored_runs_are_read_back, narrow_from,
    runs_decodable, runs_fit, stored_runs,
};
use crate::ntfs_scan::{
    blank, cluster_count, cluster_offset, contents_attribute, contents_runs, data_consulted,
    deleted_ntfs_file, directory_readable, directory_record, dirs_after, file_readable, file_record,
    first_name, in_use, last_name,
};
use crate::stored::{
    law_stored_u16_is_read_back, law_stored_u32_is_read_back, law_stored_u64_is_read_back,
    law_tag_is_recognized, stores_bytes, stores_u16, stores_u32, stores_u64,
};
use crate::text::{decimal, joined, law_utf16_recovers, utf16_encode};
use crate::types::FileModel;
use crate::walk::{Failure, TaskModel};

verus! {

// ---------------------------------------------------------------------------------------------
// Records
// ---------------------------------------------------------------------------------------------

/// A record begins with the four letters FILE; the lowest two bits of its flags, in byte 22, tell
/// whether it is in use and whether it is that of a directory. A blank record is all zeros.
pub proof fn law_record_marks(record: Seq<u8>)
    ensures
        file_record(record) <==> stores_bytes(record, 0, seq![0x46u8, 0x49, 0x4C, 0x45]),
        in_use(record) <==> record[22] as int % 2 == 1,
        directory_record(record) <==> record[22] as int % 4 >= 2,
        deleted_record(record) <==> file_record(record) && record[22] as int % 2 == 0,
        blank(record) <==> record == Seq::new(record.len(), |i: int| 0u8),
{
    reveal_strlit("FILE");
    law_tag_is_recognized(record, 0, "FILE"@);
    assert("FILE"@.map_values(|c: char| c as u8) =~= seq![0x46u8, 0x49, 0x4C, 0x45]);
    if blank(record) {
        assert(record =~= Seq::new(record.len(), |i: int| 0u8));
    }
    if record == Seq::new(record.len(), |i: int| 0u8) {
        assert forall|i: int| 0 <= i < record.len() implies record[i] == 0 by {
            assert(Seq::new(record.len(), |i: int| 0u8)[i] == 0);
        }
    }
}

/// Whether attributes are stored one behind another from `at` on: each with its type and its length
/// in its first eight bytes; and behind the last the record ends, or an end mark stands, or a length
/// that is none or reaches beyond the record.
pub open spec fn stores_attributes(
    record: Seq<u8>,
    at: int,
    attrs: Seq<(u32, Seq<u8>)>,
) -> bool
    decreases attrs.len(),
{
    if attrs.len() == 0 {
        ||| at + 8 > record.len()
        ||| stores_u32(record, at, 0xFFFF_FFFF)
        ||| stores_u32(record, at + 4, 0)
        ||| exists|len: int| #[trigger]
            stores_u32(record, at + 4, len) && at + len > record.len()
    } else {
        let (kind, bytes) = attrs[0];
        &&& bytes.len() >= 8
        &&& at + bytes.len() <= record.len()
        &&& record.subrange(at, at + bytes.len()) == bytes
        &&& kind != 0xFFFF_FFFF
        &&& stores_u32(record, at, kind as int)
        &&& stores_u32(record, at + 4, bytes.len() as int)
        &&& stores_attributes(record, at + bytes.len(), attrs.drop_first())
    }
}

proof fn lemma_attributes(record: Seq<u8>, at: int, attrs: Seq<(u32, Seq<u8>)>)
    requires
        0 <= at,
        stores_attributes(record, at, attrs),
    ensures
        attributes_from(record, at) == attrs,
    decreases attrs.len(),
{
    if attrs.len() == 0 {
        if at + 8 <= record.len() {
            if stores_u32(record, at, 0xFFFF_FFFF) {
                law_stored_u32_is_read_back(record, at, 0xFFFF_FFFF);
            } else if stores_u32(record, at + 4, 0) {
                law_stored_u32_is_read_back(record, at + 4, 0);
            } else {
                let len = choose|len: int| #[trigger]
                    stores_u32(record, at + 4, len) && at + len > record.len();
                law_stored_u32_is_read_back(record, at + 4, len);
            }
        }
        assert(attributes_from(record, at) =~= attrs);
    } else {
        let (kind, bytes) = attrs[0];
        law_stored_u32_is_read_back(record, at, kind as int);
        law_stored_u32_is_read_back(record, at + 4, bytes.len() as int);
        lemma_attributes(record, at + bytes.len(), attrs.drop_first());
        assert(seq![attrs[0]] + attrs.drop_first() =~= attrs);
    }
}

/// The attributes of a record are those that are stored from the place on that its header states, in
/// the two bytes at 20.
pub proof fn law_attributes_are_read_back(record: Seq<u8>, at: int, attrs: Seq<(u32, Seq<u8>)>)
    requires
        stores_u16(record, 20, at),
        stores_attributes(record, at, attrs),
    ensures
        attributes(record) == attrs,
{
    law_stored_u16_is_read_back(record, 20, at);
    lemma_attributes(record, at, attrs);
}

// ---------------------------------------------------------------------------------------------
// Names
// ---------------------------------------------------------------------------------------------

/// Whether an attribute is resident and has its value, of `len` bytes, at `at`.
pub open spec fn stores_value(attr: Seq<u8>, at: int, len: int) -> bool {
    &&& attr.len() >= 24
    &&& attr[8] == 0
    &&& stores_u32(attr, 16, len)
    &&& stores_u16(attr, 20, at)
}

/// Whether the value of an attribute at `at` is a file name: the number of the parent's record in
/// six bytes, and from byte 58 on the name, whose length stands in byte 56.
pub open spec fn stores_file_name(attr: Seq<u8>, at: int, name: Seq<char>, parent: int) -> bool {
    let units = utf16_encode(name);
    &&& 0 <= parent < 0x1_0000_0000_0000
    &&& stores_u32(attr, at, parent % 0x1_0000_0000)
    &&& stores_u16(attr, at + 4, parent / 0x1_0000_0000)
    &&& 0 < units.len()
    &&& attr[at + 56] == units.len()
    &&& at + 58 + 2 * units.len() <= attr.len()
    &&& forall|i: int|
        0 <= i < units.len() ==> stores_u16(attr, at + 58 + 2 * i, #[trigger] units[i] as int)
}

/// The name and the parent directory that an attribute stores are read back.
pub proof fn law_file_name_is_read_back(
    attr: Seq<u8>,
    at: int,
    len: int,
    name: Seq<char>,
    parent: int,
)
    requires
        stores_value(attr, at, len),
        at + len <= attr.len(),
        stores_file_name(attr, at, name, parent),
    ensures
        file_name(attr) == Some(NameModel { name, parent_ref: parent as u64 }),
{
    let units = utf16_encode(name);
    law_stored_u32_is_read_back(attr, 16, len);
    law_stored_u16_is_read_back(attr, 20, at);
    law_stored_u32_is_read_back(attr, at, parent % 0x1_0000_0000);
    law_stored_u16_is_read_back(attr, at + 4, parent / 0x1_0000_0000);
    assert forall|i: int| 0 <= i < units.len() implies #[trigger] units_at(
        attr,
        at + 58,
        units.len(),
    )[i] == units[i] by {
        assert(stores_u16(attr, at + 58 + 2 * i, units[i] as int));
        law_stored_u16_is_read_back(attr, at + 58 + 2 * i, units[i] as int);
    }
    assert(units_at(attr, at + 58, units.len()) =~= units);
    law_utf16_recovers(name);
}

/// An attribute that is not resident, whose value reaches beyond it, or that states a name without
/// characters or one that reaches beyond it, gives no name.
pub proof fn law_other_attributes_give_no_name(attr: Seq<u8>, at: int, len: int)
    requires
        stores_u32(attr, 16, len),
        stores_u16(attr, 20, at),
        attr.len() < 24 || attr[8] != 0 || at + len > attr.len() || attr[at + 56] == 0 || at + 58
            + 2 * attr[at + 56] > attr.len(),
    ensures
        file_name(attr) is None,
{
    law_stored_u32_is_read_back(attr, 16, len);
    law_stored_u16_is_read_back(attr, 20, at);
}

/// The name of a deleted file is that of the first attribute of type 0x30 which gives one.
pub proof fn law_first_name_is_taken(attrs: Seq<(u32, Seq<u8>)>, k: int)
    requires
        0 <= k < attrs.len(),
        attrs[k].0 == 0x30,
        file_name(attrs[k].1) is Some,
        forall|j: int|
            0 <= j < k ==> (#[trigger] attrs[j]).0 != 0x30 || file_name(attrs[j].1) is None,
    ensures
        first_name(attrs) == file_name(attrs[k].1),
    decreases attrs.len(),
{
    let rest = attrs.drop_last();
    if k < attrs.len() - 1 {
        assert forall|j: int| 0 <= j < k implies (#[trigger] rest[j]).0 != 0x30 || file_name(
            rest[j].1,
        ) is None by {
            assert(attrs[j].0 != 0x30 || file_name(attrs[j].1) is None);
        }
        law_first_name_is_taken(rest, k);
    } else {
        assert forall|j: int| 0 <= j < rest.len() implies (#[trigger] rest[j]).0 != 0x30
            || file_name(rest[j].1) is None by {
            assert(attrs[j].0 != 0x30 || file_name(attrs[j].1) is None);
        }
        law_no_name(rest);
    }
}

/// Where no attribute of type 0x30 gives a name, there is none.
pub proof fn law_no_name(attrs: Seq<(u32, Seq<u8>)>)
    requires
        forall|j: int|
            0 <= j < attrs.len() ==> (#[trigger] attrs[j]).0 != 0x30 || file_name(attrs[j].1)
                is None,
    ensures
        first_name(attrs) is None,
        last_name(attrs) is None,
    decreases attrs.len(),
{
    if attrs.len() > 0 {
        let rest = attrs.drop_last();
        assert forall|j: int| 0 <= j < rest.len() implies (#[trigger] rest[j]).0 != 0x30
            || file_name(rest[j].1) is None by {
            assert(attrs[j].0 != 0x30 || file_name(attrs[j].1) is None);
        }
        law_no_name(rest);
        assert(attrs[attrs.len() - 1].0 != 0x30 || file_name(attrs[attrs.len() - 1].1) is None);
    }
}

/// The name of a directory is that of the last attribute of type 0x30 which gives one.
pub proof fn law_last_name_is_taken(attrs: Seq<(u32, Seq<u8>)>, k: int)
    requires
        0 <= k < attrs.len(),
        attrs[k].0 == 0x30,
        file_name(attrs[k].1) is Some,
        forall|j: int|
            k < j < attrs.len() ==> (#[trigger] attrs[j]).0 != 0x30 || file_name(attrs[j].1)
                is None,
    ensures
        last_name(attrs) == file_name(attrs[k].1),
    decreases attrs.len(),
{
    if k < attrs.len() - 1 {
        let rest = attrs.drop_last();
        assert forall|j: int| k < j < rest.len() implies (#[trigger] rest[j]).0 != 0x30
            || file_name(rest[j].1) is None by {
            assert(attrs[j].0 != 0x30 || file_name(attrs[j].1) is None);
        }
        law_last_name_is_taken(rest, k);
        assert(attrs[attrs.len() - 1].0 != 0x30 || file_name(attrs[attrs.len() - 1].1) is None);
    }
}

// ---------------------------------------------------------------------------------------------
// Contents
// ---------------------------------------------------------------------------------------------

/// An attribute with a zero in byte 9, the length of its name, has no name; data attributes are
/// those of type 0x80.
pub proof fn law_unnamed_attributes(attrs: Seq<(u32, Seq<u8>)>, k: int)
    requires
        attrs[k].1.len() > 9,
    ensures
        unnamed_data_at(attrs, k) <==> attrs[k].0 == 0x80 && attrs[k].1[9] == 0,
{
}

/// The size of contents outside the record is the one that the attribute stores, in the eight bytes
/// at 48, whatever stands in its other bytes; the size of contents in the record is that of the
/// value.
pub proof fn law_size_is_read_back(attr: Seq<u8>, n: int, at: int)
    ensures
        attr.len() >= 64 && attr[8] != 0 && stores_u64(attr, 48, n) ==> data_size(attr) == n,
        stores_value(attr, at, n) ==> data_size(attr) == n,
        attr.len() < 24 ==> data_size(attr) == 0,
        attr.len() < 64 && attr[8] != 0 ==> data_size(attr) == 0,
{
    if stores_u64(attr, 48, n) {
        law_stored_u64_is_read_back(attr, 48, n);
    }
    if stores_value(attr, at, n) {
        law_stored_u32_is_read_back(attr, 16, n);
    }
}

/// The size that is reported of a deleted file is the one that the attribute with its contents stores
/// in the eight bytes at 48, whatever stands in the other bytes of the attribute.
pub proof fn law_stored_size_is_reported(
    info: NtfsInfo,
    dirs: Map<u64, NameModel>,
    index: u64,
    record: Seq<u8>,
    attr: Seq<u8>,
    n: int,
)
    requires
        contents_attribute(attributes(record)) == Some(attr),
        attr.len() >= 64,
        attr[8] != 0,
        stores_u64(attr, 48, n),
    ensures
        deleted_ntfs_file(info, dirs, index, record).size == n,
{
    law_size_is_read_back(attr, n, 0);
}

/// Contents in the record are the bytes of the value, as many as are stated from where they begin;
/// there are none where the value is empty, reaches beyond the attribute, or is not in the record.
pub proof fn law_resident_contents_are_read_back(
    before: Seq<u8>,
    value: Seq<u8>,
    after: Seq<u8>,
    attr: Seq<u8>,
)
    requires
        attr == before + value + after,
        stores_u16(attr, 20, before.len() as int),
        stores_u32(attr, 16, value.len() as int),
        attr.len() >= 24,
    ensures
        resident_data(attr) == if attr[8] == 0 && value.len() > 0 {
            Some(value)
        } else {
            None
        },
{
    law_stored_u16_is_read_back(attr, 20, before.len() as int);
    law_stored_u32_is_read_back(attr, 16, value.len() as int);
    assert(attr.subrange(before.len() as int, (before.len() + value.len()) as int) =~= value);
}

/// A value that reaches beyond the attribute is not read.
pub proof fn law_broken_values_are_not_read(attr: Seq<u8>, at: int, len: int)
    requires
        stores_value(attr, at, len),
        at + len > attr.len(),
    ensures
        resident_data(attr) is None,
{
    law_stored_u16_is_read_back(attr, 20, at);
    law_stored_u32_is_read_back(attr, 16, len);
}

/// The runs of contents outside the record are those that are stored from the place on that the
/// attribute states, in the two bytes at 32, as far as they lie in the volume. Contents in the
/// record have none.
pub proof fn law_runs_are_read_back(
    before: Seq<u8>,
    after: Seq<u8>,
    attr: Seq<u8>,
    runs: Seq<(u64, u64)>,
    widths: Seq<(nat, nat)>,
    max_clusters: u64,
)
    requires
        attr == before + stored_runs(runs, widths, 0) + seq![0u8] + after,
        attr.len() >= 64,
        stores_u16(attr, 32, before.len() as int),
        runs_fit(runs, widths, 0, max_clusters),
    ensures
        data_runs(attr, max_clusters) == if attr[8] != 0 {
            runs
        } else {
            seq![]
        },
{
    law_stored_u16_is_read_back(attr, 32, before.len() as int);
    law_stored_runs_are_read_back(before, after, runs, widths, 0, max_clusters);
}

/// What is reported of a deleted record is what its attributes say: the first name, and the size and
/// the place of its contents. A record without a name is called after its number, and is taken to
/// have been in the root directory.
pub proof fn law_deleted_file_is_what_the_record_says(
    info: NtfsInfo,
    dirs: Map<u64, NameModel>,
    index: u64,
    record: Seq<u8>,
    attr: Seq<u8>,
)
    requires
        contents_attribute(attributes(record)) == Some(attr),
    ensures
        ({
            let file = deleted_ntfs_file(info, dirs, index, record);
            let runs = data_runs(attr, cluster_count(info));
            &&& first_name(attributes(record)) matches Some(name) ==> file.name == name.name
                && file.path == directory_path(dirs, name.parent_ref)
            &&& first_name(attributes(record)) is None ==> file.name == "MFT_RECORD_"@ + decimal(
                index as nat,
            ) && file.path == directory_path(dirs, 5)
            &&& file.size == data_size(attr)
            &&& file.data_runs == runs
            &&& runs.len() > 0 && cluster_offset(info, runs[0].0 as int) <= u64::MAX
                ==> file.start_address == cluster_offset(info, runs[0].0 as int)
                && file.resident_data is None
            &&& runs.len() == 0 ==> file.start_address == 0
            &&& runs.len() == 0 && data_size(attr) > 0 ==> file.resident_data == resident_data(attr)
            &&& file.is_directory <==> record[22] as int % 4 >= 2
            &&& file.fs_type == "NTFS"@
        }),
{
    if data_runs(attr, cluster_count(info)).len() > 0 {
        let c = data_runs(attr, cluster_count(info))[0].0 as int;
        let (b, s) = (info.bytes_per_sector as int, info.sectors_per_cluster as int);
        assert(0 <= c * b * s) by (nonlinear_arith)
            requires
                0 <= c,
                0 <= b,
                0 <= s,
        ;
    }
}

/// A record without contents is reported with neither size nor address.
pub proof fn law_deleted_file_without_contents(
    info: NtfsInfo,
    dirs: Map<u64, NameModel>,
    index: u64,
    record: Seq<u8>,
)
    requires
        contents_attribute(attributes(record)) is None,
    ensures
        ({
            let file = deleted_ntfs_file(info, dirs, index, record);
            &&& file.size == 0
            &&& file.start_address == 0
            &&& file.data_runs.len() == 0
            &&& file.resident_data is None
        }),
{
}

// ---------------------------------------------------------------------------------------------
// Directories
// ---------------------------------------------------------------------------------------------

/// The root directory, record 5, and what is in no directory that is known have no path.
pub proof fn law_root_has_no_path(dirs: Map<u64, NameModel>, record: u64)
    requires
        dirs.dom().finite(),
        record == 5 || record == 0 || !dirs.contains_key(record),
    ensures
        directory_path(dirs, record).len() == 0,
{
    assert(way_up(dirs, record, Set::empty()) =~= seq![]);
    assert(way_up(dirs, record, Set::empty()).reverse() =~= seq![]);
}

/// A directory in a directory in the root has the path of both names, with a slash between.
pub proof fn law_path_of_two_names(dirs: Map<u64, NameModel>, outer: u64, inner: u64)
    requires
        dirs.dom().finite(),
        dirs.contains_key(outer),
        dirs.contains_key(inner),
        outer != inner,
        outer != 5,
        outer != 0,
        inner != 5,
        inner != 0,
        dirs[inner].parent_ref == outer,
        dirs[outer].parent_ref == 5,
    ensures
        directory_path(dirs, outer) == dirs[outer].name,
        directory_path(dirs, inner) == dirs[outer].name + seq!['/'] + dirs[inner].name,
{
    reveal_with_fuel(way_up, 3);
    reveal_with_fuel(joined, 3);
    reveal_strlit("/");
    let up = way_up(dirs, outer, Set::empty());
    assert(up =~= seq![dirs[outer].name]);
    assert(up.reverse() =~= seq![dirs[outer].name]);
    let way = way_up(dirs, inner, Set::empty());
    assert(way =~= seq![dirs[inner].name, dirs[outer].name]);
    assert(way.reverse() =~= seq![dirs[outer].name, dirs[inner].name]);
    assert(way.reverse().drop_last() =~= seq![dirs[outer].name]);
    assert("/"@ =~= seq!['/']);
}

/// A record in use that is that of a directory makes its name and its parent known under its number;
/// every other record changes nothing.
pub proof fn law_directories_become_known(
    dirs: Map<u64, NameModel>,
    index: u64,
    record: Seq<u8>,
)
    ensures
        file_record(record) && record[22] as int % 4 == 3 ==> dirs_after(dirs, index, record) == (
        match last_name(attributes(record)) {
            Some(name) => dirs.insert(index, name),
            None => dirs,
        }),
        !file_record(record) || record[22] as int % 4 != 3 ==> dirs_after(dirs, index, record)
            == dirs,
{
}

/// A record whose names lie within their attributes, and whose runs have numbers of at most eight
/// and seven bytes, can be read, as that of a directory and as that of a file; so can one that is no
/// file record at all.
pub proof fn law_ordinary_records_are_read(info: NtfsInfo, record: Seq<u8>)
    requires
        record.len() >= 24,
        forall|k: int|
            0 <= k < attributes(record).len() && (#[trigger] attributes(record)[k]).0 == 0x30
                ==> attributes(record)[k].1.len() >= 24 && (attributes(record)[k].1[8] != 0 || exists|
                at: int,
            | #[trigger]
                stores_u16(attributes(record)[k].1, 20, at) && at + 6 <= attributes(
                    record,
                )[k].1.len()),
        forall|k: int|
            0 <= k < attributes(record).len() && (#[trigger] attributes(record)[k]).0 == 0x80
                ==> exists|at: int| #[trigger]
                stores_u16(attributes(record)[k].1, 32, at) && narrow_from(
                    attributes(record)[k].1,
                    at,
                ),
        contents_runs(info, attributes(record)).len() > 0 ==> cluster_offset(
            info,
            contents_runs(info, attributes(record))[0].0 as int,
        ) <= u64::MAX,
    ensures
        directory_readable(record),
        file_readable(info, record),
{
    let attrs = attributes(record);
    assert forall|k: int| 0 <= k < attrs.len() && (#[trigger] attrs[k]).0
        == 0x30 implies name_readable(attrs[k].1) by {
        if attrs[k].1[8] == 0 {
            let at = choose|at: int| #[trigger]
                stores_u16(attrs[k].1, 20, at) && at + 6 <= attrs[k].1.len();
            law_stored_u16_is_read_back(attrs[k].1, 20, at);
        }
    }
    assert forall|k: int| #[trigger] data_consulted(attrs, k) implies runs_decodable(
        attrs[k].1,
        cluster_count(info),
    ) by {
        assert(attrs[k].0 == 0x80);
        let at = choose|at: int| #[trigger]
            stores_u16(attrs[k].1, 32, at) && narrow_from(attrs[k].1, at);
        law_stored_u16_is_read_back(attrs[k].1, 32, at);
        law_narrow_runs_are_decodable(attrs[k].1, cluster_count(info));
    }
}

// ---------------------------------------------------------------------------------------------
// Restoring
// ---------------------------------------------------------------------------------------------

/// A restore that cannot read a cluster fails there, and writes nothing more.
pub proof fn law_ntfs_restore_fails_where_nothing_is_read(task: NtfsRestoreModel)
    requires
        task.wants() is Some,
    ensures
        task.next(None).wants() is None,
        task.next(None).status() == Err::<(), Failure>(
            Failure::Unreadable { offset: task.wants()->0.offset },
        ),
        task.next(None).remaining == task.remaining,
        task.pieces(None).len() == 0,
{
}

/// A restore writes contents that were in the record as they are, and otherwise follows the runs of
/// the file; where it has none, it reads on from the cluster of its address.
pub proof fn law_restore_plan(info: NtfsInfo, entry: FileModel, first: int, within: int)
    requires
        cluster_len(info) > 0,
        entry.start_address == first * cluster_len(info) + within,
        0 <= within < cluster_len(info),
        first >= 0,
    ensures
        entry.resident_data matches Some(data) ==> restore_plan(info, entry)
            == NtfsPlanModel::Whole(data),
        entry.resident_data is None ==> restore_plan(info, entry) is Clusters && {
            let task = restore_plan(info, entry)->Clusters_0;
            &&& task.cluster_len == cluster_len(info)
            &&& task.base == info.partition_offset
            &&& task.remaining == entry.size
            &&& entry.data_runs.len() > 0 ==> task.runs == entry.data_runs
            &&& entry.data_runs.len() == 0 && entry.size > 0 ==> task.runs.len() == 1
                && task.runs[0].0 == first && task.runs[0].1 == u64::MAX
        },
{
    let n = cluster_len(info);
    let (b, s) = (info.bytes_per_sector as int, info.sectors_per_cluster as int);
    assert(0 <= b * s <= 0xFFFF * 0xFF) by (nonlinear_arith)
        requires
            0 <= b <= 0xFFFF,
            0 <= s <= 0xFF,
    ;
    vstd::arithmetic::div_mod::lemma_fundamental_div_mod_converse(
        entry.start_address as int,
        n,
        first,
        within,
    );
    assert(first <= entry.start_address) by (nonlinear_arith)
        requires
            entry.start_address == first * n + within,
            n >= 1,
            first >= 0,
            within >= 0,
    ;
}

} // verus!
