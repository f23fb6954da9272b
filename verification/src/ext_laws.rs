//! What the bytes of an ext volume say: where the inode of a directory is, which blocks it names,
//! and which entries in them are deleted.

use vstd::prelude::*;
use vstd::arithmetic::div_mod::lemma_fundamental_div_mod_converse;

use crate::ext::ExtInfo;
use crate::ext_scan::{
    cleaned, dots, entry_len, entry_name, entry_there, first_blocks, inode_blocks, kept,
    ExtDirModel,
};
use crate::fat_laws::law_sub_path;
use crate::reach_laws::{hands_out, leads_to};
use crate::scan_laws::{
    entry_from, ext_deleted_entry, ext_reads, law_ext_deleted_entry_is_handed_out,
    law_ext_subdirectory_is_entered,
};
use crate::stored::{
    law_stored_u16_is_read_back, law_stored_u32_is_read_back, stores_u16, stores_u32,
};
use crate::text::{alphanumeric, utf8_lossy};
use crate::types::FileModel;
use crate::walk::{Device, Failure, TaskModel};

verus! {

// ---------------------------------------------------------------------------------------------
// From the number of an inode to its blocks
// ---------------------------------------------------------------------------------------------

/// A directory is looked for in the group and at the place in its table that the number of its inode
/// gives: inodes are numbered from one, group after group. The descriptor of the group is read, then
/// the whole inode out of the table, then each block in turn.
pub proof fn law_ext_directory_reads(dir: ExtDirModel, group: int, index: int)
    requires
        dir.info.addressable(),
        dir.inode >= 1,
        dir.inode - 1 == group * dir.info.inodes_per_group + index,
        0 <= group,
        0 <= index < dir.info.inodes_per_group,
    ensures
        dir.step is Group ==> dir.wants() is Some && dir.wants()->0.offset == dir.info.group_at(
            group,
        ) && dir.wants()->0.len == 12,
        dir.step is Inode ==> dir.wants() is Some && dir.wants()->0.offset == dir.info.inode_at(
            dir.table as int,
            index,
        ) && dir.wants()->0.len == dir.info.inode_size,
        dir.step is Block ==> dir.wants() is Some && dir.wants()->0.offset == dir.info.block_at(
            dir.blocks[0] as int,
        ) && dir.wants()->0.len == dir.info.block_size,
        dir.step is Ended ==> dir.wants() is None,
{
    let n = dir.info.inodes_per_group as int;
    lemma_fundamental_div_mod_converse(dir.inode - 1, n, group, index);
    assert(group <= dir.inode - 1) by (nonlinear_arith)
        requires
            dir.inode - 1 == group * n + index,
            0 <= group,
            0 <= index,
            n >= 1,
    ;
    dir.info.law_addressable(group as u32, index as u32);
    dir.info.law_addressable(dir.table, index as u32);
    dir.info.law_addressable(dir.blocks[0], 0);
}

/// The scan of a directory begins with the descriptor of its group.
pub proof fn law_ext_directory_begins(info: ExtInfo, inode: u32, path: Seq<char>, root: bool)
    ensures
        ({
            let dir = ExtDirModel::open(info, inode, path, root);
            &&& dir.info == info && dir.inode == inode && dir.path == path && dir.root == root
            &&& dir.step is Group
        }),
{
}

/// The table of inodes is where the group descriptor stores it, in the four bytes at 8; a group
/// without one has no inodes. A directory whose inode cannot be found ends, and for the root
/// directory that is a failure.
pub proof fn law_inode_table_is_read_back(dir: ExtDirModel, descriptor: Seq<u8>, table: int)
    requires
        dir.step is Group,
        stores_u32(descriptor, 8, table),
    ensures
        ({
            let next = dir.next(Some(descriptor));
            &&& table != 0 ==> next.step is Inode && next.table == table && next.info == dir.info
                && next.inode == dir.inode && next.path == dir.path && next.root == dir.root
            &&& table == 0 ==> next.wants() is None && next.status() == if dir.root {
                Err::<(), Failure>(Failure::RootInode)
            } else {
                Ok(())
            }
        }),
{
    law_stored_u32_is_read_back(descriptor, 8, table);
}

/// A directory of which the descriptor or the inode cannot be read ends, and for the root directory
/// that is a failure. A block that cannot be read is passed over, but in the root directory it is a
/// failure that names its place.
pub proof fn law_unreadable_parts_of_a_directory(dir: ExtDirModel)
    ensures
        dir.step is Group || dir.step is Inode ==> dir.next(None).wants() is None && dir.next(
            None,
        ).status() == if dir.root {
            Err::<(), Failure>(Failure::RootInode)
        } else {
            Ok(())
        },
        dir.step is Block && dir.root ==> dir.next(None).wants() is None && dir.next(None).status()
            == Err::<(), Failure>(Failure::Unreadable { offset: dir.wants()->0.offset }),
        dir.step is Block && !dir.root ==> dir.next(None) == dir.reading(dir.blocks.drop_first()),
        dir.pieces(None).len() == 0,
{
}

/// Blocks are read one after another, in their order, and behind the last the directory ends.
pub proof fn law_blocks_are_read_in_order(dir: ExtDirModel, blocks: Seq<u32>, data: Seq<u8>)
    ensures
        blocks.len() > 0 ==> dir.reading(blocks).step is Block && dir.reading(blocks).blocks
            == blocks && dir.reading(blocks).path == dir.path && dir.reading(blocks).info
            == dir.info && dir.reading(blocks).root == dir.root,
        blocks.len() == 0 ==> dir.reading(blocks).wants() is None && dir.reading(blocks).status()
            == Ok::<(), Failure>(()),
        dir.step is Block ==> dir.next(Some(data)) == dir.reading(dir.blocks.drop_first()),
        dir.step is Inode ==> dir.next(Some(data)) == dir.reading(inode_blocks(data)),
{
}

/// Whether an inode stores these fifteen block numbers.
pub open spec fn stores_blocks(inode: Seq<u8>, blocks: Seq<u32>) -> bool {
    &&& inode.len() >= 0x64
    &&& blocks.len() == 15
    &&& forall|k: int|
        0 <= k < 15 ==> stores_u32(inode, 0x28 + 4 * k, #[trigger] blocks[k] as int)
}

proof fn lemma_first_blocks(inode: Seq<u8>, blocks: Seq<u32>, n: nat)
    requires
        stores_blocks(inode, blocks),
        n <= 15,
    ensures
        first_blocks(inode, n) == blocks.take(n as int).filter(|b: u32| b != 0),
    decreases n,
{
    reveal(Seq::filter);
    if n > 0 {
        lemma_first_blocks(inode, blocks, (n - 1) as nat);
        let k = n - 1;
        assert(stores_u32(inode, 0x28 + 4 * k, blocks[k] as int));
        law_stored_u32_is_read_back(inode, 0x28 + 4 * k, blocks[k] as int);
        assert(blocks.take(n as int).drop_last() =~= blocks.take(k));
        assert(blocks.take(n as int).last() == blocks[k]);
    } else {
        assert(blocks.take(0) =~= seq![]);
    }
}

/// The blocks of a directory are those that its inode stores, in order, but for the numbers that are
/// zero.
pub proof fn law_inode_blocks_are_read_back(inode: Seq<u8>, blocks: Seq<u32>)
    requires
        stores_blocks(inode, blocks),
    ensures
        inode_blocks(inode) == blocks.filter(|b: u32| b != 0),
{
    lemma_first_blocks(inode, blocks, 15);
    assert(blocks.take(15) =~= blocks);
}

// ---------------------------------------------------------------------------------------------
// The entries of a block
// ---------------------------------------------------------------------------------------------

/// Whether a directory entry is stored at `pos`: the number of its inode, its own length, the length
/// of its name, its type, and then the name.
pub open spec fn stores_entry(
    data: Seq<u8>,
    pos: int,
    inode: int,
    len: int,
    kind: u8,
    name: Seq<u8>,
) -> bool {
    &&& 0 <= pos
    &&& pos + 8 <= data.len()
    &&& stores_u32(data, pos, inode)
    &&& stores_u16(data, pos + 4, len)
    &&& 8 <= len
    &&& pos + len <= data.len()
    &&& data[pos + 6] == name.len()
    &&& data[pos + 7] == kind
    &&& pos + 8 + name.len() <= data.len()
    &&& data.subrange(pos + 8, pos + 8 + name.len()) == name
}

/// An entry is read back as it is stored: its length and its name. One without a name has none.
pub proof fn law_ext_entry_is_read_back(
    data: Seq<u8>,
    pos: int,
    inode: int,
    len: int,
    kind: u8,
    name: Seq<u8>,
)
    requires
        stores_entry(data, pos, inode, len, kind, name),
    ensures
        entry_there(data, pos),
        entry_len(data, pos) == len,
        name.len() > 0 ==> entry_name(data, pos) == Some(utf8_lossy(name)),
        name.len() == 0 ==> entry_name(data, pos) is None,
{
    law_stored_u16_is_read_back(data, pos + 4, len);
}

/// There is no entry where the block has no room for one, or where the length that is stored is less
/// than the fixed part or reaches beyond the block.
pub proof fn law_ext_entries_end(data: Seq<u8>, pos: int, len: int)
    requires
        0 <= pos,
        pos + 8 > data.len() || stores_u16(data, pos + 4, len) && (len < 8 || pos + len
            > data.len()),
    ensures
        !entry_there(data, pos),
{
    if pos + 8 <= data.len() {
        law_stored_u16_is_read_back(data, pos + 4, len);
    }
}

/// Entries follow one another from the beginning of the block, each where the one before ends.
pub proof fn law_next_ext_entry(
    data: Seq<u8>,
    from: int,
    pos: int,
    inode: int,
    len: int,
    kind: u8,
    name: Seq<u8>,
)
    requires
        from == pos || entry_from(data, from, pos),
        stores_entry(data, pos, inode, len, kind, name),
    ensures
        entry_from(data, from, pos),
        entry_there(data, pos + len) ==> entry_from(data, from, pos + len),
    decreases data.len() - from,
{
    law_ext_entry_is_read_back(data, pos, inode, len, kind, name);
    if from != pos {
        let to = from + entry_len(data, from);
        law_next_ext_entry(data, to, pos, inode, len, kind, name);
    } else {
        assert(entry_there(data, pos + len) ==> entry_from(data, pos + len, pos + len));
    }
}

/// What is kept of a name: letters and digits, the punctuation of ASCII and blanks, each in its
/// place; nothing else.
pub proof fn law_names_are_cleaned(name: Seq<char>, c: char)
    ensures
        cleaned(seq![]) == Seq::<char>::empty(),
        cleaned(name.push(c)) == if alphanumeric(c) || c == ' ' || 0x21 <= c as u32 <= 0x2F || 0x3A
            <= c as u32 <= 0x40 || 0x5B <= c as u32 <= 0x60 || 0x7B <= c as u32 <= 0x7E {
            cleaned(name).push(c)
        } else {
            cleaned(name)
        },
{
    reveal(Seq::filter);
    let all = name.push(c);
    assert(all.drop_last() =~= name);
    assert(all.last() == c);
    assert(kept(c, alphanumeric(c)) <==> alphanumeric(c) || c == ' ' || 0x21 <= c as u32 <= 0x2F
        || 0x3A <= c as u32 <= 0x40 || 0x5B <= c as u32 <= 0x60 || 0x7B <= c as u32 <= 0x7E);
    assert(cleaned(seq![]) =~= Seq::<char>::empty());
}

/// The two names that stand for a directory itself and its parent.
pub proof fn law_dots(name: Seq<char>)
    ensures
        dots(name) <==> name == seq!['.'] || name == seq!['.', '.'],
{
    reveal_strlit(".");
    reveal_strlit("..");
    assert("."@ =~= seq!['.']);
    assert(".."@ =~= seq!['.', '.']);
}

/// A deleted entry, which is one whose inode number is zero, is handed out under what is kept of its
/// name, unless nothing is, or only dots: with the path of the directory, and with neither size nor
/// address.
pub proof fn law_deleted_ext_entry_is_reported(
    dir: ExtDirModel,
    device: Device,
    data: Seq<u8>,
    pos: int,
    len: int,
    kind: u8,
    name: Seq<u8>,
)
    requires
        ext_reads(dir, device, data),
        entry_from(data, 0, pos),
        stores_entry(data, pos, 0, len, kind, name),
        name.len() > 0,
        cleaned(utf8_lossy(name)).len() > 0,
        cleaned(utf8_lossy(name)) != seq!['.'],
        cleaned(utf8_lossy(name)) != seq!['.', '.'],
    ensures
        hands_out(
            dir,
            device,
            FileModel {
                name: cleaned(utf8_lossy(name)),
                size: 0,
                start_address: 0,
                fs_type: "ext4"@,
                path: dir.path,
                is_directory: false,
                resident_data: None,
                data_runs: seq![],
            },
        ),
{
    law_ext_entry_is_read_back(data, pos, 0, len, kind, name);
    law_stored_u32_is_read_back(data, pos, 0);
    law_dots(cleaned(utf8_lossy(name)));
    assert(ext_deleted_entry(data, pos, cleaned(utf8_lossy(name))));
    law_ext_deleted_entry_is_handed_out(dir, device, data, pos, cleaned(utf8_lossy(name)));
}

/// An entry that is there and is that of a subdirectory, other than the directory itself and its
/// parent, leads to the scan of that directory, from its inode and under its name behind the path.
pub proof fn law_ext_directory_is_entered(
    dir: ExtDirModel,
    device: Device,
    data: Seq<u8>,
    pos: int,
    inode: int,
    len: int,
    name: Seq<u8>,
)
    requires
        ext_reads(dir, device, data),
        entry_from(data, 0, pos),
        inode != 0,
        stores_entry(data, pos, inode, len, 2, name),
        name.len() > 0,
        utf8_lossy(name) != seq!['.'],
        utf8_lossy(name) != seq!['.', '.'],
    ensures
        leads_to(
            dir,
            device,
            ExtDirModel::open(
                dir.info,
                inode as u32,
                if dir.path.len() == 0 {
                    utf8_lossy(name)
                } else {
                    dir.path + seq!['/'] + utf8_lossy(name)
                },
                false,
            ),
        ),
{
    law_ext_entry_is_read_back(data, pos, inode, len, 2, name);
    law_stored_u32_is_read_back(data, pos, inode);
    law_dots(utf8_lossy(name));
    law_sub_path(dir.path, utf8_lossy(name));
    law_ext_subdirectory_is_entered(dir, device, data, pos);
}

/// A block hands out one piece at most for each entry, in the order of the entries: a file for a
/// deleted one, a scan for a subdirectory that is there, and nothing for other entries.
pub proof fn law_one_piece_for_an_ext_entry(
    dir: ExtDirModel,
    data: Seq<u8>,
    pos: int,
    inode: int,
    len: int,
    kind: u8,
    name: Seq<u8>,
)
    requires
        stores_entry(data, pos, inode, len, kind, name),
    ensures
        ({
            let own = dir.entry_pieces(data, pos);
            &&& dir.listing(data, pos) == own + dir.listing(data, pos + len)
            &&& own.len() <= 1
            &&& own.len() == 1 ==> (own[0] is Emit <==> inode == 0)
            &&& name.len() == 0 ==> own.len() == 0
            &&& inode != 0 && kind != 2 ==> own.len() == 0
        }),
{
    law_ext_entry_is_read_back(data, pos, inode, len, kind, name);
    law_stored_u32_is_read_back(data, pos, inode);
}

} // verus!
