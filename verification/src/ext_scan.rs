//! The scan of an ext volume: each directory is found by its inode and read block by block.

use vstd::prelude::*;
use crate::bytes::{le_u16, le_u32, read_u16_le, read_u32_le};
use crate::ext::ExtInfo;
use crate::fat_scan::{join_path, sub_path};
use crate::text::{
    alphanumeric, ascii_punctuation, from_utf8_lossy, is_alphanumeric, is_ascii_punctuation,
    same_text, utf8_lossy,
};
use crate::types::{DeletedFile, FileModel};
use crate::walk::{
    all_valid, answer, piece_models, reversed, Failure, Modelled, Piece, Request, Status, Task,
    TaskModel, Walk, WalkModel,
};

verus! {

/// The inode of the root directory.
pub const EXT2_ROOT_INODE: u32 = 2;

/// The type byte of a directory's entry.
pub const DIRECTORY_TYPE: u8 = 2;

// ---------------------------------------------------------------------------------------------
// Inodes
// ---------------------------------------------------------------------------------------------

/// The blocks that the first `n` block numbers of an inode name; zero names none.
pub open spec fn first_blocks(inode: Seq<u8>, n: nat) -> Seq<u32>
    decreases n,
{
    if n == 0 {
        seq![]
    } else {
        let block = le_u32(inode, 0x28 + 4 * (n - 1)) as u32;
        let before = first_blocks(inode, (n - 1) as nat);
        if block != 0 {
            before.push(block)
        } else {
            before
        }
    }
}

/// The blocks that the fifteen block numbers of an inode name; none where it is too short to hold
/// them.
pub open spec fn inode_blocks(inode: Seq<u8>) -> Seq<u32> {
    if inode.len() < 0x64 {
        seq![]
    } else {
        first_blocks(inode, 15)
    }
}

/// The blocks that an inode names.
pub fn get_inode_blocks(inode: &[u8]) -> (blocks: Vec<u32>)
    ensures
        blocks@ == inode_blocks(inode@),
{
    let mut blocks: Vec<u32> = Vec::new();
    if inode.len() < 0x64 {
        return blocks;
    }
    let mut i: usize = 0;
    while i < 15
        invariant
            inode@.len() >= 0x64,
            i <= 15,
            blocks@ == first_blocks(inode@, i as nat),
        decreases 15 - i,
    {
        let block: u32 = read_u32_le(inode, 0x28 + i * 4);
        if block != 0 {
            blocks.push(block);
        }
        i = i + 1;
    }
    blocks
}

// ---------------------------------------------------------------------------------------------
// The entries of a block
// ---------------------------------------------------------------------------------------------

/// The length of the entry at `pos`.
pub open spec fn entry_len(data: Seq<u8>, pos: int) -> int {
    le_u16(data, pos + 4)
}

/// Whether there is an entry at `pos`: it has room for its head and lies within the block.
pub open spec fn entry_there(data: Seq<u8>, pos: int) -> bool {
    0 <= pos && pos + 8 <= data.len() && entry_len(data, pos) >= 8 && pos + entry_len(data, pos)
        <= data.len()
}

/// The name of the entry at `pos`, where it has one that lies within the block.
pub open spec fn entry_name(data: Seq<u8>, pos: int) -> Option<Seq<char>> {
    let len = data[pos + 6] as int;
    if len != 0 && pos + 8 + len <= data.len() {
        Some(utf8_lossy(data.subrange(pos + 8, pos + 8 + len)))
    } else {
        None
    }
}

/// Whether a character of a deleted entry's name is kept, given whether it is a letter or a digit.
pub open spec fn kept(c: char, letter_or_digit: bool) -> bool {
    letter_or_digit || ascii_punctuation(c) || c == ' '
}

/// Tells whether a character of a deleted entry's name is kept, given whether it is a letter or a
/// digit.
pub fn is_kept(c: char, letter_or_digit: bool) -> (answer: bool)
    ensures
        answer == kept(c, letter_or_digit),
{
    letter_or_digit || is_ascii_punctuation(c) || c == ' '
}

/// The characters that are kept of a deleted entry's name: letters, digits, ASCII punctuation and
/// blanks.
pub open spec fn cleaned(name: Seq<char>) -> Seq<char> {
    name.filter(|c: char| kept(c, alphanumeric(c)))
}

/// The characters that are kept of a deleted entry's name.
pub fn clean_name(name: &str) -> (clean: String)
    ensures
        clean@ == cleaned(name@),
{
    let ghost keep = |c: char| kept(c, alphanumeric(c));
    let mut clean = String::new();
    assert(name@.take(0).filter(keep) =~= seq![]) by {
        assert(name@.take(0) =~= seq![]);
        reveal(Seq::filter);
    }
    for c in it: name.chars()
        invariant
            it.seq() == name@,
            keep == |c: char| kept(c, alphanumeric(c)),
            clean@ == name@.take(it.index()).filter(keep),
    {
        proof {
            let now = name@.take(it.index() + 1);
            assert(now.drop_last() =~= name@.take(it.index()));
            assert(now.last() == c);
            reveal(Seq::filter);
        }
        if is_kept(c, is_alphanumeric(c)) {
            clean.push(c);
        }
    }
    assert(name@.take(name@.len() as int) =~= name@);
    clean
}

/// Whether a name is one that every directory has for itself or for its parent.
pub open spec fn dots(name: Seq<char>) -> bool {
    name == "."@ || name == ".."@
}

fn is_dots(name: &str) -> (answer: bool)
    ensures
        answer == dots(name@),
{
    same_text(name, ".") || same_text(name, "..")
}

/// The deleted file of this name.
pub open spec fn deleted_ext_file(path: Seq<char>, name: Seq<char>) -> FileModel {
    FileModel {
        name,
        size: 0,
        start_address: 0,
        fs_type: "ext4"@,
        path,
        is_directory: false,
        resident_data: None,
        data_runs: seq![],
    }
}

// ---------------------------------------------------------------------------------------------
// A directory
// ---------------------------------------------------------------------------------------------

/// What a directory waits for.
#[derive(Debug, Clone, Copy)]
pub enum ExtStep {
    /// The descriptor of the group of its inode.
    Group,
    /// Its inode.
    Inode,
    /// The next of its blocks.
    Block,
    /// Nothing: it has ended.
    Ended(Status),
}

/// A directory being scanned, as contracts speak of it.
pub struct ExtDirModel {
    pub info: ExtInfo,
    pub inode: u32,
    pub path: Seq<char>,
    /// Whether this is the root directory, whose failures are those of the scan.
    pub root: bool,
    /// The block in which the inode table begins.
    pub table: u32,
    /// The blocks that are still to be read.
    pub blocks: Seq<u32>,
    pub step: ExtStep,
}

impl ExtDirModel {
    /// The scan of the directory with this inode.
    pub open spec fn open(info: ExtInfo, inode: u32, path: Seq<char>, root: bool) -> Self {
        ExtDirModel { info, inode, path, root, table: 0, blocks: seq![], step: ExtStep::Group }
    }

    /// The directory whose inode cannot be had.
    pub open spec fn lost(self) -> Self {
        ExtDirModel {
            step: ExtStep::Ended(
                if self.root {
                    Err(Failure::RootInode)
                } else {
                    Ok(())
                },
            ),
            ..self
        }
    }

    /// The directory with these blocks still to be read.
    pub open spec fn reading(self, blocks: Seq<u32>) -> Self {
        ExtDirModel {
            blocks,
            step: if blocks.len() == 0 {
                ExtStep::Ended(Ok(()))
            } else {
                ExtStep::Block
            },
            ..self
        }
    }

    /// What the directory has of an entry with this name: the file of a deleted entry, whose inode
    /// is zero; the scan of a subdirectory.
    pub open spec fn named_pieces(self, inode: u32, kind: u8, name: Seq<char>) -> Seq<
        Piece<Self, FileModel>,
    > {
        if inode == 0 {
            let clean = cleaned(name);
            if clean.len() == 0 || dots(clean) {
                seq![]
            } else {
                seq![Piece::Emit(deleted_ext_file(self.path, clean))]
            }
        } else if !dots(name) && kind == DIRECTORY_TYPE {
            seq![
                Piece::Enter(
                    ExtDirModel::open(self.info, inode, sub_path(self.path, name), false),
                ),
            ]
        } else {
            seq![]
        }
    }

    /// What the directory has of the entry at `pos`.
    pub open spec fn entry_pieces(self, data: Seq<u8>, pos: int) -> Seq<Piece<Self, FileModel>> {
        match entry_name(data, pos) {
            Some(name) => self.named_pieces(le_u32(data, pos) as u32, data[pos + 7], name),
            None => seq![],
        }
    }

    /// What the directory has of the entries from `pos` on.
    pub open spec fn listing(self, data: Seq<u8>, pos: int) -> Seq<Piece<Self, FileModel>>
        decreases data.len() - pos,
    {
        if entry_there(data, pos) {
            self.entry_pieces(data, pos) + self.listing(data, pos + entry_len(data, pos))
        } else {
            seq![]
        }
    }
}

impl TaskModel for ExtDirModel {
    type Out = FileModel;

    open spec fn wants(self) -> Option<Request> {
        let group = (self.inode - 1) / self.info.inodes_per_group as int;
        let index = (self.inode - 1) % self.info.inodes_per_group as int;
        match self.step {
            ExtStep::Group => Some(
                Request { offset: self.info.group_at(group) as u64, len: 12 },
            ),
            ExtStep::Inode => Some(
                Request {
                    offset: self.info.inode_at(self.table as int, index) as u64,
                    len: self.info.inode_size as usize,
                },
            ),
            ExtStep::Block => Some(
                Request {
                    offset: self.info.block_at(self.blocks[0] as int) as u64,
                    len: self.info.block_size as usize,
                },
            ),
            ExtStep::Ended(_) => None,
        }
    }

    open spec fn pieces(self, reply: Option<Seq<u8>>) -> Seq<Piece<Self, FileModel>> {
        match (self.step, reply) {
            (ExtStep::Block, Some(data)) => self.listing(data, 0),
            _ => seq![],
        }
    }

    open spec fn next(self, reply: Option<Seq<u8>>) -> Self {
        match (self.step, reply) {
            (ExtStep::Group, Some(descriptor)) => {
                let table = le_u32(descriptor, 8) as u32;
                if table == 0 {
                    self.lost()
                } else {
                    ExtDirModel { table, step: ExtStep::Inode, ..self }
                }
            },
            (ExtStep::Inode, Some(inode)) => self.reading(inode_blocks(inode)),
            (ExtStep::Block, Some(_)) => self.reading(self.blocks.drop_first()),
            (ExtStep::Block, None) => if self.root {
                ExtDirModel {
                    step: ExtStep::Ended(
                        Err(Failure::Unreadable { offset: self.wants()->0.offset }),
                    ),
                    ..self
                }
            } else {
                self.reading(self.blocks.drop_first())
            },
            _ => self.lost(),
        }
    }

    open spec fn status(self) -> Status {
        match self.step {
            ExtStep::Ended(status) => status,
            _ => Ok(()),
        }
    }

    open spec fn valid(self) -> bool {
        &&& self.info.addressable()
        &&& self.inode >= 1
        &&& self.step is Block ==> self.blocks.len() > 0
    }

    open spec fn accepts(self, reply: Option<Seq<u8>>) -> bool {
        true
    }
}

/// A directory of an ext volume being scanned.
pub struct ExtDir {
    info: ExtInfo,
    inode: u32,
    path: String,
    root: bool,
    table: u32,
    /// The blocks that are still to be read, in reverse order.
    blocks: Vec<u32>,
    step: ExtStep,
}

impl Modelled for ExtDir {
    type Model = ExtDirModel;

    type Output = DeletedFile;

    closed spec fn model(self) -> ExtDirModel {
        ExtDirModel {
            info: self.info,
            inode: self.inode,
            path: self.path@,
            root: self.root,
            table: self.table,
            blocks: self.blocks@.reverse(),
            step: self.step,
        }
    }

    open spec fn output(out: DeletedFile) -> FileModel {
        out@
    }
}

impl ExtDir {
    /// Begins the scan of the directory with this inode.
    pub fn open(info: ExtInfo, inode: u32, path: String, root: bool) -> (dir: ExtDir)
        ensures
            dir.model() == ExtDirModel::open(info, inode, path@, root),
    {
        let dir = ExtDir {
            info,
            inode,
            path,
            root,
            table: 0,
            blocks: Vec::new(),
            step: ExtStep::Group,
        };
        assert(dir.model().blocks =~= seq![]);
        dir
    }

    /// Takes in an entry with this name.
    pub fn take_named(
        &self,
        inode: u32,
        kind: u8,
        name: &str,
        pieces: &mut Vec<Piece<ExtDir, DeletedFile>>,
    )
        ensures
            piece_models::<ExtDir>(final(pieces)@) == piece_models::<ExtDir>(old(pieces)@)
                + self.model().named_pieces(inode, kind, name@),
    {
        let ghost had = pieces@;
        let ghost model = self.model();
        if inode == 0 {
            let clean = clean_name(name);
            if !clean.as_str().is_empty() && !is_dots(clean.as_str()) {
                let file = DeletedFile {
                    name: clean,
                    size: 0,
                    start_address: 0,
                    fs_type: "ext4".to_owned(),
                    path: self.path.clone(),
                    is_directory: false,
                    resident_data: None,
                    data_runs: Vec::new(),
                };
                assert(file@.data_runs =~= seq![]);
                pieces.push(Piece::Emit(file));
            }
        } else if !is_dots(name) && kind == DIRECTORY_TYPE {
            let path = join_path(self.path.as_str(), name);
            pieces.push(Piece::Enter(ExtDir::open(self.info, inode, path, false)));
        }
        assert(piece_models::<ExtDir>(pieces@) =~= piece_models::<ExtDir>(had)
            + model.named_pieces(inode, kind, name@));
    }

    /// Takes in the entries of a block.
    fn take_block(&self, data: &[u8]) -> (pieces: Vec<Piece<ExtDir, DeletedFile>>)
        requires
            self.info.addressable(),
        ensures
            piece_models::<ExtDir>(pieces@) == self.model().listing(data@, 0),
            all_valid(self.model().listing(data@, 0)),
    {
        let ghost model = self.model();
        let size: usize = data.len();
        let mut pieces: Vec<Piece<ExtDir, DeletedFile>> = Vec::new();
        let mut pos: usize = 0;
        let mut go_on: bool = true;
        assert(piece_models::<ExtDir>(pieces@) =~= seq![]);
        while go_on && 8 <= size - pos
            invariant
                model == self.model(),
                model.info.addressable(),
                size == data@.len(),
                pos <= size,
                go_on ==> piece_models::<ExtDir>(pieces@) + model.listing(data@, pos as int)
                    =~= model.listing(data@, 0),
                !go_on ==> piece_models::<ExtDir>(pieces@) =~= model.listing(data@, 0),
                all_valid(piece_models::<ExtDir>(pieces@)),
            decreases size - pos + (if go_on { 1int } else { 0 }),
        {
            let len: usize = read_u16_le(data, pos + 4) as usize;
            if len < 8 || len > size - pos {
                go_on = false;
            } else {
                let n: usize = data[pos + 6] as usize;
                let ghost had = piece_models::<ExtDir>(pieces@);
                if n != 0 && n <= size - pos - 8 {
                    let name = from_utf8_lossy(
                        vstd::slice::slice_subrange(data, pos + 8, pos + 8 + n),
                    );
                    let inode: u32 = read_u32_le(data, pos);
                    self.take_named(inode, data[pos + 7], name.as_str(), &mut pieces);
                }
                let ghost more = model.entry_pieces(data@, pos as int);
                assert(piece_models::<ExtDir>(pieces@) =~= had + more);
                pos = pos + len;
            }
        }
        assert(go_on ==> model.listing(data@, pos as int) =~= seq![]);
        pieces
    }

    fn lose(&mut self)
        ensures
            final(self).model() == old(self).model().lost(),
    {
        self.step = ExtStep::Ended(
            if self.root {
                Err(Failure::RootInode)
            } else {
                Ok(())
            },
        );
    }

    /// Goes on to the next of the blocks.
    fn next_block(&mut self)
        requires
            old(self).model().blocks.len() > 0,
        ensures
            final(self).model() == old(self).model().reading(
                old(self).model().blocks.drop_first(),
            ),
    {
        self.blocks.pop();
        assert(self.model().blocks =~= old(self).model().blocks.drop_first());
        self.step = if self.blocks.len() == 0 {
            ExtStep::Ended(Ok(()))
        } else {
            ExtStep::Block
        };
    }
}

impl Task for ExtDir {
    fn wants(&self) -> (request: Option<Request>) {
        let group: u32 = (self.inode - 1) / self.info.inodes_per_group;
        let index: u32 = (self.inode - 1) % self.info.inodes_per_group;
        match self.step {
            ExtStep::Group => {
                proof {
                    self.info.law_addressable(group, 0);
                }
                Some(
                    Request {
                        offset: self.info.partition_offset + self.info.bgdt_block
                            * self.info.block_size as u64 + group as u64 * 32,
                        len: 12,
                    },
                )
            },
            ExtStep::Inode => {
                proof {
                    self.info.law_addressable(self.table, index);
                }
                Some(
                    Request {
                        offset: self.info.partition_offset + self.table as u64
                            * self.info.block_size as u64 + index as u64
                            * self.info.inode_size as u64,
                        len: self.info.inode_size as usize,
                    },
                )
            },
            ExtStep::Block => {
                let block: u32 = self.blocks[self.blocks.len() - 1];
                proof {
                    self.info.law_addressable(block, 0);
                }
                Some(
                    Request {
                        offset: self.info.partition_offset + block as u64
                            * self.info.block_size as u64,
                        len: self.info.block_size as usize,
                    },
                )
            },
            ExtStep::Ended(_) => None,
        }
    }

    fn status(&self) -> (status: Status) {
        match self.step {
            ExtStep::Ended(status) => status,
            _ => Ok(()),
        }
    }

    fn can_take(&self, reply: Option<&[u8]>) -> (takes: bool) {
        true
    }

    fn resume(self, reply: Option<&[u8]>) -> (turn: (Vec<Piece<Self, DeletedFile>>, Self)) {
        let ghost model = self.model();
        let request = self.wants();
        let mut dir = self;
        let mut pieces: Vec<Piece<ExtDir, DeletedFile>> = Vec::new();
        assert(piece_models::<ExtDir>(pieces@) =~= seq![]);
        match (dir.step, reply) {
            (ExtStep::Group, Some(descriptor)) => {
                let table: u32 = read_u32_le(descriptor, 8);
                if table == 0 {
                    dir.lose();
                } else {
                    dir.table = table;
                    dir.step = ExtStep::Inode;
                }
            },
            (ExtStep::Inode, Some(inode)) => {
                dir.blocks = reversed(get_inode_blocks(inode));
                assert(dir.model().blocks =~= inode_blocks(inode@));
                dir.step = if dir.blocks.len() == 0 {
                    ExtStep::Ended(Ok(()))
                } else {
                    ExtStep::Block
                };
            },
            (ExtStep::Block, Some(data)) => {
                pieces = dir.take_block(data);
                dir.next_block();
            },
            (ExtStep::Block, None) => {
                if dir.root {
                    match request {
                        Some(r) => {
                            dir.step = ExtStep::Ended(
                                Err(Failure::Unreadable { offset: r.offset }),
                            );
                        },
                        None => {},
                    }
                } else {
                    dir.next_block();
                }
            },
            _ => {
                dir.lose();
            },
        }
        (pieces, dir)
    }
}

/// Begins the scan of a volume at its root directory.
pub fn scan(info: &ExtInfo) -> (walk: Walk<ExtDir>)
    requires
        info.addressable(),
    ensures
        walk.model() == WalkModel::start(
            ExtDirModel::open(*info, EXT2_ROOT_INODE, Seq::empty(), true),
        ),
        walk.model().valid(),
{
    Walk::start(ExtDir::open(*info, EXT2_ROOT_INODE, String::new(), true))
}

} // verus!
