# recovery

Finds deleted files on raw FAT32, exFAT, NTFS and ext2/3/4 volumes and restores them from FAT32,
exFAT and NTFS. `src/` is a library written in Verus: what it does is stated in contracts and
proved. `app/` is the command-line program around it, which opens devices, reads, prints and writes.

## How the library works

Nothing in `src/` reads a device. Scans and restores are tasks (`walk.rs`) that are suspended
whenever they need bytes: a task says which read it waits for, takes the answer, and hands out
results and further tasks. `Walk` carries a task out. What a task yields on a device as a whole is
the spec function `visit`, and `walk_laws.rs` proves that a walk ends with exactly that.

| Module | What it holds |
|--------|---------------|
| `bytes`, `text` | little-endian numbers, UTF-16, search, numbers in text |
| `walk`, `walk_laws`, `reach_laws` | tasks, walks, and what they yield |
| `embed` | tasks of one kind taken for tasks of another |
| `sectors` | reads in whole sectors |
| `fat`, `fat_entry` | FAT32 and exFAT geometry, directory entries and names |
| `fat_scan`, `exfat_scan`, `fat_restore` | their scans, and restoring along a cluster chain |
| `ntfs`, `ntfs_runs` | NTFS geometry, attributes, names, paths and data runs |
| `ntfs_scan`, `ntfs_restore`, `ntfs_laws` | the scan of the master file table, restoring along runs |
| `ext`, `ext_scan` | ext geometry and directory scan |
| `volume` | recognizing a volume and scanning it, whatever its kind |
| `disk`, `gpt`, `disk_scan`, `disk_laws` | partition tables and the scan of whole disks |
| `scan_laws` | which files a directory hands out |
| `cli`, `table` | arguments, filters, decisions and the table of results |

## What is taken on trust

Six functions of the standard library are relied on without proof; all stand at the top of
`text.rs` with what is claimed of them: `String::push`, `char::from_u32`, `str::to_lowercase`,
`str::to_uppercase`, `String::from_utf8_lossy` and `char::is_alphanumeric`.

## Inputs that a function does not take

Some damaged volumes state values that cannot be computed with, such as an address beyond 64 bits.
Each function that cannot take such a value says so in its `requires`, and beside it stands a
function that tells (`check_fat32_layout`, `is_addressable`, `can_take` and so on). The program
asks first; data that cannot be taken counts as unreadable, and what was found before is kept.
