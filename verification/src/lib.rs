//! Recovery of deleted files from raw FAT32, exFAT, NTFS and ext volumes.

pub mod bytes;
pub mod cli;
pub mod cli_laws;
pub mod disk;
pub mod disk_laws;
pub mod disk_scan;
pub mod embed;
pub mod exfat_laws;
pub mod exfat_scan;
pub mod ext;
pub mod ext_laws;
pub mod ext_scan;
pub mod fat;
pub mod fat_entry;
pub mod fat_laws;
pub mod fat_restore;
pub mod fat_scan;
pub mod gpt;
pub mod layout_laws;
pub mod ntfs;
pub mod ntfs_laws;
pub mod ntfs_record_laws;
pub mod ntfs_restore;
pub mod ntfs_runs;
pub mod ntfs_scan;
pub mod partition_laws;
pub mod reach_laws;
pub mod scan_laws;
pub mod sectors;
pub mod stored;
pub mod table;
pub mod table_laws;
pub mod text;
pub mod text_laws;
pub mod types;
pub mod volume;
pub mod walk;
pub mod walk_laws;
