//! Configuration of the store.
//!
//! The core consumes, but does not own, this configuration: where the
//! hierarchy lives, the permission bits the writer applies, the rotation
//! threshold in megabytes, the record width flag, and the device to read.
//! Every field has a default, and the store works given only defaults.
//! Loading the file these values come from is I/O and lives outside the
//! crate.

use vstd::prelude::*;

verus! {

/// How and where captured data is stored.
pub struct StorageConfig {
    /// Root of the date-partitioned hierarchy.
    pub base_directory: String,
    /// Permission bits applied to every day directory on each open.
    pub directory_permissions: u32,
    /// Permission bits applied to every chunk file after creation.
    pub file_permissions: u32,
    /// Size threshold per chunk, in megabytes.
    pub max_file_size_mb: u64,
    /// Write 4-byte records `[button, dx, dy, 0]` instead of 3-byte ones.
    pub store_4_bytes: bool,
    /// Device to capture from.
    pub device_path: String,
}

/// Top-level configuration.
pub struct Config {
    pub storage: StorageConfig,
}

/// Default root of the hierarchy.
pub fn default_base_directory() -> (r: String)
    ensures
        r@ == "data"@,
{
    "data".to_owned()
}

/// Default day-directory permission bits: owner only, since captured
/// device data must not be world-readable.
pub fn default_dir_permissions() -> (r: u32)
    ensures
        r == 0o700,
{
    0o700
}

/// Default chunk-file permission bits: owner only.
pub fn default_file_permissions() -> (r: u32)
    ensures
        r == 0o600,
{
    0o600
}

/// Default size threshold per chunk, in megabytes.
pub fn default_max_file_size_mb() -> (r: u64)
    ensures
        r == 2,
{
    2
}

/// Default capture device.
pub fn default_device_path() -> (r: String)
    ensures
        r@ == "/dev/input/mice"@,
{
    "/dev/input/mice".to_owned()
}

impl Default for StorageConfig {
    /// All defaults: `data` under the working directory, owner-only
    /// permissions, 2 MB chunks, 3-byte records, the usual mouse device.
    fn default() -> (r: Self)
        ensures
            r.base_directory@ == "data"@,
            r.directory_permissions == 0o700,
            r.file_permissions == 0o600,
            r.max_file_size_mb == 2,
            r.store_4_bytes == false,
            r.device_path@ == "/dev/input/mice"@,
    {
        StorageConfig {
            base_directory: default_base_directory(),
            directory_permissions: default_dir_permissions(),
            file_permissions: default_file_permissions(),
            max_file_size_mb: default_max_file_size_mb(),
            store_4_bytes: false,
            device_path: default_device_path(),
        }
    }
}

impl Default for Config {
    /// A configuration holding all storage defaults.
    fn default() -> (r: Self)
        ensures
            r.storage.base_directory@ == "data"@,
            r.storage.directory_permissions == 0o700,
            r.storage.file_permissions == 0o600,
            r.storage.max_file_size_mb == 2,
            r.storage.store_4_bytes == false,
            r.storage.device_path@ == "/dev/input/mice"@,
    {
        Config { storage: StorageConfig::default() }
    }
}

} // verus!
