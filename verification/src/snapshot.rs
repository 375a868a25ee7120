//! The configuration of snapshot creation and loading.

use std::path::PathBuf;

use vstd::prelude::*;

use crate::layout::SnapshotMemoryLayout;

verus! {

/// `std::path::PathBuf`, of which nothing is claimed: paths are carried, never looked into.
#[verifier::external_type_specification]
#[verifier::external_body]
pub struct ExPathBuf(PathBuf);

/// `PathBuf`'s `clone`, which gives the same path again.
pub assume_specification[ <PathBuf as Clone>::clone ](path: &PathBuf) -> (r: PathBuf)
    ensures
        r == *path,
;

/// The snapshot type options that are available when creating a new snapshot.
#[derive(Clone, Copy, Debug, PartialEq, Eq, Structural)]
pub enum SnapshotType {
    /// Diff snapshot.
    Diff,
    /// Full snapshot.
    Full,
}

impl Default for SnapshotType {
    fn default() -> (r: Self)
        ensures
            r == SnapshotType::Full,
    {
        SnapshotType::Full
    }
}

/// Specifies the method through which guest memory will get populated when resuming from a
/// snapshot.
#[derive(Clone, Copy, Debug, PartialEq, Eq, Structural)]
pub enum MemBackendType {
    /// Guest memory contents will be loaded from a file.
    File,
    /// Guest memory will be served through UFFD by a separate process.
    Uffd,
    /// Guest memory is shared with a separate process through a memfd. On restore the process
    /// also serves page faults through UFFD. This is also the only variant accepted at boot, where
    /// only the memfd is handed over.
    SharedMemfd,
}

/// Stores the configuration that will be used for creating a snapshot.
#[derive(Debug, PartialEq, Eq)]
pub struct CreateSnapshotParams {
    /// The type of snapshot to create. The default value is `Full`.
    pub snapshot_type: SnapshotType,
    /// Path to the file that will contain the microVM state.
    pub snapshot_path: PathBuf,
    /// Path to the file that will contain the guest memory. Mandatory unless a memory backend is
    /// attached to the microVM, in which case it must be absent.
    pub mem_file_path: Option<PathBuf>,
    /// Whether to fsync the snapshot state and guest memory files. Activated virtio-block devices
    /// are always fsync'd, independently of this.
    pub sync_snapshot_files: bool,
}

/// Default value for [`CreateSnapshotParams::sync_snapshot_files`].
pub fn default_sync_snapshot_files() -> (r: bool)
    ensures
        r,
{
    true
}

/// Allows for changing the mapping between tap devices and host devices during snapshot restore.
#[derive(Debug, PartialEq, Eq)]
pub struct NetworkOverride {
    /// The index of the interface to modify.
    pub iface_id: String,
    /// The new name of the interface to be assigned.
    pub host_dev_name: String,
}

/// Allows for changing the host UDS of the vsock backend during snapshot restore.
#[derive(Debug, PartialEq, Eq)]
pub struct VsockOverride {
    /// The path to the UDS that will be used for the vsock interface.
    pub uds_path: String,
}

/// The huge-page configuration of a microVM's guest memory.
#[derive(Clone, Copy, Debug, PartialEq, Eq, Structural)]
pub enum HugePageConfig {
    /// Use the host's default memory-mapping behavior.
    HostDefault,
    /// Advise the kernel to use transparent huge pages for guest memory.
    Transparent,
    /// Back guest memory by 2 MiB hugetlbfs pages.
    Hugetlbfs2M,
}

/// Selects the huge-page configuration to use when loading a snapshot.
#[derive(Clone, Copy, Debug, PartialEq, Eq, Structural)]
pub enum SnapshotLoadHugePageConfig {
    /// Reuse the huge-page configuration serialized in the snapshot.
    Snapshot,
    /// Use the host's default memory-mapping behavior.
    HostDefault,
    /// Advise the kernel to use transparent huge pages for guest memory.
    Transparent,
    /// Back guest memory by 2 MiB hugetlbfs pages.
    Hugetlbfs2M,
}

impl Default for SnapshotLoadHugePageConfig {
    fn default() -> (r: Self)
        ensures
            r == SnapshotLoadHugePageConfig::Snapshot,
    {
        SnapshotLoadHugePageConfig::Snapshot
    }
}

impl SnapshotLoadHugePageConfig {
    /// Resolves the configuration against the value serialized in the snapshot.
    pub fn resolve(self, snapshot: HugePageConfig) -> (r: HugePageConfig)
        ensures
            self is Snapshot ==> r == snapshot,
            self is HostDefault ==> r == HugePageConfig::HostDefault,
            self is Transparent ==> r == HugePageConfig::Transparent,
            self is Hugetlbfs2M ==> r == HugePageConfig::Hugetlbfs2M,
    {
        match self {
            SnapshotLoadHugePageConfig::Snapshot => snapshot,
            SnapshotLoadHugePageConfig::HostDefault => HugePageConfig::HostDefault,
            SnapshotLoadHugePageConfig::Transparent => HugePageConfig::Transparent,
            SnapshotLoadHugePageConfig::Hugetlbfs2M => HugePageConfig::Hugetlbfs2M,
        }
    }
}

/// Stores the configuration that will be used for loading a snapshot.
#[derive(Debug, PartialEq, Eq)]
pub struct LoadSnapshotParams {
    /// Path to the file that contains the microVM state to be loaded.
    pub snapshot_path: PathBuf,
    /// Specifies guest memory backend configuration.
    pub mem_backend: MemBackendConfig,
    /// Whether KVM dirty page tracking should be enabled, to space optimization of differential
    /// snapshots.
    pub track_dirty_pages: bool,
    /// When set to true, the vm is also resumed if the snapshot load is successful.
    pub resume_vm: bool,
    /// The network devices to override on load.
    pub network_overrides: Vec<NetworkOverride>,
    /// When set, the vsock backend UDS path will be overridden.
    pub vsock_override: Option<VsockOverride>,
    /// (x86_64 only) Whether kvmclock is advanced on restore by the wall-clock time elapsed since
    /// the snapshot was taken. Otherwise it resumes from where it was at snapshot time.
    pub clock_realtime: bool,
    /// Selects the huge-page configuration to use for the restored microVM.
    pub huge_pages: SnapshotLoadHugePageConfig,
}

/// Stores the configuration for loading a snapshot that is provided by the user.
#[derive(Debug)]
pub struct LoadSnapshotConfig {
    /// Path to the file that contains the microVM state to be loaded.
    pub snapshot_path: PathBuf,
    /// Path to the file that contains the guest memory to be loaded. To be used only if
    /// `mem_backend` is not specified.
    pub mem_file_path: Option<PathBuf>,
    /// Guest memory backend configuration. Is not to be used in conjunction with `mem_file_path`.
    /// None value is allowed only if `mem_file_path` is present.
    pub mem_backend: Option<MemBackendConfig>,
    /// Whether or not to enable KVM dirty page tracking. Deprecated: use `track_dirty_pages`.
    pub enable_diff_snapshots: bool,
    /// Whether KVM dirty page tracking should be enabled.
    pub track_dirty_pages: bool,
    /// Whether or not to resume the vm post snapshot load.
    pub resume_vm: bool,
    /// The network devices to override on load.
    pub network_overrides: Vec<NetworkOverride>,
    /// Whether or not to override the vsock backend UDS path.
    pub vsock_override: Option<VsockOverride>,
    /// (x86_64 only) Whether kvmclock is advanced on restore by the elapsed wall-clock time.
    pub clock_realtime: bool,
    /// Selects the huge-page configuration to use for the restored microVM.
    pub huge_pages: SnapshotLoadHugePageConfig,
}

/// Stores the configuration used for managing snapshot memory.
#[derive(Debug, PartialEq, Eq)]
pub struct MemBackendConfig {
    /// Path to the backend used to handle the guest memory.
    pub backend_path: PathBuf,
    /// Specifies the guest memory backend type.
    pub backend_type: MemBackendType,
}

impl Clone for MemBackendConfig {
    fn clone(&self) -> (r: Self)
        ensures
            r == *self,
    {
        MemBackendConfig {
            backend_path: self.backend_path.clone(),
            backend_type: self.backend_type,
        }
    }
}

/// The microVM state options.
#[derive(Debug)]
pub enum VmState {
    /// The microVM is paused, which means that we can create a snapshot of it.
    Paused,
    /// The microVM is resumed; this state should be set after we load a snapshot.
    Resumed,
}

/// Keeps the microVM state necessary in the snapshotting context.
#[derive(Debug)]
pub struct Vm {
    /// The microVM state, which can be `paused` or `resumed`.
    pub state: VmState,
}

/// The answer to a request that a snapshot be created, or that its dirty pages be named, when a
/// memory backend is attached.
#[derive(Clone, Debug, PartialEq, Eq)]
pub struct SnapshotMemoryResponse {
    /// The snapshot type, present only where a snapshot was created.
    pub snapshot_type: Option<SnapshotType>,
    /// The memory layout.
    pub memory: SnapshotMemoryLayout,
}

} // verus!
