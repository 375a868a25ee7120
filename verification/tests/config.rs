use std::path::PathBuf;

use mem_backend::snapshot::{
    default_sync_snapshot_files, HugePageConfig, MemBackendConfig, MemBackendType,
    SnapshotLoadHugePageConfig, SnapshotType,
};

#[test]
fn defaults() {
    assert_eq!(SnapshotType::default(), SnapshotType::Full);
    assert_eq!(
        SnapshotLoadHugePageConfig::default(),
        SnapshotLoadHugePageConfig::Snapshot
    );
    assert!(default_sync_snapshot_files());
}

#[test]
fn huge_pages_are_those_of_the_snapshot_unless_given() {
    for snapshot in [
        HugePageConfig::HostDefault,
        HugePageConfig::Transparent,
        HugePageConfig::Hugetlbfs2M,
    ] {
        assert_eq!(SnapshotLoadHugePageConfig::Snapshot.resolve(snapshot), snapshot);
        assert_eq!(
            SnapshotLoadHugePageConfig::HostDefault.resolve(snapshot),
            HugePageConfig::HostDefault
        );
        assert_eq!(
            SnapshotLoadHugePageConfig::Transparent.resolve(snapshot),
            HugePageConfig::Transparent
        );
        assert_eq!(
            SnapshotLoadHugePageConfig::Hugetlbfs2M.resolve(snapshot),
            HugePageConfig::Hugetlbfs2M
        );
    }
}

#[test]
fn backend_configurations_are_cloned_whole() {
    let config = MemBackendConfig {
        backend_path: PathBuf::from("/run/backend.sock"),
        backend_type: MemBackendType::SharedMemfd,
    };
    assert_eq!(config.clone(), config);
    assert_eq!(config.clone().backend_path, PathBuf::from("/run/backend.sock"));
}
