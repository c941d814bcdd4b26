use radvisor::accounting::{accounting_path, AccountingFile, ACCOUNTING_ROOT, RUNTIME_NAMESPACE};

#[test]
fn path_follows_hierarchy_layout() {
    let p = accounting_path("abc123", AccountingFile::CurrentPids);
    assert_eq!(p, b"/sys/fs/cgroup/pids/docker/abc123/pids.current".to_vec());
    let p = accounting_path("c0ffee", AccountingFile::BlkioSectors);
    assert_eq!(p, b"/sys/fs/cgroup/blkio/docker/c0ffee/blkio.sectors_recursive".to_vec());
    assert_eq!(ACCOUNTING_ROOT, "/sys/fs/cgroup");
    assert_eq!(RUNTIME_NAMESPACE, "docker");
}

#[test]
fn locations_name_subsystem_and_file() {
    assert_eq!(AccountingFile::CpuacctUsagePercpu.location(), ("cpuacct", "cpuacct.usage_percpu"));
    assert_eq!(AccountingFile::MemoryStat.location(), ("memory", "memory.stat"));
    assert_eq!(AccountingFile::CpuStat.location(), ("cpu", "cpu.stat"));
}
