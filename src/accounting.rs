use vstd::prelude::*;
use vstd::slice::slice_to_vec;
use vstd::string::StringSliceAdditionalSpecFns;

verus! {

/// Root of the control-group accounting hierarchy.
pub const ACCOUNTING_ROOT: &'static str = "/sys/fs/cgroup";

/// Directory under each subsystem that holds the runtime's containers.
pub const RUNTIME_NAMESPACE: &'static str = "docker";

/// The accounting files read for every monitored container.
#[derive(Clone, Copy, Debug, PartialEq, Eq)]
pub enum AccountingFile {
    CurrentPids,
    MaxPids,
    CpuStat,
    CpuacctStat,
    CpuacctUsage,
    CpuacctUsageSys,
    CpuacctUsageUser,
    CpuacctUsagePercpu,
    MemoryUsageInBytes,
    MemoryMaxUsageInBytes,
    MemoryLimitInBytes,
    MemorySoftLimitInBytes,
    MemoryFailcnt,
    MemoryStat,
    BlkioIoServiceBytes,
    BlkioIoServiced,
    BlkioIoServiceTime,
    BlkioIoQueued,
    BlkioIoWaitTime,
    BlkioIoMerged,
    BlkioTime,
    BlkioSectors,
}

impl AccountingFile {
    /// Subsystem directory and file name of this accounting file.
    pub fn location(self) -> (r: (&'static str, &'static str))
        ensures
            r.0@ == self.spec_location().0@,
            r.1@ == self.spec_location().1@,
    {
        match self {
            AccountingFile::CurrentPids => ("pids", "pids.current"),
            AccountingFile::MaxPids => ("pids", "pids.max"),
            AccountingFile::CpuStat => ("cpu", "cpu.stat"),
            AccountingFile::CpuacctStat => ("cpuacct", "cpuacct.stat"),
            AccountingFile::CpuacctUsage => ("cpuacct", "cpuacct.usage"),
            AccountingFile::CpuacctUsageSys => ("cpuacct", "cpuacct.usage_sys"),
            AccountingFile::CpuacctUsageUser => ("cpuacct", "cpuacct.usage_user"),
            AccountingFile::CpuacctUsagePercpu => ("cpuacct", "cpuacct.usage_percpu"),
            AccountingFile::MemoryUsageInBytes => ("memory", "memory.usage_in_bytes"),
            AccountingFile::MemoryMaxUsageInBytes => ("memory", "memory.max_usage_in_bytes"),
            AccountingFile::MemoryLimitInBytes => ("memory", "memory.limit_in_bytes"),
            AccountingFile::MemorySoftLimitInBytes => ("memory", "memory.soft_limit_in_bytes"),
            AccountingFile::MemoryFailcnt => ("memory", "memory.failcnt"),
            AccountingFile::MemoryStat => ("memory", "memory.stat"),
            AccountingFile::BlkioIoServiceBytes => ("blkio", "blkio.io_service_bytes_recursive"),
            AccountingFile::BlkioIoServiced => ("blkio", "blkio.io_serviced_recursive"),
            AccountingFile::BlkioIoServiceTime => ("blkio", "blkio.io_service_time_recursive"),
            AccountingFile::BlkioIoQueued => ("blkio", "blkio.io_queued_recursive"),
            AccountingFile::BlkioIoWaitTime => ("blkio", "blkio.io_wait_time_recursive"),
            AccountingFile::BlkioIoMerged => ("blkio", "blkio.io_merged_recursive"),
            AccountingFile::BlkioTime => ("blkio", "blkio.time_recursive"),
            AccountingFile::BlkioSectors => ("blkio", "blkio.sectors_recursive"),
        }
    }

    /// Subsystem directory and file name of this accounting file.
    pub open spec fn spec_location(self) -> (&'static str, &'static str) {
        match self {
            AccountingFile::CurrentPids => ("pids", "pids.current"),
            AccountingFile::MaxPids => ("pids", "pids.max"),
            AccountingFile::CpuStat => ("cpu", "cpu.stat"),
            AccountingFile::CpuacctStat => ("cpuacct", "cpuacct.stat"),
            AccountingFile::CpuacctUsage => ("cpuacct", "cpuacct.usage"),
            AccountingFile::CpuacctUsageSys => ("cpuacct", "cpuacct.usage_sys"),
            AccountingFile::CpuacctUsageUser => ("cpuacct", "cpuacct.usage_user"),
            AccountingFile::CpuacctUsagePercpu => ("cpuacct", "cpuacct.usage_percpu"),
            AccountingFile::MemoryUsageInBytes => ("memory", "memory.usage_in_bytes"),
            AccountingFile::MemoryMaxUsageInBytes => ("memory", "memory.max_usage_in_bytes"),
            AccountingFile::MemoryLimitInBytes => ("memory", "memory.limit_in_bytes"),
            AccountingFile::MemorySoftLimitInBytes => ("memory", "memory.soft_limit_in_bytes"),
            AccountingFile::MemoryFailcnt => ("memory", "memory.failcnt"),
            AccountingFile::MemoryStat => ("memory", "memory.stat"),
            AccountingFile::BlkioIoServiceBytes => ("blkio", "blkio.io_service_bytes_recursive"),
            AccountingFile::BlkioIoServiced => ("blkio", "blkio.io_serviced_recursive"),
            AccountingFile::BlkioIoServiceTime => ("blkio", "blkio.io_service_time_recursive"),
            AccountingFile::BlkioIoQueued => ("blkio", "blkio.io_queued_recursive"),
            AccountingFile::BlkioIoWaitTime => ("blkio", "blkio.io_wait_time_recursive"),
            AccountingFile::BlkioIoMerged => ("blkio", "blkio.io_merged_recursive"),
            AccountingFile::BlkioTime => ("blkio", "blkio.time_recursive"),
            AccountingFile::BlkioSectors => ("blkio", "blkio.sectors_recursive"),
        }
    }
}

/// Path of accounting file `file` for the container with identifier `id`:
/// `<root>/<subsystem>/<namespace>/<id>/<file>`, as bytes.
pub open spec fn accounting_path_bytes(id: Seq<u8>, file: AccountingFile) -> Seq<u8> {
    ACCOUNTING_ROOT.spec_bytes() + seq![47u8] + file.spec_location().0.spec_bytes() + seq![47u8]
        + RUNTIME_NAMESPACE.spec_bytes() + seq![47u8] + id + seq![47u8]
        + file.spec_location().1.spec_bytes()
}

fn append_bytes(dest: &mut Vec<u8>, bytes: &[u8])
    ensures
        final(dest)@ == old(dest)@ + bytes@,
{
    let mut tail = slice_to_vec(bytes);
    dest.append(&mut tail);
}

/// Builds the path of one accounting file of a container.
pub fn accounting_path(id: &str, file: AccountingFile) -> (r: Vec<u8>)
    ensures
        r@ == accounting_path_bytes(id.spec_bytes(), file),
{
    let (subsystem, name) = file.location();
    let mut path: Vec<u8> = Vec::new();
    append_bytes(&mut path, ACCOUNTING_ROOT.as_bytes());
    path.push(47u8);
    append_bytes(&mut path, subsystem.as_bytes());
    path.push(47u8);
    append_bytes(&mut path, RUNTIME_NAMESPACE.as_bytes());
    path.push(47u8);
    append_bytes(&mut path, id.as_bytes());
    path.push(47u8);
    append_bytes(&mut path, name.as_bytes());
    path
}

} // verus!
