//! The configuration of a VM as the VMM takes it.

use crate::net::MacAddress;
use vstd::prelude::*;

verus! {

pub struct ConsoleConfig {
    pub mode: &'static str,
    pub file: Option<String>,
}

pub struct DiskConfig {
    pub path: String,
    pub readonly: bool,
}

pub struct FsConfig {
    pub socket: String,
    pub tag: &'static str,
}

pub struct GpuConfig {
    pub socket: String,
}

pub struct NetConfig {
    pub vhost_user: bool,
    pub vhost_socket: String,
    pub id: String,
    pub mac: MacAddress,
}

pub struct MemoryConfig {
    pub size: i64,
    pub shared: bool,
}

pub struct PayloadConfig {
    pub kernel: String,
    pub cmdline: &'static str,
}

pub struct VsockConfig {
    pub cid: u32,
    pub socket: String,
}

pub struct LandlockConfig {
    pub path: &'static str,
    pub access: &'static str,
}

pub struct VmConfig {
    pub console: ConsoleConfig,
    pub disks: Vec<DiskConfig>,
    pub fs: [FsConfig; 1],
    pub gpu: Vec<GpuConfig>,
    pub memory: MemoryConfig,
    pub net: Vec<NetConfig>,
    pub payload: PayloadConfig,
    pub serial: ConsoleConfig,
    pub vsock: VsockConfig,
    pub landlock_enable: bool,
    pub landlock_rules: Vec<LandlockConfig>,
}

} // verus!
