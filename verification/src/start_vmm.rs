//! Puts together the configuration of a VM from its name and from what its
//! directory holds.

use crate::ch::{
    ConsoleConfig, DiskConfig, FsConfig, GpuConfig, LandlockConfig, MemoryConfig, NetConfig,
    PayloadConfig, VmConfig, VsockConfig,
};
use crate::net::MacAddress;
use vstd::prelude::*;
use vstd::string::StringExecFns;
use vstd::string::StringSliceAdditionalSpecFns;
use vstd::utf8::encode_utf8;

verus! {

/// Why a VM cannot be configured.
#[derive(Debug, Clone, Copy, PartialEq, Eq)]
pub enum ConfigError {
    /// The VM's name holds a colon, which sets a name apart from the
    /// backend it belongs to.
    ColonInName,
    /// The path of a disk image holds a comma.
    CommaInDiskPath,
    /// The name of a net provider holds a comma.
    CommaInProviderName,
}

impl ConfigError {
    /// The error in words.
    pub fn message(&self) -> (s: &'static str)
        ensures
            s@ == match *self {
                ConfigError::ColonInName => "VM name may not contain a colon"@,
                ConfigError::CommaInDiskPath => "illegal ',' character in path"@,
                ConfigError::CommaInProviderName => "illegal ',' character in net provider name"@,
            },
    {
        match self {
            ConfigError::ColonInName => "VM name may not contain a colon",
            ConfigError::CommaInDiskPath => "illegal ',' character in path",
            ConfigError::CommaInProviderName => "illegal ',' character in net provider name",
        }
    }
}

pub const COLON: u8 = 0x3a;

pub const COMMA: u8 = 0x2c;

/// Whether the UTF-8 form of `s` holds the byte `b`.
pub fn contains_byte(s: &str, b: u8) -> (r: bool)
    ensures
        r == s.spec_bytes().contains(b),
{
    let bytes = s.as_bytes();
    let mut i: usize = 0;
    while i < bytes.len()
        invariant
            i <= bytes@.len(),
            bytes@ == s.spec_bytes(),
            forall|j: int| 0 <= j < i ==> bytes@[j] != b,
        decreases bytes@.len() - i,
    {
        if bytes[i] == b {
            assert(s.spec_bytes()[i as int] == b);
            return true;
        }
        i += 1;
    }
    false
}

/// The ending of the name of a disk image: `.img`.
pub open spec fn image_suffix() -> Seq<u8> {
    seq![0x2eu8, 0x69u8, 0x6du8, 0x67u8]
}

/// Whether the file of this name is a disk image: the name ends in `.img`
/// and is more than that.
pub fn is_disk_image(file_name: &[u8]) -> (r: bool)
    ensures
        r == (file_name@.len() > 4 && file_name@.skip(file_name@.len() - 4) == image_suffix()),
{
    let n = file_name.len();
    if n <= 4 {
        return false;
    }
    let r = file_name[n - 4] == 0x2e && file_name[n - 3] == 0x69 && file_name[n - 2] == 0x6d
        && file_name[n - 1] == 0x67;
    proof {
        let end = file_name@.skip(n - 4);
        assert(end.len() == 4);
        assert(end[0] == file_name@[n - 4] && end[1] == file_name@[n - 3] && end[2]
            == file_name@[n - 2] && end[3] == file_name@[n - 1]);
        if r {
            assert(end =~= image_suffix());
        }
    }
    r
}

/// A VM's name must hold no colon.
pub fn check_vm_name(vm_name: &str) -> (r: Result<(), ConfigError>)
    ensures
        r == if vm_name.spec_bytes().contains(COLON) {
            Err::<(), ConfigError>(ConfigError::ColonInName)
        } else {
            Ok::<(), ConfigError>(())
        },
{
    if contains_byte(vm_name, COLON) {
        Err(ConfigError::ColonInName)
    } else {
        Ok(())
    }
}

/// The read-only disk for an image at `path`, which must hold no comma.
pub fn disk_config(path: String) -> (r: Result<DiskConfig, ConfigError>)
    ensures
        match r {
            Ok(disk) => !encode_utf8(path@).contains(COMMA) && disk.path@ == path@ && disk.readonly,
            Err(e) => encode_utf8(path@).contains(COMMA) && e == ConfigError::CommaInDiskPath,
        },
{
    if contains_byte(path.as_str(), COMMA) {
        Err(ConfigError::CommaInDiskPath)
    } else {
        Ok(DiskConfig { path, readonly: true })
    }
}


/// Where the router listens for the app VMs of a net provider.
pub open spec fn router_socket(provider_name: Seq<char>) -> Seq<char> {
    "/run/vm/by-name/"@ + provider_name + "/router-app.sock"@
}

/// The network device that connects a VM to the provider `provider_name`,
/// whose name must hold no comma. `vm_name_hash` is a hash of the VM's name,
/// from which the device's address is made.
pub fn net_config(provider_name: String, vm_name_hash: u64) -> (r: Result<NetConfig, ConfigError>)
    ensures
        match r {
            Ok(net) => !encode_utf8(provider_name@).contains(COMMA) && is_net_config(
                net,
                provider_name@,
                vm_name_hash,
            ),
            Err(e) => encode_utf8(provider_name@).contains(COMMA) && e
                == ConfigError::CommaInProviderName,
        },
{
    if contains_byte(provider_name.as_str(), COMMA) {
        return Err(ConfigError::CommaInProviderName);
    }
    let vhost_socket = String::from_str("/run/vm/by-name/").concat(provider_name.as_str()).concat(
        "/router-app.sock",
    );
    Ok(
        NetConfig {
            vhost_user: true,
            vhost_socket,
            id: provider_name,
            mac: MacAddress::from_hash(vm_name_hash),
        },
    )
}

/// `net` is the device for the provider `provider_name` of a VM whose name
/// hashes to `vm_name_hash`.
pub open spec fn is_net_config(net: NetConfig, provider_name: Seq<char>, vm_name_hash: u64)
    -> bool {
    &&& net.vhost_user
    &&& net.vhost_socket@ == router_socket(provider_name)
    &&& net.id@ == provider_name
    &&& net.mac.octets() == seq![
        0x02u8,
        0x00u8,
        ((vm_name_hash / 0x100_0000) % 256) as u8,
        ((vm_name_hash / 0x1_0000) % 256) as u8,
        ((vm_name_hash / 0x100) % 256) as u8,
        (vm_name_hash % 256) as u8,
    ]
}

/// The kernel's command line: with a serial console where the VM is an x86-64 one.
pub fn kernel_cmdline(x86_64: bool) -> (s: &'static str)
    ensures
        s@ == if x86_64 {
            "console=ttyS0 root=PARTLABEL=root"@
        } else {
            "root=PARTLABEL=root"@
        },
{
    if x86_64 {
        "console=ttyS0 root=PARTLABEL=root"
    } else {
        "root=PARTLABEL=root"
    }
}

/// What a VM is made from: its name, the paths of its kernel and of its
/// vsock socket, the images of its disks, the names of its net providers, a
/// hash of its name, and whether it is an x86-64 one.
pub struct VmSource {
    pub vm_name: Seq<char>,
    pub kernel: Seq<char>,
    pub vsock_socket: Seq<char>,
    pub disk_paths: Seq<Seq<char>>,
    pub net_providers: Seq<Seq<char>>,
    pub vm_name_hash: u64,
    pub x86_64: bool,
}

/// Where the service `service` of the VM `vm_name` listens.
pub open spec fn service_socket(vm_name: Seq<char>, service: Seq<char>) -> Seq<char> {
    "/run/service/vm-services/instance/"@ + vm_name + "/data/service/"@ + service
}

/// `c` is the configuration of the VM made from `src`.
pub open spec fn is_vm_config(c: VmConfig, src: VmSource) -> bool {
    &&& c.console.mode@ == "Pty"@
    &&& c.console.file is None
    &&& c.disks@.len() == src.disk_paths.len()
    &&& forall|i: int|
        0 <= i < c.disks@.len() ==> (#[trigger] c.disks@[i]).path@ == src.disk_paths[i]
            && c.disks@[i].readonly
    &&& c.fs@[0].tag@ == "virtiofs0"@
    &&& c.fs@[0].socket@ == service_socket(src.vm_name, "vhost-user-fs/env/virtiofsd.sock"@)
    &&& c.gpu@.len() == 1
    &&& c.gpu@[0].socket@ == service_socket(src.vm_name, "vhost-user-gpu/env/crosvm.sock"@)
    &&& c.memory.size == 0x4000_0000
    &&& c.memory.shared
    &&& c.net@.len() == src.net_providers.len()
    &&& forall|i: int|
        0 <= i < c.net@.len() ==> is_net_config(
            #[trigger] c.net@[i],
            src.net_providers[i],
            src.vm_name_hash,
        )
    &&& c.payload.kernel@ == src.kernel
    &&& c.payload.cmdline@ == if src.x86_64 {
        "console=ttyS0 root=PARTLABEL=root"@
    } else {
        "root=PARTLABEL=root"@
    }
    &&& c.serial.mode@ == "File"@
    &&& c.serial.file matches Some(f) && f@ == "/run/"@ + src.vm_name + ".log"@
    &&& c.vsock.cid == 3
    &&& c.vsock.socket@ == src.vsock_socket
    &&& c.landlock_enable
    &&& c.landlock_rules@.len() == 2
    &&& c.landlock_rules@[0].path@ == "/sys/devices"@
    &&& c.landlock_rules@[0].access@ == "rw"@
    &&& c.landlock_rules@[1].path@ == "/dev/vfio"@
    &&& c.landlock_rules@[1].access@ == "rw"@
}

/// Whether one of the strings holds the byte `b`.
pub open spec fn some_contains(strings: Seq<Seq<char>>, b: u8) -> bool {
    exists|i: int| 0 <= i < strings.len() && encode_utf8(#[trigger] strings[i]).contains(b)
}

/// Why the VM made from `src` cannot be configured, if it cannot: the
/// first of a colon in its name, a comma in the path of a disk image, a
/// comma in the name of a net provider.
pub open spec fn config_error(src: VmSource) -> Option<ConfigError> {
    if encode_utf8(src.vm_name).contains(COLON) {
        Some(ConfigError::ColonInName)
    } else if some_contains(src.disk_paths, COMMA) {
        Some(ConfigError::CommaInDiskPath)
    } else if some_contains(src.net_providers, COMMA) {
        Some(ConfigError::CommaInProviderName)
    } else {
        None
    }
}

/// The views of some strings, in their order.
pub open spec fn views(strings: Seq<String>) -> Seq<Seq<char>> {
    Seq::new(strings.len(), |i: int| strings[i]@)
}

/// The configuration of the VM `vm_name`.
pub fn vm_config(
    vm_name: &str,
    kernel: String,
    vsock_socket: String,
    disk_paths: &Vec<String>,
    net_providers: &Vec<String>,
    vm_name_hash: u64,
    x86_64: bool,
) -> (r: Result<VmConfig, ConfigError>)
    ensures
        match config_error(
            VmSource {
                vm_name: vm_name@,
                kernel: kernel@,
                vsock_socket: vsock_socket@,
                disk_paths: views(disk_paths@),
                net_providers: views(net_providers@),
                vm_name_hash,
                x86_64,
            },
        ) {
            Some(e) => r matches Err(f) && f == e,
            None => r matches Ok(c) && is_vm_config(
                c,
                VmSource {
                    vm_name: vm_name@,
                    kernel: kernel@,
                    vsock_socket: vsock_socket@,
                    disk_paths: views(disk_paths@),
                    net_providers: views(net_providers@),
                    vm_name_hash,
                    x86_64,
                },
            ),
        },
{
    if contains_byte(vm_name, COLON) {
        return Err(ConfigError::ColonInName);
    }
    let ghost paths = views(disk_paths@);
    let ghost names = views(net_providers@);
    let mut disks: Vec<DiskConfig> = Vec::new();
    let mut i: usize = 0;
    while i < disk_paths.len()
        invariant
            i <= disk_paths@.len(),
            paths == views(disk_paths@),
            !encode_utf8(vm_name@).contains(COLON),
            disks@.len() == i,
            forall|j: int| 0 <= j < i ==> !encode_utf8(#[trigger] paths[j]).contains(COMMA),
            forall|j: int|
                0 <= j < i ==> (#[trigger] disks@[j]).path@ == paths[j] && disks@[j].readonly,
        decreases disk_paths@.len() - i,
    {
        assert(paths[i as int] == disk_paths@[i as int]@);
        match disk_config(disk_paths[i].clone()) {
            Ok(disk) => {
                disks.push(disk);
            },
            Err(e) => {
                assert(encode_utf8(paths[i as int]).contains(COMMA));
                return Err(e);
            },
        }
        i += 1;
    }
    assert(!some_contains(paths, COMMA));
    let mut net: Vec<NetConfig> = Vec::new();
    let mut i: usize = 0;
    while i < net_providers.len()
        invariant
            i <= net_providers@.len(),
            names == views(net_providers@),
            paths == views(disk_paths@),
            !encode_utf8(vm_name@).contains(COLON),
            !some_contains(paths, COMMA),
            net@.len() == i,
            forall|j: int| 0 <= j < i ==> !encode_utf8(#[trigger] names[j]).contains(COMMA),
            forall|j: int| 0 <= j < i ==> is_net_config(#[trigger] net@[j], names[j], vm_name_hash),
        decreases net_providers@.len() - i,
    {
        assert(names[i as int] == net_providers@[i as int]@);
        match net_config(net_providers[i].clone(), vm_name_hash) {
            Ok(n) => {
                net.push(n);
            },
            Err(e) => {
                assert(encode_utf8(names[i as int]).contains(COMMA));
                return Err(e);
            },
        }
        i += 1;
    }
    assert(!some_contains(names, COMMA));
    let fs_socket = String::from_str("/run/service/vm-services/instance/").concat(vm_name).concat(
        "/data/service/",
    ).concat("vhost-user-fs/env/virtiofsd.sock");
    let gpu_socket = String::from_str("/run/service/vm-services/instance/").concat(
        vm_name,
    ).concat("/data/service/").concat("vhost-user-gpu/env/crosvm.sock");
    let serial_file = String::from_str("/run/").concat(vm_name).concat(".log");
    let mut gpu: Vec<GpuConfig> = Vec::new();
    gpu.push(GpuConfig { socket: gpu_socket });
    let mut landlock_rules: Vec<LandlockConfig> = Vec::new();
    landlock_rules.push(LandlockConfig { path: "/sys/devices", access: "rw" });
    landlock_rules.push(LandlockConfig { path: "/dev/vfio", access: "rw" });
    Ok(
        VmConfig {
            console: ConsoleConfig { mode: "Pty", file: None },
            disks,
            fs: [FsConfig { tag: "virtiofs0", socket: fs_socket }],
            gpu,
            memory: MemoryConfig { size: 0x4000_0000, shared: true },
            net,
            payload: PayloadConfig { kernel, cmdline: kernel_cmdline(x86_64) },
            serial: ConsoleConfig { mode: "File", file: Some(serial_file) },
            vsock: VsockConfig { cid: 3, socket: vsock_socket },
            landlock_enable: true,
            landlock_rules,
        },
    )
}

} // verus!
