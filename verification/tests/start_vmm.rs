use spectrum_tools::lsvm::{is_running, vm_line};
use spectrum_tools::start_vmm::{
    check_vm_name, contains_byte, disk_config, is_disk_image, kernel_cmdline, net_config,
    vm_config, ConfigError,
};

fn strings(items: &[&str]) -> Vec<String> {
    items.iter().map(|s| s.to_string()).collect()
}

#[test]
fn test_vm_name_colon() {
    let e = vm_config(":vm", "/:vm/config/vmlinux".to_string(), "/:vm/vsock".to_string(), &vec![], &vec![], 0, true)
        .err()
        .unwrap()
        .message();
    assert!(e.contains("colon"), "unexpected error: {:?}", e);
}

#[test]
fn vm_name_with_a_colon_is_refused() {
    assert_eq!(check_vm_name(":vm"), Err(ConfigError::ColonInName));
    assert_eq!(check_vm_name("a:b"), Err(ConfigError::ColonInName));
    assert_eq!(check_vm_name("vm"), Ok(()));
    assert_eq!(check_vm_name(""), Ok(()));
    assert_eq!(check_vm_name("vm\u{ff1a}"), Ok(()));
    assert_eq!(ConfigError::ColonInName.message(), "VM name may not contain a colon");
}

#[test]
fn bytes_are_found_in_text() {
    assert!(contains_byte("a,b", b','));
    assert!(!contains_byte("ab", b','));
    assert!(!contains_byte("", b','));
    assert!(contains_byte(",", b','));
}

#[test]
fn disks_are_read_only() {
    let disk = disk_config("/run/vm/config/blk/root.img".to_string()).ok().unwrap();
    assert_eq!(disk.path, "/run/vm/config/blk/root.img");
    assert!(disk.readonly);
}

#[test]
fn disk_path_with_a_comma_is_refused() {
    assert_eq!(disk_config("/a,b.img".to_string()).err(), Some(ConfigError::CommaInDiskPath));
    assert_eq!(ConfigError::CommaInDiskPath.message(), "illegal ',' character in path");
}

#[test]
fn net_device_of_a_provider() {
    let net = net_config("netvm".to_string(), 0xaabb_ccdd_1122_3344).ok().unwrap();
    assert!(net.vhost_user);
    assert_eq!(net.vhost_socket, "/run/vm/by-name/netvm/router-app.sock");
    assert_eq!(net.id, "netvm");
    assert_eq!(net.mac.to_string(), "02:00:11:22:33:44");
}

#[test]
fn provider_name_with_a_comma_is_refused() {
    assert_eq!(net_config("a,b".to_string(), 1).err(), Some(ConfigError::CommaInProviderName));
    assert_eq!(
        ConfigError::CommaInProviderName.message(),
        "illegal ',' character in net provider name"
    );
}

#[test]
fn kernel_command_line_by_architecture() {
    assert_eq!(kernel_cmdline(true), "console=ttyS0 root=PARTLABEL=root");
    assert_eq!(kernel_cmdline(false), "root=PARTLABEL=root");
}

#[test]
fn whole_configuration() {
    let c = vm_config(
        "appvm",
        "/run/vm/by-id/7/config/vmlinux".to_string(),
        "/run/vm/by-id/7/vsock".to_string(),
        &strings(&["/d/a.img", "/d/b.img"]),
        &strings(&["netvm"]),
        0x0102_0304,
        false,
    )
    .ok()
    .unwrap();
    assert_eq!(c.console.mode, "Pty");
    assert_eq!(c.console.file, None);
    assert_eq!(c.disks.len(), 2);
    assert_eq!(c.disks[0].path, "/d/a.img");
    assert_eq!(c.disks[1].path, "/d/b.img");
    assert!(c.disks.iter().all(|d| d.readonly));
    assert_eq!(c.fs[0].tag, "virtiofs0");
    assert_eq!(
        c.fs[0].socket,
        "/run/service/vm-services/instance/appvm/data/service/vhost-user-fs/env/virtiofsd.sock"
    );
    assert_eq!(c.gpu.len(), 1);
    assert_eq!(
        c.gpu[0].socket,
        "/run/service/vm-services/instance/appvm/data/service/vhost-user-gpu/env/crosvm.sock"
    );
    assert_eq!(c.memory.size, 1 << 30);
    assert!(c.memory.shared);
    assert_eq!(c.net.len(), 1);
    assert_eq!(c.net[0].id, "netvm");
    assert_eq!(c.net[0].vhost_socket, "/run/vm/by-name/netvm/router-app.sock");
    assert!(c.net[0].vhost_user);
    assert_eq!(c.net[0].mac.to_octets(), [0x02, 0x00, 0x01, 0x02, 0x03, 0x04]);
    assert_eq!(c.payload.kernel, "/run/vm/by-id/7/config/vmlinux");
    assert_eq!(c.payload.cmdline, "root=PARTLABEL=root");
    assert_eq!(c.serial.mode, "File");
    assert_eq!(c.serial.file.as_deref(), Some("/run/appvm.log"));
    assert_eq!(c.vsock.cid, 3);
    assert_eq!(c.vsock.socket, "/run/vm/by-id/7/vsock");
    assert!(c.landlock_enable);
    assert_eq!(c.landlock_rules.len(), 2);
    assert_eq!((c.landlock_rules[0].path, c.landlock_rules[0].access), ("/sys/devices", "rw"));
    assert_eq!((c.landlock_rules[1].path, c.landlock_rules[1].access), ("/dev/vfio", "rw"));
}

#[test]
fn configuration_without_disks_and_providers() {
    let c = vm_config("vm", String::new(), String::new(), &vec![], &vec![], 0, true).ok().unwrap();
    assert!(c.disks.is_empty());
    assert!(c.net.is_empty());
    assert_eq!(c.payload.cmdline, "console=ttyS0 root=PARTLABEL=root");
    assert_eq!(c.serial.file.as_deref(), Some("/run/vm.log"));
}

#[test]
fn the_first_fault_is_reported() {
    let config = |name: &str, disks: &[&str], nets: &[&str]| {
        vm_config(name, String::new(), String::new(), &strings(disks), &strings(nets), 0, true).err()
    };
    assert_eq!(config("a:b", &["x,y"], &["p,q"]), Some(ConfigError::ColonInName));
    assert_eq!(config("ab", &["ok", "x,y"], &["p,q"]), Some(ConfigError::CommaInDiskPath));
    assert_eq!(config("ab", &["ok"], &["fine", "p,q"]), Some(ConfigError::CommaInProviderName));
    assert_eq!(config("ab", &["ok"], &["fine"]), None);
}

#[test]
fn only_a_created_vm_is_not_running() {
    assert!(!is_running("Created"));
    assert!(is_running("Running"));
    assert!(is_running("Paused"));
    assert!(is_running("Shutdown"));
    assert!(is_running("created"));
    assert!(is_running("Create"));
    assert!(is_running("Created "));
    assert!(is_running(""));
}

#[test]
fn line_of_a_running_vm() {
    let names = vec![b"appvm-firefox".to_vec(), b"browser".to_vec()];
    assert_eq!(
        vm_line(b"3", Some(true), &names),
        b"3 \x1B[32;1mRUNNING\x1B[0m appvm-firefox browser\n".to_vec()
    );
}

#[test]
fn line_of_a_stopped_vm() {
    assert_eq!(
        vm_line(b"12", Some(false), &vec![b"netvm".to_vec()]),
        b"12 \x1B[31mSTOPPED\x1B[0m netvm\n".to_vec()
    );
}

#[test]
fn line_of_a_vm_of_unknown_state_without_names() {
    assert_eq!(vm_line(b"0", None, &vec![]), b"0 \x1B[33mUNKNOWN\x1B[0m \n".to_vec());
    assert_eq!(vm_line(b"", None, &vec![vec![], vec![]]), b" \x1B[33mUNKNOWN\x1B[0m  \n".to_vec());
}

#[test]
fn disk_images_end_in_img() {
    assert!(is_disk_image(b"root.img"));
    assert!(is_disk_image(b"a.img"));
    assert!(is_disk_image(b"..img"));
    assert!(is_disk_image(b"a.b.img"));
    assert!(!is_disk_image(b".img"));
    assert!(!is_disk_image(b"img"));
    assert!(!is_disk_image(b""));
    assert!(!is_disk_image(b"root.IMG"));
    assert!(!is_disk_image(b"root.img.bak"));
    assert!(!is_disk_image(b"rootimg"));
    assert!(!is_disk_image(b"root.imgs"));
    for name in ["root.img", ".img", "a.img", "..img", "x", "a.b.img", "root.img.bak"] {
        let by_path = std::path::Path::new(name).extension().is_some_and(|e| e == "img");
        assert_eq!(is_disk_image(name.as_bytes()), by_path, "{name}");
    }
}
