use iris::assoc::Assoc;
use iris::linux::proc::{
    appimage_from_environ, appimage_mount, image_path_of, index_pid_sockets, is_webkit_helper,
    mountinfo_declares_fuse_mount, parent_pid, parse_pid, parse_socket_inode, Image, PidCache,
    ProcFacts,
};
use iris::linux::svc::{service_component, unit_of, ServiceMap};

#[test]
fn maps_a_mounted_appimage_child_to_the_bundle() {
    let environ =
        b"HOME=/home/user\0APPDIR=/tmp/.mount_SampleAbC\0APPIMAGE=/opt/Sample.AppImage\0";
    let claim =
        appimage_from_environ("/tmp/.mount_SampleAbC/usr/libexec/WebKitWebProcess", environ);
    assert_eq!(
        claim.map(|claim| claim.appimage),
        Some("/opt/Sample.AppImage".to_string())
    );
}

#[test]
fn ignores_spoofed_or_unrelated_appimage_variables() {
    let outside = b"APPDIR=/tmp/.mount_SampleAbC\0APPIMAGE=/opt/Sample.AppImage\0";
    assert!(appimage_from_environ("/usr/bin/browser", outside).is_none());
    let ordinary_dir = b"APPDIR=/opt/sample\0APPIMAGE=/opt/Sample.AppImage\0";
    assert!(appimage_from_environ("/opt/sample/browser", ordinary_dir).is_none());
    let relative = b"APPDIR=/tmp/.mount_SampleAbC\0APPIMAGE=Sample.AppImage\0";
    assert!(appimage_from_environ("/tmp/.mount_SampleAbC/usr/bin/browser", relative).is_none());
}

#[test]
fn trusts_only_a_fuse_mount_at_the_appdir() {
    let dir = "/tmp/.mount_SampleAbC";
    let mounts = "36 35 0:32 / /tmp/.mount_SampleAbC ro,nosuid shared:1 - fuse.iris iris ro\n\
                  22 21 0:21 / /tmp rw shared:2 - tmpfs tmpfs rw\n";
    assert!(mountinfo_declares_fuse_mount(mounts, dir));
    // a directory that is not a mount point at all is rejected
    assert!(!mountinfo_declares_fuse_mount(mounts, "/tmp/.mount_Fake"));
    // a non-fuse mount conjured at the path (e.g. a bind mount) is rejected
    let bind = "40 35 0:33 / /tmp/.mount_SampleAbC rw - ext4 /dev/sda1 rw\n";
    assert!(!mountinfo_declares_fuse_mount(bind, dir));
}

#[test]
fn finds_the_temporary_appimage_mount_root() {
    assert_eq!(
        appimage_mount("/tmp/.mount_ExamplefEMJGD/opt/example/example"),
        Some("/tmp/.mount_ExamplefEMJGD".to_string())
    );
    assert_eq!(appimage_mount("/usr/bin/browser"), None);
}

#[test]
fn recognizes_only_webkit_runtime_helpers() {
    assert!(is_webkit_helper("/usr/libexec/webkit2gtk-4.1/WebKitNetworkProcess"));
    assert!(is_webkit_helper("/tmp/.mount_App/usr/libexec/webkit2gtk-4.1/WebKitWebProcess"));
    assert!(!is_webkit_helper("/home/user/WebKitNetworkProcess"));
    assert!(!is_webkit_helper("/usr/libexec/webkit2gtk-4.1/MiniBrowser"));
}

fn facts(exe: &str) -> ProcFacts {
    ProcFacts {
        exe: Some(exe.to_string()),
        environ: Some(Vec::new()),
        mountinfo: None,
        appimage_is_file: false,
        exe_is_file: true,
    }
}

#[test]
fn an_image_is_resolved_through_its_ancestors() {
    let known = |s: &str| Image::Known(Some(s.to_string()));
    assert_eq!(image_path_of(&vec![facts("/usr/bin/x (deleted)")], false), known("/usr/bin/x"));
    assert_eq!(image_path_of(&vec![], true), Image::Known(None));
    let helper = "/usr/libexec/webkit2gtk-4.1/WebKitWebProcess";
    assert_eq!(image_path_of(&vec![facts(helper)], false), Image::MoreNeeded);
    assert_eq!(image_path_of(&vec![facts(helper)], true), known(helper));
    assert_eq!(image_path_of(&vec![facts(helper), facts("/opt/app")], false), known("/opt/app"));
    let inside = "/tmp/.mount_a/usr/bin/y";
    assert_eq!(image_path_of(&vec![facts(inside)], false), Image::MoreNeeded);
    assert_eq!(
        image_path_of(&vec![facts(inside), facts("/opt/Y.AppImage")], false),
        known("/opt/Y.AppImage")
    );
    assert_eq!(image_path_of(&vec![facts(inside), facts("/bin/sh")], true), known(inside));
    let mut proven = facts(inside);
    proven.environ = Some(b"APPDIR=/tmp/.mount_a\0APPIMAGE=/opt/Z.AppImage\0".to_vec());
    proven.mountinfo = Some("1 2 0:3 / /tmp/.mount_a ro - fuse.z z ro\n".to_string());
    proven.appimage_is_file = true;
    assert_eq!(image_path_of(&vec![proven], false), known("/opt/Z.AppImage"));
}

#[test]
fn process_tables_are_read() {
    assert_eq!(parent_pid("Name:\tx\nPPid:\t 17\n"), Some(17));
    assert_eq!(parent_pid("PPid:\t0\n"), None);
    assert_eq!(parent_pid("PPid: x\nPPid:\t8"), Some(8));
    assert_eq!(parse_pid("123"), Some(123));
    assert_eq!(parse_pid("self"), None);
    assert_eq!(parse_socket_inode("socket:[12345]"), Some(12345));
    assert_eq!(parse_socket_inode("socket:[12345"), None);
    assert_eq!(parse_socket_inode("pipe:[1]"), None);
    let mut owners: Assoc<u64, u32> = Assoc::new();
    index_pid_sockets(&mut owners, 5, &vec!["socket:[9]".to_string(), "pipe:[9]".to_string()]);
    index_pid_sockets(&mut owners, 6, &vec!["socket:[9]".to_string(), "socket:[8]".to_string()]);
    assert_eq!(owners.get(&9), Some(&5));
    assert_eq!(owners.get(&8), Some(&6));
    assert_eq!(owners.len(), 2);
}

#[test]
fn images_are_remembered_until_cleared() {
    let mut cache = PidCache::new();
    assert!(!cache.cached(1));
    assert_eq!(cache.resolve(1, None), None);
    assert!(cache.cached(1));
    assert_eq!(cache.resolve(1, Some("/x".to_string())), None);
    cache.clear();
    assert_eq!(cache.resolve(1, Some("/x".to_string())), Some("/x".to_string()));
    assert_eq!(PidCache::default().cached(1), false);
}

#[test]
fn extracts_innermost_service_unit() {
    assert_eq!(
        service_component("/system.slice/NetworkManager.service"),
        Some("NetworkManager.service".to_string())
    );
    assert_eq!(
        service_component("/system.slice/system-getty.slice/getty@tty1.service"),
        Some("getty@tty1.service".to_string())
    );
}

#[test]
fn ignores_user_scopes_and_slices() {
    assert_eq!(service_component("/user.slice/user-1000.slice"), None);
    assert_eq!(service_component("/user.slice/user-1000.slice/session-2.scope"), None);
}

#[test]
fn units_come_from_either_control_group_version() {
    assert_eq!(unit_of("0::/system.slice/a.service\n"), Some("a.service".to_string()));
    assert_eq!(
        unit_of("4:cpu:/x.service\n1:name=systemd:/system.slice/b.service\n"),
        Some("b.service".to_string())
    );
    assert_eq!(unit_of("4:cpu:/x.service\n"), None);
    let app = "0::/user.slice/user-1000.slice/user@1000.service/app.slice/app-firefox.scope";
    assert_eq!(unit_of(app), None);
    let under = "0::/user.slice/user-1000.slice/user@1000.service/app.slice/dbus.service";
    assert_eq!(unit_of(under), Some("dbus.service".to_string()));
    assert_eq!(unit_of("0::/system.slice/a.service/b.socket"), None);
    let mut map = ServiceMap::new();
    map.refresh(Some(vec![
        (7, "0::/system.slice/a.service".to_string()),
        (8, "0::/user.slice".to_string()),
    ]));
    assert_eq!(map.get(7), Some(&vec!["a.service".to_string()]));
    assert_eq!(map.get(8), None);
    map.refresh(None);
    assert!(map.get(7).is_some());
}
