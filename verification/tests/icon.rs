use iris::ui::icon::{
    data_uri_text, desktop_dirs, desktop_matches, find_icon_file, icon_data_uri, icon_path,
    icon_png, is_desktop_file, to_rgba,
};

#[test]
fn matches_the_desktop_executable_directly() {
    let desktop = "Exec=/usr/bin/browser %U\nIcon=browser\n";
    assert!(desktop_matches(desktop, "/usr/bin/browser", "browser"));
}

#[test]
fn matches_a_versioned_appimage_by_desktop_identity() {
    let desktop = "Name=Example\nExec=/home/user/.local/bin/example %U\nIcon=org.example.app\nStartupWMClass=example\n";
    assert!(desktop_matches(
        desktop,
        "/home/user/Downloads/example-1.0.0-x86_64.AppImage",
        "example-1.0.0-x86_64.AppImage"
    ));
}

#[test]
fn does_not_fuzzy_match_an_ordinary_executable() {
    let desktop = "Name=Browser\nExec=/opt/other-browser\nIcon=browser\n";
    assert!(!desktop_matches(desktop, "/tmp/browser-nightly", "browser-nightly"));
}

#[test]
fn a_small_png_icon_is_preferred_to_a_large_svg_icon() {
    let files = find_icon_file("/opt/x", "x", None);
    let there = [
        "/usr/share/icons/hicolor/256x256/apps/x.svg",
        "/usr/share/icons/hicolor/128x128/apps/x.png",
    ];
    let first = files.iter().find(|f| there.contains(&f.as_str()));
    assert_eq!(first.map(String::as_str), Some("/usr/share/icons/hicolor/128x128/apps/x.png"));
}

#[test]
fn icons_are_searched_for_in_order() {
    let entries = vec!["Exec=/opt/x/tool\nIcon=tool-icon\n".to_string()];
    let found = icon_path("/opt/x/usr/bin/tool", Some("/home/u"), &entries).unwrap();
    assert_eq!(found[0], "/opt/x/usr/share/icons/hicolor/256x256/apps/tool-icon.png");
    assert_eq!(found[1], "/home/u/.local/share/icons/hicolor/256x256/apps/tool-icon.png");
    assert_eq!(found[5], "/opt/x/usr/share/icons/hicolor/128x128/apps/tool-icon.png");
    assert_eq!(found[29], "/usr/share/icons/hicolor/scalable/apps/tool-icon.png");
    assert_eq!(found[30], "/opt/x/usr/share/icons/hicolor/256x256/apps/tool-icon.svg");
    assert_eq!(found[found.len() - 2], "/usr/share/pixmaps/tool-icon.png");
    assert_eq!(found[found.len() - 1], "/usr/share/pixmaps/tool-icon.svg");
    assert_eq!(found.len(), 5 * 12 + 2);
    assert_eq!(icon_path("/", None, &entries), None);
    let absolute = vec!["Exec=tool\nIcon=/a/b.png\n".to_string()];
    assert_eq!(icon_path("/bin/tool", None, &absolute).unwrap(), vec!["/a/b.png".to_string()]);
    assert_eq!(
        desktop_dirs("/x/y", None),
        vec!["/usr/local/share/applications".to_string(), "/usr/share/applications".to_string()]
    );
    assert!(is_desktop_file("a.desktop"));
    assert!(!is_desktop_file(".desktop"));
    assert!(!is_desktop_file("a.desktop.bak"));
}

#[test]
fn icons_become_data_uris() {
    assert_eq!(icon_data_uri("/a/b.png", b"hello"), "data:image/png;base64,aGVsbG8=");
    assert_eq!(icon_data_uri("/a/b.svg", b""), "data:image/svg+xml;base64,");
    assert_eq!(icon_data_uri("/a", &[0xfb, 0xff, 0xbf]), "data:image/png;base64,+/+/");
    assert_eq!(icon_data_uri("/a", &[255, 0, 16, 131]), "data:image/png;base64,/wAQgw==");
    assert_eq!(data_uri_text("image/png", "QQ=="), "data:image/png;base64,QQ==");
}

#[test]
fn pixels_change_order_and_become_a_png() {
    assert_eq!(to_rgba(&[1, 2, 3, 0, 4, 5, 6, 0]), vec![3, 2, 1, 255, 6, 5, 4, 255]);
    assert_eq!(to_rgba(&[1, 2, 3, 9, 4, 5, 6, 0]), vec![3, 2, 1, 9, 6, 5, 4, 0]);
    let file = icon_png(&[1, 2, 3, 9], 1, 1).unwrap();
    assert_eq!(&file[..8], &[0x89, b'P', b'N', b'G', 0x0d, 0x0a, 0x1a, 0x0a]);
    let mut reader = png::Decoder::new(&file[..]).read_info().unwrap();
    let mut out = vec![0u8; reader.output_buffer_size()];
    reader.next_frame(&mut out).unwrap();
    assert_eq!(out, vec![3, 2, 1, 9]);
    assert!(icon_png(&[], 0, 0).is_none());
}
