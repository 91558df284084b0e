use catos_install::device::DeviceKind;
use catos_install::install::{copy_files, create_dev, create_dir, provisioning_plan, Event, Step};
use catos_install::vfs::{FileSystem, NodeData};

fn assets() -> catos_install::install::Assets {
    catos_install::install::Assets {
        bin_clear: b"\x7fELFclear".to_vec(),
        bin_halt: b"\x7fELFhalt".to_vec(),
        bin_print: b"\x7fELFprint".to_vec(),
        ini_banner: b"CATOS v{x.x.x}\n".to_vec(),
        ini_boot: b"shell /ini/shell.sh\n".to_vec(),
        ini_shell: b"print hello\n".to_vec(),
        ini_version: b"{x.x.x}\n".to_vec(),
        palette_dark: b"palette dark\n".to_vec(),
        palette_light: b"palette light\n".to_vec(),
        font_light: b"PSF-light".to_vec(),
        font_vga: b"PSF-vga".to_vec(),
        tmp_alice: b"Alice was beginning {x.x.x}\n".to_vec(),
        tmp_machines: b"machines\n".to_vec(),
        beep_tetris: b"beep tetris\n".to_vec(),
        beep_starwars: b"beep starwars\n".to_vec(),
        beep_mario: b"beep mario\n".to_vec(),
    }
}

const VERSION: &[u8] = b"1.2.3";

fn event_path(e: &Event) -> &str {
    match e {
        Event::Created(p) => p.as_str(),
        Event::Copied(p) => p.as_str(),
    }
}

#[test]
fn orchestrator_is_idempotent() {
    let a = assets();
    let mut fs = FileSystem::new();
    let first = copy_files(&mut fs, VERSION, &a);
    assert_eq!(first.len(), 45);
    let snapshot = fs.clone();
    let second = copy_files(&mut fs, VERSION, &a);
    assert!(second.is_empty());
    assert_eq!(fs, snapshot);
    assert_eq!(fs.node_count(), 45);
}

#[test]
fn drive_descriptors_encode_bus_and_slot() {
    let cases = [
        ("/dev/ata/0/0", 0u8, 0u8),
        ("/dev/ata/0/1", 0u8, 1u8),
        ("/dev/ata/1/0", 1u8, 0u8),
        ("/dev/ata/1/1", 1u8, 1u8),
    ];
    for (path, bus, slot) in cases {
        let mut fs = FileSystem::new();
        let mut events: Vec<Event> = Vec::new();
        create_dev(&mut fs, &mut events, path, DeviceKind::Drive);
        match fs.lookup(path) {
            Some(NodeData::Device(buf)) => {
                assert_eq!(buf.len(), 3);
                assert_eq!(buf[1], bus);
                assert_eq!(buf[2], slot);
                assert_eq!(buf[0], DeviceKind::Drive.tag());
            }
            other => panic!("expected a device node, found {:?}", other),
        }
    }
}

#[test]
fn unrecognized_drive_path_keeps_default_bytes() {
    let mut fs = FileSystem::new();
    let mut events: Vec<Event> = Vec::new();
    create_dev(&mut fs, &mut events, "/dev/ata/2/0", DeviceKind::Drive);
    match fs.lookup("/dev/ata/2/0") {
        Some(NodeData::Device(buf)) => {
            assert_eq!(buf.as_slice(), &[DeviceKind::Drive.tag(), 0, 0]);
        }
        other => panic!("expected a device node, found {:?}", other),
    }
}

#[test]
fn non_drive_descriptor_is_bare_tag() {
    let mut fs = FileSystem::new();
    let mut events: Vec<Event> = Vec::new();
    create_dev(&mut fs, &mut events, "/dev/null", DeviceKind::Null);
    match fs.lookup("/dev/null") {
        Some(NodeData::Device(buf)) => assert_eq!(buf.as_slice(), &[0u8]),
        other => panic!("expected a device node, found {:?}", other),
    }
}

#[test]
fn parent_precedes_child_in_plan() {
    let steps = provisioning_plan(&assets());
    let mut seen_dirs: Vec<String> = Vec::new();
    for step in &steps {
        let path = match step {
            Step::MakeDir(p) => p.clone(),
            Step::MakeDevice(p, _) => p.clone(),
            Step::CopyFile(p, _) => p.clone(),
        };
        let parent = &path[..path.rfind('/').unwrap()];
        if !parent.is_empty() {
            assert!(
                seen_dirs.iter().any(|d| d == parent),
                "no directory step for {} before {}",
                parent,
                path
            );
        }
        if let Step::MakeDir(p) = step {
            seen_dirs.push(p.clone());
        }
    }
}

#[test]
fn existing_directory_is_skipped_but_children_follow() {
    let a = assets();
    let mut fs = FileSystem::new();
    fs.put("/bin", NodeData::Dir);
    let events = copy_files(&mut fs, VERSION, &a);
    assert_eq!(events.len(), 44);
    assert!(events.iter().all(|e| event_path(e) != "/bin"));
    assert!(events
        .iter()
        .any(|e| matches!(e, Event::Copied(p) if p == "/bin/clear")));
    assert!(matches!(fs.lookup("/bin/clear"), Some(NodeData::File(_))));
    assert_eq!(fs.node_count(), 45);
}

#[test]
fn full_run_provisions_the_documented_tree() {
    let a = assets();
    let mut fs = FileSystem::new();
    let events = copy_files(&mut fs, VERSION, &a);
    assert_eq!(events.len(), 45);
    for dir in [
        "/bin", "/dev", "/ini", "/lib", "/net", "/src", "/tmp", "/usr", "/var", "/dev/ata",
        "/dev/ata/0", "/dev/ata/1", "/dev/clk", "/dev/net", "/ini/palettes", "/ini/fonts",
        "/tmp/beep",
    ] {
        assert!(matches!(fs.lookup(dir), Some(NodeData::Dir)), "{}", dir);
    }
    for dev in [
        "/dev/ata/0/0",
        "/dev/ata/0/1",
        "/dev/ata/1/0",
        "/dev/ata/1/1",
        "/dev/clk/uptime",
        "/dev/clk/realtime",
        "/dev/rtc",
        "/dev/null",
        "/dev/random",
        "/dev/console",
        "/dev/net/tcp",
        "/dev/net/udp",
    ] {
        assert!(matches!(fs.lookup(dev), Some(NodeData::Device(_))), "{}", dev);
    }
    for file in [
        "/bin/clear",
        "/bin/halt",
        "/bin/print",
        "/ini/banner.txt",
        "/ini/boot.sh",
        "/ini/shell.sh",
        "/ini/version.txt",
        "/ini/palettes/gruvbox-dark.sh",
        "/ini/palettes/gruvbox-light.sh",
        "/ini/fonts/zap-light-8x16.psf",
        "/ini/fonts/zap-vga-8x16.psf",
        "/tmp/alice.txt",
        "/tmp/machines.txt",
        "/tmp/beep/tetris.sh",
        "/tmp/beep/starwars.sh",
        "/tmp/beep/mario.sh",
    ] {
        assert!(matches!(fs.lookup(file), Some(NodeData::File(_))), "{}", file);
    }
    assert_eq!(fs.node_count(), 45);
}

#[test]
fn version_is_substituted_in_text_assets_only() {
    let a = assets();
    let mut fs = FileSystem::new();
    copy_files(&mut fs, VERSION, &a);
    match fs.lookup("/ini/version.txt") {
        Some(NodeData::File(bytes)) => assert_eq!(bytes.as_slice(), b"1.2.3\n"),
        other => panic!("expected a file, found {:?}", other),
    }
    match fs.lookup("/ini/banner.txt") {
        Some(NodeData::File(bytes)) => assert_eq!(bytes.as_slice(), b"CATOS v1.2.3\n"),
        other => panic!("expected a file, found {:?}", other),
    }
    // The same token in a non-txt asset is written verbatim.
    match fs.lookup("/ini/boot.sh") {
        Some(NodeData::File(bytes)) => assert_eq!(bytes.as_slice(), b"shell /ini/shell.sh\n"),
        other => panic!("expected a file, found {:?}", other),
    }
}

#[test]
fn existing_nodes_are_never_overwritten() {
    let a = assets();
    let mut fs = FileSystem::new();
    fs.put("/ini/version.txt", NodeData::File(b"kept".to_vec()));
    copy_files(&mut fs, VERSION, &a);
    match fs.lookup("/ini/version.txt") {
        Some(NodeData::File(bytes)) => assert_eq!(bytes.as_slice(), b"kept"),
        other => panic!("expected a file, found {:?}", other),
    }
}

#[test]
fn create_dir_fires_one_event_and_only_once() {
    let mut fs = FileSystem::new();
    let mut events: Vec<Event> = Vec::new();
    create_dir(&mut fs, &mut events, "/bin");
    create_dir(&mut fs, &mut events, "/bin");
    assert_eq!(events, vec![Event::Created("/bin".to_string())]);
    assert_eq!(fs.node_count(), 1);
}
