use mnt::{DumpField, LineError, MntOps, MountEntry, MountPath};

fn root_entry(mntops: Vec<MntOps>) -> MountEntry {
    MountEntry {
        spec: "rootfs".to_string(),
        file: MountPath::new("/"),
        vfstype: "rootfs".to_string(),
        mntops,
        freq: DumpField::Ignore,
        passno: None,
    }
}

#[test]
fn lib_test_line_root() {
    let root_ref = root_entry(vec![MntOps::Write(true)]);
    let from_str = MountEntry::from_str;
    assert_eq!(from_str("rootfs / rootfs rw 0 0"), Ok(root_ref.clone()));
    assert_eq!(from_str("rootfs   / rootfs rw 0 0"), Ok(root_ref.clone()));
    assert_eq!(from_str("rootfs\t/ rootfs rw 0 0"), Ok(root_ref.clone()));
    assert_eq!(from_str("rootfs / rootfs rw, 0 0"), Ok(root_ref.clone()));
}

#[test]
fn parse_test_line_root() {
    let root_ref = MountEntry {
        spec: "rootfs".to_string(),
        file: MountPath::new("/"),
        vfstype: "rootfs".to_string(),
        mntops: vec![MntOps::Write(true)],
        freq: DumpField::Ignore,
        passno: None,
    };
    let from_str = MountEntry::from_str;
    assert_eq!(from_str("rootfs / rootfs rw 0 0"), Ok(root_ref.clone()));
    assert_eq!(from_str("rootfs   / rootfs rw 0 0"), Ok(root_ref.clone()));
    assert_eq!(from_str("rootfs\t/ rootfs rw 0 0"), Ok(root_ref.clone()));
    assert_eq!(from_str("rootfs / rootfs rw, 0 0"), Ok(root_ref.clone()));
}

#[test]
fn lib_test_line_mntops() {
    let root_ref = root_entry(vec![MntOps::Exec(false), MntOps::Write(true)]);
    let from_str = MountEntry::from_str;
    assert_eq!(from_str("rootfs / rootfs noexec,rw 0 0"), Ok(root_ref.clone()));
}

#[test]
fn parse_test_line_mntops() {
    let root_ref = MountEntry {
        spec: "rootfs".to_string(),
        file: MountPath::new("/"),
        vfstype: "rootfs".to_string(),
        mntops: vec![MntOps::Exec(false), MntOps::Write(true)],
        freq: DumpField::Ignore,
        passno: None,
    };
    let from_str = MountEntry::from_str;
    assert_eq!(from_str("rootfs / rootfs noexec,rw 0 0"), Ok(root_ref.clone()));
}

#[test]
fn lib_test_path() {
    let from_str = MountEntry::from_str;
    assert!(from_str("rootfs ./ rootfs rw 0 0").is_err());
    assert!(from_str("rootfs foo rootfs rw 0 0").is_err());
    // Should fail for a swap pseudo-mount
    assert!(from_str("/dev/mapper/swap none swap sw 0 0").is_err());
}

#[test]
fn parse_test_path() {
    let from_str = MountEntry::from_str;
    assert!(from_str("rootfs ./ rootfs rw 0 0").is_err());
    assert!(from_str("rootfs foo rootfs rw 0 0").is_err());
    // Should fail for a swap pseudo-mount
    assert!(from_str("/dev/mapper/swap none swap sw 0 0").is_err());
}

#[test]
fn relative_paths_are_named_in_the_error() {
    assert_eq!(
        MountEntry::from_str("rootfs ./ rootfs rw 0 0"),
        Err(LineError::InvalidFilePath("./".to_string()))
    );
    assert_eq!(
        MountEntry::from_str("/dev/mapper/swap none swap sw 0 0"),
        Err(LineError::InvalidFilePath("none".to_string()))
    );
    assert!(MountEntry::from_str("rootfs / rootfs rw 0 0").is_ok());
}

#[test]
fn entries_are_ordered_by_their_paths() {
    let mut entries: Vec<MountEntry> = [
        "z /var/tmp ext4 rw 0 0",
        "y / ext4 rw 0 0",
        "x /var ext4 rw 0 0",
        "w /boot ext4 rw 0 0",
    ]
    .iter()
    .map(|line| MountEntry::from_str(line).unwrap())
    .collect();
    entries.sort_by(|a, b| a.partial_cmp(b).unwrap());
    let specs: Vec<&str> = entries.iter().map(|entry| entry.spec.as_str()).collect();
    assert_eq!(specs, ["y", "w", "x", "z"]);
    assert!(entries[0] < entries[1]);
    assert!(!(entries[2] < entries[1]));
}

#[test]
fn lines_are_parsed_through_the_standard_trait() {
    let entry: MountEntry = "rootfs / rootfs rw 0 0".parse().unwrap();
    assert_eq!(entry, root_entry(vec![MntOps::Write(true)]));
    let option: MntOps = "nodev".parse().unwrap();
    assert_eq!(option, MntOps::Dev(false));
    let error = "rootfs".parse::<MountEntry>().unwrap_err();
    assert_eq!(error, LineError::MissingFile);
}

fn word(option: &MntOps) -> String {
    match option {
        MntOps::Atime(on) => if *on { "atime" } else { "noatime" }.to_string(),
        MntOps::DirAtime(on) => if *on { "diratime" } else { "nodiratime" }.to_string(),
        MntOps::RelAtime(on) => if *on { "relatime" } else { "norelatime" }.to_string(),
        MntOps::Dev(on) => if *on { "dev" } else { "nodev" }.to_string(),
        MntOps::Exec(on) => if *on { "exec" } else { "noexec" }.to_string(),
        MntOps::Suid(on) => if *on { "suid" } else { "nosuid" }.to_string(),
        MntOps::Write(on) => if *on { "rw" } else { "ro" }.to_string(),
        MntOps::Extra(text) => text.clone(),
    }
}

fn fields_of(entry: &MountEntry) -> Vec<String> {
    let options: Vec<String> = entry.mntops.iter().map(word).collect();
    vec![
        entry.spec.clone(),
        entry.file.as_str().to_string(),
        entry.vfstype.clone(),
        options.join(","),
        match entry.freq {
            DumpField::Ignore => "0".to_string(),
            DumpField::Backup => "1".to_string(),
        },
        entry.passno.unwrap_or(0).to_string(),
    ]
}

fn samples() -> Vec<MountEntry> {
    vec![
        root_entry(vec![MntOps::Write(true)]),
        MountEntry {
            spec: "/dev/mapper/vg-home".to_string(),
            file: MountPath::new("/home//me/"),
            vfstype: "ext4".to_string(),
            mntops: vec![
                MntOps::Atime(false),
                MntOps::DirAtime(true),
                MntOps::RelAtime(false),
                MntOps::Dev(true),
                MntOps::Exec(true),
                MntOps::Suid(false),
                MntOps::Write(false),
                MntOps::Extra(String::new()),
                MntOps::Extra("data=ordered".to_string()),
                MntOps::Write(false),
            ],
            freq: DumpField::Backup,
            passno: Some(2147483647),
        },
        MountEntry {
            spec: "\u{e9}t\u{e9}".to_string(),
            file: MountPath::new("/mnt/with\\040space"),
            vfstype: "fuse.sshfs".to_string(),
            mntops: vec![MntOps::Extra("user_id=1000".to_string())],
            freq: DumpField::Ignore,
            passno: Some(1),
        },
    ]
}

#[test]
fn a_written_line_is_read_back() {
    for entry in samples() {
        let line = fields_of(&entry).join(" ");
        let read = MountEntry::from_str(&line).unwrap();
        assert_eq!(read, entry);
        assert_eq!(read.file.as_str(), entry.file.as_str());
        assert_eq!(fields_of(&read).join(" "), line);
    }
}

#[test]
fn white_space_between_fields_counts_for_nothing() {
    for entry in samples() {
        let fields = fields_of(&entry);
        let plain = MountEntry::from_str(&fields.join(" "));
        assert!(plain.is_ok());
        for gap in ["  ", "\t", " \t ", "\t\t\t"] {
            assert_eq!(MountEntry::from_str(&fields.join(gap)), plain);
            for around in ["", " ", "\n", "\t \r\n", "\u{a0}\u{2003}"] {
                let line = format!("{}{}{}", around, fields.join(gap), around);
                assert_eq!(MountEntry::from_str(&line), plain, "{:?}", line);
            }
        }
    }
    // White space that is neither a space nor a tab does not set fields apart.
    assert_eq!(
        MountEntry::from_str("rootfs\u{a0}/ rootfs rw 0 0"),
        Err(LineError::InvalidFilePath("rootfs".to_string()))
    );
}

#[test]
fn entries_are_equal_when_their_fields_are() {
    let plain = MountEntry::from_str("/dev/sda1 /boot ext2 rw,noexec 1 2").unwrap();
    assert_eq!(plain, MountEntry::from_str("/dev/sda1 //boot/. ext2 rw,noexec 1 2").unwrap());
    assert_ne!(plain, MountEntry::from_str("/dev/sda2 /boot ext2 rw,noexec 1 2").unwrap());
    assert_ne!(plain, MountEntry::from_str("/dev/sda1 /boot/x ext2 rw,noexec 1 2").unwrap());
    assert_ne!(plain, MountEntry::from_str("/dev/sda1 /boot ext3 rw,noexec 1 2").unwrap());
    assert_ne!(plain, MountEntry::from_str("/dev/sda1 /boot ext2 noexec,rw 1 2").unwrap());
    assert_ne!(plain, MountEntry::from_str("/dev/sda1 /boot ext2 rw 1 2").unwrap());
    assert_ne!(plain, MountEntry::from_str("/dev/sda1 /boot ext2 rw,noexec 0 2").unwrap());
    assert_ne!(plain, MountEntry::from_str("/dev/sda1 /boot ext2 rw,noexec 1 0").unwrap());
    assert_ne!(plain, MountEntry::from_str("/dev/sda1 /boot ext2 rw,noexec 1 3").unwrap());
}
