use mnt::{DumpField, LineError, MntOps, MountEntry, ParseError, ParseErrorKind};

#[test]
fn missing_fields_are_named_from_the_left() {
    let from_str = MountEntry::from_str;
    assert_eq!(from_str(""), Err(LineError::MissingSpec));
    assert_eq!(from_str(" \t \n"), Err(LineError::MissingSpec));
    assert_eq!(from_str("rootfs"), Err(LineError::MissingFile));
    assert_eq!(from_str("rootfs /"), Err(LineError::MissingVfstype));
    assert_eq!(from_str("rootfs / rootfs"), Err(LineError::MissingMntops));
    assert_eq!(from_str("rootfs / rootfs rw"), Err(LineError::MissingFreq));
    assert_eq!(from_str("rootfs / rootfs rw 0"), Err(LineError::MissingPassno));
    assert!(from_str("rootfs / rootfs rw 0 0").is_ok());
}

#[test]
fn the_first_bad_field_decides() {
    let from_str = MountEntry::from_str;
    assert_eq!(from_str("rootfs foo"), Err(LineError::InvalidFilePath("foo".to_string())));
    assert_eq!(from_str("rootfs foo rootfs rw x y"), Err(LineError::InvalidFilePath("foo".to_string())));
    assert_eq!(from_str("rootfs /a\0b rootfs rw 0 0"), Err(LineError::InvalidFile("/a\0b".to_string())));
    assert_eq!(from_str("rootfs a\0b rootfs rw 0 0"), Err(LineError::InvalidFile("a\0b".to_string())));
    assert_eq!(from_str("rootfs / rootfs rw 2"), Err(LineError::InvalidFreq("2".to_string())));
    assert_eq!(from_str("rootfs / rootfs rw x"), Err(LineError::InvalidFreq("x".to_string())));
    assert_eq!(from_str("rootfs / rootfs rw -1 0"), Err(LineError::InvalidFreq("-1".to_string())));
    assert_eq!(from_str("rootfs / rootfs rw 0 -1"), Err(LineError::InvalidPassno("-1".to_string())));
    assert_eq!(from_str("rootfs / rootfs rw 0 one"), Err(LineError::InvalidPassno("one".to_string())));
    assert_eq!(
        from_str("rootfs / rootfs rw 0 2147483648"),
        Err(LineError::InvalidPassno("2147483648".to_string()))
    );
}

#[test]
fn numbers_are_read_as_integers() {
    let entry = MountEntry::from_str("/dev/sda1 /boot ext2 rw 1 2").unwrap();
    assert_eq!(entry.freq, DumpField::Backup);
    assert_eq!(entry.passno, Some(2));
    let entry = MountEntry::from_str("/dev/sda1 /boot ext2 rw +01 +2147483647").unwrap();
    assert_eq!(entry.freq, DumpField::Backup);
    assert_eq!(entry.passno, Some(2147483647));
    let entry = MountEntry::from_str("/dev/sda1 /boot ext2 rw -0 000").unwrap();
    assert_eq!(entry.freq, DumpField::Ignore);
    assert_eq!(entry.passno, None);
}

#[test]
fn fields_after_the_sixth_are_not_looked_at() {
    let plain = MountEntry::from_str("/dev/sda1 /boot ext2 rw 1 2").unwrap();
    assert_eq!(MountEntry::from_str("/dev/sda1 /boot ext2 rw 1 2 and more"), Ok(plain.clone()));
    assert_eq!(MountEntry::from_str("\t/dev/sda1  /boot\text2 \t rw 1   2\r\n"), Ok(plain));
}

#[test]
fn every_option_word_is_known() {
    let words = [
        ("atime", MntOps::Atime(true)),
        ("noatime", MntOps::Atime(false)),
        ("diratime", MntOps::DirAtime(true)),
        ("nodiratime", MntOps::DirAtime(false)),
        ("relatime", MntOps::RelAtime(true)),
        ("norelatime", MntOps::RelAtime(false)),
        ("dev", MntOps::Dev(true)),
        ("nodev", MntOps::Dev(false)),
        ("exec", MntOps::Exec(true)),
        ("noexec", MntOps::Exec(false)),
        ("suid", MntOps::Suid(true)),
        ("nosuid", MntOps::Suid(false)),
        ("rw", MntOps::Write(true)),
        ("ro", MntOps::Write(false)),
        ("size=10240k", MntOps::Extra("size=10240k".to_string())),
        ("RW", MntOps::Extra("RW".to_string())),
        ("", MntOps::Extra(String::new())),
    ];
    for (word, option) in words {
        assert_eq!(MntOps::from_str(word), Ok(option.clone()));
        assert!(MntOps::from_str(word).unwrap() == option);
    }
    assert!(MntOps::Write(true) != MntOps::Write(false));
    assert!(MntOps::Write(true) != MntOps::Exec(true));
    assert!(MntOps::Extra("a".to_string()) != MntOps::Extra("b".to_string()));
}

#[test]
fn options_keep_their_order_and_their_repetitions() {
    let entry = MountEntry::from_str("x /x t ro,,rw,ro,a=b, 0 0").unwrap();
    assert_eq!(
        entry.mntops,
        [
            MntOps::Write(false),
            MntOps::Extra(String::new()),
            MntOps::Write(true),
            MntOps::Write(false),
            MntOps::Extra("a=b".to_string()),
        ]
    );
    let entry = MountEntry::from_str("x /x t , 0 0").unwrap();
    assert_eq!(entry.mntops, [MntOps::Extra(String::new())]);
    let entry = MountEntry::from_str("x /x t ,, 0 0").unwrap();
    assert_eq!(entry.mntops, [MntOps::Extra(String::new()), MntOps::Extra(String::new())]);
}

#[test]
fn line_errors_say_what_is_wrong() {
    let messages = [
        (LineError::MissingSpec, "Line parsing: Missing field #1 (spec)"),
        (LineError::MissingFile, "Line parsing: Missing field #2 (file)"),
        (
            LineError::InvalidFilePath("foo".to_string()),
            "Line parsing: Bad field #2 (file) value (not absolute path): foo",
        ),
        (LineError::InvalidFile("f\0".to_string()), "Line parsing: Bad field #2 (file) value: f\0"),
        (LineError::MissingVfstype, "Line parsing: Missing field #3 (vfstype)"),
        (LineError::MissingMntops, "Line parsing: Missing field #4 (mntops)"),
        (LineError::MissingFreq, "Line parsing: Missing field #5 (freq)"),
        (LineError::InvalidFreq("7".to_string()), "Line parsing: Bad field #5 (dump) value: 7"),
        (LineError::MissingPassno, "Line parsing: Missing field #6 (passno)"),
        (LineError::InvalidPassno("-3".to_string()), "Line parsing: Bad field #6 (passno) value: -3"),
    ];
    for (error, message) in messages {
        assert_eq!(error.to_string(), message);
        assert_eq!(error.clone(), error);
    }
}

#[test]
fn parse_errors_say_where_they_come_from() {
    let error = ParseError::new("the detail".to_string());
    assert_eq!(error.description(), "Mount parsing: the detail");
    assert_eq!(*error.kind(), ParseErrorKind::Message);
    let error = ParseError::at_line(120, "a b", LineError::MissingVfstype);
    assert_eq!(
        error.description(),
        "Mount parsing: Failed at line 120: Line parsing: Missing field #3 (vfstype)"
    );
    assert_eq!(error.clone(), error);
    let error = ParseError::read("gone".to_string());
    assert_eq!(error.description(), "Mount parsing: Failed to read the mounts file: gone");
    assert_eq!(error.to_string(), "Mount parsing: Failed to read the mounts file: gone");
}
