use mnt::order::compare_paths;
use mnt::path::{path_is_absolute, path_is_root, paths_equal, starts_with};
use mnt::{DumpField, LineError, MntOps, MountEntry};
use std::path::{Path, PathBuf};

// Every text over `alphabet` with at most `longest` characters.
fn texts(alphabet: &[char], longest: usize) -> Vec<String> {
    let mut all = vec![String::new()];
    let mut from = 0;
    for _ in 0..longest {
        let upto = all.len();
        for k in from..upto {
            for c in alphabet {
                let mut text = all[k].clone();
                text.push(*c);
                all.push(text);
            }
        }
        from = upto;
    }
    all
}

#[test]
fn paths_agree_with_std_on_every_short_text() {
    let all = texts(&['/', '.', 'a', 'b'], 4);
    assert_eq!(all.len(), 341);
    for a in &all {
        let left = Path::new(a);
        assert_eq!(path_is_absolute(a), left.is_absolute());
        assert_eq!(path_is_root(a), left == Path::new("/"));
        for b in &all {
            let right = Path::new(b);
            assert_eq!(starts_with(a, b), left.starts_with(right), "{:?} {:?}", a, b);
            assert_eq!(paths_equal(a, b), left == right, "{:?} {:?}", a, b);
            assert_eq!(compare_paths(a, b).to_ordering(), left.cmp(right), "{:?} {:?}", a, b);
        }
    }
}

fn option(token: &str) -> MntOps {
    match token {
        "atime" => MntOps::Atime(true),
        "noatime" => MntOps::Atime(false),
        "diratime" => MntOps::DirAtime(true),
        "nodiratime" => MntOps::DirAtime(false),
        "relatime" => MntOps::RelAtime(true),
        "norelatime" => MntOps::RelAtime(false),
        "dev" => MntOps::Dev(true),
        "nodev" => MntOps::Dev(false),
        "exec" => MntOps::Exec(true),
        "noexec" => MntOps::Exec(false),
        "suid" => MntOps::Suid(true),
        "nosuid" => MntOps::Suid(false),
        "rw" => MntOps::Write(true),
        "ro" => MntOps::Write(false),
        extra => MntOps::Extra(extra.to_string()),
    }
}

// What a line is read as, said with the standard library alone.
fn expected(line: &str) -> Result<(String, PathBuf, String, Vec<MntOps>, DumpField, Option<i32>), LineError> {
    let line = line.trim();
    let mut tokens = line.split_terminator(|s: char| s == ' ' || s == '\t').filter(|s| s != &"");
    let spec = tokens.next().ok_or(LineError::MissingSpec)?.to_string();
    let file = tokens.next().ok_or(LineError::MissingFile)?;
    if file.contains('\0') {
        return Err(LineError::InvalidFile(file.into()));
    }
    let path = PathBuf::from(file);
    if path.is_relative() {
        return Err(LineError::InvalidFilePath(file.into()));
    }
    let vfstype = tokens.next().ok_or(LineError::MissingVfstype)?.to_string();
    let mntops =
        tokens.next().ok_or(LineError::MissingMntops)?.split_terminator(',').map(option).collect();
    let freq = tokens.next().ok_or(LineError::MissingFreq)?;
    let freq = match freq.parse::<i32>() {
        Ok(0) => DumpField::Ignore,
        Ok(1) => DumpField::Backup,
        _ => return Err(LineError::InvalidFreq(freq.into())),
    };
    let passno = tokens.next().ok_or(LineError::MissingPassno)?;
    let passno = match passno.parse::<i32>() {
        Ok(0) => None,
        Ok(f) if f > 0 => Some(f),
        _ => return Err(LineError::InvalidPassno(passno.into())),
    };
    Ok((spec, path, vfstype, mntops, freq, passno))
}

fn agrees(line: &str) {
    let wanted = expected(line);
    match MountEntry::from_str(line) {
        Ok(entry) => {
            let (spec, path, vfstype, mntops, freq, passno) = wanted.expect(line);
            assert_eq!(entry.spec, spec, "{:?}", line);
            assert_eq!(Path::new(entry.file.as_str()), path, "{:?}", line);
            assert_eq!(entry.file.as_str(), path.to_str().unwrap(), "{:?}", line);
            assert_eq!(entry.vfstype, vfstype, "{:?}", line);
            assert_eq!(entry.mntops, mntops, "{:?}", line);
            assert_eq!(entry.freq, freq, "{:?}", line);
            assert_eq!(entry.passno, passno, "{:?}", line);
        }
        Err(error) => assert_eq!(Err(error), wanted.map(|_| ()), "{:?}", line),
    }
}

#[test]
fn lines_agree_with_std_on_every_short_text() {
    for line in texts(&[' ', '\t', '/', 'a', '0', '1', ','], 6) {
        agrees(&line);
    }
}

#[test]
fn lines_agree_with_std_on_many_texts() {
    let pieces = [
        " ", "  ", "\t", "\n", "\r", "\u{a0}", "\u{3000}", "/", "//", ".", "..", ",", ",,", "0", "1",
        "2", "-", "+", "-1", "+1", "00", "2147483647", "2147483648", "rw", "ro", "noexec", "nodev",
        "size=1k", "a", "b/c", "\0", "\u{e9}", "rootfs", "/dev/sda1", "ext4",
    ];
    let mut state: u64 = 0x2545f4914f6cdd1d;
    for _ in 0..20000 {
        let mut line = String::new();
        state = state.wrapping_mul(6364136223846793005).wrapping_add(1442695040888963407);
        let count = 1 + (state >> 59) as usize;
        for _ in 0..count {
            state = state.wrapping_mul(6364136223846793005).wrapping_add(1442695040888963407);
            line.push_str(pieces[(state >> 33) as usize % pieces.len()]);
            state = state.wrapping_mul(6364136223846793005).wrapping_add(1442695040888963407);
            if (state >> 62) != 0 {
                line.push(' ');
            }
        }
        agrees(&line);
    }
}

#[test]
fn well_formed_lines_agree_with_std() {
    let specs = ["rootfs", "/dev/sda1", "tmpfs", "//server/share", "\u{e9}"];
    let files = ["/", "/var", "/var/", "//var//tmp", "/a/./b", "/a/../b", "relative", "./x", "/x\0"];
    let options = ["rw", "ro,noexec", "rw,,size=1k,", ",", "nodev,nosuid,noatime,user=me", "RW"];
    let freqs = ["0", "1", "2", "+0", "-0", "01", "x", ""];
    let passes = ["0", "1", "2", "-1", "+7", "007", "2147483647", "2147483648", "y"];
    for spec in specs {
        for file in files {
            for option in options {
                for freq in freqs {
                    for pass in passes {
                        agrees(&format!("{} {} ext4 {} {} {}", spec, file, option, freq, pass));
                        agrees(&format!("\t{}\t{}  ext4 \t{} {} {} trailing\n", spec, file, option, freq, pass));
                    }
                }
            }
        }
    }
}

// A table of mounts on paths drawn from a few names, in an order that `seed`
// decides.
fn random_table(seed: u64, lines: usize) -> Vec<MountEntry> {
    let paths = [
        "/", "/a", "/a/", "/a/b", "/a/b/c", "/a/c", "/b", "/b/a", "//b//a/", "/c", "/a/./b", "/ab",
    ];
    let mut state = seed;
    let mut table = Vec::new();
    for number in 0..lines {
        state = state.wrapping_mul(6364136223846793005).wrapping_add(1442695040888963407);
        let path = paths[(state >> 33) as usize % paths.len()];
        table.push(MountEntry::from_str(&format!("dev{} {} ext4 rw 0 0", number, path)).unwrap());
    }
    table
}

// The mounts that no later mount hides, said with the standard library.
fn expected_left(table: &[MountEntry], excluded: &[&str]) -> Vec<MountEntry> {
    let mut sorted: Vec<MountEntry> = Vec::new();
    for mount in table.iter().rev() {
        let file = Path::new(mount.file.as_str());
        if file == Path::new("/") {
            continue;
        }
        let mut has_overlaps = false;
        for mount_sorted in sorted.iter() {
            let sorted_file = Path::new(mount_sorted.file.as_str());
            if excluded.iter().any(|x| sorted_file == Path::new(x)) {
                continue;
            }
            if file.starts_with(sorted_file) {
                has_overlaps = true;
                break;
            }
        }
        if !has_overlaps {
            sorted.push(mount.clone());
        }
    }
    sorted.reverse();
    sorted
}

#[test]
fn overlaps_agree_with_std_on_many_tables() {
    let exclusions: [&[&str]; 4] = [&[], &["/a"], &["/a/b/", "/b"], &["/", "/c", "/a//c"]];
    for seed in 0..400u64 {
        let table = random_table(seed, (seed % 9) as usize);
        for excluded in exclusions {
            let paths: Vec<mnt::MountPath> =
                excluded.iter().map(|path| mnt::MountPath::new(path)).collect();
            let left = mnt::VecMountEntry::remove_overlaps(table.clone(), &paths);
            let specs: Vec<&String> = left.iter().map(|entry| &entry.spec).collect();
            let wanted = expected_left(&table, excluded);
            let wanted: Vec<&String> = wanted.iter().map(|entry| &entry.spec).collect();
            assert_eq!(specs, wanted, "seed {} excluded {:?}", seed, excluded);
            let again = mnt::VecMountEntry::remove_overlaps(left.clone(), &paths);
            assert_eq!(again, left);
        }
    }
}

#[test]
fn resolution_is_the_deepest_and_then_the_last() {
    let targets = ["/", "/a", "/a/b/c/d", "/a/c/x", "/b/a/", "/ab/c", "/d", "a", ""];
    for seed in 0..400u64 {
        let table = random_table(seed, (seed % 9) as usize);
        let reads: Vec<Result<String, String>> = table
            .iter()
            .map(|entry| Ok(format!("{} {} ext4 rw 0 0", entry.spec, entry.file.as_str())))
            .collect();
        for target in targets {
            let mut wanted: Option<&MountEntry> = None;
            for entry in &table {
                let file = Path::new(entry.file.as_str());
                let deep_enough = match wanted {
                    Some(held) => {
                        file.components().count() >= Path::new(held.file.as_str()).components().count()
                    }
                    None => true,
                };
                if Path::new(target).starts_with(file) && deep_enough {
                    wanted = Some(entry);
                }
            }
            let found = mnt::get_mount_from(target, mnt::MountIter::new(reads.clone())).unwrap();
            assert_eq!(found.as_ref().map(|entry| &entry.spec), wanted.map(|entry| &entry.spec));
            let mut at: Option<&MountEntry> = None;
            for entry in &table {
                if Path::new(target) == Path::new(entry.file.as_str()) {
                    at = Some(entry);
                }
            }
            let found = mnt::get_mount_at(target, mnt::MountIter::new(reads.clone())).unwrap();
            assert_eq!(found.as_ref().map(|entry| &entry.spec), at.map(|entry| &entry.spec));
            let under: Vec<&String> = table
                .iter()
                .filter(|entry| Path::new(entry.file.as_str()).starts_with(target))
                .map(|entry| &entry.spec)
                .collect();
            let found = mnt::get_submounts_from(target, mnt::MountIter::new(reads.clone())).unwrap();
            assert_eq!(found.iter().map(|entry| &entry.spec).collect::<Vec<_>>(), under);
        }
    }
}
