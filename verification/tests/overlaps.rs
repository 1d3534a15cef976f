use mnt::{MountEntry, MountPath, VecMountEntry};

fn table(lines: &[&str]) -> Vec<MountEntry> {
    lines.iter().map(|line| MountEntry::from_str(line).unwrap()).collect()
}

fn specs(entries: &[MountEntry]) -> Vec<String> {
    entries.iter().map(|entry| entry.spec.clone()).collect()
}

#[test]
fn a_later_mount_hides_what_lies_below_it() {
    let entries = table(&[
        "a /mnt ext4 rw 0 0",
        "b /mnt/data ext4 rw 0 0",
        "c /srv ext4 rw 0 0",
        "d /mnt ext4 rw 0 0",
        "e /mnt/data/deep ext4 rw 0 0",
    ]);
    let left = entries.remove_overlaps(&vec![]);
    assert_eq!(specs(&left), ["c", "d", "e"]);
}

#[test]
fn a_mount_below_an_earlier_one_hides_nothing_above() {
    let entries = table(&["a /mnt ext4 rw 0 0", "b /mnt/data ext4 rw 0 0"]);
    let left = entries.remove_overlaps(&vec![]);
    assert_eq!(specs(&left), ["a", "b"]);
}

#[test]
fn root_mounts_are_taken_away() {
    let entries = table(&[
        "rootfs / rootfs rw 0 0",
        "a /mnt ext4 rw 0 0",
        "/dev/root // ext4 rw 0 0",
        "b /srv ext4 rw 0 0",
    ]);
    let left = entries.remove_overlaps(&vec![]);
    assert_eq!(specs(&left), ["a", "b"]);
}

#[test]
fn an_excluded_path_hides_nothing() {
    let lines = [
        "a /mnt ext4 rw 0 0",
        "b /mnt/data ext4 rw 0 0",
        "c /mnt ext4 rw 0 0",
        "d /mnt/data/deep ext4 rw 0 0",
    ];
    let left = table(&lines).remove_overlaps(&vec![]);
    assert_eq!(specs(&left), ["c", "d"]);
    let left = table(&lines).remove_overlaps(&vec![MountPath::new("/mnt/")]);
    assert_eq!(specs(&left), ["a", "b", "c", "d"]);
    let left = table(&lines).remove_overlaps(&vec![MountPath::new("/mnt/data")]);
    assert_eq!(specs(&left), ["c", "d"]);
}

#[test]
fn a_hidden_mount_hides_nothing_itself() {
    let entries = table(&[
        "a /x/y/z ext4 rw 0 0",
        "b /x/y ext4 rw 0 0",
        "c /x ext4 rw 0 0",
    ]);
    // `b` hides `a`; `c` hides neither, for it is above both and later.
    let left = entries.remove_overlaps(&vec![]);
    assert_eq!(specs(&left), ["c"]);
    let entries = table(&[
        "a /x/y/z ext4 rw 0 0",
        "b /x/y ext4 rw 0 0",
        "c /x ext4 rw 0 0",
    ]);
    // With `/x` excluded `c` hides nothing, and `b` still hides `a`.
    let left = entries.remove_overlaps(&vec![MountPath::new("/x")]);
    assert_eq!(specs(&left), ["b", "c"]);
}

#[test]
fn removing_overlaps_twice_changes_nothing() {
    let lines = [
        "rootfs / rootfs rw 0 0",
        "a /mnt ext4 rw 0 0",
        "b /mnt/data ext4 rw 0 0",
        "c /srv ext4 rw 0 0",
        "d /mnt ext4 rw 0 0",
        "e /mnt/data/deep ext4 rw 0 0",
        "f /srv/www/../x ext4 rw 0 0",
        "g /srv ext4 rw 0 0",
    ];
    for excluded in [vec![], vec![MountPath::new("/mnt")], vec![MountPath::new("/srv"), MountPath::new("/")]] {
        let once = table(&lines).remove_overlaps(&excluded);
        let twice = once.clone().remove_overlaps(&excluded);
        assert_eq!(once, twice);
    }
}

#[test]
fn nothing_is_left_of_nothing() {
    let left = Vec::<MountEntry>::new().remove_overlaps(&vec![]);
    assert!(left.is_empty());
}
