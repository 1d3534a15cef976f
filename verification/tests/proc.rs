use mnt::MountEntry;

// A mount table as the kernel writes it under /proc/mounts.
const PROC_MOUNTS: &str = "\
proc /proc proc rw,nosuid,nodev,noexec,relatime 0 0
sysfs /sys sysfs rw,nosuid,nodev,noexec,relatime 0 0
devtmpfs /dev devtmpfs rw,relatime,size=8230268k,nr_inodes=2057567,mode=755 0 0
tmpfs /dev/shm tmpfs rw,nosuid,nodev 0 0
devpts /dev/pts devpts rw,nosuid,noexec,relatime,gid=5,mode=620,ptmxmode=000 0 0
/dev/sda2 / ext4 rw,relatime,errors=remount-ro 0 0
/dev/sda1 /boot/efi vfat rw,relatime,fmask=0077,dmask=0077,codepage=437,iocharset=iso8859-1 0 0
tmpfs /sys/fs/cgroup tmpfs ro,nosuid,nodev,noexec,mode=755 0 0
cgroup2 /sys/fs/cgroup/unified cgroup2 rw,nosuid,nodev,noexec,relatime,nsdelegate 0 0
cgroup /sys/fs/cgroup/cpu,cpuacct cgroup rw,nosuid,nodev,noexec,relatime,cpu,cpuacct 0 0
systemd-1 /proc/sys/fs/binfmt_misc autofs rw,relatime,fd=29,pgrp=1,timeout=0,minproto=5,maxproto=5,direct 0 0
//server/share /mnt/with\\040space cifs rw,relatime,vers=3.0,user=me 0 0
overlay /var/lib/docker/overlay2/merged overlay rw,relatime,lowerdir=/a:/b,upperdir=/c,workdir=/d 0 0
";

fn test_lines(table: &str) -> Result<(), String> {
    for line in table.lines() {
        match MountEntry::from_str(line) {
            Ok(_) => {}
            Err(e) => return Err(format!("Error for `{}`: {}", line.trim(), e.to_string())),
        }
    }
    Ok(())
}

#[test]
fn lib_test_proc_mounts() {
    assert!(test_lines(PROC_MOUNTS).is_ok());
}

#[test]
fn parse_test_proc_mounts() {
    assert!(test_lines(PROC_MOUNTS).is_ok());
    assert_eq!(
        test_lines("proc /proc proc rw 0 0\n/dev/mapper/swap none swap sw 0 0\n"),
        Err("Error for `/dev/mapper/swap none swap sw 0 0`: Line parsing: Bad field #2 (file) value (not absolute path): none".to_string())
    );
}
