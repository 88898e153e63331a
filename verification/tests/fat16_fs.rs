use taos::filesys::block::memory::MemoryBlockDevice;
use taos::filesys::fat16::boot_sector::BootSector;
use taos::filesys::fat16::dir_entry::DirEntry83;
use taos::filesys::fat16::fat_entry::FatEntry;
use taos::filesys::fat16::path::{bytes_eq, components, rfind, split_last};
use taos::filesys::fat16::Fat16;
use taos::filesys::{BlockDevice, FileSystem, FsError, SeekFrom};

fn formatted() -> Fat16<MemoryBlockDevice> {
    let device = MemoryBlockDevice::new(4096, 512);
    Fat16::format(device).unwrap()
}

#[test]
fn memory_device_read_after_write() {
    let mut dev = MemoryBlockDevice::new(8, 512);
    assert_eq!(dev.block_size(), 512);
    assert_eq!(dev.total_blocks(), 8);
    let data = vec![7u8; 512];
    dev.write_block(3, &data).unwrap();
    let mut buf = vec![0u8; 512];
    dev.read_block(3, &mut buf).unwrap();
    assert_eq!(buf, data);
    dev.read_block(2, &mut buf).unwrap();
    assert_eq!(buf, vec![0u8; 512]);
}

#[test]
fn memory_device_errors() {
    let mut dev = MemoryBlockDevice::new(8, 512);
    let mut buf = vec![0u8; 512];
    assert!(matches!(dev.read_block(8, &mut buf), Err(FsError::IOError)));
    let mut small = vec![0u8; 10];
    assert!(dev.read_block(0, &mut small).is_err());
    assert!(dev.write_block(0, &[1u8; 10]).is_err());
}

#[test]
fn format_writes_boot_sector() {
    let fs = formatted();
    let mut block = vec![0u8; 512];
    fs.device.read_block(0, &mut block).unwrap();
    assert_eq!(&block[0..3], &[0xEB, 0x3C, 0x90]);
    assert_eq!(&block[3..11], b"UTTAOS.0");
    assert_eq!(block[510], 0x55);
    assert_eq!(block[511], 0xAA);
    let bs = BootSector::read_from(&block);
    assert_eq!(bs.bytes_per_sector, 512);
    assert_eq!(bs.sectors_per_cluster, 4);
    assert_eq!(bs.fat_count, 2);
    assert_eq!(bs.total_sectors_16, 4096);
    // (4096 - 1 - 32) / 4 = 1015 clusters, two bytes each, in 512-byte sectors.
    assert_eq!(bs.sectors_per_fat, 4);
    assert_eq!(bs.to_bytes(), block[0..62].to_vec());
    // The first FAT sector starts with the media byte and end markers.
    fs.device.read_block(1, &mut block).unwrap();
    assert_eq!(&block[0..4], &[0xF8, 0xFF, 0xFF, 0xFF]);
    assert!(block[4..].iter().all(|b| *b == 0));
    fs.device.read_block(5, &mut block).unwrap();
    assert_eq!(&block[0..4], &[0xF8, 0xFF, 0xFF, 0xFF]);
    for k in (2..5).chain(6..41) {
        fs.device.read_block(k, &mut block).unwrap();
        assert!(block.iter().all(|b| *b == 0));
    }
}

#[test]
fn create_write_read_file() {
    let mut fs = formatted();
    fs.create_file("/hello.txt").unwrap();
    let fd = fs.open_file("/hello.txt").unwrap();
    assert_eq!(fd, 0);
    assert_eq!(fs.write_file(fd, b"hello, fat").unwrap(), 10);
    assert_eq!(fs.seek_file(fd, SeekFrom::Start(0)).unwrap(), 0);
    let mut buf = [0u8; 32];
    let n = fs.read_file(fd, &mut buf).unwrap();
    assert_eq!(n, 10);
    assert_eq!(&buf[..10], b"hello, fat");
    assert_eq!(fs.read_file(fd, &mut buf).unwrap(), 0);
    let md = fs.metadata("/hello.txt").unwrap();
    assert_eq!(md.size, 10);
    assert!(!md.is_dir);
    assert!(md.permissions.readable && md.permissions.writable);
}

#[test]
fn write_within_and_past_a_cluster() {
    let mut fs = formatted();
    fs.create_file("big.bin").unwrap();
    let fd = fs.open_file("big.bin").unwrap();
    let data: Vec<u8> = (0..2000u32).map(|i| (i % 251) as u8).collect();
    assert_eq!(fs.write_file(fd, &data).unwrap(), 2000);
    let fd2 = fs.open_file("big.bin").unwrap();
    let mut back = vec![0u8; 2000];
    assert_eq!(fs.read_file(fd2, &mut back).unwrap(), 2000);
    assert_eq!(back, data);
    assert_eq!(fs.metadata("big.bin").unwrap().size, 2000);
    // Filling the first cluster chains a second one.
    assert_eq!(fs.write_file(fd, &[1u8; 100]).unwrap(), 100);
    assert_eq!(fs.metadata("big.bin").unwrap().size, 2100);
    let fd3 = fs.open_file("big.bin").unwrap();
    let mut all = vec![0u8; 2100];
    assert_eq!(fs.read_file(fd3, &mut all).unwrap(), 2100);
    assert_eq!(&all[..2000], &data[..]);
    assert!(all[2000..].iter().all(|b| *b == 1));
}

#[test]
fn create_file_errors() {
    let mut fs = formatted();
    assert!(matches!(fs.create_file("/averyverylongname.txt"), Err(FsError::InvalidName)));
    assert!(matches!(fs.create_file("abcdefghij"), Err(FsError::InvalidName)));
    assert!(matches!(fs.create_file("abc.defg"), Err(FsError::InvalidName)));
    fs.create_file("/a.txt").unwrap();
    assert!(matches!(fs.create_file("/a.txt"), Err(FsError::AlreadyExists)));
    assert!(matches!(fs.create_dir("/toolongdirname"), Err(FsError::InvalidName)));
    assert!(matches!(fs.open_file("/missing.txt"), Err(FsError::NotFound)));
    assert!(matches!(fs.metadata("/"), Err(FsError::InvalidName)));
}

#[test]
fn directories() {
    let mut fs = formatted();
    fs.create_dir("/docs").unwrap();
    fs.create_file("/docs/note.md").unwrap();
    let root = fs.read_dir("/").unwrap();
    assert_eq!(root.len(), 1);
    assert_eq!(root[0].name, "docs");
    assert!(root[0].metadata.is_dir);
    let docs = fs.read_dir("/docs").unwrap();
    assert_eq!(docs.len(), 1);
    assert_eq!(docs[0].name, "note.md");
    assert!(!docs[0].metadata.is_dir);
    assert!(matches!(fs.open_file("/docs"), Err(FsError::NotSupported)));
    assert!(matches!(fs.read_dir("/docs/note.md"), Err(FsError::NotSupported)));
    assert!(matches!(fs.remove_dir("/docs"), Err(FsError::DirectoryNotEmpty)));
    assert!(matches!(fs.remove_file("/docs"), Err(FsError::NotSupported)));
    fs.remove_file("/docs/note.md").unwrap();
    assert!(matches!(fs.metadata("/docs/note.md"), Err(FsError::NotFound)));
    fs.remove_dir("/docs").unwrap();
    assert_eq!(fs.read_dir("").unwrap().len(), 0);
}

#[test]
fn remove_frees_the_chain() {
    let mut fs = formatted();
    fs.create_file("/a.txt").unwrap();
    // The first free cluster of a fresh volume is 2; the new file ends its chain there.
    assert_eq!(fs.read_fat_entry(2).unwrap().cluster, 0xFFFF);
    fs.remove_file("/a.txt").unwrap();
    assert_eq!(fs.read_fat_entry(2).unwrap().cluster, 0);
    assert!(matches!(fs.metadata("/a.txt"), Err(FsError::NotFound)));
    // The slot is free for the next file, which gets cluster 2 again.
    fs.create_file("/b.txt").unwrap();
    assert_eq!(fs.read_fat_entry(2).unwrap().cluster, 0xFFFF);
}

#[test]
fn write_and_read_across_clusters() {
    let mut fs = formatted();
    fs.create_file("/big.bin").unwrap();
    let fd = fs.open_file("/big.bin").unwrap();
    let data: Vec<u8> = (0..5000u32).map(|i| (i % 251) as u8).collect();
    assert_eq!(fs.write_file(fd, &data).unwrap(), 5000);
    // Clusters hold 2048 bytes: the chain is 2 -> 3 -> 4, which ends it.
    assert_eq!(fs.read_fat_entry(2).unwrap().cluster, 3);
    assert_eq!(fs.read_fat_entry(3).unwrap().cluster, 4);
    assert_eq!(fs.read_fat_entry(4).unwrap().cluster, 0xFFFF);
    assert_eq!(fs.metadata("/big.bin").unwrap().size, 5000);
    let fd2 = fs.open_file("/big.bin").unwrap();
    let mut back = vec![0u8; 6000];
    assert_eq!(fs.read_file(fd2, &mut back).unwrap(), 5000);
    assert_eq!(&back[..5000], &data[..]);
    assert!(back[5000..].iter().all(|b| *b == 0));
}

#[test]
fn lookups_refuse_the_wrong_kind() {
    let mut fs = formatted();
    fs.create_dir("/d").unwrap();
    fs.create_file("/f.txt").unwrap();
    assert!(matches!(fs.open_file("/d"), Err(FsError::NotSupported)));
    assert!(matches!(fs.read_dir("/f.txt"), Err(FsError::NotSupported)));
    assert!(matches!(fs.remove_file("/d"), Err(FsError::NotSupported)));
    assert!(matches!(fs.remove_dir("/f.txt"), Err(FsError::NotSupported)));
    assert!(matches!(fs.create_file("/f.txt"), Err(FsError::AlreadyExists)));
    assert!(matches!(fs.rename("/f.txt", "/d"), Err(FsError::AlreadyExists)));
    assert!(matches!(fs.open_file("/none.txt"), Err(FsError::NotFound)));
    assert!(fs.read_dir("/").is_ok());
    assert!(fs.open_file("/f.txt").is_ok());
}

#[test]
fn rename_moves_entry() {
    let mut fs = formatted();
    fs.create_file("/old.txt").unwrap();
    fs.create_file("/other.txt").unwrap();
    assert!(matches!(fs.rename("/old.txt", "/other.txt"), Err(FsError::AlreadyExists)));
    fs.rename("/old.txt", "/new.dat").unwrap();
    assert!(matches!(fs.metadata("/old.txt"), Err(FsError::NotFound)));
    assert_eq!(fs.metadata("/new.dat").unwrap().size, 0);
    let names: Vec<String> = fs.read_dir("/").unwrap().into_iter().map(|e| e.name).collect();
    assert!(names.contains(&"new.dat".to_string()));
    assert!(!names.contains(&"old.txt".to_string()));
}

#[test]
fn close_reuses_largest_descriptor() {
    let mut fs = formatted();
    fs.create_file("/a").unwrap();
    let a = fs.open_file("/a").unwrap();
    let b = fs.open_file("/a").unwrap();
    let c = fs.open_file("/a").unwrap();
    assert_eq!((a, b, c), (0, 1, 2));
    fs.close_file(a);
    fs.close_file(c);
    assert_eq!(fs.open_file("/a").unwrap(), 2);
    assert_eq!(fs.open_file("/a").unwrap(), 0);
    assert_eq!(fs.open_file("/a").unwrap(), 3);
}

#[test]
fn seek_rules() {
    let mut fs = formatted();
    fs.create_file("/s").unwrap();
    let fd = fs.open_file("/s").unwrap();
    fs.write_file(fd, b"0123456789").unwrap();
    assert_eq!(fs.seek_file(fd, SeekFrom::End(-4)).unwrap(), 6);
    assert_eq!(fs.seek_file(fd, SeekFrom::Current(2)).unwrap(), 8);
    assert!(matches!(fs.seek_file(fd, SeekFrom::Current(5)), Err(FsError::InvalidOffset)));
    assert!(matches!(fs.seek_file(fd, SeekFrom::End(-11)), Err(FsError::InvalidOffset)));
    assert!(matches!(fs.seek_file(fd, SeekFrom::Start(11)), Err(FsError::InvalidOffset)));
    assert!(matches!(fs.seek_file(fd, SeekFrom::End(1)), Err(FsError::InvalidOffset)));
    let mut buf = [0u8; 4];
    assert_eq!(fs.read_file(fd, &mut buf).unwrap(), 2);
    assert_eq!(&buf[..2], b"89");
}

#[test]
fn fat_entries_read_back() {
    let mut fs = formatted();
    assert_eq!(fs.read_fat_entry(0).unwrap().cluster, 0xFFF8);
    fs.write_fat_entry(7, FatEntry { cluster: 0x1234 }).unwrap();
    assert_eq!(fs.read_fat_entry(7).unwrap().cluster, 0x1234);
    assert_eq!(fs.read_fat_entry(8).unwrap().cluster, 0);
    // The second FAT holds the same sector.
    let mut first = vec![0u8; 512];
    let mut second = vec![0u8; 512];
    fs.device.read_block(1, &mut first).unwrap();
    fs.device.read_block(5, &mut second).unwrap();
    assert_eq!(first, second);
    assert_eq!(fs.allocate_cluster().unwrap(), 2);
    assert_eq!(fs.read_fat_entry(2).unwrap().cluster, 0xFFFF);
    assert_eq!(fs.cluster_to_sector(2), 1 + 2 * 4 + 32);
}

#[test]
fn fat_entry_kinds() {
    assert!(FatEntry { cluster: 0xFFFF }.is_end_of_chain());
    assert!(FatEntry { cluster: 0xFFF8 }.is_end_of_chain());
    assert!(!FatEntry { cluster: 0xFFF7 }.is_end_of_chain());
    assert!(FatEntry { cluster: 0 }.is_free());
    assert!(!FatEntry { cluster: 3 }.is_free());
}

#[test]
fn dir_entry_names_and_bytes() {
    let e = DirEntry83::new_file("report", "txt", 9);
    assert_eq!(&e.name, b"report  ");
    assert_eq!(&e.ext, b"txt");
    assert_eq!(e.get_name(), "report.txt");
    assert!(!e.is_directory());
    assert!(!e.is_free());
    assert!(!e.is_deleted());
    let long = DirEntry83::new_file("averylongname", "json", 3);
    assert_eq!(long.get_name(), "averylon.jso");
    let d = DirEntry83::new_directory("bin", 4);
    assert!(d.is_directory());
    assert_eq!(d.get_name(), "bin");
    let bytes = e.to_bytes();
    assert_eq!(bytes.len(), 32);
    assert_eq!(&bytes[26..28], &9u16.to_le_bytes());
    let back = DirEntry83::read_from(&bytes, 0);
    assert_eq!(back.get_name(), "report.txt");
    assert_eq!(back.start_cluster, 9);
    let mut sector = vec![0u8; 64];
    e.write_to(&mut sector, 32);
    assert_eq!(&sector[32..64], &bytes[..]);
    assert_eq!(&sector[0..32], &[0u8; 32]);
    let mut deleted = e;
    deleted.name[0] = 0xE5;
    assert!(deleted.is_deleted());
}

#[test]
fn paths() {
    let comps = components(b"//usr/local//bin/");
    assert_eq!(comps, vec![b"usr".to_vec(), b"local".to_vec(), b"bin".to_vec()]);
    assert!(components(b"///").is_empty());
    assert_eq!(rfind(b"a/b/c", b'/'), Some(3));
    assert_eq!(rfind(b"abc", b'/'), None);
    assert_eq!(split_last(b"dir/file.txt", b'/', false), (b"dir".to_vec(), b"file.txt".to_vec()));
    assert_eq!(split_last(b"file", b'/', false), (vec![], b"file".to_vec()));
    assert_eq!(split_last(b"file", b'.', true), (b"file".to_vec(), vec![]));
    assert!(bytes_eq(b"ab", b"ab"));
    assert!(!bytes_eq(b"ab", b"abc"));
}
