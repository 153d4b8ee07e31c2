use memfs::memfs::{MemFS, MemFSDirNode, MemFSFileDescriptor, MemFSFileNode};
use memfs::path::{
    get_last_component_of_path, is_absolute_path, path_str_to_iter,
    path_str_to_iter_and_without_last_component,
};
use memfs::utils::{
    generate_random_vector, MemFSErr, MemFSErrType, OpenFlag, SeekFlag, FILE_MAX_SIZE,
    NUMBER_OF_MAXIMUM_FILES,
};

fn kind<T>(result: Result<T, MemFSErr>) -> Option<MemFSErrType> {
    match result {
        Ok(_) => None,
        Err(e) => Some(e.err_type),
    }
}

#[test]
fn test_flag_bits_and_operators() {
    assert_eq!(OpenFlag::O_RDONLY().bits(), 0b1);
    assert_eq!(OpenFlag::O_WRONLY().bits(), 0b10);
    assert_eq!(OpenFlag::O_RDWR().bits(), 0b100);
    assert_eq!(OpenFlag::O_CREAT().bits(), 0b1000);
    assert_eq!(OpenFlag::O_EXCL().bits(), 0b10000);
    assert_eq!(OpenFlag::O_APPEND().bits(), 0b100000);
    assert_eq!(OpenFlag::empty().bits(), 0);

    let both = OpenFlag::O_CREAT() | OpenFlag::O_RDWR();
    assert_eq!(both.bits(), 0b1100);
    assert!(both.contains(OpenFlag::O_CREAT()));
    assert!(both.contains(OpenFlag::O_RDWR()));
    assert!(!both.contains(OpenFlag::O_EXCL()));
    assert!(!both.contains(OpenFlag::O_CREAT() | OpenFlag::O_EXCL()));
    assert_eq!((both & OpenFlag::O_CREAT()).bits(), 0b1000);
    assert_eq!((!OpenFlag::O_CREAT()).bits(), 0b110111);
    assert_eq!((both & !OpenFlag::O_CREAT()).bits(), 0b100);
    assert_eq!(both, OpenFlag::O_RDWR() | OpenFlag::O_CREAT());
}

#[test]
fn test_mode_exclusiveness_of_every_access_combination() {
    let r = OpenFlag::O_RDONLY();
    let w = OpenFlag::O_WRONLY();
    let rw = OpenFlag::O_RDWR();

    assert!(r.check_mode_exclusiveness());
    assert!(w.check_mode_exclusiveness());
    assert!(rw.check_mode_exclusiveness());
    assert!((r | OpenFlag::O_CREAT() | OpenFlag::O_EXCL() | OpenFlag::O_APPEND())
        .check_mode_exclusiveness());
    assert!(!OpenFlag::empty().check_mode_exclusiveness());
    assert!(!(OpenFlag::O_CREAT() | OpenFlag::O_EXCL()).check_mode_exclusiveness());
    assert!(!(r | w).check_mode_exclusiveness());
    assert!(!(r | rw).check_mode_exclusiveness());
    assert!(!(w | rw).check_mode_exclusiveness());
    assert!(!(r | w | rw).check_mode_exclusiveness());
}

#[test]
fn test_error_constructors_give_kind_and_message() {
    let e = MemFSErr::no_such_file_or_directory();
    assert_eq!(e.err_type, MemFSErrType::ENOENT);
    assert_eq!(e.message, "No such file or directory");
    assert_eq!(e.to_string(), "No such file or directory");

    let e = MemFSErr::bad_file_descriptor();
    assert_eq!(e.err_type, MemFSErrType::EBADF);
    assert_eq!(e.message, "Not a file descriptor");

    let e = MemFSErr::is_directory();
    assert_eq!(e.err_type, MemFSErrType::EISDIR);
    assert_eq!(e.message, "Is a directory");

    let e = MemFSErr::is_not_directory();
    assert_eq!(e.err_type, MemFSErrType::ENOTDIR);
    assert_eq!(e.message, "Is not a directory");

    let e = MemFSErr::bad_memory_access();
    assert_eq!(e.err_type, MemFSErrType::EFAULT);
    assert_eq!(e.message, "Bad memory access");

    let e = MemFSErr::already_exists();
    assert_eq!(e.err_type, MemFSErrType::EEXIST);
    assert_eq!(e.message, "An entry with name already exists");

    let e = MemFSErr::invalid_value();
    assert_eq!(e.err_type, MemFSErrType::EINVAL);
    assert_eq!(e.message, "Invalid value");

    let e = MemFSErr::is_not_empty();
    assert_eq!(e.err_type, MemFSErrType::ENOTEMPTY);
    assert_eq!(e.message, "Directory is not empty");

    let e = MemFSErr::poisoned_lock();
    assert_eq!(e.err_type, MemFSErrType::PoisonedLock);
    assert_eq!(e.message, "Lock poison error");

    let e = MemFSErr::busy();
    assert_eq!(e.err_type, MemFSErrType::EBUSY);
    assert_eq!(e.message, "Device or resource busy");

    let e = MemFSErr::file_too_large();
    assert_eq!(e.err_type, MemFSErrType::EFBIG);
    assert_eq!(e.message, "File too large");

    let e = MemFSErr::out_of_memory();
    assert_eq!(e.err_type, MemFSErrType::ENOMEM);
    assert_eq!(e.message, "Out of memory");

    let e = MemFSErr::with_message("something else");
    assert_eq!(e.err_type, MemFSErrType::Misc);
    assert_eq!(e.message, "something else");
}

#[test]
fn test_random_vector_has_the_length_asked_for() {
    assert_eq!(generate_random_vector(0).len(), 0);
    assert_eq!(generate_random_vector(1).len(), 1);
    assert_eq!(generate_random_vector(4096).len(), 4096);
    // 64 random bytes that are all equal would be one chance in 2^504.
    let bytes = generate_random_vector(64);
    assert!(bytes.iter().any(|b| *b != bytes[0]));
}

#[test]
fn test_path_components_skip_empty_and_dot() {
    let names = path_str_to_iter("/a///b/./c/..").unwrap();
    assert_eq!(names, vec!["a", "b", "c", ".."]);

    let names = path_str_to_iter("relative/./path/").unwrap();
    assert_eq!(names, vec!["relative", "path"]);

    assert!(path_str_to_iter("/").unwrap().is_empty());
    assert!(path_str_to_iter("/./").unwrap().is_empty());
    assert!(path_str_to_iter(".").unwrap().is_empty());
    assert_eq!(path_str_to_iter("..").unwrap(), vec![".."]);
    assert_eq!(path_str_to_iter("...").unwrap(), vec!["..."]);
    assert_eq!(path_str_to_iter(".a").unwrap(), vec![".a"]);
    assert_eq!(path_str_to_iter("/é/ü").unwrap(), vec!["é", "ü"]);
    assert_eq!(kind(path_str_to_iter("")), Some(MemFSErrType::ENOENT));
}

#[test]
fn test_parent_components_drop_the_last_component() {
    let names = path_str_to_iter_and_without_last_component("/a///b/./c/..").unwrap();
    assert_eq!(names, vec!["a", "b", "c"]);
    assert_eq!(
        path_str_to_iter_and_without_last_component("/a/b/").unwrap(),
        vec!["a"]
    );
    assert!(path_str_to_iter_and_without_last_component("/a").unwrap().is_empty());
    assert!(path_str_to_iter_and_without_last_component("/").unwrap().is_empty());
    // The last component that is dropped is the last that counts: `.` does not.
    assert!(path_str_to_iter_and_without_last_component("a/.").unwrap().is_empty());
    assert_eq!(
        kind(path_str_to_iter_and_without_last_component("")),
        Some(MemFSErrType::ENOENT)
    );
}

#[test]
fn test_last_component_is_taken_as_written() {
    assert_eq!(get_last_component_of_path("/a/b").unwrap(), "b");
    assert_eq!(get_last_component_of_path("/a/b///").unwrap(), "b");
    assert_eq!(get_last_component_of_path("name").unwrap(), "name");
    assert_eq!(get_last_component_of_path("/.").unwrap(), ".");
    assert_eq!(get_last_component_of_path("/..").unwrap(), "..");
    assert_eq!(get_last_component_of_path("a/./").unwrap(), ".");
    assert_eq!(get_last_component_of_path("/").unwrap(), "");
    assert_eq!(get_last_component_of_path("///").unwrap(), "");
    assert_eq!(get_last_component_of_path("").unwrap(), "");
    assert_eq!(get_last_component_of_path("/dir/é").unwrap(), "é");
}

#[test]
fn test_absolute_paths_start_with_a_slash() {
    assert!(is_absolute_path("/"));
    assert!(is_absolute_path("/a/b"));
    assert!(is_absolute_path("//a"));
    assert!(!is_absolute_path("a/b"));
    assert!(!is_absolute_path("./a"));
    assert!(!is_absolute_path(""));
}

#[test]
fn test_constructors_of_nodes_and_descriptors() {
    let _root = MemFSDirNode::new();
    let _child = MemFSDirNode::with_parent(0);
    let _file = MemFSFileNode::new(vec![0u8; FILE_MAX_SIZE]);
    let descriptor = MemFSFileDescriptor::new(7, OpenFlag::O_RDWR(), 3);
    assert_eq!(descriptor.number, 7);
    assert_eq!(descriptor.flag, OpenFlag::O_RDWR());
    assert_eq!(descriptor.file_offset, 0);
    assert_eq!(descriptor.entry, 3);
}

#[test]
fn test_new_filesystem_can_grow() {
    let fs = MemFS::new();
    assert!(fs.can_grow());
}

#[test]
fn test_descriptor_ids_start_at_zero_and_increase_without_reuse() {
    let mut fs = MemFS::new();

    let a = fs.open("/a", OpenFlag::O_CREAT() | OpenFlag::O_RDWR()).unwrap();
    let b = fs.open("/a", OpenFlag::O_RDONLY()).unwrap();
    fs.close(a).unwrap();
    fs.close(b).unwrap();
    let c = fs.open("/a", OpenFlag::O_WRONLY()).unwrap();
    let failed = fs.open("/missing", OpenFlag::O_RDONLY());
    let d = fs.open("/b", OpenFlag::O_CREAT() | OpenFlag::O_RDONLY()).unwrap();

    assert_eq!(a, 0);
    assert_eq!(b, 1);
    assert_eq!(c, 2);
    assert_eq!(kind(failed), Some(MemFSErrType::ENOENT));
    assert_eq!(d, 3);
}

#[test]
fn test_scenario_open_in_directory_then_open_directory() {
    let mut fs = MemFS::new();

    fs.mkdir("/dir").unwrap();
    let fd = fs.open("/dir/f", OpenFlag::O_CREAT() | OpenFlag::O_RDONLY());
    let dir = fs.open("/dir", OpenFlag::O_CREAT() | OpenFlag::O_RDONLY());

    assert_eq!(fd.unwrap(), 0);
    assert_eq!(kind(dir), Some(MemFSErrType::EISDIR));
}

#[test]
fn test_scenario_write_seek_read_four_bytes() {
    let mut fs = MemFS::new();
    let mut buf = vec![0u8; 4];

    let fd = fs.open("/a", OpenFlag::O_CREAT() | OpenFlag::O_RDWR()).unwrap();

    assert_eq!(fs.write(fd, &vec![1, 2, 3, 4], 4).unwrap(), 4);
    assert_eq!(fs.lseek(fd, 0, SeekFlag::SEEK_SET).unwrap(), 0);
    assert_eq!(fs.read(fd, &mut buf, 4).unwrap(), 4);
    assert_eq!(buf[0..4].to_vec(), vec![1, 2, 3, 4]);
}

#[test]
fn test_scenario_lseek_from_every_origin_for_every_offset() {
    let mut fs = MemFS::new();
    let v64 = generate_random_vector(64);
    let fd = fs.open("/b", OpenFlag::O_CREAT() | OpenFlag::O_RDWR()).unwrap();
    assert_eq!(fs.write(fd, &v64, 64).unwrap(), 64);

    for r in 0..=64usize {
        assert_eq!(fs.lseek(fd, r, SeekFlag::SEEK_SET).unwrap(), r);
        assert_eq!(fs.lseek(fd, r, SeekFlag::SEEK_CUR).unwrap(), (2 * r).min(64));
        assert_eq!(fs.lseek(fd, r, SeekFlag::SEEK_END).unwrap(), 64);
    }
}

#[test]
fn test_lseek_never_goes_beyond_the_end_of_the_file() {
    let mut fs = MemFS::new();
    let fd = fs.open("/s", OpenFlag::O_CREAT() | OpenFlag::O_RDWR()).unwrap();

    // An empty file has only offset 0.
    assert_eq!(fs.lseek(fd, 10, SeekFlag::SEEK_SET).unwrap(), 0);
    fs.write(fd, &vec![9u8; 10], 10).unwrap();
    assert_eq!(fs.lseek(fd, 3, SeekFlag::SEEK_SET).unwrap(), 3);
    assert_eq!(fs.lseek(fd, 4, SeekFlag::SEEK_CUR).unwrap(), 7);
    assert_eq!(fs.lseek(fd, 4, SeekFlag::SEEK_CUR).unwrap(), 10);
    assert_eq!(fs.lseek(fd, usize::MAX, SeekFlag::SEEK_CUR).unwrap(), 10);
    assert_eq!(fs.lseek(fd, usize::MAX, SeekFlag::SEEK_SET).unwrap(), 10);
    assert_eq!(fs.lseek(fd, usize::MAX, SeekFlag::SEEK_END).unwrap(), 10);
    assert_eq!(fs.lseek(fd, 0, SeekFlag::SEEK_END).unwrap(), 10);
    assert_eq!(kind(fs.lseek(fd + 1, 0, SeekFlag::SEEK_SET)), Some(MemFSErrType::EBADF));
}

#[test]
fn test_scenario_exclusive_create_one_of_many_succeeds() {
    let mut fs = MemFS::new();
    let mut succeeded = 0;
    let mut existed = 0;

    for _ in 0..256 {
        match fs.open(
            "/x",
            OpenFlag::O_CREAT() | OpenFlag::O_EXCL() | OpenFlag::O_RDWR(),
        ) {
            Ok(_) => succeeded += 1,
            Err(e) => {
                assert_eq!(e.err_type, MemFSErrType::EEXIST);
                existed += 1;
            }
        }
    }

    assert_eq!(succeeded, 1);
    assert_eq!(existed, 255);
}

#[test]
fn test_only_one_of_many_unlinks_of_one_file_succeeds() {
    let mut fs = MemFS::new();
    let fd = fs.open("/my.fr", OpenFlag::O_CREAT() | OpenFlag::O_RDWR()).unwrap();
    fs.close(fd).unwrap();
    let mut succeeded = 0;
    let mut missing = 0;

    for _ in 0..256 {
        match fs.unlink("/my.fr") {
            Ok(()) => succeeded += 1,
            Err(e) => {
                assert_eq!(e.err_type, MemFSErrType::ENOENT);
                missing += 1;
            }
        }
    }

    assert_eq!(succeeded, 1);
    assert_eq!(missing, 255);
}

#[test]
fn test_scenario_remove_nested_directories_from_the_inside() {
    let mut fs = MemFS::new();

    fs.mkdir("/d1").unwrap();
    fs.mkdir("/d1/d2").unwrap();
    let fd = fs.open("/d1/d2/q", OpenFlag::O_CREAT() | OpenFlag::O_RDONLY()).unwrap();
    fs.close(fd).unwrap();

    assert_eq!(kind(fs.rmdir("/d1")), Some(MemFSErrType::ENOTEMPTY));
    assert!(fs.unlink("/d1/d2/q").is_ok());
    assert!(fs.rmdir("/d1/d2").is_ok());
    assert!(fs.rmdir("/d1").is_ok());
}

#[test]
fn test_scenario_messy_slashes_lead_back_to_root() {
    let mut fs = MemFS::new();

    assert!(fs.mkdir("////one").is_ok());
    assert!(fs.mkdir("///one//two").is_ok());
    assert!(fs.chdir("one").is_ok());
    assert!(fs.chdir("two/").is_ok());
    assert!(fs.chdir("..//..").is_ok());

    // Back at the root: `one` is found from here.
    assert_eq!(kind(fs.mkdir("one")), Some(MemFSErrType::EEXIST));
    assert!(fs.chdir("one/two").is_ok());
}

#[test]
fn test_chdir_down_two_levels_and_up_twice_ends_at_root() {
    let mut fs = MemFS::new();
    fs.mkdir("/a").unwrap();
    fs.mkdir("/a/b").unwrap();

    assert!(fs.chdir("/").is_ok());
    assert!(fs.chdir("/a/b").is_ok());
    assert!(fs.chdir("..").is_ok());
    // In `/a`: `b` is a child of the working directory.
    assert_eq!(kind(fs.mkdir("b")), Some(MemFSErrType::EEXIST));
    assert!(fs.chdir("..").is_ok());
    // At the root: `a` is a child of the working directory.
    assert_eq!(kind(fs.mkdir("a")), Some(MemFSErrType::EEXIST));
    assert_eq!(kind(fs.mkdir("b")), None);
}

#[test]
fn test_parent_of_root_is_root() {
    let mut fs = MemFS::new();
    fs.mkdir("/top").unwrap();

    for _ in 0..4 {
        assert!(fs.chdir("..").is_ok());
        assert_eq!(kind(fs.mkdir("top")), Some(MemFSErrType::EEXIST));
    }
    assert!(fs.chdir("../../..").is_ok());
    assert!(fs.chdir("/../top/..").is_ok());
    assert_eq!(kind(fs.mkdir("top")), Some(MemFSErrType::EEXIST));
    // Through the root's stand-in a file is opened in the root, but no
    // directory is made or removed.
    assert!(fs.open("../f", OpenFlag::O_CREAT() | OpenFlag::O_RDONLY()).is_ok());
    assert!(fs.unlink("../f").is_ok());
    assert_eq!(kind(fs.mkdir("../d")), Some(MemFSErrType::EEXIST));
    assert_eq!(kind(fs.rmdir("../top")), Some(MemFSErrType::EBUSY));
}

#[test]
fn test_path_normalization_names_the_same_entry() {
    let mut fs = MemFS::new();
    fs.mkdir("/a").unwrap();
    fs.mkdir("/a/b").unwrap();
    fs.mkdir("/a/b/c").unwrap();
    let fd = fs.open("/a/b/mark", OpenFlag::O_CREAT() | OpenFlag::O_RDONLY()).unwrap();
    fs.close(fd).unwrap();

    assert!(fs.chdir("/a///b/./c/..").is_ok());
    // The working directory is `/a/b`: the mark is here.
    assert_eq!(
        kind(fs.open("mark", OpenFlag::O_CREAT() | OpenFlag::O_EXCL() | OpenFlag::O_RDONLY())),
        Some(MemFSErrType::EEXIST)
    );
    assert!(fs.unlink("/a/./b//mark").is_ok());
    assert_eq!(kind(fs.open("mark", OpenFlag::O_RDONLY())), Some(MemFSErrType::ENOENT));
}

#[test]
fn test_exclusive_create_then_every_open_sees_the_file() {
    let mut fs = MemFS::new();
    let excl = OpenFlag::O_CREAT() | OpenFlag::O_EXCL();

    assert!(fs.open("/p", excl | OpenFlag::O_WRONLY()).is_ok());
    assert_eq!(kind(fs.open("/p", excl | OpenFlag::O_RDONLY())), Some(MemFSErrType::EEXIST));
    assert_eq!(kind(fs.open("/p", excl | OpenFlag::O_RDWR())), Some(MemFSErrType::EEXIST));
    assert!(fs.open("/p", OpenFlag::O_RDONLY()).is_ok());
    assert!(fs.open("/p", OpenFlag::O_CREAT() | OpenFlag::O_RDWR()).is_ok());
    assert!(fs.open("/p", OpenFlag::O_EXCL() | OpenFlag::O_WRONLY()).is_ok());
    // Without modes the combination is invalid before anything is looked up.
    assert_eq!(kind(fs.open("/p", excl)), Some(MemFSErrType::EINVAL));
    assert_eq!(kind(fs.open("/q", excl)), Some(MemFSErrType::EINVAL));
}

#[test]
fn test_open_with_o_creat_does_not_truncate() {
    let mut fs = MemFS::new();
    let fd = fs.open("/keep", OpenFlag::O_CREAT() | OpenFlag::O_RDWR()).unwrap();
    fs.write(fd, &vec![7u8; 5], 5).unwrap();
    fs.close(fd).unwrap();

    let again = fs.open("/keep", OpenFlag::O_CREAT() | OpenFlag::O_RDONLY()).unwrap();
    let mut buf = vec![0u8; 8];

    assert_eq!(fs.read(again, &mut buf, 8).unwrap(), 5);
    assert_eq!(buf, vec![7, 7, 7, 7, 7, 0, 0, 0]);
}

#[test]
fn test_mkdir_then_rmdir_restores_the_names() {
    let mut fs = MemFS::new();
    fs.mkdir("/keep").unwrap();

    assert!(fs.mkdir("/keep/tmp").is_ok());
    assert_eq!(kind(fs.rmdir("/keep")), Some(MemFSErrType::ENOTEMPTY));
    assert!(fs.rmdir("/keep/tmp").is_ok());
    // `keep` is empty again, and `tmp` is gone.
    assert_eq!(kind(fs.chdir("/keep/tmp")), Some(MemFSErrType::ENOENT));
    assert_eq!(kind(fs.rmdir("/keep/tmp")), Some(MemFSErrType::ENOENT));
    assert!(fs.rmdir("/keep").is_ok());
}

#[test]
fn test_open_close_unlink_restores_the_names() {
    let mut fs = MemFS::new();
    fs.mkdir("/d").unwrap();

    let fd = fs.open("/d/f", OpenFlag::O_CREAT() | OpenFlag::O_RDONLY()).unwrap();
    assert!(fs.close(fd).is_ok());
    assert!(fs.unlink("/d/f").is_ok());

    assert_eq!(kind(fs.open("/d/f", OpenFlag::O_RDONLY())), Some(MemFSErrType::ENOENT));
    assert_eq!(kind(fs.close(fd)), Some(MemFSErrType::EBADF));
    assert!(fs.rmdir("/d").is_ok());
}

#[test]
fn test_descriptor_stays_usable_after_unlink() {
    let mut fs = MemFS::new();
    let fd = fs.open("/gone", OpenFlag::O_CREAT() | OpenFlag::O_RDWR()).unwrap();
    fs.write(fd, &vec![1, 2, 3], 3).unwrap();

    assert!(fs.unlink("/gone").is_ok());
    assert_eq!(fs.write(fd, &vec![4, 5], 2).unwrap(), 2);
    assert_eq!(fs.lseek(fd, 0, SeekFlag::SEEK_SET).unwrap(), 0);
    let mut buf = vec![0u8; 5];
    assert_eq!(fs.read(fd, &mut buf, 5).unwrap(), 5);
    assert_eq!(buf, vec![1, 2, 3, 4, 5]);

    // A new file of the same name is another file.
    let other = fs.open("/gone", OpenFlag::O_CREAT() | OpenFlag::O_RDONLY()).unwrap();
    assert_eq!(fs.read(other, &mut buf, 5).unwrap(), 0);
}

#[test]
fn test_read_moves_the_offset_and_keeps_the_rest_of_the_buffer() {
    let mut fs = MemFS::new();
    let fd = fs.open("/r", OpenFlag::O_CREAT() | OpenFlag::O_RDWR()).unwrap();
    fs.write(fd, &vec![10, 11, 12, 13, 14, 15], 6).unwrap();
    fs.lseek(fd, 1, SeekFlag::SEEK_SET).unwrap();

    let mut buf = vec![0xffu8; 5];
    assert_eq!(fs.read(fd, &mut buf, 2).unwrap(), 2);
    assert_eq!(buf, vec![11, 12, 0xff, 0xff, 0xff]);
    assert_eq!(fs.lseek(fd, 0, SeekFlag::SEEK_CUR).unwrap(), 3);

    // More is asked for than is there: what is there comes.
    assert_eq!(fs.read(fd, &mut buf, 100).unwrap(), 3);
    assert_eq!(buf, vec![13, 14, 15, 0xff, 0xff]);
    assert_eq!(fs.read(fd, &mut buf, 100).unwrap(), 0);
    assert_eq!(buf, vec![13, 14, 15, 0xff, 0xff]);

    // An empty buffer is enough where nothing is to be read.
    let mut empty: Vec<u8> = Vec::new();
    assert_eq!(fs.read(fd, &mut empty, 100).unwrap(), 0);
}

#[test]
fn test_read_into_a_buffer_that_is_too_small_changes_nothing() {
    let mut fs = MemFS::new();
    let fd = fs.open("/small", OpenFlag::O_CREAT() | OpenFlag::O_RDWR()).unwrap();
    fs.write(fd, &vec![1u8; 8], 8).unwrap();
    fs.lseek(fd, 2, SeekFlag::SEEK_SET).unwrap();

    let mut buf = vec![0u8; 3];
    assert_eq!(kind(fs.read(fd, &mut buf, 4)), Some(MemFSErrType::EFAULT));
    assert_eq!(buf, vec![0, 0, 0]);
    assert_eq!(fs.lseek(fd, 0, SeekFlag::SEEK_CUR).unwrap(), 2);
    assert_eq!(fs.read(fd, &mut buf, 3).unwrap(), 3);
}

#[test]
fn test_write_takes_no_more_than_the_buffer_holds() {
    let mut fs = MemFS::new();
    let fd = fs.open("/w", OpenFlag::O_CREAT() | OpenFlag::O_RDWR()).unwrap();

    assert_eq!(fs.write(fd, &vec![1, 2, 3], 100).unwrap(), 3);
    assert_eq!(fs.write(fd, &vec![4, 5, 6], 2).unwrap(), 2);
    assert_eq!(fs.write(fd, &vec![7], 0).unwrap(), 0);
    assert_eq!(fs.lseek(fd, 0, SeekFlag::SEEK_CUR).unwrap(), 5);
    assert_eq!(fs.lseek(fd, 0, SeekFlag::SEEK_END).unwrap(), 5);
}

#[test]
fn test_write_inside_the_file_keeps_its_size() {
    let mut fs = MemFS::new();
    let fd = fs.open("/in", OpenFlag::O_CREAT() | OpenFlag::O_RDWR()).unwrap();
    fs.write(fd, &vec![1, 2, 3, 4, 5, 6], 6).unwrap();
    fs.lseek(fd, 2, SeekFlag::SEEK_SET).unwrap();

    assert_eq!(fs.write(fd, &vec![9, 9], 2).unwrap(), 2);
    assert_eq!(fs.lseek(fd, 0, SeekFlag::SEEK_CUR).unwrap(), 4);
    assert_eq!(fs.lseek(fd, 0, SeekFlag::SEEK_END).unwrap(), 6);
    fs.lseek(fd, 0, SeekFlag::SEEK_SET).unwrap();
    let mut buf = vec![0u8; 6];
    assert_eq!(fs.read(fd, &mut buf, 6).unwrap(), 6);
    assert_eq!(buf, vec![1, 2, 9, 9, 5, 6]);
}

#[test]
fn test_write_beyond_the_maximum_size_leaves_the_file_unchanged() {
    let mut fs = MemFS::new();
    let fd = fs.open("/big", OpenFlag::O_CREAT() | OpenFlag::O_RDWR()).unwrap();
    let full = vec![3u8; FILE_MAX_SIZE];
    let too_much = vec![4u8; FILE_MAX_SIZE + 1];

    assert_eq!(kind(fs.write(fd, &too_much, FILE_MAX_SIZE + 1)), Some(MemFSErrType::EFBIG));
    assert_eq!(fs.lseek(fd, 0, SeekFlag::SEEK_END).unwrap(), 0);

    assert_eq!(fs.write(fd, &full, FILE_MAX_SIZE).unwrap(), FILE_MAX_SIZE);
    assert_eq!(kind(fs.write(fd, &vec![1u8], 1)), Some(MemFSErrType::EFBIG));
    assert_eq!(fs.write(fd, &vec![1u8], 0).unwrap(), 0);
    assert_eq!(fs.lseek(fd, 0, SeekFlag::SEEK_CUR).unwrap(), FILE_MAX_SIZE);

    fs.lseek(fd, FILE_MAX_SIZE - 2, SeekFlag::SEEK_SET).unwrap();
    assert_eq!(kind(fs.write(fd, &vec![5u8; 3], 3)), Some(MemFSErrType::EFBIG));
    let mut tail = vec![0u8; 2];
    assert_eq!(fs.read(fd, &mut tail, 2).unwrap(), 2);
    assert_eq!(tail, vec![3, 3]);
}

#[test]
fn test_access_modes_are_enforced() {
    let mut fs = MemFS::new();
    let wo = fs.open("/m", OpenFlag::O_CREAT() | OpenFlag::O_WRONLY()).unwrap();
    let ro = fs.open("/m", OpenFlag::O_RDONLY()).unwrap();
    let mut buf = vec![0u8; 4];

    assert_eq!(fs.write(wo, &vec![1, 2, 3, 4], 4).unwrap(), 4);
    assert_eq!(kind(fs.read(wo, &mut buf, 4)), Some(MemFSErrType::EBADF));
    assert_eq!(kind(fs.write(ro, &vec![1], 1)), Some(MemFSErrType::EBADF));
    assert_eq!(fs.read(ro, &mut buf, 4).unwrap(), 4);
    assert_eq!(buf, vec![1, 2, 3, 4]);
    assert_eq!(kind(fs.write(99, &vec![1], 1)), Some(MemFSErrType::EBADF));
    assert_eq!(kind(fs.read(99, &mut buf, 1)), Some(MemFSErrType::EBADF));
}

#[test]
fn test_appends_through_one_descriptor_make_contiguous_blocks() {
    let mut fs = MemFS::new();
    let fd = fs
        .open("/log", OpenFlag::O_CREAT() | OpenFlag::O_RDWR() | OpenFlag::O_APPEND())
        .unwrap();
    let block = 4;
    let writers = 8;
    let rounds = 16;

    for round in 0..rounds {
        for writer in 0..writers {
            fs.lseek(fd, (round * 7 + writer) % 11, SeekFlag::SEEK_SET).unwrap();
            assert_eq!(fs.write(fd, &vec![writer as u8; block], block).unwrap(), block);
        }
    }

    let total = block * writers * rounds;
    assert_eq!(fs.lseek(fd, 0, SeekFlag::SEEK_CUR).unwrap(), total);
    fs.lseek(fd, 0, SeekFlag::SEEK_SET).unwrap();
    let mut content = vec![0u8; total];
    assert_eq!(fs.read(fd, &mut content, total).unwrap(), total);

    let mut seen = vec![0usize; writers];
    for i in 0..(writers * rounds) {
        let first = content[i * block];
        assert_eq!(content[i * block..(i + 1) * block].to_vec(), vec![first; block]);
        seen[first as usize] += 1;
    }
    assert_eq!(seen, vec![rounds; writers]);
}

#[test]
fn test_offset_after_writes_is_no_more_than_the_bytes_attempted() {
    let mut fs = MemFS::new();
    let fd = fs.open("/seq", OpenFlag::O_CREAT() | OpenFlag::O_RDWR()).unwrap();
    let mut attempted = 0;

    for i in 0..64usize {
        let size = i % 5;
        let buffer = vec![i as u8; 3];
        fs.write(fd, &buffer, size).unwrap();
        attempted += size;
    }

    let offset = fs.lseek(fd, 0, SeekFlag::SEEK_CUR).unwrap();
    assert!(offset <= attempted);
    // 13 rounds of sizes 0, 1, 2, 3, 4 cut to 3 bytes, less the 65th write.
    assert_eq!(offset, 13 * 9 - 3);
}

#[test]
fn test_two_descriptors_on_one_file_have_their_own_offsets() {
    let mut fs = MemFS::new();
    let a = fs.open("/shared", OpenFlag::O_CREAT() | OpenFlag::O_RDWR()).unwrap();
    let b = fs.open("/shared", OpenFlag::O_RDWR()).unwrap();

    fs.write(a, &vec![1, 1, 1, 1], 4).unwrap();
    assert_eq!(fs.lseek(b, 0, SeekFlag::SEEK_CUR).unwrap(), 0);
    fs.write(b, &vec![2, 2], 2).unwrap();
    assert_eq!(fs.lseek(a, 0, SeekFlag::SEEK_CUR).unwrap(), 4);
    assert_eq!(fs.lseek(b, 0, SeekFlag::SEEK_CUR).unwrap(), 2);

    let mut buf = vec![0u8; 4];
    fs.lseek(a, 0, SeekFlag::SEEK_SET).unwrap();
    assert_eq!(fs.read(a, &mut buf, 4).unwrap(), 4);
    assert_eq!(buf, vec![2, 2, 1, 1]);
}

#[test]
fn test_pool_gives_as_many_buffers_as_it_holds() {
    let mut fs = MemFS::new();

    for i in 0..NUMBER_OF_MAXIMUM_FILES {
        let path = format!("/file{}", i);
        let fd = fs.open(path.as_str(), OpenFlag::O_CREAT() | OpenFlag::O_RDONLY()).unwrap();
        fs.close(fd).unwrap();
    }

    let one_more = fs.open("/one_more", OpenFlag::O_CREAT() | OpenFlag::O_RDONLY());
    assert_eq!(kind(one_more), Some(MemFSErrType::ENOMEM));
    // Nothing was made.
    assert_eq!(kind(fs.open("/one_more", OpenFlag::O_RDONLY())), Some(MemFSErrType::ENOENT));
    // A file that is there can still be opened, with or without `O_CREAT`.
    assert!(fs.open("/file0", OpenFlag::O_CREAT() | OpenFlag::O_RDONLY()).is_ok());
    // Directories take no buffer.
    assert!(fs.mkdir("/dir").is_ok());
    // Buffers do not come back with `unlink`.
    fs.unlink("/file1").unwrap();
    assert_eq!(
        kind(fs.open("/file1", OpenFlag::O_CREAT() | OpenFlag::O_RDONLY())),
        Some(MemFSErrType::ENOMEM)
    );
}

#[test]
fn test_new_files_are_empty_and_buffers_are_their_own() {
    let mut fs = MemFS::new();
    let a = fs.open("/a", OpenFlag::O_CREAT() | OpenFlag::O_RDWR()).unwrap();
    let b = fs.open("/b", OpenFlag::O_CREAT() | OpenFlag::O_RDWR()).unwrap();
    let mut buf = vec![0u8; 4];

    assert_eq!(fs.read(b, &mut buf, 4).unwrap(), 0);
    fs.write(a, &vec![8, 8, 8, 8], 4).unwrap();
    assert_eq!(fs.read(b, &mut buf, 4).unwrap(), 0);
    assert_eq!(fs.lseek(b, 0, SeekFlag::SEEK_END).unwrap(), 0);
}

#[test]
fn test_boundary_paths() {
    let mut fs = MemFS::new();
    let create = OpenFlag::O_CREAT() | OpenFlag::O_RDONLY();

    assert_eq!(kind(fs.open("", create)), Some(MemFSErrType::ENOENT));
    assert_eq!(kind(fs.mkdir("/")), Some(MemFSErrType::EEXIST));
    assert_eq!(kind(fs.rmdir("/")), Some(MemFSErrType::EBUSY));
    assert_eq!(kind(fs.rmdir("/.")), Some(MemFSErrType::EINVAL));
    assert_eq!(kind(fs.rmdir("/..")), Some(MemFSErrType::ENOTEMPTY));
    assert_eq!(kind(fs.chdir("")), Some(MemFSErrType::ENOENT));
    assert_eq!(kind(fs.unlink("")), Some(MemFSErrType::ENOENT));
    assert_eq!(kind(fs.mkdir("")), Some(MemFSErrType::ENOENT));
    assert_eq!(kind(fs.rmdir("")), Some(MemFSErrType::ENOENT));
    assert!(fs.chdir("/").is_ok());
    assert!(fs.chdir("/./").is_ok());
    assert!(fs.chdir(".").is_ok());
}

#[test]
fn test_paths_of_slashes_alone_name_nothing_to_make() {
    let mut fs = MemFS::new();
    let create = OpenFlag::O_CREAT() | OpenFlag::O_RDONLY();

    assert_eq!(kind(fs.mkdir("//")), Some(MemFSErrType::EEXIST));
    assert_eq!(kind(fs.mkdir("///")), Some(MemFSErrType::EEXIST));
    assert_eq!(kind(fs.open("/", create)), Some(MemFSErrType::ENOENT));
    assert_eq!(kind(fs.open("//", OpenFlag::O_RDONLY())), Some(MemFSErrType::ENOENT));
    assert_eq!(kind(fs.unlink("/")), Some(MemFSErrType::ENOENT));
    assert_eq!(kind(fs.rmdir("//")), Some(MemFSErrType::ENOENT));
    // The root is still empty: a first file gets into it as usual.
    assert_eq!(fs.open("/first", create).unwrap(), 0);
}

#[test]
fn test_errors_of_path_resolution() {
    let mut fs = MemFS::new();
    let create = OpenFlag::O_CREAT() | OpenFlag::O_RDONLY();
    fs.mkdir("/d").unwrap();
    let fd = fs.open("/d/f", create).unwrap();
    fs.close(fd).unwrap();

    // A middle component that is missing.
    assert_eq!(kind(fs.open("/x/y/z", create)), Some(MemFSErrType::ENOENT));
    assert_eq!(kind(fs.mkdir("/x/y")), Some(MemFSErrType::ENOENT));
    assert_eq!(kind(fs.unlink("/x/y")), Some(MemFSErrType::ENOENT));
    assert_eq!(kind(fs.rmdir("/x/y")), Some(MemFSErrType::ENOENT));
    assert_eq!(kind(fs.chdir("/x/y")), Some(MemFSErrType::ENOENT));
    // A middle component that is a file.
    assert_eq!(kind(fs.open("/d/f/g/h", create)), Some(MemFSErrType::ENOTDIR));
    assert_eq!(kind(fs.chdir("/d/f/g")), Some(MemFSErrType::ENOTDIR));
    // A parent that is a file.
    assert_eq!(kind(fs.open("/d/f/g", create)), Some(MemFSErrType::ENOTDIR));
    assert_eq!(kind(fs.mkdir("/d/f/g")), Some(MemFSErrType::ENOENT));
    assert_eq!(kind(fs.unlink("/d/f/g")), Some(MemFSErrType::ENOENT));
    assert_eq!(kind(fs.rmdir("/d/f/g")), Some(MemFSErrType::ENOENT));
    // The wrong kind of entry.
    assert_eq!(kind(fs.chdir("/d/f")), Some(MemFSErrType::ENOTDIR));
    assert_eq!(kind(fs.rmdir("/d/f")), Some(MemFSErrType::ENOTDIR));
    assert_eq!(kind(fs.unlink("/d")), Some(MemFSErrType::EISDIR));
    assert_eq!(kind(fs.open("/d", OpenFlag::O_RDONLY())), Some(MemFSErrType::EISDIR));
    assert_eq!(kind(fs.mkdir("/d/f")), Some(MemFSErrType::EEXIST));
    assert_eq!(kind(fs.mkdir("/d/.")), Some(MemFSErrType::EEXIST));
    assert_eq!(kind(fs.mkdir("/d/..")), Some(MemFSErrType::EEXIST));
    // The parent is resolved before the name is looked at.
    assert_eq!(kind(fs.mkdir("/x/y/.")), Some(MemFSErrType::ENOENT));
    assert_eq!(kind(fs.rmdir("/x/y/..")), Some(MemFSErrType::ENOENT));
}

#[test]
fn test_names_are_compared_exactly() {
    let mut fs = MemFS::new();
    fs.mkdir("/Name").unwrap();

    assert_eq!(kind(fs.chdir("/name")), Some(MemFSErrType::ENOENT));
    assert!(fs.mkdir("/name").is_ok());
    assert!(fs.mkdir("/näme").is_ok());
    assert_eq!(kind(fs.mkdir("/näme")), Some(MemFSErrType::EEXIST));
    assert!(fs.chdir("/näme").is_ok());
    assert_eq!(kind(fs.chdir("/nàme")), Some(MemFSErrType::ENOENT));
}

#[test]
fn test_working_directory_that_was_removed_stays_usable() {
    let mut fs = MemFS::new();
    fs.mkdir("/gone").unwrap();
    fs.chdir("/gone").unwrap();

    assert!(fs.rmdir("/gone").is_ok());
    assert_eq!(kind(fs.chdir("/gone")), Some(MemFSErrType::ENOENT));
    assert!(fs.mkdir("inside").is_ok());
    assert!(fs.chdir("inside").is_ok());
    assert!(fs.chdir("../..").is_ok());
    // At the root again, which has lost the name.
    assert_eq!(kind(fs.chdir("gone")), Some(MemFSErrType::ENOENT));
}

#[test]
fn test_a_failed_call_changes_nothing() {
    let mut fs = MemFS::new();
    fs.mkdir("/d").unwrap();
    let fd = fs.open("/d/f", OpenFlag::O_CREAT() | OpenFlag::O_RDWR()).unwrap();
    fs.write(fd, &vec![1, 2, 3], 3).unwrap();

    assert!(fs.chdir("/d/f").is_err());
    assert!(fs.chdir("/nowhere").is_err());
    assert!(fs.rmdir("/d").is_err());
    assert!(fs.unlink("/d").is_err());
    assert!(fs.mkdir("/d").is_err());
    assert!(fs.close(fd + 1).is_err());

    // Still at the root, with the file in place and the descriptor open.
    assert_eq!(kind(fs.mkdir("d")), Some(MemFSErrType::EEXIST));
    assert_eq!(fs.lseek(fd, 0, SeekFlag::SEEK_CUR).unwrap(), 3);
    assert_eq!(fs.open("/d/f", OpenFlag::O_RDONLY()).unwrap(), fd + 1);
}

#[test]
fn test_a_file_called_dotdot_hides_the_way_up() {
    let mut fs = MemFS::new();
    let create = OpenFlag::O_CREAT() | OpenFlag::O_RDONLY();

    // In the root `..` is no child yet, so it is the root's own parent.
    assert!(fs.chdir("..").is_ok());
    // The name is vacant, and a file can take it.
    let fd = fs.open("../..", create).unwrap();
    fs.close(fd).unwrap();

    // Now `..` is a child of the root, and a child is found first.
    assert_eq!(kind(fs.chdir("..")), Some(MemFSErrType::ENOTDIR));
    assert_eq!(kind(fs.open("../..", OpenFlag::O_RDONLY())), Some(MemFSErrType::ENOTDIR));
    assert_eq!(kind(fs.unlink("../..")), Some(MemFSErrType::ENOENT));
    assert!(fs.open("..", OpenFlag::O_RDONLY()).is_ok());

    // Once the file has lost the name, `..` leads up again.
    assert!(fs.unlink("..").is_ok());
    assert!(fs.chdir("..").is_ok());
    assert!(fs.chdir("../..").is_ok());
}

#[test]
fn test_a_file_can_be_called_dot() {
    let mut fs = MemFS::new();
    fs.mkdir("/a").unwrap();

    // The last component is taken as written, the parent from the components
    // that count: `a/.` is the name `.` in the working directory.
    let fd = fs.open("a/.", OpenFlag::O_CREAT() | OpenFlag::O_RDONLY()).unwrap();
    fs.close(fd).unwrap();

    assert_eq!(
        kind(fs.open(".", OpenFlag::O_CREAT() | OpenFlag::O_EXCL() | OpenFlag::O_RDONLY())),
        Some(MemFSErrType::EEXIST)
    );
    assert!(fs.rmdir("/a").is_ok());
    // `.` in a path still names no component.
    assert!(fs.chdir(".").is_ok());
    assert!(fs.unlink("/.").is_ok());
}
