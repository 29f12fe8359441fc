use biliup_common::disk_space::{available_bytes, probed_directory, ProbedDirectory, VolumeReading};
use std::path::Path;

#[test]
fn an_unreachable_path_reports_nothing_instead_of_panicking() {
    let path = Path::new("/definitely-not-a-mount-point-9c1f/segment.flv");
    assert_eq!(
        probed_directory(path.is_dir(), path.parent().is_some()),
        ProbedDirectory::Parent
    );
    assert!(!path.parent().unwrap().exists());
    // A directory that is not there cannot be asked.
    assert_eq!(available_bytes(None), None);
}

#[test]
fn the_free_room_is_counted_in_fragments() {
    let reading = VolumeReading {
        available_blocks: 10,
        fragment_size: 512,
        block_size: 4096,
    };
    assert_eq!(available_bytes(Some(reading)), Some(5120));
    let unset = VolumeReading {
        fragment_size: 0,
        ..reading
    };
    assert_eq!(available_bytes(Some(unset)), Some(40960));
    let huge = VolumeReading {
        available_blocks: u64::MAX,
        ..reading
    };
    assert_eq!(available_bytes(Some(huge)), None);
}

#[test]
fn a_file_asks_its_directory() {
    assert_eq!(probed_directory(true, true), ProbedDirectory::Path);
    assert_eq!(probed_directory(false, true), ProbedDirectory::Parent);
    assert_eq!(probed_directory(false, false), ProbedDirectory::Nothing);
}
