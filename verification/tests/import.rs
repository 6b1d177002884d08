use chronicle::import::{entry_target, import_root_dir, read_project_archive, ImportError};
use std::io::Write;

fn archive(entries: &[(&str, &[u8])]) -> Vec<u8> {
    let mut buf = std::io::Cursor::new(Vec::new());
    {
        let mut w = zip::ZipWriter::new(&mut buf);
        let opts = zip::write::SimpleFileOptions::default();
        for (name, data) in entries {
            w.start_file(*name, opts).unwrap();
            w.write_all(data).unwrap();
        }
        w.finish().unwrap();
    }
    buf.into_inner()
}

#[test]
fn archive_entries_and_project_file_are_found() {
    let bytes = archive(&[("01-a/01-x.md", b"text"), ("chronicle.json", b"{}"), ("x/chronicle.json", b"[]")]);
    match read_project_archive(&bytes) {
        Ok((entries, i)) => {
            assert_eq!(i, 1);
            assert_eq!(entries.len(), 3);
            let (name, data) = entries[0].as_ref().unwrap();
            assert_eq!(name, "01-a/01-x.md");
            assert_eq!(data.as_ref().unwrap(), &b"text".to_vec());
            let (name, data) = entries[1].as_ref().unwrap();
            assert_eq!(name, "chronicle.json");
            assert_eq!(data.as_ref().unwrap(), &b"{}".to_vec());
        }
        Err(_) => panic!("archive should be read"),
    }
}

#[test]
fn archive_without_project_file_is_refused() {
    let bytes = archive(&[("notes.md", b"x")]);
    assert!(matches!(read_project_archive(&bytes), Err(ImportError::NoProjectFile)));
}

#[test]
fn bytes_that_are_no_archive_are_refused() {
    assert!(matches!(read_project_archive(b"not a zip"), Err(ImportError::Archive(_))));
}

#[test]
fn import_directory_and_targets() {
    assert_eq!(import_root_dir("My Novel!", "/p"), "/p/My Novel");
    assert_eq!(import_root_dir("!!!", "/p/"), "/p/imported");
    assert_eq!(entry_target("/p/n", "01-a/"), ("/p/n/01-a/".to_string(), true));
    assert_eq!(entry_target("/p/n", "01-a/01-x.md"), ("/p/n/01-a/01-x.md".to_string(), false));
}

#[test]
fn a_broken_entry_after_the_project_file_does_not_stop_the_search() {
    let mut buf = std::io::Cursor::new(Vec::new());
    {
        let mut w = zip::ZipWriter::new(&mut buf);
        let stored = zip::write::SimpleFileOptions::default().compression_method(zip::CompressionMethod::Stored);
        w.start_file("chronicle.json", stored).unwrap();
        w.write_all(b"{}").unwrap();
        w.start_file("z.md", stored).unwrap();
        w.write_all(&[b'z'; 50]).unwrap();
        w.finish().unwrap();
    }
    let mut bytes = buf.into_inner();
    // Spoil the stored contents of the last entry, so that its checksum no longer holds.
    let pos = bytes.windows(4).rposition(|w| w == b"PK\x03\x04").unwrap();
    let name_len = u16::from_le_bytes([bytes[pos + 26], bytes[pos + 27]]) as usize;
    let extra_len = u16::from_le_bytes([bytes[pos + 28], bytes[pos + 29]]) as usize;
    let data = pos + 30 + name_len + extra_len;
    for b in bytes[data..data + 10].iter_mut() {
        *b = b'y';
    }
    match read_project_archive(&bytes) {
        Ok((entries, i)) => {
            assert_eq!(i, 0);
            assert_eq!(entries.len(), 2);
            assert!(entries[1].as_ref().map_or(true, |(_, d)| d.is_err()));
        }
        Err(_) => panic!("the project file is readable"),
    }
    let mut spoiled_first = bytes.clone();
    let first = spoiled_first.windows(4).position(|w| w == b"PK\x03\x04").unwrap();
    let name_len = u16::from_le_bytes([spoiled_first[first + 26], spoiled_first[first + 27]]) as usize;
    let extra_len = u16::from_le_bytes([spoiled_first[first + 28], spoiled_first[first + 29]]) as usize;
    let d = first + 30 + name_len + extra_len;
    spoiled_first[d] = b'[';
    assert!(matches!(read_project_archive(&spoiled_first), Err(ImportError::Archive(_))));
}
