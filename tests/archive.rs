use std::io::{Cursor, Read};

use cbz::archive::{members_of, pack, Archive, Entry, Member};
use zip::{CompressionMethod, ZipArchive};

fn entry(name: &str, is_file: bool) -> Entry {
    Entry { name: String::from(name), is_file }
}

fn member(name: &str, bytes: &[u8]) -> Member {
    Member { name: String::from(name), bytes: bytes.to_vec() }
}

fn read_back(bytes: Vec<u8>) -> Vec<(String, Vec<u8>, CompressionMethod, u64)> {
    let mut zip = ZipArchive::new(Cursor::new(bytes)).unwrap();
    let mut out = Vec::new();
    for i in 0..zip.len() {
        let mut f = zip.by_index(i).unwrap();
        let mut data = Vec::new();
        f.read_to_end(&mut data).unwrap();
        out.push((f.name().to_string(), data, f.compression(), f.compressed_size()));
    }
    out
}

#[test]
fn only_regular_files_are_chosen() {
    let entries = vec![entry("a.png", true), entry("sub", false), entry("b.png", true)];
    assert_eq!(members_of(&entries), vec![0, 2]);
}

#[test]
fn empty_listing_chooses_nothing() {
    assert_eq!(members_of(&Vec::new()), Vec::<usize>::new());
    assert_eq!(members_of(&vec![entry("x", false), entry("y", false)]), Vec::<usize>::new());
}

#[test]
fn two_files_and_a_directory_give_two_members() {
    let entries = vec![entry("a.png", true), entry("sub", false), entry("b.png", true)];
    let a: &[u8] = &[0x89, b'P', b'N', b'G', 1, 2, 3];
    let b: &[u8] = &[0x89, b'P', b'N', b'G', 9, 9, 9, 9, 9, 9];
    let contents = [a, &[][..], b];
    let members: Vec<Member> = members_of(&entries)
        .into_iter()
        .map(|i| member(&entries[i].name, contents[i]))
        .collect();
    let bytes = pack(&members).ok().unwrap().finish().ok().unwrap();
    let got = read_back(bytes);
    assert_eq!(got.len(), 2);
    assert_eq!(got[0].0, "a.png");
    assert_eq!(got[0].1, a);
    assert_eq!(got[1].0, "b.png");
    assert_eq!(got[1].1, b);
}

#[test]
fn members_are_stored_uncompressed() {
    let data = vec![b'z'; 4096];
    let bytes = pack(&vec![member("page01.jpg", &data)]).ok().unwrap().finish().ok().unwrap();
    let got = read_back(bytes);
    assert_eq!(got.len(), 1);
    assert_eq!(got[0].1, data);
    assert_eq!(got[0].2, CompressionMethod::Stored);
    assert_eq!(got[0].3, 4096);
}

#[test]
fn name_without_extension_is_kept() {
    let bytes = pack(&vec![member("README", b"hello")]).ok().unwrap().finish().ok().unwrap();
    let got = read_back(bytes);
    assert_eq!(got[0].0, "README");
    assert_eq!(got[0].1, b"hello");
}

#[test]
fn empty_archive_has_no_members() {
    let bytes = Archive::new().finish().ok().unwrap();
    assert!(!bytes.is_empty());
    assert_eq!(read_back(bytes).len(), 0);
}

#[test]
fn members_added_one_by_one_keep_their_order() {
    let mut archive = Archive::new();
    assert!(archive.add_stored("2.png", b"two").is_ok());
    assert!(archive.add_stored("1.png", b"one").is_ok());
    assert!(archive.add_stored("empty", b"").is_ok());
    let got = read_back(archive.finish().ok().unwrap());
    let names: Vec<&str> = got.iter().map(|m| m.0.as_str()).collect();
    assert_eq!(names, vec!["2.png", "1.png", "empty"]);
    assert_eq!(got[0].1, b"two");
    assert_eq!(got[1].1, b"one");
    assert!(got[2].1.is_empty());
}
