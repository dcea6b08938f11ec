use std::io::Read;

use ouch::compressors::BzipCompressor;
use ouch::error::Error;
use ouch::extension::{CompressionFormat, Extension};
use ouch::file::File;
use ouch::utils::{check_for_multiple_files, get_destination_path};

#[test]
fn file_builder_leaves_contents_absent() {
    let ext = Extension::new("a.zip").unwrap();
    let f = File::new(String::from("a.zip"), Some(ext));
    assert_eq!(f.path, "a.zip");
    assert!(f.contents_in_memory.is_none());
    assert_eq!(
        f.extension.unwrap().tokens,
        vec![CompressionFormat::Zip]
    );
}

#[test]
fn exactly_one_file_passes_the_multiple_files_check() {
    let one = vec![String::from("a")];
    let two = vec![String::from("a"), String::from("b")];
    let none: Vec<String> = Vec::new();
    assert!(check_for_multiple_files(&one, &CompressionFormat::Bzip).is_ok());
    assert_eq!(
        check_for_multiple_files(&two, &CompressionFormat::Bzip),
        Err(Error::InvalidInput)
    );
    assert_eq!(
        check_for_multiple_files(&none, &CompressionFormat::Bzip),
        Err(Error::InvalidInput)
    );
}

#[test]
fn destination_defaults_to_the_current_directory() {
    assert_eq!(get_destination_path(&None), ".");
    let dest = Some(File::new(String::from("Videos/"), None));
    assert_eq!(get_destination_path(&dest), "Videos/");
}

#[test]
fn compressing_without_contents_is_invalid_input() {
    let f = File::new(String::from("a.bz2"), None);
    assert_eq!(
        BzipCompressor::compress_file_in_memory(f),
        Err(Error::InvalidInput)
    );
}

#[test]
fn compressed_bytes_are_a_bzip2_stream_of_the_payload() {
    let payload = b"the quick brown fox jumps over the lazy dog".to_vec();
    let f = File {
        path: String::from("words.bz2"),
        contents_in_memory: Some(payload.clone()),
        extension: None,
    };
    let compressed = BzipCompressor::compress_file_in_memory(f).unwrap();
    assert_ne!(compressed, payload);
    assert_eq!(&compressed[..3], b"BZh");

    let mut decoder = bzip2::read::BzDecoder::new(compressed.as_slice());
    let mut round_tripped = Vec::new();
    decoder.read_to_end(&mut round_tripped).unwrap();
    assert_eq!(round_tripped, payload);
}
