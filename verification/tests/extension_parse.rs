use ouch::error::ExtensionError;
use ouch::extension::{CompressionFormat, Extension};

fn tokens_of(name: &str) -> Vec<CompressionFormat> {
    Extension::new(name).expect("expected a recognized suffix chain").tokens
}

#[test]
fn parses_single_suffixes() {
    assert_eq!(tokens_of("x.tar"), vec![CompressionFormat::Tar]);
    assert_eq!(tokens_of("x.gz"), vec![CompressionFormat::Gzip]);
    assert_eq!(tokens_of("x.bz2"), vec![CompressionFormat::Bzip]);
    assert_eq!(tokens_of("x.zip"), vec![CompressionFormat::Zip]);
}

#[test]
fn parses_stacked_suffixes_in_filename_order() {
    assert_eq!(
        tokens_of("archive.tar.gz"),
        vec![CompressionFormat::Tar, CompressionFormat::Gzip]
    );
    assert_eq!(
        tokens_of("a.gz.tar"),
        vec![CompressionFormat::Gzip, CompressionFormat::Tar]
    );
    assert_eq!(
        tokens_of("backup.tar.bz2"),
        vec![CompressionFormat::Tar, CompressionFormat::Bzip]
    );
}

#[test]
fn consumes_every_segment_when_all_are_recognized() {
    assert_eq!(
        tokens_of("tar.gz"),
        vec![CompressionFormat::Tar, CompressionFormat::Gzip]
    );
    assert_eq!(tokens_of(".gz"), vec![CompressionFormat::Gzip]);
}

#[test]
fn stops_at_the_first_unrecognized_segment() {
    assert_eq!(tokens_of("a.txt.gz"), vec![CompressionFormat::Gzip]);
    assert_eq!(
        tokens_of("v1.2.3.tar.gz"),
        vec![CompressionFormat::Tar, CompressionFormat::Gzip]
    );
}

#[test]
fn rejects_names_with_no_recognized_suffix() {
    assert_eq!(Extension::new("Videos/"), Err(ExtensionError::Unrecognized));
    assert_eq!(Extension::new("readme.txt"), Err(ExtensionError::Unrecognized));
    assert_eq!(Extension::new("Makefile"), Err(ExtensionError::Unrecognized));
    assert_eq!(Extension::new(""), Err(ExtensionError::Unrecognized));
    assert_eq!(Extension::new("x."), Err(ExtensionError::Unrecognized));
    assert_eq!(Extension::new("gzx.tar7"), Err(ExtensionError::Unrecognized));
}

fn segment(t: &CompressionFormat) -> &'static str {
    match t {
        CompressionFormat::Tar => "tar",
        CompressionFormat::Gzip => "gz",
        CompressionFormat::Bzip => "bz2",
        CompressionFormat::Zip => "zip",
    }
}

#[test]
fn rejoined_chain_parses_back_to_itself() {
    for name in ["movies.tar.gz", "classes.zip", "backup.tar.bz2", "a.txt.gz"] {
        let tokens = tokens_of(name);
        let mut rebuilt = String::from("base");
        for t in &tokens {
            rebuilt.push('.');
            rebuilt.push_str(segment(t));
        }
        assert_eq!(tokens_of(&rebuilt), tokens);
    }
}
