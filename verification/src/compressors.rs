use std::io::Write;

use vstd::prelude::*;

use crate::error::Error;
use crate::file::File;

verus! {

/// What the bzip2 codec produces for the given bytes at compression
/// level 6.  The stream depends on the input bytes alone.
pub uninterp spec fn bzip2_of(bytes: Seq<u8>) -> Seq<u8>;

/// Adapter for the bzip2 format family.
pub struct BzipCompressor {}

/// Relies on `bzip2::write::BzEncoder` at compression level 6: writing the
/// bytes and finishing the stream yields their bzip2 encoding, a function
/// of the input bytes alone.  The encoder writes into an in-memory `Vec`,
/// whose sink never fails, so the call always succeeds.
#[verifier::external_body]
fn compress_bytes(bytes: &[u8]) -> (r: Result<Vec<u8>, Error>)
    ensures
        r is Ok,
        r matches Ok(v) ==> v@ == bzip2_of(bytes@),
{
    let buffer = Vec::new();
    let mut encoder = bzip2::write::BzEncoder::new(buffer, bzip2::Compression::new(6));
    if encoder.write_all(bytes).is_err() {
        return Err(Error::Io);
    }
    match encoder.finish() {
        Ok(v) => Ok(v),
        Err(_) => Err(Error::Io),
    }
}

impl BzipCompressor {
    /// Compresses a descriptor's in-memory payload with bzip2.  A
    /// descriptor whose payload was never read is a malformed input; a
    /// present payload always compresses.
    pub fn compress_file_in_memory(file: File) -> (r: Result<Vec<u8>, Error>)
        ensures
            file.contents_in_memory is None ==> r == Err::<Vec<u8>, Error>(Error::InvalidInput),
            file.contents_in_memory matches Some(b) ==> r matches Ok(v) && v@ == bzip2_of(b@),
    {
        let bytes = match file.contents_in_memory {
            Some(bytes) => bytes,
            None => {
                return Err(Error::InvalidInput);
            },
        };
        compress_bytes(bytes.as_slice())
    }
}

} // verus!
