use vstd::prelude::*;

use crate::error::Error;
use crate::extension::CompressionFormat;
use crate::file::File;

verus! {

/// A plain compressor takes exactly one input file; compressing several
/// at once needs an archival format such as tar in between.
pub fn check_for_multiple_files(files: &Vec<String>, _format: &CompressionFormat) -> (r: Result<
    (),
    Error,
>)
    ensures
        r is Ok <==> files@.len() == 1,
        files@.len() != 1 ==> r == Err::<(), Error>(Error::InvalidInput),
{
    if files.len() != 1 {
        return Err(Error::InvalidInput);
    }
    Ok(())
}

/// The path the execution stage writes to: the command's output when one
/// was given, else the current directory.  A present output must carry no
/// extension here: only decompression commands reach this point.
pub fn get_destination_path<'a>(dest: &'a Option<File>) -> (r: &'a str)
    requires
        dest matches Some(f) ==> f.extension is None,
    ensures
        match dest {
            Some(f) => r@ == f.path@,
            None => r@ == "."@,
        },
{
    match dest {
        Some(output) => output.path.as_str(),
        None => ".",
    }
}

} // verus!
