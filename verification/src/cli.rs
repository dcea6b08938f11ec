use vstd::prelude::*;

use crate::error::Error;
use crate::extension::{ext_chain_of, has_extension, Extension};
use crate::file::File;

verus! {

/// The two intents an invocation can carry.
#[derive(Debug, PartialEq, Eq)]
pub enum CommandKind {
    /// Paths to be compressed, kept raw: for a compression command the
    /// output's extension alone drives codec selection.
    Compression(Vec<String>),
    /// Files to be decompressed, each carrying its resolved extension.
    Decompression(Vec<File>),
}

/// The single decided outcome of an invocation: an intent plus an
/// optional output descriptor.
#[derive(Debug, PartialEq, Eq)]
pub struct Command {
    pub kind: CommandKind,
    pub output: Option<File>,
}

impl Command {
    /// A decompression destination is a directory or prefix, never itself
    /// a compressed artifact: its descriptor carries no extension.
    pub open spec fn wf(&self) -> bool {
        match self.kind {
            CommandKind::Decompression(_) => match self.output {
                Some(f) => f.extension is None,
                None => true,
            },
            CommandKind::Compression(_) => true,
        }
    }
}

/// Index of the first input with no recognized suffix, or `paths.len()`
/// when every input has one.
pub open spec fn first_unparsable(paths: Seq<String>) -> int
    decreases paths.len(),
{
    if paths.len() == 0 {
        0
    } else if !has_extension(paths[0]@) {
        0
    } else {
        1 + first_unparsable(paths.drop_first())
    }
}

pub proof fn lemma_first_unparsable(paths: Seq<String>)
    ensures
        0 <= first_unparsable(paths) <= paths.len(),
        forall|j: int| 0 <= j < first_unparsable(paths) ==> has_extension(paths[j]@),
        first_unparsable(paths) < paths.len() ==> !has_extension(
            paths[first_unparsable(paths)]@,
        ),
    decreases paths.len(),
{
    if paths.len() > 0 && has_extension(paths[0]@) {
        lemma_first_unparsable(paths.drop_first());
        assert forall|j: int| 0 <= j < first_unparsable(paths) implies has_extension(
            paths[j]@,
        ) by {
            if j > 0 {
                assert(paths.drop_first()[j - 1] == paths[j]);
            }
        }
    }
}

/// What a decompression command's file list states about the inputs it
/// came from: same paths in the same order, each with its resolved
/// extension, none read into memory yet.
pub open spec fn resolved_inputs(files: Seq<File>, inputs: Seq<String>) -> bool {
    &&& files.len() == inputs.len()
    &&& forall|i: int|
        0 <= i < files.len() ==> {
            &&& (#[trigger] files[i]).path@ == inputs[i]@
            &&& files[i].contents_in_memory is None
            &&& files[i].extension matches Some(e) && e.tokens@ == ext_chain_of(inputs[i]@)
        }
}

/// Parses every input path for a decompression command.  All-or-nothing:
/// the first input without a recognized suffix fails the whole command.
fn parse_decompressible_inputs(inputs: &Vec<String>) -> (r: Result<Vec<File>, Error>)
    ensures
        ({
            let k = first_unparsable(inputs@);
            match r {
                Ok(files) => k == inputs@.len() && resolved_inputs(files@, inputs@),
                Err(e) => k < inputs@.len() && (e matches Error::InputsMustHaveBeenDecompressible(
                    p,
                ) && p@ == inputs@[k]@),
            }
        }),
{
    let mut files: Vec<File> = Vec::new();
    let mut i: usize = 0;
    while i < inputs.len()
        invariant
            i <= inputs@.len(),
            forall|j: int| 0 <= j < i ==> has_extension(inputs@[j]@),
            resolved_inputs(files@, inputs@.subrange(0, i as int)),
        decreases inputs@.len() - i,
    {
        let path: &String = &inputs[i];
        match Extension::new(path.as_str()) {
            Ok(ext) => {
                let f = File::new(path.clone(), Some(ext));
                files.push(f);
                proof {
                    assert(inputs@.subrange(0, i + 1).drop_last() =~= inputs@.subrange(
                        0,
                        i as int,
                    ));
                }
            },
            Err(_) => {
                proof {
                    lemma_first_unparsable(inputs@);
                }
                return Err(Error::InputsMustHaveBeenDecompressible(path.clone()));
            },
        }
        i = i + 1;
    }
    proof {
        lemma_first_unparsable(inputs@);
        assert(inputs@.subrange(0, i as int) =~= inputs@);
    }
    Ok(files)
}

/// Decides between compression and decompression from the input paths and
/// the optional output path, and builds the command descriptor.
///
/// An output that parses as an extension means compression into it; an
/// output that does not, or no output at all, means decompression, which
/// requires every input to carry a recognized extension.  An empty input
/// sequence is a malformed invocation.
pub fn infer(input_files: Vec<String>, output: Option<String>) -> (r: Result<Command, Error>)
    ensures
        r matches Ok(c) ==> c.wf(),
        input_files@.len() == 0 ==> r == Err::<Command, Error>(Error::InvalidInput),
        input_files@.len() > 0 ==> match output {
            Some(out) => {
                if has_extension(out@) {
                    r matches Ok(c) && (c.kind matches CommandKind::Compression(paths)
                        && paths@.len() == input_files@.len() && (forall|i: int|
                        0 <= i < paths@.len() ==> (#[trigger] paths@[i])@ == input_files@[i]@)) && (
                    c.output matches Some(f) && f.path@ == out@ && f.contents_in_memory is None && (
                    f.extension matches Some(e) && e.tokens@ == ext_chain_of(out@)))
                } else {
                    ({
                        let k = first_unparsable(input_files@);
                        if k == input_files@.len() {
                            r matches Ok(c) && (c.kind matches CommandKind::Decompression(files)
                                && resolved_inputs(files@, input_files@)) && (
                            c.output matches Some(f) && f.path@ == out@
                                && f.contents_in_memory is None && f.extension is None)
                        } else {
                            r matches Err(e) && (e matches Error::InputsMustHaveBeenDecompressible(
                                p,
                            ) && p@ == input_files@[k]@)
                        }
                    })
                }
            },
            None => ({
                let k = first_unparsable(input_files@);
                if k == input_files@.len() {
                    r matches Ok(c) && (c.kind matches CommandKind::Decompression(files)
                        && resolved_inputs(files@, input_files@)) && c.output is None
                } else {
                    r matches Err(e) && (e matches Error::InputsMustHaveBeenDecompressible(p)
                        && p@ == input_files@[k]@)
                }
            }),
        },
{
    if input_files.len() == 0 {
        return Err(Error::InvalidInput);
    }
    match output {
        Some(out) => {
            match Extension::new(out.as_str()) {
                Ok(ext) => Ok(
                    Command {
                        kind: CommandKind::Compression(input_files),
                        output: Some(File::new(out, Some(ext))),
                    },
                ),
                Err(_) => match parse_decompressible_inputs(&input_files) {
                    Ok(files) => Ok(
                        Command {
                            kind: CommandKind::Decompression(files),
                            output: Some(File::new(out, None)),
                        },
                    ),
                    Err(e) => Err(e),
                },
            }
        },
        None => match parse_decompressible_inputs(&input_files) {
            Ok(files) => Ok(Command { kind: CommandKind::Decompression(files), output: None }),
            Err(e) => Err(e),
        },
    }
}

} // verus!
