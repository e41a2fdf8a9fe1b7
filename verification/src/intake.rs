//! Which command-line arguments become dump jobs, and the console text
//! around the dumps.
//!
//! Each argument is classified by what its path's metadata showed. Only a
//! readable non-directory file is accepted; a directory, a missing path and
//! a permission failure each yield a note and are skipped. A run with
//! arguments but no accepted file reports an error and fails; a run without
//! arguments prints the usage text and succeeds.

use vstd::prelude::*;
use vstd::string::StringSliceAdditionalSpecFns;

verus! {

/// What the metadata check found for one argument.
#[derive(Clone, Copy, Debug, PartialEq, Eq, Structural)]
pub enum ArgStatus {
    /// An existing non-directory path: accepted as a dump job.
    File,
    /// The path names a directory.
    Directory,
    /// No such path exists.
    Missing,
    /// The path may not be read.
    PermissionDenied,
}

/// Whether a status admits the argument to the job queue.
pub open spec fn accepts(status: ArgStatus) -> bool {
    status is File
}

/// The reason text of the note for a rejected argument.
pub open spec fn reason_rep(status: ArgStatus) -> Seq<u8> {
    match status {
        ArgStatus::Directory => "is a directory".spec_bytes(),
        ArgStatus::Missing => "no such file".spec_bytes(),
        ArgStatus::PermissionDenied => "permission denied".spec_bytes(),
        ArgStatus::File => Seq::empty(),
    }
}

/// The note line for a rejected argument.
pub open spec fn note_rep(arg: Seq<u8>, status: ArgStatus) -> Seq<u8> {
    "note: '".spec_bytes() + arg + "' - ".spec_bytes() + reason_rep(status) + "\n".spec_bytes()
}

/// The note to print for an argument, or nothing when it is accepted.
pub fn argument_note(arg: &str, status: ArgStatus) -> (r: Option<Vec<u8>>)
    ensures
        accepts(status) ==> r is None,
        !accepts(status) ==> (r matches Some(note) && note@ == note_rep(arg.spec_bytes(), status)),
{
    match status {
        ArgStatus::File => None,
        _ => {
            let mut note: Vec<u8> = Vec::new();
            crate::render::push_bytes(&mut note, "note: '".as_bytes());
            crate::render::push_bytes(&mut note, arg.as_bytes());
            crate::render::push_bytes(&mut note, "' - ".as_bytes());
            match status {
                ArgStatus::Directory => crate::render::push_bytes(
                    &mut note,
                    "is a directory".as_bytes(),
                ),
                ArgStatus::Missing => crate::render::push_bytes(&mut note, "no such file".as_bytes()),
                _ => crate::render::push_bytes(&mut note, "permission denied".as_bytes()),
            }
            crate::render::push_bytes(&mut note, "\n".as_bytes());
            Some(note)
        },
    }
}

/// How many of the classified arguments are accepted.
pub open spec fn accepted_count(statuses: Seq<ArgStatus>) -> nat
    decreases statuses.len(),
{
    if statuses.len() == 0 {
        0
    } else {
        accepted_count(statuses.drop_last()) + (if accepts(statuses.last()) {
            1nat
        } else {
            0nat
        })
    }
}

/// Counts the accepted arguments.
pub fn count_accepted(statuses: &Vec<ArgStatus>) -> (n: usize)
    ensures
        n == accepted_count(statuses@),
{
    let mut n: usize = 0;
    let mut i: usize = 0;
    while i < statuses.len()
        invariant
            i <= statuses@.len(),
            n == accepted_count(statuses@.take(i as int)),
            n <= i,
        decreases statuses@.len() - i,
    {
        if matches!(statuses[i], ArgStatus::File) {
            n = n + 1;
        }
        i = i + 1;
        proof {
            let taken = statuses@.take(i as int);
            assert(taken.drop_last() =~= statuses@.take(i - 1));
            assert(taken.last() == statuses@[i - 1]);
        }
    }
    assert(statuses@.take(statuses@.len() as int) =~= statuses@);
    n
}

/// Whether the run must fail: it had arguments, but none was accepted.
pub fn run_fails(statuses: &Vec<ArgStatus>) -> (r: bool)
    ensures
        r <==> statuses@.len() > 0 && accepted_count(statuses@) == 0,
{
    let n = count_accepted(statuses);
    statuses.len() > 0 && n == 0
}

/// The usage text printed for a run without arguments.
pub fn usage_message(biname: &str) -> (out: Vec<u8>)
    ensures
        out@ == "Print files in hex and ascii\n\nusage: ".spec_bytes() + biname.spec_bytes()
            + " [file(s)]...\n".spec_bytes(),
{
    let mut out: Vec<u8> = Vec::new();
    crate::render::push_bytes(&mut out, "Print files in hex and ascii\n\nusage: ".as_bytes());
    crate::render::push_bytes(&mut out, biname.as_bytes());
    crate::render::push_bytes(&mut out, " [file(s)]...\n".as_bytes());
    out
}

/// The error text for a run whose every argument was rejected.
pub fn empty_queue_error() -> (out: Vec<u8>)
    ensures
        out@ ==
            "^^^^^\nerror: supplied files have been discarded due to the preceding conditions - nothing to dump\n".spec_bytes(),
{
    let mut out: Vec<u8> = Vec::new();
    crate::render::push_bytes(
        &mut out,
        "^^^^^\nerror: supplied files have been discarded due to the preceding conditions - nothing to dump\n".as_bytes(),
    );
    out
}

/// How many dashes the rule before a dump takes: the path is right-aligned
/// within a 79-column line, and a path too wide for that still gets one
/// dash.
pub open spec fn rule_width(len: nat) -> nat {
    if len < 78 {
        (79 - len) as nat
    } else {
        1
    }
}

/// A run of `n` dashes.
pub open spec fn dashes(n: nat) -> Seq<u8> {
    Seq::new(n, |i: int| 0x2du8)
}

/// The header printed before a file's dump: the dashed rule, the path, and
/// a blank line.
pub open spec fn separator_rep(path: Seq<u8>) -> Seq<u8> {
    dashes(rule_width(path.len())) + " ".spec_bytes() + path + "\n\n".spec_bytes()
}

/// Builds the header printed before a file's dump.
pub fn separator(path: &str) -> (out: Vec<u8>)
    ensures
        out@ == separator_rep(path.spec_bytes()),
{
    let mut out: Vec<u8> = Vec::new();
    let len = path.as_bytes().len();
    let width = if len < 78 {
        79 - len
    } else {
        1
    };
    let mut i: usize = 0;
    while i < width
        invariant
            i <= width,
            out@ == dashes(i as nat),
        decreases width - i,
    {
        out.push(0x2d);
        assert(dashes((i + 1) as nat) =~= dashes(i as nat).push(0x2du8));
        i = i + 1;
    }
    assert(width == rule_width(path.spec_bytes().len()));
    crate::render::push_bytes(&mut out, " ".as_bytes());
    crate::render::push_bytes(&mut out, path.as_bytes());
    crate::render::push_bytes(&mut out, "\n\n".as_bytes());
    out
}

} // verus!
