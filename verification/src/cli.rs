//! The command line: `<program> <interpreter> <file> ...`.

use crate::bytes::{push_text, views};
use vstd::prelude::*;
use vstd::string::StringSliceAdditionalSpecFns;

verus! {

/// The status the process ends with when it was called with too few
/// arguments.
pub const USAGE_STATUS: i32 = 2;

/// The name under which the program speaks of itself when the argument
/// vector does not even hold one.
pub open spec fn spec_default_program() -> Seq<u8> {
    "relexec".spec_bytes()
}

/// The name the program was called by.
pub open spec fn spec_program_name(argv: Seq<Seq<u8>>) -> Seq<u8> {
    if argv.len() > 0 {
        argv[0]
    } else {
        spec_default_program()
    }
}

/// The line that tells how `program` is to be called, without a line end.
pub open spec fn spec_usage_line(program: Seq<u8>) -> Seq<u8> {
    "Usage: ".spec_bytes() + program + " <interpreter> <file> ...".spec_bytes()
}

/// What a well-formed command line asks for.
#[derive(Debug, PartialEq, Eq)]
pub struct Invocation {
    /// The interpreter, named relative to the directory of the script.
    pub relcmd: Vec<u8>,
    /// The script, as it was given.
    pub script: Vec<u8>,
    /// The arguments to forward, in order.
    pub args: Vec<Vec<u8>>,
}

/// A command line with fewer than two arguments after the program's name.
#[derive(Debug, PartialEq, Eq)]
pub struct UsageError {
    /// The name the program was called by.
    pub program: Vec<u8>,
}

impl UsageError {
    /// The usage line for standard error, without a line end.
    pub fn message(&self) -> (out: Vec<u8>)
        ensures
            out@ == spec_usage_line(self.program@),
    {
        let mut out: Vec<u8> = Vec::new();
        push_text(&mut out, "Usage: ");
        out.extend_from_slice(self.program.as_slice());
        push_text(&mut out, " <interpreter> <file> ...");
        out
    }

    /// The status to end the process with.
    pub fn status(&self) -> (out: i32)
        ensures
            out == USAGE_STATUS,
    {
        USAGE_STATUS
    }
}

/// Reads the argument vector: the program's name, the interpreter, the
/// script, and what is to be forwarded. With fewer than three entries there is
/// nothing to run, and the error holds the name for the usage line.
pub fn parse_args(argv: Vec<Vec<u8>>) -> (out: Result<Invocation, UsageError>)
    ensures
        match out {
            Ok(inv) => {
                &&& argv.len() >= 3
                &&& inv.relcmd@ == argv[1]@
                &&& inv.script@ == argv[2]@
                &&& views(inv.args@) == views(argv@).skip(3)
            },
            Err(e) => {
                &&& argv.len() < 3
                &&& e.program@ == spec_program_name(views(argv@))
            },
        },
{
    let mut head = argv;
    if head.len() < 3 {
        let mut program: Vec<u8> = Vec::new();
        if head.len() > 0 {
            program = head.swap_remove(0);
        } else {
            push_text(&mut program, "relexec");
        }
        return Err(UsageError { program });
    }
    let args = head.split_off(3);
    let script = head.pop().unwrap();
    let relcmd = head.pop().unwrap();
    assert(views(args@) =~= views(argv@).skip(3));
    Ok(Invocation { relcmd, script, args })
}

} // verus!
