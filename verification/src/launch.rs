//! What to run for a script: the interpreter beside the file that the script
//! really is, with the script as it was given and the forwarded arguments.
//!
//! The interpreter's path is joined lexically and nothing asks whether it
//! exists: only the attempt to run it tells. Where the attempt fails there is
//! one error and no second candidate.

use crate::bytes::{push_copies, push_text, views};
use crate::links::LinkTable;
use crate::path::{beside, spec_beside, spec_join, spec_parent};
use crate::resolve::{chain_ends, spec_walk_symlink, walk_symlink};
use vstd::prelude::*;
use vstd::slice::slice_to_vec;
use vstd::string::StringSliceAdditionalSpecFns;

verus! {

/// The status the process ends with when the interpreter could not be run.
pub const LAUNCH_FAILURE_STATUS: i32 = 127;

/// The process image to put in place of this one.
#[derive(Debug, PartialEq, Eq)]
pub struct LaunchPlan {
    /// The interpreter to run.
    pub program: Vec<u8>,
    /// What it is handed after its own name: the script as it was given,
    /// then the forwarded arguments in their order.
    pub args: Vec<Vec<u8>>,
}

/// An interpreter that could not be run.
#[derive(Debug, PartialEq, Eq)]
pub struct LaunchError {
    /// The path that was tried.
    pub target: Vec<u8>,
    /// What the operating system said of the attempt.
    pub reason: Vec<u8>,
}

/// The interpreter for a script whose file is `resolved`: `relcmd` read from
/// the directory that holds `resolved`.
pub open spec fn spec_target(resolved: Seq<u8>, relcmd: Seq<u8>) -> Seq<u8> {
    spec_beside(resolved, relcmd)
}

/// What the interpreter is handed after its own name.
pub open spec fn spec_launch_args(script: Seq<u8>, argv: Seq<Seq<u8>>) -> Seq<Seq<u8>> {
    seq![script] + argv
}

/// The line that reports a failed launch, without a line end.
pub open spec fn spec_error_line(target: Seq<u8>, reason: Seq<u8>) -> Seq<u8> {
    "Error executing ".spec_bytes() + target + ": ".spec_bytes() + reason
}

/// The interpreter's path is the relative command joined onto the parent of
/// the script's file, or onto the file's own path where it has no parent.
/// No file system has a part in it.
pub proof fn lemma_target_is_joined_to_parent(resolved: Seq<u8>, relcmd: Seq<u8>)
    ensures
        spec_target(resolved, relcmd) == match spec_parent(resolved) {
            Some(d) => spec_join(d, relcmd),
            None => spec_join(resolved, relcmd),
        },
{
}

impl LaunchPlan {
    /// The whole argument vector of the new process image: the interpreter's
    /// path as its name, then the arguments.
    pub open spec fn spec_argv(&self) -> Seq<Seq<u8>> {
        seq![self.program@] + views(self.args@)
    }

    /// The whole argument vector of the new process image.
    pub fn argv(&self) -> (out: Vec<Vec<u8>>)
        ensures
            views(out@) == self.spec_argv(),
    {
        let mut out: Vec<Vec<u8>> = Vec::new();
        out.push(slice_to_vec(self.program.as_slice()));
        assert(views(out@) =~= seq![self.program@]);
        push_copies(&mut out, self.args.as_slice());
        out
    }

    /// The error for an attempt to run the plan's interpreter that failed
    /// for `reason`: it names the path that was tried, and no other.
    pub fn failure(&self, reason: &[u8]) -> (out: LaunchError)
        ensures
            out.target@ == self.program@,
            out.reason@ == reason@,
    {
        LaunchError { target: slice_to_vec(self.program.as_slice()), reason: slice_to_vec(reason) }
    }
}

impl LaunchError {
    /// The line for standard error, without a line end.
    pub fn message(&self) -> (out: Vec<u8>)
        ensures
            out@ == spec_error_line(self.target@, self.reason@),
    {
        let mut out: Vec<u8> = Vec::new();
        push_text(&mut out, "Error executing ");
        out.extend_from_slice(self.target.as_slice());
        push_text(&mut out, ": ");
        out.extend_from_slice(self.reason.as_slice());
        out
    }

    /// The status to end the process with.
    pub fn status(&self) -> (out: i32)
        ensures
            out == LAUNCH_FAILURE_STATUS,
    {
        LAUNCH_FAILURE_STATUS
    }
}

/// Plans the launch for a script whose file is known: `resolved` is where the
/// chain of links from `script` ended. The interpreter is looked for beside
/// `resolved`; it is handed `script`, not `resolved`.
pub fn plan_launch(relcmd: &[u8], script: &[u8], resolved: &[u8], argv: &[Vec<u8>]) -> (out:
    LaunchPlan)
    ensures
        out.program@ == spec_target(resolved@, relcmd@),
        views(out.args@) == spec_launch_args(script@, views(argv@)),
{
    let program = beside(resolved, relcmd);
    let mut args: Vec<Vec<u8>> = Vec::new();
    args.push(slice_to_vec(script));
    assert(views(args@) =~= seq![script@]);
    push_copies(&mut args, argv);
    LaunchPlan { program, args }
}

/// Plans the launch of `script` with the interpreter `relcmd` beside it, in a
/// file system whose links are `links`: follows the links from `script`, then
/// plans for the file they end at.
///
/// The chain of links from `script` must end.
pub fn exec_relative(relcmd: &[u8], script: &[u8], argv: &[Vec<u8>], links: &LinkTable) -> (out:
    LaunchPlan)
    requires
        chain_ends(links@, script@),
    ensures
        out.program@ == spec_target(spec_walk_symlink(links@, script@), relcmd@),
        views(out.args@) == spec_launch_args(script@, views(argv@)),
{
    let resolved = walk_symlink(script, links);
    plan_launch(relcmd, script, resolved.as_slice(), argv)
}

} // verus!
