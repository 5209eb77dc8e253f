//! The program as a run of steps.
//!
//! The library neither reads a file system nor runs anything. It says what is
//! to be done next; the caller does it and hands back what came of it:
//!
//! - `start` takes the argument vector and gives the first step;
//! - for `Step::ReadLink` the caller reads the walk's current path as a
//!   symbolic link and hands the answer to `Walking::on_read`, which gives the
//!   next step;
//! - for `Step::Exec` the caller replaces the process image as planned; only
//!   if that fails does it come back, to hand the reason to `exec_failed`;
//! - for `Step::Exit` the caller writes the message to standard error and
//!   ends the process.
//!
//! `dry_run` is such a caller for a table of links in place of a file system.

use crate::bytes::views;
use crate::cli::{parse_args, spec_program_name, spec_usage_line, Invocation, USAGE_STATUS};
use crate::launch::{
    plan_launch,
    spec_error_line,
    spec_launch_args,
    spec_target,
    LaunchPlan,
    LAUNCH_FAILURE_STATUS,
};
use crate::links::LinkTable;
use crate::path::spec_beside;
use crate::resolve::{
    chain_ends,
    ends_within,
    lemma_end_is_unique,
    spec_walk,
    spec_walk_symlink,
    walk_step,
    Walk,
};
use vstd::prelude::*;
use vstd::slice::slice_to_vec;

verus! {

/// The walk along the links from the script, at one of its paths.
#[derive(Debug, PartialEq, Eq)]
pub struct Walking {
    /// What the command line asked for.
    pub inv: Invocation,
    /// The path that the walk has reached, to be read as a link next.
    pub current: Vec<u8>,
}

/// The end of the process, short of a launch.
#[derive(Debug, PartialEq, Eq)]
pub struct Exit {
    /// The status to end with.
    pub status: i32,
    /// The line for standard error, without a line end.
    pub message: Vec<u8>,
}

/// What is to be done next.
#[derive(Debug, PartialEq, Eq)]
pub enum Step {
    /// Read the walk's current path as a symbolic link.
    ReadLink(Walking),
    /// Replace the process image.
    Exec(LaunchPlan),
    /// Write the message to standard error and end the process.
    Exit(Exit),
}

/// Whether `out` is the step with which a run on `argv` starts: with fewer
/// than three entries the usage line and its status, and nothing to read or
/// to run; otherwise the walk, standing at the script as it was given.
pub open spec fn is_start(argv: Seq<Seq<u8>>, out: Step) -> bool {
    if argv.len() < 3 {
        &&& out matches Step::Exit(exit)
        &&& exit.status == USAGE_STATUS
        &&& exit.message@ == spec_usage_line(spec_program_name(argv))
    } else {
        &&& out matches Step::ReadLink(walk)
        &&& walk.current@ == argv[2]
        &&& walk.inv.relcmd@ == argv[1]
        &&& walk.inv.script@ == argv[2]
        &&& views(walk.inv.args@) == argv.skip(3)
    }
}

/// Whether `plan` is the launch that `inv` asks for when the script's file is
/// `resolved`.
pub open spec fn is_launch(inv: Invocation, resolved: Seq<u8>, plan: LaunchPlan) -> bool {
    &&& plan.program@ == spec_target(resolved, inv.relcmd@)
    &&& views(plan.args@) == spec_launch_args(inv.script@, views(inv.args@))
}

/// The first step of a run on the argument vector `argv`.
pub fn start(argv: Vec<Vec<u8>>) -> (out: Step)
    ensures
        is_start(views(argv@), out),
{
    match parse_args(argv) {
        Ok(inv) => {
            let current = slice_to_vec(inv.script.as_slice());
            Step::ReadLink(Walking { inv, current })
        },
        Err(usage) => Step::Exit(Exit { status: usage.status(), message: usage.message() }),
    }
}

impl Walking {
    /// The step after the current path was read as a link, with `read` what
    /// the reading gave: the link's target, or `None` where the path is no
    /// link or could not be read. A link is followed; anything else ends the
    /// walk, and the interpreter beside the path it ended at is to be run.
    pub fn on_read(self, read: Option<&[u8]>) -> (out: Step)
        ensures
            match read {
                Some(target) => {
                    &&& out matches Step::ReadLink(next)
                    &&& next.inv == self.inv
                    &&& next.current@ == spec_beside(self.current@, target@)
                },
                None => {
                    &&& out matches Step::Exec(plan)
                    &&& is_launch(self.inv, self.current@, plan)
                },
            },
    {
        let Walking { inv, current } = self;
        match walk_step(current, read) {
            Walk::Follow(next) => Step::ReadLink(Walking { inv, current: next }),
            Walk::Done(resolved) => Step::Exec(
                plan_launch(
                    inv.relcmd.as_slice(),
                    inv.script.as_slice(),
                    resolved.as_slice(),
                    inv.args.as_slice(),
                ),
            ),
        }
    }
}

/// The step after the attempt to replace the process image by `plan` failed
/// for `reason`: the line that names the interpreter that was tried, and the
/// status of a failed launch. No other interpreter is tried.
pub fn exec_failed(plan: &LaunchPlan, reason: &[u8]) -> (out: Exit)
    ensures
        out.status == LAUNCH_FAILURE_STATUS,
        out.message@ == spec_error_line(plan.program@, reason@),
{
    let error = plan.failure(reason);
    Exit { status: error.status(), message: error.message() }
}

/// Runs the steps on `argv` with `links` for a file system, up to the step
/// that ends the run: the usage error, or the launch of the interpreter
/// beside the file at which the links from the script end.
///
/// Where there is a script, the chain of links from it must end.
pub fn dry_run(argv: Vec<Vec<u8>>, links: &LinkTable) -> (out: Step)
    requires
        argv.len() >= 3 ==> chain_ends(links@, argv[2]@),
    ensures
        argv.len() < 3 ==> is_start(views(argv@), out),
        argv.len() >= 3 ==> {
            &&& out matches Step::Exec(plan)
            &&& plan.program@ == spec_target(spec_walk_symlink(links@, argv[2]@), argv[1]@)
            &&& views(plan.args@) == spec_launch_args(argv[2]@, views(argv@).skip(3))
        },
{
    let ghost given = views(argv@);
    let mut walk = match start(argv) {
        Step::ReadLink(walk) => walk,
        other => {
            return other;
        },
    };
    let ghost script = given[2];
    let ghost total = choose|n: nat| ends_within(links@, script, n);
    let ghost mut hops: nat = 0;
    loop
        invariant
            given.len() >= 3,
            given == views(argv@),
            script == given[2],
            hops <= total,
            ends_within(links@, script, total),
            walk.inv.relcmd@ == given[1],
            walk.inv.script@ == script,
            views(walk.inv.args@) == given.skip(3),
            walk.current@ == spec_walk(links@, script, hops),
        decreases total - hops,
    {
        let read = links.read_link(walk.current.as_slice());
        match walk.on_read(read) {
            Step::ReadLink(next) => {
                proof {
                    hops = hops + 1;
                }
                walk = next;
            },
            other => {
                proof {
                    lemma_end_is_unique(links@, script, hops);
                }
                return other;
            },
        }
    }
}

} // verus!
