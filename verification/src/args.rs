//! Command-line argument shapes. Parsing them from a real command line
//! lives outside the library; these carry the values and turn them into
//! the reconciler's policy.

use crate::plan::SyncOptions;
use vstd::prelude::*;

verus! {

/// Arguments of a push (workstation to device) run.
pub struct PushArgs {
    pub source: String,
    pub dest: String,
    /// Delete files on the target that do not exist in the source.
    pub delete_if_dne: bool,
    /// Ignore entries whose relative path starts with one of these.
    pub ignore_dir: Vec<String>,
}

/// Arguments of a pull (device to workstation) run.
pub struct PullArgs {
    pub source: String,
    pub dest: Option<String>,
    /// Delete files on the target that do not exist in the source.
    pub delete_if_dne: bool,
    /// Ignore entries whose relative path starts with one of these.
    pub ignore_dir: Vec<String>,
    /// Set the modified time of copied files from the source.
    pub set_times: bool,
}

/// The two directions of a run.
pub enum SubCmds {
    Pull(PullArgs),
    Push(PushArgs),
}

/// The whole command line.
pub struct Cli {
    pub subcmd: SubCmds,
    pub verbose: bool,
}

impl PushArgs {
    /// The reconciler policy a push run asks for; a push never preserves
    /// times. `reject_trailing_dot` describes the destination platform.
    pub fn to_options(self, reject_trailing_dot: bool, verbose: bool) -> (r: SyncOptions)
        ensures
            r.mirror_deletions == self.delete_if_dne,
            !r.preserve_times,
            r.ignore_prefixes@ == self.ignore_dir@,
            r.reject_trailing_dot == reject_trailing_dot,
            r.verbose == verbose,
    {
        SyncOptions {
            mirror_deletions: self.delete_if_dne,
            preserve_times: false,
            ignore_prefixes: self.ignore_dir,
            reject_trailing_dot,
            verbose,
        }
    }
}

impl PullArgs {
    /// The reconciler policy a pull run asks for.
    pub fn to_options(self, reject_trailing_dot: bool, verbose: bool) -> (r: SyncOptions)
        ensures
            r.mirror_deletions == self.delete_if_dne,
            r.preserve_times == self.set_times,
            r.ignore_prefixes@ == self.ignore_dir@,
            r.reject_trailing_dot == reject_trailing_dot,
            r.verbose == verbose,
    {
        SyncOptions {
            mirror_deletions: self.delete_if_dne,
            preserve_times: self.set_times,
            ignore_prefixes: self.ignore_dir,
            reject_trailing_dot,
            verbose,
        }
    }
}

} // verus!
