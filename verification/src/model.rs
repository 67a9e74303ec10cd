//! The run configuration: where to read, where to write, and how to
//! convert.

use crate::paths::FilePath;
use vstd::prelude::*;

verus! {

/// Whether the program scans once and exits, or stays resident watching
/// for new files.
#[derive(Clone, Copy, Debug, PartialEq, Eq, Structural)]
pub enum Mode {
    Oneshot,
    Daemon,
}

/// The process-wide configuration, loaded once and immutable thereafter.
///
/// `quality` is the encoder quality as a whole-number percentage, and
/// `smoothing_factor` the encoder smoothing, both on a scale of zero to one
/// hundred. A `long_side_limit` of zero disables resizing. `thread_count`
/// is the resolved worker count, at least one.
pub struct Config {
    pub input_path: FilePath,
    pub output_path: FilePath,
    pub flatten: bool,
    pub read_delay_ms: u64,
    pub long_side_limit: u32,
    pub smoothing_factor: u8,
    pub quality: u8,
    pub mode: Mode,
    pub thread_count: usize,
}

impl Config {
    /// Both roots have valid components, the two percentage scales stay in
    /// range, and at least one worker is configured.
    pub open spec fn wf(&self) -> bool {
        self.input_path.wf() && self.output_path.wf() && self.smoothing_factor <= 100
            && self.quality <= 100 && self.thread_count >= 1
    }

    /// Build a configuration, accepting it only when well formed.
    pub fn new(
        input_path: FilePath,
        output_path: FilePath,
        flatten: bool,
        read_delay_ms: u64,
        long_side_limit: u32,
        smoothing_factor: u8,
        quality: u8,
        mode: Mode,
        thread_count: usize,
    ) -> (r: Option<Config>)
        ensures
            r is Some <==> (input_path.wf() && output_path.wf() && smoothing_factor <= 100
                && quality <= 100 && thread_count >= 1),
            r matches Some(c) ==> c == (Config {
                input_path,
                output_path,
                flatten,
                read_delay_ms,
                long_side_limit,
                smoothing_factor,
                quality,
                mode,
                thread_count,
            }) && c.wf(),
    {
        if !input_path.check_wf() || !output_path.check_wf() || smoothing_factor > 100 || quality
            > 100 || thread_count < 1 {
            return None;
        }
        Some(
            Config {
                input_path,
                output_path,
                flatten,
                read_delay_ms,
                long_side_limit,
                smoothing_factor,
                quality,
                mode,
                thread_count,
            },
        )
    }
}

/// Relies on `num_cpus::get`, which its documentation promises to return
/// at least one.
#[verifier::external_body]
fn available_cpus() -> (r: usize)
    ensures
        r >= 1,
{
    num_cpus::get()
}

/// Resolve the configured worker count: zero means autodetect from the
/// machine's available parallelism, and the result is never below one.
pub fn resolve_thread_count(configured: usize) -> (r: usize)
    ensures
        configured != 0 ==> r == configured,
        r >= 1,
{
    if configured == 0 {
        let cpus = available_cpus();
        if cpus >= 1 {
            cpus
        } else {
            1
        }
    } else {
        configured
    }
}

} // verus!
