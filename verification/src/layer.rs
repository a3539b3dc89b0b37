//! Configuration of the tracing layer.
//!
//! The builder only gathers settings; the embedding runtime reads them
//! back when it wires the layer into the host framework, spawns the
//! writer thread and opens the output file.

use vstd::prelude::*;

verus! {

/// Gathers the layer's settings before the runtime builds it.
pub struct PerfettoLayerBuilder {
    output_file: Option<String>,
    include_args: bool,
}

impl PerfettoLayerBuilder {
    /// The configured output path, if one was set.
    pub closed spec fn output_path(&self) -> Option<Seq<char>> {
        match &self.output_file {
            Some(p) => Some(p@),
            None => None,
        }
    }

    /// Whether span and event field values are captured.
    pub closed spec fn args_included(&self) -> bool {
        self.include_args
    }

    /// Fresh settings: no output path chosen yet, arguments not
    /// captured.
    pub fn new() -> (r: Self)
        ensures
            r.output_path() is None,
            !r.args_included(),
    {
        PerfettoLayerBuilder { output_file: None, include_args: false }
    }

    /// Set the path of the output trace file.  Without it the runtime
    /// falls back to a timestamped default name.
    pub fn file(self, path: &str) -> (r: Self)
        ensures
            r.output_path() == Some(path@),
            r.args_included() == self.args_included(),
    {
        PerfettoLayerBuilder { output_file: Some(path.to_owned()), ..self }
    }

    /// Choose whether span and event field values are captured.
    pub fn include_args(self, enabled: bool) -> (r: Self)
        ensures
            r.args_included() == enabled,
            r.output_path() == self.output_path(),
    {
        PerfettoLayerBuilder { include_args: enabled, ..self }
    }

    /// Read the configured output path back.
    pub fn output_file(&self) -> (r: &Option<String>)
        ensures
            match r {
                Some(p) => self.output_path() == Some(p@),
                None => self.output_path() is None,
            },
    {
        &self.output_file
    }

    /// Read the argument-capture flag back.
    pub fn wants_args(&self) -> (r: bool)
        ensures
            r == self.args_included(),
    {
        self.include_args
    }
}

} // verus!
