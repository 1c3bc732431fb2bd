//! The plain shape of a lint invocation, as the option resolver consumes it.
//! The command-line front end fills one of these in.

use vstd::prelude::*;

verus! {

/// How findings are colored on a terminal.
#[derive(Debug, Clone, Copy)]
pub enum ColorMode {
    Auto,
    Always,
    Never,
}

/// One lint invocation: where the message comes from, which preset and rules
/// apply, and how the outcome is acted on.
#[derive(Debug)]
pub struct LintArgs {
    pub from_file: Option<String>,
    pub stdin: bool,
    pub message: Option<String>,
    pub commit_file: Option<String>,
    pub preset: Option<String>,
    pub msg_pattern: Option<String>,
    pub msg_pattern_description: Option<String>,
    pub exclude: Vec<String>,
    pub cleanup: Vec<String>,
    pub cleanup_pattern: Option<String>,
    pub cleanup_replacement: Option<String>,
    pub cleanup_description: Option<String>,
    pub config: Option<String>,
    pub write: bool,
    pub color: ColorMode,
    pub single_line: bool,
    pub require_body: bool,
    pub exit_nonzero_on_rewrite: bool,
}

impl Default for LintArgs {
    /// An invocation with no source, no overrides, and automatic coloring.
    fn default() -> (r: Self)
        ensures
            r.from_file is None,
            !r.stdin,
            r.message is None,
            r.commit_file is None,
            r.preset is None,
            r.msg_pattern is None,
            r.msg_pattern_description is None,
            r.exclude@.len() == 0,
            r.cleanup@.len() == 0,
            r.cleanup_pattern is None,
            r.cleanup_replacement is None,
            r.cleanup_description is None,
            r.config is None,
            !r.write,
            r.color is Auto,
            !r.single_line,
            !r.require_body,
            !r.exit_nonzero_on_rewrite,
    {
        LintArgs {
            from_file: None,
            stdin: false,
            message: None,
            commit_file: None,
            preset: None,
            msg_pattern: None,
            msg_pattern_description: None,
            exclude: Vec::new(),
            cleanup: Vec::new(),
            cleanup_pattern: None,
            cleanup_replacement: None,
            cleanup_description: None,
            config: None,
            write: false,
            color: ColorMode::Auto,
            single_line: false,
            require_body: false,
            exit_nonzero_on_rewrite: false,
        }
    }
}

} // verus!
