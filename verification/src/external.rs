//! Structured invocations of external tools: a program, exact arguments, and an optional
//! working directory, with shell use always explicit.

use vstd::prelude::*;

use crate::local_fs::{native_of_text, view_style, NativePath, NativePathView};
use crate::resource::ResourceRef;

verus! {

/// What the user asks an external tool to do with a resource.
#[derive(Clone, Copy, Debug, PartialEq, Eq, Structural)]
#[non_exhaustive]
pub enum ExternalAction {
    Open,
    View,
    Edit,
    Inspect,
    Execute,
    Shell,
}

/// Whether arguments reach the program directly or through an explicit shell script.
#[derive(Clone, Copy, Debug, PartialEq, Eq, Structural)]
#[non_exhaustive]
pub enum ExternalInvocationMode {
    StructuredArgv,
    ExplicitShell,
}

impl Default for ExternalInvocationMode {
    fn default() -> (r: Self)
        ensures
            r == ExternalInvocationMode::StructuredArgv,
    {
        ExternalInvocationMode::StructuredArgv
    }
}

/// One process to start.
#[derive(Clone, Debug, PartialEq, Eq)]
pub struct ExternalInvocation {
    pub mode: ExternalInvocationMode,
    pub program: NativePath,
    pub arguments: Vec<NativePath>,
    pub current_directory: Option<NativePath>,
    /// Files to remove once the process has finished.
    pub cleanup_paths: Vec<NativePath>,
}

/// The values of a list of native paths.
pub open spec fn native_views(v: Seq<NativePath>) -> Seq<NativePathView> {
    Seq::new(v.len(), |i: int| v[i]@)
}

impl ExternalInvocation {
    /// A structured invocation of a program with no arguments.
    pub fn new(program: NativePath) -> (r: Self)
        ensures
            r.mode == ExternalInvocationMode::StructuredArgv,
            r.program@ == program@,
            r.arguments@.len() == 0,
            r.current_directory is None,
            r.cleanup_paths@.len() == 0,
    {
        ExternalInvocation {
            mode: ExternalInvocationMode::StructuredArgv,
            program,
            arguments: Vec::new(),
            current_directory: None,
            cleanup_paths: Vec::new(),
        }
    }

    /// An explicit shell invocation: the shell runs `-lc` and the script.
    pub fn explicit_shell(program: NativePath, script: NativePath) -> (r: Self)
        ensures
            r.mode == ExternalInvocationMode::ExplicitShell,
            r.program@ == program@,
            r.arguments@.len() == 2,
            r.arguments@[0]@ == native_of_text(view_style(script@), "-lc"@),
            r.arguments@[1]@ == script@,
            r.current_directory is None,
            r.cleanup_paths@.len() == 0,
    {
        let style = crate::local_fs::path_style(&script);
        let flag = crate::local_fs::native_path_from_text(style, "-lc");
        ExternalInvocation {
            mode: ExternalInvocationMode::ExplicitShell,
            program,
            arguments: vec![flag, script],
            current_directory: None,
            cleanup_paths: Vec::new(),
        }
    }

    /// The invocation with one more argument.
    pub fn with_argument(self, argument: NativePath) -> (r: Self)
        ensures
            r.mode == self.mode,
            r.program == self.program,
            native_views(r.arguments@) == native_views(self.arguments@).push(argument@),
            r.current_directory == self.current_directory,
            r.cleanup_paths == self.cleanup_paths,
    {
        let mut r = self;
        r.arguments.push(argument);
        assert(native_views(r.arguments@) =~= native_views(self.arguments@).push(argument@));
        r
    }

    /// The invocation with more arguments, in order.
    pub fn with_arguments(self, arguments: Vec<NativePath>) -> (r: Self)
        ensures
            r.mode == self.mode,
            r.program == self.program,
            native_views(r.arguments@) == native_views(self.arguments@) + native_views(
                arguments@,
            ),
            r.current_directory == self.current_directory,
            r.cleanup_paths == self.cleanup_paths,
    {
        let mut r = self;
        let mut rest = arguments;
        r.arguments.append(&mut rest);
        assert(native_views(r.arguments@) =~= native_views(self.arguments@) + native_views(
            arguments@,
        ));
        r
    }

    /// The invocation running in a working directory.
    pub fn with_current_directory(self, directory: NativePath) -> (r: Self)
        ensures
            r.mode == self.mode,
            r.program == self.program,
            r.arguments == self.arguments,
            r.current_directory matches Some(d) && d@ == directory@,
            r.cleanup_paths == self.cleanup_paths,
    {
        let mut r = self;
        r.current_directory = Some(directory);
        r
    }

    /// The invocation with one more file to remove after it has run.
    pub fn with_cleanup_path(self, path: NativePath) -> (r: Self)
        ensures
            r.mode == self.mode,
            r.program == self.program,
            r.arguments == self.arguments,
            r.current_directory == self.current_directory,
            native_views(r.cleanup_paths@) == native_views(self.cleanup_paths@).push(path@),
    {
        let mut r = self;
        r.cleanup_paths.push(path);
        assert(native_views(r.cleanup_paths@) =~= native_views(self.cleanup_paths@).push(path@));
        r
    }
}

/// A resolved invocation, the handler that produced it, and why it was chosen.
#[derive(Clone, Debug, PartialEq, Eq)]
pub struct ExternalResolution {
    pub invocation: ExternalInvocation,
    pub handler_id: String,
    pub explanation: String,
}

} // verus!
