//! The failure taxonomy: every failure aborts the whole invocation.
use vstd::prelude::*;

verus! {

/// Why an invocation failed.
#[derive(Debug)]
pub enum EnvError {
    /// The application config or the identity table could not be read,
    /// parsed, or rewritten.
    ConfigIo,
    /// An environment's state record could not be read or parsed.
    EnvironmentIo,
    /// A requested setup action's runner reported non-success; the actions
    /// after it were not attempted.
    TrickExecution { trick: String, status: i32 },
    /// The launched program itself reported non-success.
    Launch { status: i32 },
}

} // verus!
