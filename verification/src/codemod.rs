//! The decision at the boundary of the external code-transformation tool.
//! Running the tool — temporary files, a spawned process — is work for the
//! surrounding program; the library only classifies what came back.

use vstd::prelude::*;
use vstd::string::StringExecFns;

verus! {

/// A failure of the external code-transformation step.
#[derive(Debug)]
pub enum CodemodError {
    /// A temporary file or directory could not be created, written, read
    /// or removed.
    Io(String),
    /// The external command could not be launched.
    ProcessSpawn(String),
    /// The external command exited with nonzero status; the message ends
    /// in the captured standard-error text.
    ProcessExecution(String),
}

/// Decides the outcome of one run of the external tool: on a successful
/// exit the transformed content stands; otherwise the run failed, with the
/// captured standard-error text carried in the error message.
pub fn codemod_outcome(exit_success: bool, stderr_text: &str, modified_content: String) -> (r:
    Result<String, CodemodError>)
    ensures
        exit_success ==> (r matches Ok(c) && c@ == modified_content@),
        !exit_success ==> (r matches Err(CodemodError::ProcessExecution(m)) && m@
            == "Codemod failed: "@ + stderr_text@),
{
    if exit_success {
        Ok(modified_content)
    } else {
        let mut msg = String::new();
        msg.append("Codemod failed: ");
        msg.append(stderr_text);
        proof {
            assert((Seq::<char>::empty() + "Codemod failed: "@) + stderr_text@ =~= "Codemod failed: "@
                + stderr_text@);
        }
        Err(CodemodError::ProcessExecution(msg))
    }
}

} // verus!
