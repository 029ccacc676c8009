//! What a tool answers to its host.
use vstd::prelude::*;

verus! {

/// The answer of a tool: its output, or an error.
#[derive(Debug, PartialEq, Eq)]
pub struct Response {
    pub output: Option<String>,
    pub error: Option<String>,
}

/// The answer for what a tool came to.
pub fn respond(result: Result<String, String>) -> (r: Response)
    ensures
        match result {
            Ok(output) => r == (Response { output: Some(output), error: None }),
            Err(error) => r == (Response { output: None, error: Some(error) }),
        },
        r.output is Some <==> r.error is None,
{
    match result {
        Ok(output) => Response { output: Some(output), error: None },
        Err(error) => Response { output: None, error: Some(error) },
    }
}

} // verus!
