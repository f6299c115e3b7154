use vstd::prelude::*;

verus! {

/// The one error of inference: a message for the driver to render.
#[derive(Debug)]
pub struct InferError {
    pub message: String,
}

impl InferError {
    pub fn new(message: String) -> (r: InferError)
        ensures
            r.message@ == message@,
    {
        InferError { message }
    }
}

} // verus!
