//! A uniform envelope for handing a result, or the reason there is none, to
//! a caller.

use vstd::prelude::*;

verus! {

/// Either a payload with the fixed message `"Success"`, or a failure message
/// without payload.
#[derive(Clone, Debug, PartialEq, Eq)]
pub struct ApiResponse<T> {
    pub success: bool,
    pub data: Option<T>,
    pub message: String,
}

impl<T> ApiResponse<T> {
    /// A response is coherent when it carries a payload exactly if it
    /// reports success.
    pub open spec fn coherent(&self) -> bool {
        self.success <==> self.data is Some
    }

    /// Wraps `data` as a successful response.
    pub fn success(data: T) -> (response: Self)
        ensures
            response.success,
            response.data == Some(data),
            response.message@ == "Success"@,
            response.coherent(),
    {
        ApiResponse { success: true, data: Some(data), message: "Success".to_owned() }
    }

    /// A failed response that carries `message` and no payload.
    pub fn error(message: String) -> (response: Self)
        ensures
            !response.success,
            response.data is None,
            response.message == message,
            response.coherent(),
    {
        ApiResponse { success: false, data: None, message }
    }
}

} // verus!
