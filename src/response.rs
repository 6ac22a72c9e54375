//! Response envelopes handed to HTTP handlers.
use vstd::prelude::*;

verus! {

/// The common envelope: a success flag, a message and optional data.
pub struct ApiResponse<T> {
    pub success: bool,
    pub message: String,
    pub data: Option<T>,
}

impl<T> ApiResponse<T> {
    pub fn success(message: &str, data: T) -> (r: Self)
        ensures
            r.success,
            r.message@ == message@,
            r.data == Some(data),
    {
        ApiResponse { success: true, message: message.to_owned(), data: Some(data) }
    }

    pub fn success_with_option(message: &str, data: Option<T>) -> (r: Self)
        ensures
            r.success,
            r.message@ == message@,
            r.data == data,
    {
        ApiResponse { success: true, message: message.to_owned(), data }
    }
}

impl ApiResponse<()> {
    pub fn success_no_data(message: &str) -> (r: Self)
        ensures
            r.success,
            r.message@ == message@,
            r.data is None,
    {
        ApiResponse { success: true, message: message.to_owned(), data: None }
    }
}

} // verus!
