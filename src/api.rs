//! The response envelope `{success, data, error}` of every request.
use vstd::prelude::*;

verus! {

pub struct ApiResponse<T> {
    pub success: bool,
    pub data: Option<T>,
    pub error: Option<String>,
}

impl<T> ApiResponse<T> {
    pub fn success(data: T) -> (r: ApiResponse<T>)
        ensures
            r.success,
            r.data == Some(data),
            r.error.is_none(),
    {
        ApiResponse { success: true, data: Some(data), error: None }
    }

    pub fn error(msg: &str) -> (r: ApiResponse<T>)
        ensures
            !r.success,
            r.data.is_none(),
            r.error.is_some() && r.error.unwrap()@ == msg@,
    {
        ApiResponse { success: false, data: None, error: Some(String::from_str(msg)) }
    }
}

} // verus!
