//! JSON-RPC messages. The payload type `P` stands for a JSON value.

use vstd::prelude::*;

verus! {

/// The id of a request.
pub enum JsonRpcId {
    Number(i64),
    String(String),
}

impl Clone for JsonRpcId {
    fn clone(&self) -> (res: Self)
        ensures
            res == *self,
    {
        match self {
            JsonRpcId::Number(n) => JsonRpcId::Number(*n),
            JsonRpcId::String(s) => JsonRpcId::String(s.clone()),
        }
    }
}

/// A request, or a notification where it has no id.
pub struct JsonRpcRequest<P> {
    pub jsonrpc: String,
    pub id: Option<JsonRpcId>,
    pub method: String,
    pub params: Option<P>,
}

impl<P> JsonRpcRequest<P> {
    /// Whether no answer is expected.
    pub fn is_notification(&self) -> (res: bool)
        ensures
            res == (self.id is None),
    {
        self.id.is_none()
    }
}

/// Why a request failed.
pub struct JsonRpcError<P> {
    pub code: i64,
    pub message: String,
    pub data: Option<P>,
}

impl<P> JsonRpcError<P> {
    /// An error without further data.
    pub fn new(code: i64, message: &str) -> (res: JsonRpcError<P>)
        ensures
            res.code == code,
            res.message@ == message@,
            res.data is None,
    {
        JsonRpcError { code, message: message.to_string(), data: None }
    }
}

/// The answer to a request.
pub struct JsonRpcResponse<P> {
    pub jsonrpc: String,
    pub id: Option<JsonRpcId>,
    pub result: Option<P>,
    pub error: Option<JsonRpcError<P>>,
}

impl<P> JsonRpcResponse<P> {
    /// The answer that the request `id` failed.
    pub fn error(id: Option<JsonRpcId>, error: JsonRpcError<P>) -> (res: JsonRpcResponse<P>)
        ensures
            res.jsonrpc@ == "2.0"@,
            res.id == id,
            res.result is None,
            res.error == Some(error),
    {
        JsonRpcResponse { jsonrpc: "2.0".to_string(), id, result: None, error: Some(error) }
    }
}

/// An error answer carries the id and the error that it was made with, and no result.
pub proof fn error_answer_carries_its_error<P>(
    id: Option<JsonRpcId>,
    code: i64,
    message: &str,
    error: JsonRpcError<P>,
    answer: JsonRpcResponse<P>,
)
    requires
        call_ensures(JsonRpcError::<P>::new, (code, message), error),
        call_ensures(JsonRpcResponse::<P>::error, (id, error), answer),
    ensures
        answer.id == id,
        answer.jsonrpc@ == "2.0"@,
        answer.result is None,
        answer.error matches Some(told) && told.code == code && told.message@ == message@
            && told.data is None,
{
}

/// A message is a notification exactly where it has no id.
pub proof fn notification_has_no_id<P>(message: &JsonRpcRequest<P>, res: bool)
    requires
        call_ensures(JsonRpcRequest::<P>::is_notification, (message,), res),
    ensures
        res <==> message.id is None,
{
}

} // verus!
