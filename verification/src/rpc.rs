//! What the chain node answers when asked for the running epoch and layer.

use vstd::prelude::*;
use vstd::string::StringExecFns;

verus! {

/// A number as the node wraps it in its answers.
#[derive(Debug, Clone, Copy, PartialEq, Eq, Structural)]
pub struct Number {
    pub number: i64,
}

/// The answer to a question for the running epoch.
#[derive(Debug, Clone, Copy, PartialEq, Eq, Structural)]
pub struct EpochInfo {
    pub epochnum: Number,
}

/// The answer to a question for the running layer.
#[derive(Debug, Clone, Copy, PartialEq, Eq, Structural)]
pub struct LayerInfo {
    pub layernum: Number,
}

/// A question to the node that got no usable answer: the node was not reached,
/// or what it sent could not be read. Such a failure is transient; the next
/// pass or request asks again.
#[derive(Debug, PartialEq)]
pub struct RpcError {
    pub message: String,
}

impl View for RpcError {
    type V = Seq<char>;

    open spec fn view(&self) -> Seq<char> {
        self.message@
    }
}

/// The address of a chain node, from which the two questions are formed.
#[derive(Debug)]
pub struct RpcHandler {
    pub endpoint: String,
}

pub open spec fn epoch_path() -> Seq<char> {
    "/v1/mesh/currentepoch"@
}

pub open spec fn layer_path() -> Seq<char> {
    "/v1/mesh/currentlayer"@
}

impl RpcHandler {
    pub fn new(endpoint: String) -> (handler: Self)
        ensures
            handler.endpoint == endpoint,
    {
        RpcHandler { endpoint }
    }

    /// Where to ask for the running epoch.
    pub fn epoch_url(&self) -> (url: String)
        ensures
            url@ == "http://"@ + self.endpoint@ + epoch_path(),
    {
        String::from_str("http://").concat(self.endpoint.as_str()).concat("/v1/mesh/currentepoch")
    }

    /// Where to ask for the running layer.
    pub fn layer_url(&self) -> (url: String)
        ensures
            url@ == "http://"@ + self.endpoint@ + layer_path(),
    {
        String::from_str("http://").concat(self.endpoint.as_str()).concat("/v1/mesh/currentlayer")
    }
}

/// Folds the two ways in which a question can fail into one. `resp` is what
/// the transport returned: its own failure, or the body, which in turn was
/// read or not. The answer is passed on unchanged; either failure keeps its
/// message.
pub fn handle_response<S>(resp: Result<Result<S, String>, String>) -> (res: Result<S, RpcError>)
    ensures
        match resp {
            Ok(Ok(data)) => res == Ok::<S, RpcError>(data),
            Ok(Err(unreadable)) => res matches Err(e) && e.message == unreadable,
            Err(unreached) => res matches Err(e) && e.message == unreached,
        },
{
    match resp {
        Ok(Ok(data)) => Ok(data),
        Ok(Err(message)) => Err(RpcError { message }),
        Err(message) => Err(RpcError { message }),
    }
}

} // verus!
