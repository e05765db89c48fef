//! Messages packed with where and how to run them.
use vstd::prelude::*;

verus! {

/// A message that can be stored and run later within the scope of an account.
#[derive(Debug, Clone, PartialEq, Eq)]
pub enum AnyMessage {
    /// No message.
    Empty,
    /// Run a message on an account: the message's struct is given by its type selector and
    /// encoded bytes.
    ExecMessage { account: u128, selector: u64, bytes: Vec<u8> },
    /// Create an account with a handler and the handler's initialization data.
    CreateAccount { handler_id: String, init_data: Vec<u8> },
    /// Move an account to a new handler.
    Migrate { account: u128, new_handler_id: String },
}

impl AnyMessage {
    /// A message that runs the struct with type selector `selector`, encoded as `bytes`, on
    /// `account`.
    pub fn new_exec_message(account: u128, selector: u64, bytes: Vec<u8>) -> (r: Self)
        ensures
            r == (AnyMessage::ExecMessage { account, selector, bytes }),
    {
        AnyMessage::ExecMessage { account, selector, bytes }
    }
}

} // verus!
