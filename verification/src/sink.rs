//! The request that carries an alert to the messaging service, and the
//! reading of its answer.

use vstd::prelude::*;
use vstd::string::StringExecFns;
use crate::config::TelegramConfig;

verus! {

/// A form to post: the address, and the two fields `chat_id` and `text`.
#[derive(Clone, Debug, PartialEq, Eq)]
pub struct SendRequest {
    pub url: String,
    pub chat_id: String,
    pub text: String,
}

/// Why an alert was not delivered.
#[derive(Clone, Debug, PartialEq, Eq)]
pub enum SinkError {
    /// The service answered with a status that is no success.
    Rejected { message: String },
}

/// The address to post to for the bot with the given token.
pub open spec fn send_url(bot_token: Seq<char>) -> Seq<char> {
    "https://api.telegram.org/bot"@ + bot_token + "/sendMessage"@
}

/// A status from 200 to 299 is a success.
pub open spec fn is_success(status: u16) -> bool {
    200 <= status <= 299
}

/// What is reported when the service rejects a message.
pub open spec fn rejection_text(body: Seq<char>) -> Seq<char> {
    "Failed to send Telegram message: "@ + body
}

/// Builds the request that sends `message`.
pub fn send_request(config: &TelegramConfig, message: &str) -> (request: SendRequest)
    ensures
        request.url@ == send_url(config.bot_token@),
        request.chat_id@ == config.alerts_chat@,
        request.text@ == message@,
{
    let mut url = String::from_str("https://api.telegram.org/bot");
    url.append(config.bot_token.as_str());
    url.append("/sendMessage");
    SendRequest {
        url,
        chat_id: String::from_str(config.alerts_chat.as_str()),
        text: String::from_str(message),
    }
}

/// Tells whether the service's answer means that the alert was delivered.
pub fn delivered(status: u16) -> (ok: bool)
    ensures
        ok == is_success(status),
{
    200 <= status && status <= 299
}

/// The error for an answer that is no success, with the body of the answer.
pub fn rejection(body: &str) -> (error: SinkError)
    ensures
        error matches SinkError::Rejected { message } && message@ == rejection_text(body@),
{
    let mut message = String::from_str("Failed to send Telegram message: ");
    message.append(body);
    SinkError::Rejected { message }
}

impl SinkError {
    /// The error in words.
    pub fn message(&self) -> (text: &str)
        ensures
            self matches SinkError::Rejected { message } && text@ == message@,
    {
        match self {
            SinkError::Rejected { message } => message.as_str(),
        }
    }
}

} // verus!
