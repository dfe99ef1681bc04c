//! Request and response shapes of the service boundary. The surrounding
//! process converts these to and from its wire encoding; timestamps are Unix
//! seconds.

use vstd::prelude::*;

verus! {

/// Body of an account-creation request.
#[derive(Debug)]
pub struct CreateAccountRequest {
    pub username: String,
    pub password: String,
}

/// Successful account creation: the first session's token comes with it.
#[derive(Debug)]
pub struct CreateAccountResponse {
    pub token: String,
    pub user_id: i64,
    pub username: String,
}

/// Body of a message send.
#[derive(Debug)]
pub struct SendMessageRequest {
    pub to_username: String,
    pub content: String,
}

/// Successful message send.
#[derive(Debug)]
pub struct SendMessageResponse {
    pub message_id: i64,
    pub created_at: i64,
}

/// One message, with both parties' usernames resolved.
#[derive(Debug)]
pub struct MessageResponse {
    pub id: i64,
    pub from_username: String,
    pub to_username: String,
    pub content: String,
    pub created_at: i64,
}

/// One conversation summary: the counterpart, the latest message exchanged
/// with them, and how many of their messages are still unread.
#[derive(Debug)]
pub struct ConversationResponse {
    pub username: String,
    pub last_message: String,
    pub last_message_time: i64,
    pub unread_count: i64,
}

/// The caller-facing shape of any failure.
#[derive(Debug)]
pub struct ErrorResponse {
    pub error: String,
}

/// Body of a username change.
#[derive(Debug)]
pub struct UpdateUsernameRequest {
    pub new_username: String,
}

/// Successful username change.
#[derive(Debug)]
pub struct UpdateUsernameResponse {
    pub username: String,
    pub updated_at: i64,
}

/// Public key material as published and served: long-term identity key,
/// medium-term signed prekey with its signature, and a batch of single-use
/// prekeys. Key encodings are opaque strings.
#[derive(Debug)]
pub struct KeyBundle {
    pub identity_key: String,
    pub signed_prekey: String,
    pub signed_prekey_signature: String,
    pub one_time_prekeys: Vec<String>,
}

/// Body of a key-bundle publication.
#[derive(Debug)]
pub struct UploadKeysRequest {
    pub key_bundle: KeyBundle,
}

/// Successful key-bundle publication.
#[derive(Debug)]
pub struct UploadKeysResponse {
    pub success: bool,
}

/// A served bundle: the target's keys plus up to ten of their unused
/// one-time prekeys, of which the first has just been claimed.
#[derive(Debug)]
pub struct GetKeysResponse {
    pub key_bundle: KeyBundle,
}

} // verus!
