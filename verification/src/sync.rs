//! The cloud-sync data model, as the engine stores and exchanges it. The
//! REST client that moves these values lives outside the library.

use vstd::prelude::*;

verus! {

/// Local synchronisation state.
#[derive(Debug, Clone)]
pub struct SyncState {
    pub jwt: Option<String>,
    pub user: Option<SyncUser>,
    pub last_synced_at: String,
    /// `"offline"`, `"syncing"`, `"synced"` or `"error"`.
    pub status: String,
}

/// The signed-in account.
#[derive(Debug, Clone)]
pub struct SyncUser {
    pub id: String,
    pub email: String,
}

/// A record as the service returns it.
#[derive(Debug, Clone)]
pub struct APIRecord {
    pub id: String,
    pub user_id: String,
    pub folder_id: Option<String>,
    pub timestamp: String,
    pub live_time: String,
    pub title: String,
    pub topic: String,
    pub channel_url: String,
    pub platform: String,
    pub sort_order: i32,
    pub created_at: String,
    pub updated_at: String,
    pub deleted: i32,
}

/// A folder as the service returns it.
#[derive(Debug, Clone)]
pub struct APIFolder {
    pub id: String,
    pub user_id: String,
    pub name: String,
    pub sort_order: i32,
    pub created_at: String,
    pub updated_at: String,
    pub deleted: i32,
}

/// What a pull returns.
#[derive(Debug, Clone)]
pub struct SyncResponse {
    pub records: Vec<APIRecord>,
    pub folders: Vec<APIFolder>,
    pub synced_at: String,
}

/// The token exchange request.
#[derive(Debug, Clone)]
pub struct GoogleAuthRequest {
    pub token: String,
}

/// The token exchange response.
#[derive(Debug, Clone)]
pub struct GoogleAuthResponse {
    pub token: String,
}

impl SyncState {
    /// The state before any synchronisation: signed out and offline.
    pub fn offline() -> (r: Self)
        ensures
            r.jwt is None,
            r.user is None,
            r.last_synced_at@ == "1970-01-01T00:00:00.000Z"@,
            r.status@ == "offline"@,
    {
        SyncState {
            jwt: None,
            user: None,
            last_synced_at: "1970-01-01T00:00:00.000Z".to_owned(),
            status: "offline".to_owned(),
        }
    }
}

} // verus!
