//! The server's description, the value object behind a status response.

use vstd::prelude::*;

verus! {

/// `serde_json::Value`, carried as an opaque value: the free-form rich text of
/// a description.
#[verifier::external_type_specification]
#[verifier::external_body]
pub struct ExValue(serde_json::Value);

/// The protocol number that the server speaks.
pub const PROTOCOL_VERSION: i32 = 772;

/// The most players the server admits.
pub const MAX_PLAYERS: i32 = 500;

/// The name of the game version that the server speaks.
pub open spec fn version_name() -> Seq<char> {
    "1.21.7"@
}

/// The version descriptor.
#[derive(Debug)]
pub struct VersionInfo {
    pub name: String,
    pub protocol: i32,
}

/// One player in the sample list.
#[derive(Debug)]
pub struct PlayerSample {
    pub name: String,
    pub id: String,
}

/// The players descriptor.
#[derive(Debug)]
pub struct PlayersInfo {
    pub max: i32,
    pub online: i32,
    pub sample: Vec<PlayerSample>,
}

/// The server's description: version, players, a rich-text description, and
/// optionally a favicon and whether secure chat is enforced.
#[derive(Debug)]
pub struct StatusResponseJson {
    pub version: VersionInfo,
    pub players: PlayersInfo,
    pub description: serde_json::Value,
    pub favicon: Option<String>,
    pub enforces_secure_chat: Option<bool>,
}

impl StatusResponseJson {
    /// The description that this server answers a status request with: its
    /// fixed version name and protocol number, room for `MAX_PLAYERS` players
    /// and none online, no sample, no favicon, secure chat not enforced, and
    /// the given rich text.
    pub fn current(description: serde_json::Value) -> (status: StatusResponseJson)
        ensures
            status.version.name@ == version_name(),
            status.version.protocol == PROTOCOL_VERSION,
            status.players.max == MAX_PLAYERS,
            status.players.online == 0,
            status.players.sample@.len() == 0,
            status.description == description,
            status.favicon is None,
            status.enforces_secure_chat == Some(false),
    {
        StatusResponseJson {
            version: VersionInfo { name: "1.21.7".to_owned(), protocol: PROTOCOL_VERSION },
            players: PlayersInfo { max: MAX_PLAYERS, online: 0, sample: Vec::new() },
            description,
            favicon: None,
            enforces_secure_chat: Some(false),
        }
    }
}

} // verus!
