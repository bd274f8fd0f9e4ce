//! Which messages the server may send to a client, given how far the client
//! has got: registration, and whether it is in the game.
use vstd::prelude::*;

verus! {

/// What a client connects as.
#[derive(Clone, Copy, Debug, PartialEq, Eq, Structural)]
pub enum ClientType {
    /// A regular client that can play the game.
    Game,
    /// A client that only takes part in the chat.
    ChatOnly,
    /// An automated client.
    Bot { privileged: bool },
}

/// How a client is present in the world.
#[derive(Clone, Copy, Debug, PartialEq, Eq, Structural)]
pub enum PresenceKind {
    Spectator,
    Character(i64),
}

/// The kinds of general messages the server sends.
#[derive(Clone, Copy, Debug, PartialEq, Eq, Structural)]
pub enum ServerGeneralKind {
    CharacterDataLoadError,
    CharacterListUpdate,
    CharacterActionError,
    CharacterCreated,
    CharacterSuccess,
    GroupUpdate,
    Invite,
    InvitePending,
    InviteComplete,
    ExitInGameSuccess,
    InventoryUpdate,
    SetViewDistance,
    Outcomes,
    Knockback,
    TerrainChunkUpdate,
    TerrainBlockUpdates,
    PlayerListUpdate,
    ChatMsg,
    ChatMode,
    SetPlayerEntity,
    TimeOfDay,
    EntitySync,
    CompSync,
    CreateEntity,
    DeleteEntity,
    Disconnect,
    Notification,
    UpdatePendingTrade,
    FinishedTrade,
    SiteEconomy,
}

/// The kinds of messages the server sends.
#[derive(Clone, Copy, Debug, PartialEq, Eq, Structural)]
pub enum ServerMsgKind {
    /// Basic info about the server, sent once, before registering.
    Info,
    /// The initial data package, sent once, before registering.
    Init,
    /// The answer to a registration.
    RegisterAnswer,
    /// A message sent once the client is registered.
    General(ServerGeneralKind),
    Ping,
}

/// Messages about the character screen.
pub open spec fn is_character_screen(g: ServerGeneralKind) -> bool {
    matches!(
        g,
        ServerGeneralKind::CharacterDataLoadError | ServerGeneralKind::CharacterListUpdate
            | ServerGeneralKind::CharacterActionError | ServerGeneralKind::CharacterCreated
    )
}

/// Messages about the game world, for clients in the game.
pub open spec fn is_in_game(g: ServerGeneralKind) -> bool {
    matches!(
        g,
        ServerGeneralKind::GroupUpdate | ServerGeneralKind::Invite | ServerGeneralKind::InvitePending
            | ServerGeneralKind::InviteComplete | ServerGeneralKind::ExitInGameSuccess
            | ServerGeneralKind::InventoryUpdate | ServerGeneralKind::TerrainChunkUpdate
            | ServerGeneralKind::TerrainBlockUpdates | ServerGeneralKind::SetViewDistance
            | ServerGeneralKind::Outcomes | ServerGeneralKind::Knockback
            | ServerGeneralKind::UpdatePendingTrade | ServerGeneralKind::FinishedTrade
            | ServerGeneralKind::SiteEconomy
    )
}

/// Whether the server may send a message of kind `msg` to a client of type
/// `c_type`, registered or not, present in the world as `presence`.
pub open spec fn may_send(msg: ServerMsgKind, c_type: ClientType, registered: bool, presence: Option<PresenceKind>) -> bool {
    match msg {
        ServerMsgKind::Info | ServerMsgKind::Init | ServerMsgKind::RegisterAnswer => !registered && presence is None,
        ServerMsgKind::General(g) => registered && if is_character_screen(g) {
            c_type != ClientType::ChatOnly && presence is None
        } else if g == ServerGeneralKind::CharacterSuccess {
            c_type == ClientType::Game && presence is None
        } else if is_in_game(g) {
            c_type == ClientType::Game && presence is Some
        } else {
            true
        },
        ServerMsgKind::Ping => true,
    }
}

impl ServerMsgKind {
    /// Checks that a message of this kind may be sent to a client of type
    /// `c_type`, registered or not, present in the world as `presence`.
    pub fn verify(&self, c_type: ClientType, registered: bool, presence: Option<PresenceKind>) -> (b: bool)
        ensures
            b == may_send(*self, c_type, registered, presence),
    {
        match self {
            ServerMsgKind::Info | ServerMsgKind::Init | ServerMsgKind::RegisterAnswer => {
                !registered && presence.is_none()
            },
            ServerMsgKind::General(g) => {
                registered && match g {
                    ServerGeneralKind::CharacterDataLoadError
                    | ServerGeneralKind::CharacterListUpdate
                    | ServerGeneralKind::CharacterActionError
                    | ServerGeneralKind::CharacterCreated => {
                        !(c_type == ClientType::ChatOnly) && presence.is_none()
                    },
                    ServerGeneralKind::CharacterSuccess => c_type == ClientType::Game && presence.is_none(),
                    ServerGeneralKind::GroupUpdate
                    | ServerGeneralKind::Invite
                    | ServerGeneralKind::InvitePending
                    | ServerGeneralKind::InviteComplete
                    | ServerGeneralKind::ExitInGameSuccess
                    | ServerGeneralKind::InventoryUpdate
                    | ServerGeneralKind::TerrainChunkUpdate
                    | ServerGeneralKind::TerrainBlockUpdates
                    | ServerGeneralKind::SetViewDistance
                    | ServerGeneralKind::Outcomes
                    | ServerGeneralKind::Knockback
                    | ServerGeneralKind::UpdatePendingTrade
                    | ServerGeneralKind::FinishedTrade
                    | ServerGeneralKind::SiteEconomy => c_type == ClientType::Game && presence.is_some(),
                    ServerGeneralKind::PlayerListUpdate
                    | ServerGeneralKind::ChatMsg
                    | ServerGeneralKind::ChatMode
                    | ServerGeneralKind::SetPlayerEntity
                    | ServerGeneralKind::TimeOfDay
                    | ServerGeneralKind::EntitySync
                    | ServerGeneralKind::CompSync
                    | ServerGeneralKind::CreateEntity
                    | ServerGeneralKind::DeleteEntity
                    | ServerGeneralKind::Disconnect
                    | ServerGeneralKind::Notification => true,
                }
            },
            ServerMsgKind::Ping => true,
        }
    }
}

/// Before registering, a client is only sent the server info, the initial
/// data, the registration answer and pings; after registering, never the
/// first three.
pub proof fn registration_gates_messages(msg: ServerMsgKind, c_type: ClientType, registered: bool, presence: Option<PresenceKind>)
    ensures
        !registered && may_send(msg, c_type, registered, presence) ==> !(msg is General),
        registered && may_send(msg, c_type, registered, presence) ==> msg is General || msg is Ping,
{
}

/// Messages about the game world (group and invite updates, leaving the
/// game, inventory updates, terrain, view distance, outcomes, knockback,
/// trades and site economies) go exactly to registered game clients that
/// are in the game.
pub proof fn in_game_messages_need_a_present_game_client(
    g: ServerGeneralKind,
    c_type: ClientType,
    registered: bool,
    presence: Option<PresenceKind>,
)
    requires
        g == ServerGeneralKind::GroupUpdate || g == ServerGeneralKind::Invite || g == ServerGeneralKind::InvitePending
            || g == ServerGeneralKind::InviteComplete || g == ServerGeneralKind::ExitInGameSuccess || g
            == ServerGeneralKind::InventoryUpdate || g == ServerGeneralKind::TerrainChunkUpdate || g
            == ServerGeneralKind::TerrainBlockUpdates || g == ServerGeneralKind::SetViewDistance || g
            == ServerGeneralKind::Outcomes || g == ServerGeneralKind::Knockback || g
            == ServerGeneralKind::UpdatePendingTrade || g == ServerGeneralKind::FinishedTrade || g
            == ServerGeneralKind::SiteEconomy,
    ensures
        may_send(ServerMsgKind::General(g), c_type, registered, presence) <==> (registered && c_type == ClientType::Game
            && presence is Some),
{
}

/// Messages about the character screen (load errors, the character list,
/// action errors, a created character) go exactly to registered clients
/// that are not chat-only and not in the game; the news that a character
/// was chosen goes exactly to registered game clients not yet in the game.
pub proof fn character_screen_messages_need_a_client_outside_the_game(
    g: ServerGeneralKind,
    c_type: ClientType,
    registered: bool,
    presence: Option<PresenceKind>,
)
    ensures
        (g == ServerGeneralKind::CharacterDataLoadError || g == ServerGeneralKind::CharacterListUpdate || g
            == ServerGeneralKind::CharacterActionError || g == ServerGeneralKind::CharacterCreated) ==> (may_send(
            ServerMsgKind::General(g),
            c_type,
            registered,
            presence,
        ) <==> (registered && c_type != ClientType::ChatOnly && presence is None)),
        g == ServerGeneralKind::CharacterSuccess ==> (may_send(ServerMsgKind::General(g), c_type, registered, presence)
            <==> (registered && c_type == ClientType::Game && presence is None)),
{
}

/// The player list, chat, entity and time updates, disconnects and
/// notifications go to every registered client; the server info, the
/// initial data and the registration answer only to a client neither
/// registered nor in the game; pings to every client.
pub proof fn messages_for_everyone(g: ServerGeneralKind, c_type: ClientType, registered: bool, presence: Option<PresenceKind>)
    ensures
        (g == ServerGeneralKind::PlayerListUpdate || g == ServerGeneralKind::ChatMsg || g == ServerGeneralKind::ChatMode
            || g == ServerGeneralKind::SetPlayerEntity || g == ServerGeneralKind::TimeOfDay || g
            == ServerGeneralKind::EntitySync || g == ServerGeneralKind::CompSync || g == ServerGeneralKind::CreateEntity
            || g == ServerGeneralKind::DeleteEntity || g == ServerGeneralKind::Disconnect || g
            == ServerGeneralKind::Notification) ==> (may_send(ServerMsgKind::General(g), c_type, registered, presence)
            <==> registered),
        may_send(ServerMsgKind::Info, c_type, registered, presence) <==> (!registered && presence is None),
        may_send(ServerMsgKind::Init, c_type, registered, presence) <==> (!registered && presence is None),
        may_send(ServerMsgKind::RegisterAnswer, c_type, registered, presence) <==> (!registered && presence is None),
        may_send(ServerMsgKind::Ping, c_type, registered, presence),
{
}

/// A chat-only client is never sent what concerns characters or the game
/// world.
pub proof fn chat_only_gets_no_game_messages(g: ServerGeneralKind, registered: bool, presence: Option<PresenceKind>)
    requires
        is_character_screen(g) || is_in_game(g) || g == ServerGeneralKind::CharacterSuccess,
    ensures
        !may_send(ServerMsgKind::General(g), ClientType::ChatOnly, registered, presence),
{
}

} // verus!
