//! The script-plugin interface as the server sees it: the events the
//! server raises, the replies handlers return, and the reductions that
//! turn a list of replies into one decision.
//!
//! Plugins run outside the library on their own tasks; the library only
//! records which events to deliver and decides what the collected
//! replies mean.

use vstd::prelude::*;

verus! {

/// The identifiers a plugin may ask for about one player.
#[derive(Clone, Debug)]
pub struct PlayerIdentifiers {
    pub ip: String,
    pub beammp_id: String,
}

/// Every event a script handler can observe.
#[derive(Debug)]
pub enum ScriptEvent {
    OnPluginLoaded,
    OnShutdown,
    OnPlayerAuthenticated { name: String, role: String, is_guest: bool, identifiers: PlayerIdentifiers },
    OnPlayerConnecting { pid: u8 },
    OnPlayerJoining { pid: u8 },
    OnPlayerDisconnect { pid: u8, name: String },
    OnVehicleSpawn { pid: u8, vid: u8, car_data: String },
    OnVehicleEdited { pid: u8, vid: u8, car_data: String },
    OnVehicleDeleted { pid: u8, vid: u8 },
    OnVehicleReset { pid: u8, vid: u8, car_data: String },
    OnChatMessage { pid: u8, name: String, message: String },
}

/// One event on its way to every plugin. When `reply_token` is set, each
/// plugin's reply (or its silence) is handed back to the server under
/// that token.
#[derive(Debug)]
pub struct PluginCall {
    pub event: ScriptEvent,
    pub reply_token: Option<u64>,
    /// Deliver to this one plugin only; `None` means every plugin.
    pub target_plugin: Option<usize>,
}

/// What a plugin asks the server for, mid-tick.
#[derive(Debug)]
pub enum PluginRequest {
    PluginLoaded,
    RequestPlayerCount,
    RequestPlayers,
    RequestPlayerIdentifiers(u8),
    RequestPlayerVehicles(u8),
    RequestPositionRaw(u8, u8),
    SendChatMessage(i64, String),
}

/// The server's answer to one plugin request. Requests that cannot be
/// satisfied answer `Nothing`, never an error.
#[derive(Debug)]
pub enum PluginResponse {
    Nothing,
    PlayerCount(usize),
    Players(Vec<(u8, String)>),
    PlayerIdentifiers(PlayerIdentifiers),
    PlayerVehicles(Vec<(u8, String)>),
    PositionRaw(Option<Vec<u8>>),
}

/// What a script handler returned, as far as the decision rules read it.
///
/// The server only ever asks whether a number equals one, so a numeric
/// reply is carried as that answer; everything else keeps its value.
#[derive(Debug)]
pub enum PluginReply {
    Integer(i64),
    Number { is_one: bool },
    Boolean(bool),
    Text(String),
    Table,
}

impl Clone for PluginReply {
    fn clone(&self) -> (r: Self)
        ensures
            r == *self,
    {
        match self {
            PluginReply::Integer(v) => PluginReply::Integer(*v),
            PluginReply::Number { is_one } => PluginReply::Number { is_one: *is_one },
            PluginReply::Boolean(b) => PluginReply::Boolean(*b),
            PluginReply::Text(t) => PluginReply::Text(t.clone()),
            PluginReply::Table => PluginReply::Table,
        }
    }
}

/// A reply that vetoes the pending action: integer one, the number one,
/// or boolean true.
pub open spec fn is_veto(r: PluginReply) -> bool {
    match r {
        PluginReply::Integer(i) => i == 1,
        PluginReply::Number { is_one } => is_one,
        PluginReply::Boolean(b) => b,
        _ => false,
    }
}

/// Does any reply in the list veto?
pub open spec fn any_veto(rs: Seq<PluginReply>) -> bool {
    exists|i: int| 0 <= i < rs.len() && is_veto(#[trigger] rs[i])
}

/// The last text reply in the list, if any: for chat, the last string
/// wins and overrides the message.
pub open spec fn last_text(rs: Seq<PluginReply>) -> Option<Seq<char>>
    decreases rs.len(),
{
    if rs.len() == 0 {
        None
    } else {
        match rs.last() {
            PluginReply::Text(t) => Some(t@),
            _ => last_text(rs.drop_last()),
        }
    }
}

/// Reduce a reply list to the veto decision.
pub fn reduce_veto(replies: &Vec<PluginReply>) -> (r: bool)
    ensures
        r == any_veto(replies@),
{
    let mut i: usize = 0;
    while i < replies.len()
        invariant
            i <= replies@.len(),
            forall|j: int| 0 <= j < i ==> !is_veto(#[trigger] replies@[j]),
        decreases replies@.len() - i,
    {
        let veto = match &replies[i] {
            PluginReply::Integer(v) => *v == 1i64,
            PluginReply::Number { is_one } => *is_one,
            PluginReply::Boolean(b) => *b,
            _ => false,
        };
        if veto {
            assert(is_veto(replies@[i as int]));
            return true;
        }
        assert(!is_veto(replies@[i as int]));
        i = i + 1;
    }
    false
}

/// The chat replacement a reply list carries: the last text reply.
pub fn chat_replacement(replies: &Vec<PluginReply>) -> (r: Option<String>)
    ensures
        match r {
            Some(t) => last_text(replies@) == Some(t@),
            None => last_text(replies@) is None,
        },
{
    let mut i: usize = replies.len();
    proof {
        assert(replies@.take(replies@.len() as int) =~= replies@);
    }
    while i > 0
        invariant
            i <= replies@.len(),
            last_text(replies@) == last_text(replies@.take(i as int)),
        decreases i,
    {
        proof {
            assert(replies@.take(i as int).drop_last() =~= replies@.take(i - 1));
            assert(replies@.take(i as int).last() == replies@[i - 1]);
        }
        match &replies[i - 1] {
            PluginReply::Text(t) => {
                return Some(t.clone());
            },
            _ => {},
        }
        i = i - 1;
    }
    proof {
        assert(replies@.take(0) =~= Seq::<PluginReply>::empty());
    }
    None
}

} // verus!
