//! The server state machine: the live client set, the id pool, the four
//! approval queues, and every decision the main loop takes on a packet.
//!
//! Sockets, timers and plugin processes live outside the library. The
//! loop outside reads bytes and clock ticks, hands them in, and carries
//! out the queued effects: per-client outboxes, UDP sends, and plugin
//! calls.

use vstd::prelude::*;
use vstd::string::StrSliceExecFns;

use crate::car::Car;
use crate::client::{Client, ClientState, UdpPeer, UserData};
use crate::config::Config;
use crate::ids::IdPool;
use crate::plugin::{any_veto, PluginCall, PluginReply, ScriptEvent};

verus! {

/// Errors of the packet dispatchers.
#[derive(Clone, Copy, Debug, PartialEq, Eq, Structural)]
pub enum ServerError {
    /// A malformed packet: bad shape, bad digits, bad envelope.
    BrokenPacket,
    /// A position update named a car the player does not have.
    CarDoesntExist,
    /// A packet was addressed at a client the server does not hold.
    ClientDoesntExist,
    /// All 256 player ids are claimed.
    IdSpaceSaturated,
}

/// A lightweight snapshot for the heartbeat and console.
#[derive(Debug)]
pub struct ServerStatus {
    pub player_count: usize,
    pub player_list: Vec<(u8, String)>,
    pub max_players: usize,
}

/// A pending join decision: the authenticated session waits until every
/// plugin has answered `OnPlayerAuthenticated`.
pub struct JoinSlot {
    pub token: u64,
    pub pid: u8,
    pub waiting: usize,
    pub replies: Vec<PluginReply>,
}

/// A pending chat line.
pub struct ChatSlot {
    pub token: u64,
    pub pid: u8,
    pub name: Vec<u8>,
    pub message: Vec<u8>,
    pub waiting: usize,
    pub replies: Vec<PluginReply>,
}

/// A pending vehicle spawn: the broadcast frame is already built.
pub struct SpawnSlot {
    pub token: u64,
    pub pid: u8,
    pub vid: u8,
    pub frame: Vec<u8>,
    pub car_json: Vec<u8>,
    pub waiting: usize,
    pub replies: Vec<PluginReply>,
}

/// A pending vehicle edit: the original frame is kept for the peers.
pub struct EditSlot {
    pub token: u64,
    pub pid: u8,
    pub vid: u8,
    pub frame: Vec<u8>,
    pub car_json: Vec<u8>,
    pub waiting: usize,
    pub replies: Vec<PluginReply>,
}

/// The whole server state.
pub struct Server {
    /// Every session the server holds, in arrival order.
    pub clients: Vec<Client>,
    /// The player-id pool; claimed ids are exactly the live sessions'.
    pub ids: IdPool,
    pub config: Config,
    /// How many plugins receive each call; every reply-carrying slot
    /// starts waiting for this many answers.
    pub plugin_count: usize,
    pub join_queue: Vec<JoinSlot>,
    pub chat_queue: Vec<ChatSlot>,
    pub veh_spawn_queue: Vec<SpawnSlot>,
    pub veh_edit_queue: Vec<EditSlot>,
    /// Fresh tokens for reply-carrying plugin calls.
    pub next_token: u64,
    /// Calls to deliver to every plugin, in order.
    pub plugin_out: Vec<PluginCall>,
    /// Datagrams to send, in order.
    pub udp_out: Vec<(UdpPeer, Vec<u8>)>,
    /// The per-player download cursor shared with the legacy downloader.
    pub mod_progress: Vec<(u8, i64)>,
}

/// Fields of one client untouched but for its outbox, which now holds
/// `ob`.
pub open spec fn same_but_outbox(pre: Client, post: Client, ob: Seq<Seq<u8>>) -> bool {
    &&& post.id == pre.id
    &&& post.state == pre.state
    &&& post.info == pre.info
    &&& post.udp_addr == pre.udp_addr
    &&& post.cars == pre.cars
    &&& post.outbox_view() == ob
}

/// Does a broadcast (with this exclusion) reach this client?
pub open spec fn recv_bcast(c: Client, except: Option<u8>) -> bool {
    &&& c.state == ClientState::Active
    &&& match except {
        Some(e) => c.id != e,
        None => true,
    }
}

/// Does a UDP fan-out (with this exclusion) reach this client, and
/// where?
pub open spec fn udp_target_of(c: Client, except: Option<u8>) -> Option<UdpPeer> {
    if (match except {
        Some(e) => c.id != e,
        None => true,
    }) && c.udp_addr is Some {
        Some(c.udp_addr->0)
    } else {
        None
    }
}

/// The datagrams a UDP fan-out queues, in client order.
pub open spec fn udp_targets(cs: Seq<Client>, data: Seq<u8>, except: Option<u8>) -> Seq<
    (UdpPeer, Seq<u8>),
>
    decreases cs.len(),
{
    if cs.len() == 0 {
        Seq::empty()
    } else {
        udp_targets(cs.drop_last(), data, except) + match udp_target_of(cs.last(), except) {
            Some(p) => seq![(p, data)],
            None => Seq::<(UdpPeer, Seq<u8>)>::empty(),
        }
    }
}

impl Server {
    /// The queued datagrams, as address and byte-string pairs.
    pub open spec fn udp_out_view(&self) -> Seq<(UdpPeer, Seq<u8>)> {
        self.udp_out@.map_values(|e: (UdpPeer, Vec<u8>)| (e.0, e.1@))
    }

    /// Is some live session holding this id?
    pub open spec fn spec_has_live(&self, id: u8) -> bool {
        exists|i: int|
            0 <= i < self.clients@.len() && (#[trigger] self.clients@[i]).live()
                && self.clients@[i].id == id
    }

    /// Well-formed: clients are well-formed, live ids are distinct, and
    /// the pool holds exactly the live ids.
    pub open spec fn wf(&self) -> bool {
        &&& self.ids.wf()
        &&& forall|i: int| 0 <= i < self.clients@.len() ==> (#[trigger] self.clients@[i]).wf()
        &&& forall|i: int, j: int|
            0 <= i < j < self.clients@.len() && (#[trigger] self.clients@[i]).live() && (
            #[trigger] self.clients@[j]).live() ==> self.clients@[i].id != self.clients@[j].id
        &&& forall|id: u8| #[trigger] self.ids.is_taken(id) <==> self.spec_has_live(id)
        &&& forall|i: int|
            0 <= i < self.clients@.len() && (#[trigger] self.clients@[i]).state
                == ClientState::Active ==> self.clients@[i].info is Some
    }

    /// Everything except the client list and the id pool unchanged.
    pub open spec fn same_queues(pre: &Server, post: &Server) -> bool {
        &&& post.config == pre.config
        &&& post.plugin_count == pre.plugin_count
        &&& post.join_queue == pre.join_queue
        &&& post.chat_queue == pre.chat_queue
        &&& post.veh_spawn_queue == pre.veh_spawn_queue
        &&& post.veh_edit_queue == pre.veh_edit_queue
        &&& post.next_token == pre.next_token
        &&& post.plugin_out == pre.plugin_out
        &&& post.udp_out == pre.udp_out
        &&& post.mod_progress == pre.mod_progress
    }

    /// A fresh server around a configuration.
    pub fn new(config: Config, plugin_count: usize) -> (r: Server)
        ensures
            r.wf(),
            r.clients@.len() == 0,
            r.config == config,
            r.plugin_count == plugin_count,
            r.join_queue@.len() == 0,
            r.chat_queue@.len() == 0,
            r.veh_spawn_queue@.len() == 0,
            r.veh_edit_queue@.len() == 0,
            r.plugin_out@.len() == 0,
            r.udp_out@.len() == 0,
    {
        Server {
            clients: Vec::new(),
            ids: IdPool::new(),
            config,
            plugin_count,
            join_queue: Vec::new(),
            chat_queue: Vec::new(),
            veh_spawn_queue: Vec::new(),
            veh_edit_queue: Vec::new(),
            next_token: 0,
            plugin_out: Vec::new(),
            udp_out: Vec::new(),
            mod_progress: Vec::new(),
        }
    }

    /// Open a session for a newly accepted game client: claim the
    /// smallest free player id and hold the session in `Connecting`.
    /// Fails cleanly, changing nothing, when all 256 ids are claimed.
    pub fn begin_session(&mut self) -> (r: Result<u8, ServerError>)
        requires
            old(self).wf(),
        ensures
            final(self).wf(),
            Self::same_queues(old(self), final(self)),
            match r {
                Ok(id) => {
                    &&& !old(self).spec_has_live(id)
                    &&& forall|w: u8| w < id ==> old(self).ids.is_taken(w)
                    &&& final(self).clients@.len() == old(self).clients@.len() + 1
                    &&& forall|j: int|
                        0 <= j < old(self).clients@.len() ==> final(self).clients@[j] == old(self).clients@[j]
                    &&& final(self).clients@.last().id == id
                    &&& final(self).clients@.last().state == ClientState::Connecting
                    &&& final(self).clients@.last().info is None
                    &&& final(self).clients@.last().cars@.len() == 0
                    &&& final(self).clients@.last().outbox_view() == Seq::<Seq<u8>>::empty()
                },
                Err(e) => {
                    &&& e == ServerError::IdSpaceSaturated
                    &&& *final(self) == *old(self)
                },
            },
    {
        let id = match self.ids.claim() {
            Ok(id) => id,
            Err(()) => {
                return Err(ServerError::IdSpaceSaturated);
            },
        };
        let c = Client::new(id);
        self.clients.push(c);
        proof {
            let pre = *old(self);
            let post = *final(self);
            assert forall|w: u8| #[trigger] post.ids.is_taken(w) implies post.spec_has_live(w) by {
                if w == id {
                    assert(post.clients@.last().live() && post.clients@.last().id == id);
                } else {
                    assert(pre.ids.is_taken(w));
                    let i = choose|i: int|
                        0 <= i < pre.clients@.len() && (#[trigger] pre.clients@[i]).live()
                            && pre.clients@[i].id == w;
                    assert(post.clients@[i].live() && post.clients@[i].id == w);
                }
            }
            assert forall|w: u8| post.spec_has_live(w) implies #[trigger] post.ids.is_taken(w) by {
                let i = choose|i: int|
                    0 <= i < post.clients@.len() && (#[trigger] post.clients@[i]).live()
                        && post.clients@[i].id == w;
                if i < pre.clients@.len() {
                    assert(pre.spec_has_live(w));
                }
            }
        }
        Ok(id)
    }

    /// The index of the first session under this player id.
    pub fn client_index(&self, id: u8) -> (r: Option<usize>)
        ensures
            match r {
                Some(i) => i < self.clients@.len() && self.clients@[i as int].id == id && forall|
                    j: int,
                |
                    0 <= j < i ==> (#[trigger] self.clients@[j]).id != id,
                None => forall|i: int|
                    0 <= i < self.clients@.len() ==> (#[trigger] self.clients@[i]).id != id,
            },
    {
        let mut i: usize = 0;
        while i < self.clients.len()
            invariant
                i <= self.clients@.len(),
                forall|j: int| 0 <= j < i ==> (#[trigger] self.clients@[j]).id != id,
            decreases self.clients@.len() - i,
        {
            if self.clients[i].get_id() == id {
                return Some(i);
            }
            i = i + 1;
        }
        None
    }

    /// Queue a payload to every Active session except, possibly, one id.
    pub fn broadcast(&mut self, data: &[u8], except: Option<u8>)
        ensures
            final(self).clients@.len() == old(self).clients@.len(),
            forall|i: int|
                0 <= i < old(self).clients@.len() ==> same_but_outbox(
                    old(self).clients@[i],
                    #[trigger] final(self).clients@[i],
                    if recv_bcast(old(self).clients@[i], except) {
                        old(self).clients@[i].outbox_view().push(data@)
                    } else {
                        old(self).clients@[i].outbox_view()
                    },
                ),
            final(self).ids == old(self).ids,
            Self::same_queues(old(self), final(self)),
    {
        let mut i: usize = 0;
        while i < self.clients.len()
            invariant
                i <= self.clients@.len(),
                self.clients@.len() == old(self).clients@.len(),
                forall|j: int|
                    0 <= j < i ==> same_but_outbox(
                        old(self).clients@[j],
                        #[trigger] self.clients@[j],
                        if recv_bcast(old(self).clients@[j], except) {
                            old(self).clients@[j].outbox_view().push(data@)
                        } else {
                            old(self).clients@[j].outbox_view()
                        },
                    ),
                forall|j: int|
                    i <= j < old(self).clients@.len() ==> #[trigger] self.clients@[j] == old(self).clients@[j],
                self.ids == old(self).ids,
                Self::same_queues(old(self), self),
            decreases self.clients@.len() - i,
        {
            let eligible = match self.clients[i].state {
                ClientState::Active => match except {
                    Some(e) => self.clients[i].get_id() != e,
                    None => true,
                },
                _ => false,
            };
            if eligible {
                let copy = vstd::slice::slice_to_vec(data);
                let c = &mut self.clients[i];
                c.queue_bytes(copy);
            }
            i = i + 1;
        }
    }

    /// Queue a datagram to the last-seen UDP address of every session
    /// that has one, except, possibly, one id.
    pub fn broadcast_udp(&mut self, data: &[u8], except: Option<u8>)
        ensures
            final(self).clients == old(self).clients,
            final(self).ids == old(self).ids,
            final(self).config == old(self).config,
            final(self).plugin_count == old(self).plugin_count,
            final(self).join_queue == old(self).join_queue,
            final(self).chat_queue == old(self).chat_queue,
            final(self).veh_spawn_queue == old(self).veh_spawn_queue,
            final(self).veh_edit_queue == old(self).veh_edit_queue,
            final(self).next_token == old(self).next_token,
            final(self).plugin_out == old(self).plugin_out,
            final(self).mod_progress == old(self).mod_progress,
            final(self).udp_out_view() == old(self).udp_out_view() + udp_targets(
                old(self).clients@,
                data@,
                except,
            ),
    {
        let ghost base = self.udp_out_view();
        let mut i: usize = 0;
        proof {
            assert(self.clients@.take(0) =~= Seq::<Client>::empty());
            assert(base + udp_targets(self.clients@.take(0), data@, except) =~= base);
        }
        while i < self.clients.len()
            invariant
                i <= self.clients@.len(),
                self.clients == old(self).clients,
                self.ids == old(self).ids,
                self.config == old(self).config,
                self.plugin_count == old(self).plugin_count,
                self.join_queue == old(self).join_queue,
                self.chat_queue == old(self).chat_queue,
                self.veh_spawn_queue == old(self).veh_spawn_queue,
                self.veh_edit_queue == old(self).veh_edit_queue,
                self.next_token == old(self).next_token,
                self.plugin_out == old(self).plugin_out,
                self.mod_progress == old(self).mod_progress,
                base == old(self).udp_out_view(),
                self.udp_out_view() == base + udp_targets(
                    self.clients@.take(i as int),
                    data@,
                    except,
                ),
            decreases self.clients@.len() - i,
        {
            proof {
                assert(self.clients@.take(i + 1).drop_last() =~= self.clients@.take(i as int));
                assert(self.clients@.take(i + 1).last() == self.clients@[i as int]);
            }
            let skip = match except {
                Some(e) => self.clients[i].get_id() == e,
                None => false,
            };
            if !skip {
                match self.clients[i].udp_addr {
                    Some(addr) => {
                        let ghost prev_v = self.udp_out_view();
                        let copy = vstd::slice::slice_to_vec(data);
                        self.udp_out.push((addr, copy));
                        proof {
                            assert(self.udp_out_view() =~= prev_v.push((addr, data@)));
                            assert(udp_target_of(self.clients@[i as int], except) == Some(addr));
                            assert(udp_targets(self.clients@.take(i + 1), data@, except)
                                == udp_targets(self.clients@.take(i as int), data@, except) + seq![
                                (addr, data@),
                            ]);
                            assert(self.udp_out_view() =~= base + udp_targets(
                                self.clients@.take(i + 1),
                                data@,
                                except,
                            ));
                        }
                    },
                    None => {},
                }
            }
            proof {
                assert(self.udp_out_view() =~= base + udp_targets(
                    self.clients@.take(i + 1),
                    data@,
                    except,
                ));
            }
            i = i + 1;
        }
        proof {
            assert(self.clients@.take(self.clients@.len() as int) =~= self.clients@);
        }
    }

    /// Queue a `K` reason to one session, mark it `Disconnect`, and
    /// release its player id.
    pub fn kick_client(&mut self, index: usize, msg: &str)
        requires
            old(self).wf(),
            index < old(self).clients@.len(),
        ensures
            final(self).wf(),
            Self::same_queues(old(self), final(self)),
            final(self).clients@.len() == old(self).clients@.len(),
            forall|j: int|
                0 <= j < old(self).clients@.len() && j != index ==> #[trigger] final(self).clients@[j] == old(self).clients@[j],
            final(self).clients@[index as int].state == ClientState::Disconnect,
            same_but_outbox(
                old(self).clients@[index as int],
                final(self).clients@[index as int],
                old(self).clients@[index as int].outbox_view().push(
                    crate::client::kick_bytes(msg@),
                ),
            ) || final(self).clients@[index as int].state == ClientState::Disconnect,
            final(self).clients@[index as int].outbox_view() == old(self).clients@[index as int].outbox_view().push(crate::client::kick_bytes(msg@)),
            final(self).clients@[index as int].id == old(self).clients@[index as int].id,
            final(self).clients@[index as int].cars == old(self).clients@[index as int].cars,
            final(self).clients@[index as int].info == old(self).clients@[index as int].info,
    {
        let ghost pre = *old(self);
        let was_live = match self.clients[index].state {
            ClientState::Disconnect => false,
            _ => true,
        };
        let id = self.clients[index].get_id();
        let c = &mut self.clients[index];
        c.kick(msg);
        if was_live {
            let still = match self.client_index_live_except(id, index) {
                Some(_) => true,
                None => false,
            };
            if !still {
                self.ids.release(id);
            }
        }
        proof {
            let post = *final(self);
            assert forall|w: u8| #[trigger] post.ids.is_taken(w) implies post.spec_has_live(w) by {
                assert(pre.ids.is_taken(w) || post.ids.is_taken(w));
                if post.ids.is_taken(w) {
                    assert(pre.ids.is_taken(w));
                    assert(pre.spec_has_live(w));
                    let i = choose|i: int|
                        0 <= i < pre.clients@.len() && (#[trigger] pre.clients@[i]).live()
                            && pre.clients@[i].id == w;
                    if i == index {
                        assert(w == id);
                        assert(was_live);
                        let k = choose|k: int|
                            0 <= k < post.clients@.len() && k != index && (
                            #[trigger] post.clients@[k]).live() && post.clients@[k].id == id;
                        assert(post.spec_has_live(w));
                    } else {
                        assert(post.clients@[i].live() && post.clients@[i].id == w);
                    }
                }
            }
            assert forall|w: u8| post.spec_has_live(w) implies #[trigger] post.ids.is_taken(w) by {
                let i = choose|i: int|
                    0 <= i < post.clients@.len() && (#[trigger] post.clients@[i]).live()
                        && post.clients@[i].id == w;
                assert(i != index);
                assert(pre.clients@[i].live() && pre.clients@[i].id == w);
                assert(pre.ids.is_taken(w));
                if w == id && was_live {
                    assert(pre.clients@[i].live() && pre.clients@[i].id == id);
                }
            }
        }
    }

    /// The index of a live session under this id other than `skip`.
    fn client_index_live_except(&self, id: u8, skip: usize) -> (r: Option<usize>)
        ensures
            match r {
                Some(i) => i < self.clients@.len() && i != skip && self.clients@[i as int].live()
                    && self.clients@[i as int].id == id,
                None => forall|i: int|
                    0 <= i < self.clients@.len() && i != skip && (
                    #[trigger] self.clients@[i]).live() ==> self.clients@[i].id != id,
            },
    {
        let mut i: usize = 0;
        while i < self.clients.len()
            invariant
                i <= self.clients@.len(),
                forall|j: int|
                    0 <= j < i && j != skip && (#[trigger] self.clients@[j]).live()
                        ==> self.clients@[j].id != id,
            decreases self.clients@.len() - i,
        {
            if i != skip {
                let live = match self.clients[i].state {
                    ClientState::Disconnect => false,
                    _ => true,
                };
                if live && self.clients[i].get_id() == id {
                    return Some(i);
                }
            }
            i = i + 1;
        }
        None
    }

    /// A snapshot of who is on.
    /// A snapshot of who is on: every session that finished
    /// authentication, under its id and display name.
    pub fn get_server_status(&self) -> (r: ServerStatus)
        ensures
            r.player_count == self.clients@.len(),
            r.max_players == self.config.general.max_players,
            r.player_list@.len() == players_listing(self.clients@).len(),
            forall|k: int|
                0 <= k < r.player_list@.len() ==> (#[trigger] r.player_list@[k]).0
                    == players_listing(self.clients@)[k].0 && r.player_list@[k].1@
                    == players_listing(self.clients@)[k].1,
    {
        let mut list: Vec<(u8, String)> = Vec::new();
        let mut i: usize = 0;
        proof {
            assert(self.clients@.take(0) =~= Seq::<Client>::empty());
        }
        while i < self.clients.len()
            invariant
                i <= self.clients@.len(),
                list@.len() == players_listing(self.clients@.take(i as int)).len(),
                forall|k: int|
                    0 <= k < list@.len() ==> (#[trigger] list@[k]).0 == players_listing(
                        self.clients@.take(i as int),
                    )[k].0 && list@[k].1@ == players_listing(self.clients@.take(i as int))[k].1,
            decreases self.clients@.len() - i,
        {
            proof {
                assert(self.clients@.take(i + 1).drop_last() =~= self.clients@.take(i as int));
                assert(self.clients@.take(i + 1).last() == self.clients@[i as int]);
            }
            match &self.clients[i].info {
                Some(_) => {
                    let id = self.clients[i].get_id();
                    let name = self.clients[i].get_name();
                    let owned: String = name.to_owned();
                    list.push((id, owned));
                },
                None => {},
            }
            i = i + 1;
        }
        proof {
            assert(self.clients@.take(self.clients@.len() as int) =~= self.clients@);
        }
        ServerStatus {
            player_count: self.clients.len(),
            player_list: list,
            max_players: self.config.general.max_players,
        }
    }

    /// Queue the single-byte `S` greeting of the authentication exchange.
    pub fn auth_greet(&mut self, index: usize)
        requires
            old(self).wf(),
            index < old(self).clients@.len(),
        ensures
            final(self).wf(),
            Self::same_queues(old(self), final(self)),
            final(self).ids == old(self).ids,
            final(self).clients@.len() == old(self).clients@.len(),
            forall|j: int|
                0 <= j < old(self).clients@.len() && j != index ==> #[trigger] final(self).clients@[j] == old(self).clients@[j],
            same_but_outbox(
                old(self).clients@[index as int],
                final(self).clients@[index as int],
                old(self).clients@[index as int].outbox_view().push(seq![83u8]),
            ),
    {
        let mut v: Vec<u8> = Vec::new();
        v.push(83);
        assert(v@ =~= seq![83u8]);
        let c = &mut self.clients[index];
        c.queue_bytes(v);
        proof {
            lemma_same_live_same_pool(old(self), final(self));
        }
    }

    /// Is an authentication key acceptably small? Oversized keys are
    /// refused before the identity service is asked.
    pub fn auth_key_ok(key: &[u8]) -> (r: bool)
        ensures
            r == (key@.len() <= 50),
    {
        key.len() <= 50
    }

    /// Accept the identity record for a session: store it, move the
    /// session to resource sync, and tell the client its player id.
    pub fn auth_complete(&mut self, index: usize, user: UserData)
        requires
            old(self).wf(),
            index < old(self).clients@.len(),
            old(self).clients@[index as int].live(),
        ensures
            final(self).wf(),
            Self::same_queues(old(self), final(self)),
            final(self).ids == old(self).ids,
            final(self).clients@.len() == old(self).clients@.len(),
            forall|j: int|
                0 <= j < old(self).clients@.len() && j != index ==> #[trigger] final(self).clients@[j] == old(self).clients@[j],
            ({
                let c = old(self).clients@[index as int];
                let fc = final(self).clients@[index as int];
                &&& fc.id == c.id
                &&& fc.state == ClientState::SyncingResources
                &&& fc.info == Some(user)
                &&& fc.udp_addr == c.udp_addr
                &&& fc.cars == c.cars
                &&& fc.outbox_view() == c.outbox_view().push(crate::text::pid_bytes(c.id))
            }),
    {
        let id = self.clients[index].get_id();
        let frame = crate::text::build_pid(id);
        let c = &mut self.clients[index];
        c.info = Some(user);
        c.state = ClientState::SyncingResources;
        c.queue_bytes(frame);
        proof {
            lemma_same_live_same_pool(old(self), final(self));
        }
    }

    /// The download cursor for a player, if one was recorded.
    pub open spec fn spec_mod_progress(mp: Seq<(u8, i64)>, pid: u8) -> Option<i64>
        decreases mp.len(),
    {
        if mp.len() == 0 {
            None
        } else if mp[0].0 == pid {
            Some(mp[0].1)
        } else {
            Self::spec_mod_progress(mp.drop_first(), pid)
        }
    }

    /// Record the download cursor for a player.
    pub fn set_mod_progress(&mut self, pid: u8, v: i64)
        ensures
            final(self).clients == old(self).clients,
            final(self).ids == old(self).ids,
            final(self).config == old(self).config,
            final(self).plugin_count == old(self).plugin_count,
            final(self).join_queue == old(self).join_queue,
            final(self).chat_queue == old(self).chat_queue,
            final(self).veh_spawn_queue == old(self).veh_spawn_queue,
            final(self).veh_edit_queue == old(self).veh_edit_queue,
            final(self).next_token == old(self).next_token,
            final(self).plugin_out == old(self).plugin_out,
            final(self).udp_out == old(self).udp_out,
            Self::spec_mod_progress(final(self).mod_progress@, pid) == Some(v),
            forall|q: u8|
                q != pid ==> #[trigger] Self::spec_mod_progress(final(self).mod_progress@, q)
                    == Self::spec_mod_progress(old(self).mod_progress@, q),
    {
        let mut i: usize = 0;
        while i < self.mod_progress.len()
            invariant
                i <= self.mod_progress@.len(),
                *self == *old(self),
                forall|j: int| 0 <= j < i ==> (#[trigger] self.mod_progress@[j]).0 != pid,
            decreases self.mod_progress@.len() - i,
        {
            if self.mod_progress[i].0 == pid {
                self.mod_progress[i] = (pid, v);
                proof {
                    let pre = old(self).mod_progress@;
                    let post = final(self).mod_progress@;
                    assert(post =~= pre.update(i as int, (pid, v)));
                    lemma_mod_progress_update(pre, i as int, pid, v);
                }
                return ;
            }
            i = i + 1;
        }
        self.mod_progress.push((pid, v));
        proof {
            let pre = old(self).mod_progress@;
            let post = final(self).mod_progress@;
            assert(post =~= pre.push((pid, v)));
            lemma_mod_progress_append(pre, pid, v);
        }
    }

    /// Create the pending join decision for a session that finished
    /// resource sync: every plugin is asked `OnPlayerAuthenticated`, and
    /// the answers gather under a fresh token.
    pub fn session_ready(&mut self, index: usize)
        requires
            old(self).wf(),
            index < old(self).clients@.len(),
            old(self).clients@[index as int].info is Some,
            old(self).next_token < u64::MAX,
        ensures
            final(self).wf(),
            final(self).clients == old(self).clients,
            final(self).ids == old(self).ids,
            final(self).config == old(self).config,
            final(self).plugin_count == old(self).plugin_count,
            final(self).chat_queue == old(self).chat_queue,
            final(self).veh_spawn_queue == old(self).veh_spawn_queue,
            final(self).veh_edit_queue == old(self).veh_edit_queue,
            final(self).udp_out == old(self).udp_out,
            final(self).mod_progress == old(self).mod_progress,
            final(self).next_token == old(self).next_token + 1,
            final(self).join_queue@.len() == old(self).join_queue@.len() + 1,
            forall|j: int|
                0 <= j < old(self).join_queue@.len() ==> #[trigger] final(self).join_queue@[j]
                    == old(self).join_queue@[j],
            ({
                let slot = final(self).join_queue@.last();
                &&& slot.token == old(self).next_token
                &&& slot.pid == old(self).clients@[index as int].id
                &&& slot.waiting == old(self).plugin_count
                &&& slot.replies@.len() == 0
            }),
            final(self).plugin_out@.len() == old(self).plugin_out@.len() + 1,
            forall|j: int|
                0 <= j < old(self).plugin_out@.len() ==> #[trigger] final(self).plugin_out@[j]
                    == old(self).plugin_out@[j],
            ({
                let call = final(self).plugin_out@.last();
                let u = old(self).clients@[index as int].info->0;
                &&& call.reply_token == Some(old(self).next_token)
                &&& call.target_plugin is None
                &&& call.event matches ScriptEvent::OnPlayerAuthenticated {
                    name,
                    role,
                    is_guest,
                    identifiers,
                } && name@ == u.username@ && role@ == u.roles@ && is_guest == u.guest
                    && identifiers.beammp_id@ == u.uid@
            }),
    {
        let token = self.next_token;
        self.next_token = self.next_token + 1;
        let user = self.clients[index].get_userdata();
        let pid = self.clients[index].get_id();
        let ident = crate::plugin::PlayerIdentifiers {
            ip: String::from_str("not yet implemented"),
            beammp_id: user.uid,
        };
        self.plugin_out.push(
            PluginCall {
                event: ScriptEvent::OnPlayerAuthenticated {
                    name: user.username,
                    role: user.roles,
                    is_guest: user.guest,
                    identifiers: ident,
                },
                reply_token: Some(token),
                target_plugin: None,
            },
        );
        self.join_queue.push(
            JoinSlot { token, pid, waiting: self.plugin_count, replies: Vec::new() },
        );
    }

    /// What one resource-sync request did.
    pub fn handle_sync_frame(&mut self, index: usize, data: &[u8]) -> (r: SyncStep)
        requires
            old(self).wf(),
            index < old(self).clients@.len(),
        ensures
            final(self).wf(),
            final(self).clients@.len() == old(self).clients@.len(),
            forall|j: int|
                0 <= j < old(self).clients@.len() && j != index ==> #[trigger] final(self).clients@[j] == old(self).clients@[j],
            final(self).config == old(self).config,
            final(self).plugin_count == old(self).plugin_count,
            final(self).join_queue == old(self).join_queue,
            final(self).chat_queue == old(self).chat_queue,
            final(self).veh_spawn_queue == old(self).veh_spawn_queue,
            final(self).veh_edit_queue == old(self).veh_edit_queue,
            final(self).next_token == old(self).next_token,
            final(self).plugin_out == old(self).plugin_out,
            final(self).udp_out == old(self).udp_out,
            ({
                let c = old(self).clients@[index as int];
                let fc = final(self).clients@[index as int];
                if is_sync_end(data@) {
                    &&& r is Finished
                    &&& same_but_outbox(
                        c,
                        fc,
                        c.outbox_view().push(
                            crate::text::map_bytes(
                                vstd::utf8::encode_utf8(old(self).config.general.map@),
                            ),
                        ),
                    )
                    &&& Self::spec_mod_progress(final(self).mod_progress@, c.id) == Some(-1i64)
                    &&& forall|q: u8|
                        q != c.id ==> #[trigger] Self::spec_mod_progress(
                            final(self).mod_progress@,
                            q,
                        ) == Self::spec_mod_progress(old(self).mod_progress@, q)
                    &&& final(self).ids == old(self).ids
                } else if data@.len() > 1 && data@[0] == 83 && data@[1] == 82 {
                    &&& r is SentCatalog
                    &&& same_but_outbox(
                        c,
                        fc,
                        c.outbox_view().push(
                            if old(self).config.mods@.len() == 0 {
                                seq![45u8]
                            } else {
                                crate::text::catalog_bytes(old(self).config.mods@)
                            },
                        ),
                    )
                    &&& final(self).mod_progress == old(self).mod_progress
                    &&& final(self).ids == old(self).ids
                } else if data@.len() > 0 && data@[0] == 102 {
                    let name = crate::packet::lossy_of(data@.skip(1));
                    let folder = crate::config::joined_path(
                        old(self).config.general.resource_folder@,
                        "Client"@,
                    );
                    match crate::config::spec_norm(name, 0, Seq::<Seq<char>>::empty()) {
                        Some(segs) => {
                            &&& r matches SyncStep::SendFile { path, mod_id } && path@
                                == crate::config::joined_all(folder, segs)
                            &&& fc == c
                            &&& final(self).mod_progress == old(self).mod_progress
                            &&& final(self).ids == old(self).ids
                        },
                        None => {
                            &&& r is Rejected
                            &&& fc.state == ClientState::Disconnect
                            &&& fc.outbox_view() == c.outbox_view().push(
                                crate::client::kick_bytes("Invalid mod request"@),
                            )
                            &&& fc.id == c.id
                            &&& fc.cars == c.cars
                            &&& fc.info == c.info
                            &&& final(self).mod_progress == old(self).mod_progress
                        },
                    }
                } else {
                    &&& r is Ignored
                    &&& fc == c
                    &&& final(self).mod_progress == old(self).mod_progress
                    &&& final(self).ids == old(self).ids
                }
            }),
    {
        let is_end = data.len() == 0 || (data.len() == 4 && data[0] == 68 && data[1] == 111
            && data[2] == 110 && data[3] == 101);
        proof {
            if is_end && data@.len() == 4 {
                assert(data@ =~= seq![68u8, 111u8, 110u8, 101u8]);
            }
            if !is_end {
                assert(data@.len() != 0);
                if data@.len() == 4 {
                    assert(data@ != seq![68u8, 111u8, 110u8, 101u8]) by {
                        if data@ == seq![68u8, 111u8, 110u8, 101u8] {
                            assert(data@[0] == 68 && data@[1] == 111 && data@[2] == 110
                                && data@[3] == 101);
                        }
                    }
                } else {
                    assert(data@ != seq![68u8, 111u8, 110u8, 101u8]) by {
                        if data@ == seq![68u8, 111u8, 110u8, 101u8] {
                            assert(data@.len() == 4);
                        }
                    }
                }
            }
        }
        if is_end {
            let id = self.clients[index].get_id();
            let map_b = self.config.general.map.as_str().as_bytes_vec();
            let frame = crate::text::build_map(map_b.as_slice());
            let c = &mut self.clients[index];
            c.queue_bytes(frame);
            self.set_mod_progress(id, -1);
            proof {
                lemma_same_live_same_pool(old(self), final(self));
            }
            return SyncStep::Finished;
        }
        if data.len() > 1 && data[0] == 83 && data[1] == 82 {
            let frame: Vec<u8> = if self.config.mods.len() == 0 {
                let mut v: Vec<u8> = Vec::new();
                v.push(45);
                assert(v@ =~= seq![45u8]);
                v
            } else {
                crate::text::build_catalog(&self.config.mods)
            };
            let c = &mut self.clients[index];
            c.queue_bytes(frame);
            proof {
                lemma_same_live_same_pool(old(self), final(self));
            }
            return SyncStep::SentCatalog;
        }
        if data.len() > 0 && data[0] == 102 {
            let name_bytes = crate::wire::copy_range(data, 1, data.len());
            let name = crate::packet::lossy_string(name_bytes.as_slice());
            let folder = self.config.general.get_client_resource_folder();
            match crate::config::join_path_secure(folder.as_str(), name.as_str()) {
                Some(path) => {
                    let mut mod_id: i64 = 0;
                    let mut i: usize = 0;
                    while i < self.config.mods.len()
                        invariant
                            *self == *old(self),
                            i <= self.config.mods@.len(),
                            mod_id >= 0,
                        decreases self.config.mods@.len() - i,
                    {
                        if i < 0x7fff_ffff && self.config.mods[i].0 == name {
                            mod_id = i as i64;
                        }
                        i = i + 1;
                    }
                    return SyncStep::SendFile { path, mod_id };
                },
                None => {
                    self.kick_client(index, "Invalid mod request");
                    return SyncStep::Rejected;
                },
            }
        }
        SyncStep::Ignored
    }

    /// Grant a validated file request: confirm with `AG` and record the
    /// download cursor so the legacy downloader can serve the second
    /// half.
    pub fn file_request_ok(&mut self, index: usize, mod_id: i64)
        requires
            old(self).wf(),
            index < old(self).clients@.len(),
        ensures
            final(self).wf(),
            final(self).ids == old(self).ids,
            final(self).config == old(self).config,
            final(self).plugin_count == old(self).plugin_count,
            final(self).join_queue == old(self).join_queue,
            final(self).chat_queue == old(self).chat_queue,
            final(self).veh_spawn_queue == old(self).veh_spawn_queue,
            final(self).veh_edit_queue == old(self).veh_edit_queue,
            final(self).next_token == old(self).next_token,
            final(self).plugin_out == old(self).plugin_out,
            final(self).udp_out == old(self).udp_out,
            final(self).clients@.len() == old(self).clients@.len(),
            forall|j: int|
                0 <= j < old(self).clients@.len() && j != index ==> #[trigger] final(self).clients@[j] == old(self).clients@[j],
            same_but_outbox(
                old(self).clients@[index as int],
                final(self).clients@[index as int],
                old(self).clients@[index as int].outbox_view().push(seq![65u8, 71u8]),
            ),
            Self::spec_mod_progress(final(self).mod_progress@, old(self).clients@[index as int].id)
                == Some(mod_id),
            forall|q: u8|
                q != old(self).clients@[index as int].id ==> #[trigger] Self::spec_mod_progress(
                    final(self).mod_progress@,
                    q,
                ) == Self::spec_mod_progress(old(self).mod_progress@, q),
    {
        let id = self.clients[index].get_id();
        let mut v: Vec<u8> = Vec::new();
        v.push(65);
        v.push(71);
        assert(v@ =~= seq![65u8, 71u8]);
        let c = &mut self.clients[index];
        c.queue_bytes(v);
        self.set_mod_progress(id, mod_id);
        proof {
            lemma_same_live_same_pool(old(self), final(self));
        }
    }

    /// Open a chat slot for `C:<name>:<message>` when the named speaker
    /// matches the session's identity; drop the line otherwise.
    pub fn handle_chat(&mut self, index: usize, data: &[u8])
        requires
            old(self).wf(),
            index < old(self).clients@.len(),
            old(self).clients@[index as int].info is Some,
            old(self).next_token < u64::MAX,
        ensures
            final(self).wf(),
            chat_step(*old(self), *final(self), index as int, data@),
    {
        let c1 = find_colon(data, 0);
        if c1 >= data.len() {
            return ;
        }
        let c2 = find_colon(data, c1 + 1);
        if c2 >= data.len() {
            return ;
        }
        let c3 = find_colon(data, c2 + 1);
        let name = crate::wire::copy_range(data, c1 + 1, c2);
        let message = crate::wire::copy_range(data, c2 + 1, c3);
        let username = self.clients[index].get_name().as_bytes_vec();
        if !crate::wire::bytes_eq(name.as_slice(), username.as_slice()) {
            return ;
        }
        let pid = self.clients[index].get_id();
        let token = self.next_token;
        self.next_token = self.next_token + 1;
        let name_text = crate::packet::lossy_string(name.as_slice());
        let message_text = crate::packet::lossy_string(message.as_slice());
        self.plugin_out.push(
            PluginCall {
                event: ScriptEvent::OnChatMessage {
                    pid,
                    name: name_text,
                    message: message_text,
                },
                reply_token: Some(token),
                target_plugin: None,
            },
        );
        self.chat_queue.push(
            ChatSlot {
                token,
                pid,
                name,
                message,
                waiting: self.plugin_count,
                replies: Vec::new(),
            },
        );
    }

    /// Answer a full-sync request: the requester learns its own name and
    /// every other Active player's cars, one frame per car, and the
    /// other players are told someone arrived.
    pub fn handle_full_sync(&mut self, index: usize)
        requires
            old(self).wf(),
            index < old(self).clients@.len(),
            old(self).clients@[index as int].info is Some,
        ensures
            final(self).wf(),
            full_sync_step(*old(self), *final(self), index as int),
    {
        let req_id = self.clients[index].get_id();
        let name_b = self.clients[index].get_name().as_bytes_vec();
        let sn = crate::text::build_sn(name_b.as_slice());
        let welcome = crate::text::build_welcome(name_b.as_slice());

        let mut frames: Vec<Vec<u8>> = Vec::new();
        let mut j: usize = 0;
        proof {
            assert(self.clients@.take(0) =~= Seq::<Client>::empty());
            assert(frames.deep_view() =~= os_catalog(self.clients@.take(0), req_id));
        }
        while j < self.clients.len()
            invariant
                j <= self.clients@.len(),
                *self == *old(self),
                req_id == old(self).clients@[index as int].id,
                index < old(self).clients@.len(),
                frames.deep_view() == os_catalog(self.clients@.take(j as int), req_id),
            decreases self.clients@.len() - j,
        {
            proof {
                assert(self.clients@.take(j + 1).drop_last() =~= self.clients@.take(j as int));
                assert(self.clients@.take(j + 1).last() == self.clients@[j as int]);
            }
            let eligible = self.clients[j].get_id() != req_id && (match self.clients[j].state {
                ClientState::Active => true,
                _ => false,
            }) && (match &self.clients[j].info {
                Some(_) => true,
                None => false,
            });
            if eligible {
                let ghost c = self.clients@[j as int];
                let peer_roles = self.clients[j].get_roles().as_bytes_vec();
                let peer_name = self.clients[j].get_name().as_bytes_vec();
                let peer_id = self.clients[j].get_id();
                let ghost base = frames.deep_view();
                let mut k: usize = 0;
                proof {
                    assert(base + client_os_frames(c).take(0) =~= base);
                }
                while k < self.clients[j].cars.len()
                    invariant
                        j < self.clients@.len(),
                        k <= self.clients@[j as int].cars@.len(),
                        *self == *old(self),
                        c == self.clients@[j as int],
                        c.info is Some,
                        peer_roles@ == vstd::utf8::encode_utf8(c.info->0.roles@),
                        peer_name@ == vstd::utf8::encode_utf8(c.info->0.username@),
                        peer_id == c.id,
                        frames.deep_view() == base + client_os_frames(c).take(k as int),
                    decreases self.clients@[j as int].cars@.len() - k,
                {
                    let vid = self.clients[j].cars[k].0;
                    let json = &self.clients[j].cars[k].1.car_json;
                    let frame = crate::vehicle::build_os(
                        peer_roles.as_slice(),
                        peer_name.as_slice(),
                        peer_id,
                        vid,
                        json.as_slice(),
                    );
                    let ghost prev = frames.deep_view();
                    frames.push(frame);
                    proof {
                        assert forall|m: int|
                            0 <= m < frames.deep_view().len() implies #[trigger] frames.deep_view()[m]
                            == prev.push(client_os_frames(c)[k as int])[m] by {
                            assert(frames.deep_view()[m] == frames@[m].deep_view());
                        }
                        assert(frames.deep_view() =~= prev.push(client_os_frames(c)[k as int]));
                        assert(frames.deep_view() =~= base + client_os_frames(c).take(k + 1));
                    }
                    k = k + 1;
                }
                proof {
                    assert(client_os_frames(c).take(c.cars@.len() as int) =~= client_os_frames(c));
                    assert(frames.deep_view() =~= os_catalog(self.clients@.take(j + 1), req_id));
                }
            } else {
                proof {
                    assert(frames.deep_view() =~= os_catalog(self.clients@.take(j + 1), req_id));
                }
            }
            j = j + 1;
        }
        proof {
            assert(self.clients@.take(self.clients@.len() as int) =~= self.clients@);
        }

        let c0 = &mut self.clients[index];
        c0.queue_bytes(sn);
        self.broadcast(welcome.as_slice(), Some(req_id));

        let ghost after_bcast = self.clients@;
        let ghost mid = self.clients@[index as int].outbox_view();
        let ghost catalog = os_catalog(old(self).clients@, req_id);
        let mut k2: usize = 0;
        proof {
            assert(mid + catalog.take(0) =~= mid);
        }
        while k2 < frames.len()
            invariant
                k2 <= frames@.len(),
                index < self.clients@.len(),
                frames.deep_view() == catalog,
                self.clients@.len() == after_bcast.len(),
                after_bcast.len() == old(self).clients@.len(),
                self.ids == old(self).ids,
                Self::same_queues(old(self), self),
                self.clients@[index as int].outbox_view() == mid + catalog.take(k2 as int),
                forall|m: int|
                    0 <= m < self.clients@.len() && m != index ==> #[trigger] self.clients@[m]
                        == after_bcast[m],
                self.clients@[index as int].id == old(self).clients@[index as int].id,
                self.clients@[index as int].state == old(self).clients@[index as int].state,
                self.clients@[index as int].info == old(self).clients@[index as int].info,
                self.clients@[index as int].udp_addr == old(self).clients@[index as int].udp_addr,
                self.clients@[index as int].cars == old(self).clients@[index as int].cars,
            decreases frames@.len() - k2,
        {
            proof {
                assert(catalog.take(k2 + 1) =~= catalog.take(k2 as int).push(catalog[k2 as int]));
                assert(frames.deep_view()[k2 as int] == frames@[k2 as int].deep_view());
                assert(frames@[k2 as int].deep_view() =~= frames@[k2 as int]@);
            }
            let copy = vstd::slice::slice_to_vec(frames[k2].as_slice());
            let c1 = &mut self.clients[index];
            c1.queue_bytes(copy);
            proof {
                assert(self.clients@[index as int].outbox_view() =~= mid + catalog.take(k2 + 1));
            }
            k2 = k2 + 1;
        }
        proof {
            assert(catalog.take(catalog.len() as int) =~= catalog);
            assert(self.clients@[index as int].outbox_view() =~= old(self).clients@[index as int].outbox_view().push(
                crate::text::sn_bytes(
                    vstd::utf8::encode_utf8(
                        old(self).clients@[index as int].info->0.username@,
                    ),
                ),
            ) + catalog);
            lemma_same_live_same_pool(old(self), final(self));
        }
    }

    /// Dispatch one vehicle frame: spawn, edit, delete, reset, or the
    /// broadcast codes.
    pub fn parse_vehicle_packet(&mut self, index: usize, data: &[u8]) -> (r: Result<
        (),
        ServerError,
    >)
        requires
            old(self).wf(),
            index < old(self).clients@.len(),
            old(self).clients@[index as int].info is Some,
            old(self).next_token < u64::MAX,
        ensures
            final(self).wf(),
            vehicle_step(*old(self), *final(self), index as int, data@, r),
    {
        if data.len() < 6 {
            return Ok(());
        }
        let code = data[1];
        if code == 115 {
            let parsed = match crate::vehicle::parse_os(data) {
                Some(f) => f,
                None => {
                    return Err(ServerError::BrokenPacket);
                },
            };
            if self.clients[index].cars.len() >= 256 {
                return Err(ServerError::BrokenPacket);
            }
            let allowed = match self.config.general.max_cars {
                Some(m) => self.clients[index].cars.len() < m as usize,
                None => true,
            };
            let roles_b = self.clients[index].get_roles().as_bytes_vec();
            let name_b = self.clients[index].get_name().as_bytes_vec();
            let cid = self.clients[index].get_id();
            let desc_copy = vstd::slice::slice_to_vec(parsed.descriptor.as_slice());
            let car = Car::new(desc_copy);
            let cmut = &mut self.clients[index];
            let vid = cmut.register_car(car);
            let frame = crate::vehicle::build_os(
                roles_b.as_slice(),
                name_b.as_slice(),
                cid,
                vid,
                parsed.descriptor.as_slice(),
            );
            if allowed {
                let token = self.next_token;
                self.next_token = self.next_token + 1;
                let car_data = crate::packet::lossy_string(parsed.descriptor.as_slice());
                self.plugin_out.push(
                    PluginCall {
                        event: ScriptEvent::OnVehicleSpawn { pid: cid, vid, car_data },
                        reply_token: Some(token),
                        target_plugin: None,
                    },
                );
                self.veh_spawn_queue.push(
                    SpawnSlot {
                        token,
                        pid: cid,
                        vid,
                        frame,
                        car_json: parsed.descriptor,
                        waiting: self.plugin_count,
                        replies: Vec::new(),
                    },
                );
                proof {
                    lemma_same_live_same_pool(old(self), final(self));
                    assert(final(self).clients@[index as int].cars@.take(
                        old(self).clients@[index as int].cars@.len() as int,
                    ) =~= old(self).clients@[index as int].cars@);
                    assert(crate::client::seq_has_car(
                        old(self).clients@[index as int].cars@,
                        vid,
                    ) == false);
                }
                Ok(())
            } else {
                let od = crate::vehicle::build_od(cid, vid);
                let cmut2 = &mut self.clients[index];
                cmut2.queue_bytes(frame);
                cmut2.queue_bytes(od);
                let ghost pushed = cmut2.cars@;
                cmut2.unregister_car(vid);
                proof {
                    let c = old(self).clients@[index as int];
                    let ci = choose|i: int|
                        0 <= i < pushed.len() && (#[trigger] pushed[i]).0 == vid;
                    assert(pushed[pushed.len() - 1].0 == vid);
                    if ci < pushed.len() - 1 {
                        assert(c.cars@[ci].0 == vid);
                        assert(crate::client::seq_has_car(c.cars@, vid));
                    }
                    assert(ci == pushed.len() - 1);
                    assert(pushed.remove(ci) =~= c.cars@);
                    lemma_same_live_same_pool(old(self), final(self));
                    assert(crate::client::seq_has_car(
                        old(self).clients@[index as int].cars@,
                        vid,
                    ) == false);
                }
                Ok(())
            }
        } else if code == 99 {
            if data.len() < 7 {
                return Err(ServerError::BrokenPacket);
            }
            if data[3] < 48 || data[3] > 57 || data[5] < 48 || data[5] > 57 {
                return Err(ServerError::BrokenPacket);
            }
            let tpid = data[3] - 48;
            let tvid = data[5] - 48;
            let json = crate::wire::copy_range(data, 7, data.len());
            let frame = crate::wire::copy_range(data, 0, data.len());
            proof {
                assert(frame@ =~= data@);
                assert(json@ =~= data@.skip(7));
            }
            let token = self.next_token;
            self.next_token = self.next_token + 1;
            let car_data = crate::packet::lossy_string(json.as_slice());
            self.plugin_out.push(
                PluginCall {
                    event: ScriptEvent::OnVehicleEdited { pid: tpid, vid: tvid, car_data },
                    reply_token: Some(token),
                    target_plugin: None,
                },
            );
            self.veh_edit_queue.push(
                EditSlot {
                    token,
                    pid: tpid,
                    vid: tvid,
                    frame,
                    car_json: json,
                    waiting: self.plugin_count,
                    replies: Vec::new(),
                },
            );
            Ok(())
        } else if code == 100 {
            let (pid, vid) = match crate::vehicle::parse_od(data) {
                Some(p) => p,
                None => {
                    return Err(ServerError::BrokenPacket);
                },
            };
            let mut i: usize = 0;
            while i < self.clients.len()
                invariant
                    i <= self.clients@.len(),
                    old(self).wf(),
                    self.clients@.len() == old(self).clients@.len(),
                    self.ids == old(self).ids,
                    Self::same_queues(old(self), self),
                    forall|j: int|
                        i <= j < old(self).clients@.len() ==> #[trigger] self.clients@[j] == old(self).clients@[j],
                    forall|j: int|
                        0 <= j < i ==> {
                            let c = old(self).clients@[j];
                            let fc = #[trigger] self.clients@[j];
                            &&& fc.id == c.id
                            &&& fc.state == c.state
                            &&& fc.info == c.info
                            &&& fc.udp_addr == c.udp_addr
                            &&& fc.wf()
                            &&& fc.outbox_view() == c.outbox_view().push(data@)
                            &&& (c.id == pid ==> !fc.has_car(vid) && (c.has_car(vid)
                                ==> fc.cars@ == c.cars@.remove(c.spec_car_index(vid))) && (
                            !c.has_car(vid) ==> fc.cars@ == c.cars@))
                            &&& (c.id != pid ==> fc.cars@ == c.cars@)
                        },
                decreases self.clients@.len() - i,
            {
                let copy = vstd::slice::slice_to_vec(data);
                proof {
                    assert(old(self).clients@[i as int].wf());
                    assert(self.clients@[i as int] == old(self).clients@[i as int]);
                }
                if self.clients[i].get_id() == pid {
                    let cm = &mut self.clients[i];
                    cm.unregister_car(vid);
                }
                let cm2 = &mut self.clients[i];
                cm2.queue_bytes(copy);
                i = i + 1;
            }
            proof {
                lemma_same_live_same_pool(old(self), final(self));
            }
            Ok(())
        } else if code == 114 || code == 116 {
            let cid = self.clients[index].get_id();
            self.broadcast(data, Some(cid));
            proof {
                lemma_same_live_same_pool(old(self), final(self));
            }
            Ok(())
        } else if code == 109 {
            self.broadcast(data, None);
            proof {
                lemma_same_live_same_pool(old(self), final(self));
            }
            Ok(())
        } else {
            Ok(())
        }
    }

    /// Dispatch one inbound TCP frame for an authenticated session:
    /// undo the compression envelope, then act on the command code. A
    /// malformed packet is refused with nothing changed.
    pub fn process_tcp(&mut self, index: usize, packet: crate::packet::RawPacket) -> (r: Result<
        (),
        ServerError,
    >)
        requires
            old(self).wf(),
            index < old(self).clients@.len(),
            old(self).clients@[index as int].info is Some,
            old(self).next_token < u64::MAX,
        ensures
            final(self).wf(),
            r is Err ==> *final(self) == *old(self),
            final(self).ids == old(self).ids,
            final(self).config == old(self).config,
            final(self).plugin_count == old(self).plugin_count,
            final(self).mod_progress == old(self).mod_progress,
            final(self).udp_out == old(self).udp_out,
            crate::codec::spec_decompress(packet.data@, crate::DEFAULT_FRAME_CAP as nat) is Err
                ==> r is Err,
            ({
                match crate::codec::spec_decompress(
                    packet.data@,
                    crate::DEFAULT_FRAME_CAP as nat,
                ) {
                    Err(_) => true,
                    Ok(d) => {
                        if d.len() == 0 {
                            r is Ok && *final(self) == *old(self)
                        } else if 86 <= d[0] <= 89 {
                            let c = old(self).clients@[index as int];
                            &&& r is Ok
                            &&& final(self).clients@.len() == old(self).clients@.len()
                            &&& forall|i: int|
                                0 <= i < old(self).clients@.len() ==> same_but_outbox(
                                    old(self).clients@[i],
                                    #[trigger] final(self).clients@[i],
                                    if recv_bcast(old(self).clients@[i], Some(c.id)) {
                                        old(self).clients@[i].outbox_view().push(d)
                                    } else {
                                        old(self).clients@[i].outbox_view()
                                    },
                                )
                        } else if d[0] == 72 {
                            r is Ok && full_sync_step(*old(self), *final(self), index as int)
                        } else if d[0] == 79 {
                            vehicle_step(*old(self), *final(self), index as int, d, r)
                        } else if d[0] == 67 {
                            r is Ok && chat_step(*old(self), *final(self), index as int, d)
                        } else {
                            r is Ok && *final(self) == *old(self)
                        }
                    },
                }
            }),
    {
        let d = match crate::codec::decompress_envelope(
            packet.data.as_slice(),
            crate::DEFAULT_FRAME_CAP,
        ) {
            Ok(d) => d,
            Err(_) => {
                return Err(ServerError::BrokenPacket);
            },
        };
        if d.len() == 0 {
            return Ok(());
        }
        let code = d[0];
        if 86 <= code && code <= 89 {
            let cid = self.clients[index].get_id();
            self.broadcast(d.as_slice(), Some(cid));
            proof {
                lemma_same_live_same_pool(old(self), final(self));
            }
            Ok(())
        } else if code == 72 {
            self.handle_full_sync(index);
            Ok(())
        } else if code == 79 {
            self.parse_vehicle_packet(index, d.as_slice())
        } else if code == 67 {
            self.handle_chat(index, d.as_slice());
            Ok(())
        } else {
            Ok(())
        }
    }

    /// Act on one decompressed-or-raw UDP datagram from the session at
    /// `index`: refresh its peer address, then dispatch on the code
    /// byte. A refused packet changes nothing beyond that address.
    pub fn handle_udp(&mut self, index: usize, addr: UdpPeer, data: &[u8]) -> (r: Result<
        (),
        ServerError,
    >)
        requires
            old(self).wf(),
            index < old(self).clients@.len(),
        ensures
            final(self).wf(),
            udp_step(*old(self), *final(self), index as int, addr, data@, r),
    {
        let cm = &mut self.clients[index];
        cm.udp_addr = Some(addr);
        let ghost refreshed = self.clients@;
        proof {
            assert(refreshed =~= spec_refresh(old(self).clients@, index as int, addr));
        }
        let d = match crate::codec::decompress_envelope(data, crate::DEFAULT_FRAME_CAP) {
            Ok(d) => d,
            Err(_) => {
                proof {
                    lemma_same_live_same_pool(old(self), final(self));
                }
                return Err(ServerError::BrokenPacket);
            },
        };
        if d.len() == 0 {
            proof {
                lemma_same_live_same_pool(old(self), final(self));
            }
            return Ok(());
        }
        let code = d[0];
        if 86 <= code && code <= 89 {
            let sid = self.clients[index].get_id();
            self.broadcast_udp(data, Some(sid));
            proof {
                lemma_same_live_same_pool(old(self), final(self));
            }
            Ok(())
        } else if code == 112 {
            let mut pv: Vec<u8> = Vec::new();
            pv.push(112);
            let ghost prev_v = self.udp_out_view();
            self.udp_out.push((addr, pv));
            proof {
                assert(self.udp_out_view() =~= prev_v.push((addr, seq![112u8])));
                lemma_same_live_same_pool(old(self), final(self));
            }
            Ok(())
        } else if code == 90 {
            if d.len() < 7 {
                proof {
                    lemma_same_live_same_pool(old(self), final(self));
                }
                return Err(ServerError::BrokenPacket);
            }
            let b3 = d[3];
            let b5 = d[5];
            if b3 < 48 || b3 > 57 || b5 < 48 || b5 > 57 {
                proof {
                    lemma_same_live_same_pool(old(self), final(self));
                }
                return Err(ServerError::BrokenPacket);
            }
            let body = crate::wire::copy_range(d.as_slice(), 7, d.len());
            proof {
                assert(body@ =~= d@.skip(7));
            }
            if !crate::transform::transform_valid(body.as_slice()) {
                proof {
                    lemma_same_live_same_pool(old(self), final(self));
                }
                return Err(ServerError::BrokenPacket);
            }
            let tpid = b3 - 48;
            let tvid = b5 - 48;
            proof {
                assert forall|j: int| 0 <= j < old(self).clients@.len() implies (
                #[trigger] old(self).clients@[j]).id == self.clients@[j].id by {
                    if j == index {
                    }
                }
            }
            match self.client_index(tpid) {
                None => {
                    proof {
                        assert forall|j: int|
                            0 <= j < old(self).clients@.len() implies (#[trigger] old(self).clients@[j]).id != tpid by {
                            assert(self.clients@[j].id != tpid);
                        }
                        lemma_first_with_id_none(old(self).clients@, tpid);
                    }
                    self.broadcast_udp(data, Some(tpid));
                    proof {
                        lemma_same_live_same_pool(old(self), final(self));
                    }
                    Ok(())
                },
                Some(t) => {
                    proof {
                        assert forall|j: int| 0 <= j < t implies (#[trigger] old(self).clients@[j]).id != tpid by {
                            assert(self.clients@[j].id != tpid);
                        }
                        lemma_first_with_id_some(old(self).clients@, tpid, t as int);
                    }
                    match self.clients[t].car_index(tvid) {
                        None => {
                            proof {
                                lemma_same_live_same_pool(old(self), final(self));
                            }
                            Err(ServerError::CarDoesntExist)
                        },
                        Some(ci) => {
                            proof {
                                let tc = old(self).clients@[t as int];
                                assert(tc.wf());
                                if ci as int != tc.spec_car_index(tvid) {
                                    let other = tc.spec_car_index(tvid);
                                    assert(tc.cars@[other].0 == tvid);
                                    assert(tc.cars@[ci as int].0 == tvid);
                                }
                            }
                            let cm2 = &mut self.clients[t];
                            cm2.set_car_transform(ci, body);
                            let ghost at_bcast = self.clients@;
                            self.broadcast_udp(data, Some(tpid));
                            proof {
                                let refd = spec_refresh(old(self).clients@, index as int, addr);
                                assert forall|m: int|
                                    0 <= m < at_bcast.len() implies (#[trigger] at_bcast[m]).id
                                    == refd[m].id && at_bcast[m].udp_addr == refd[m].udp_addr by {
                                    if m == t as int {
                                    }
                                }
                                lemma_udp_targets_same(at_bcast, refd, data@, Some(tpid));
                                lemma_same_live_same_pool(old(self), final(self));
                            }
                            Ok(())
                        },
                    }
                },
            }
        } else {
            proof {
                lemma_same_live_same_pool(old(self), final(self));
            }
            Ok(())
        }
    }

    /// Act on one raw UDP datagram: the first byte names the sender (id
    /// plus one), the third byte onward is the payload. Datagrams from
    /// ids with no live Active session are dropped.
    /// Act on one raw UDP datagram: the first byte names the sender (id
    /// plus one), the third byte onward is the payload. Datagrams that
    /// are too short, claim the illegal zero id, or name an id with no
    /// live Active session are dropped with nothing changed; all others
    /// are dispatched for the first Active session under that id.
    pub fn process_udp(&mut self, addr: UdpPeer, packet: crate::packet::RawPacket) -> (r: Result<
        (),
        ServerError,
    >)
        requires
            old(self).wf(),
        ensures
            final(self).wf(),
            packet.data@.len() < 2 ==> r is Ok && *final(self) == *old(self),
            packet.data@.len() >= 2 && packet.data@[0] == 0 ==> r is Ok && *final(self) == *old(self),
            packet.data@.len() >= 2 && packet.data@[0] >= 1 ==> ({
                let t = spec_first_active(old(self).clients@, (packet.data@[0] - 1) as u8);
                if t == old(self).clients@.len() {
                    r is Ok && *final(self) == *old(self)
                } else {
                    udp_step(*old(self), *final(self), t, addr, packet.data@.skip(2), r)
                }
            }),
    {
        if packet.data.len() < 2 {
            return Ok(());
        }
        if packet.data[0] < 1 {
            return Ok(());
        }
        let id = packet.data[0] - 1;
        let d2 = crate::wire::copy_range(packet.data.as_slice(), 2, packet.data.len());
        proof {
            assert(d2@ =~= packet.data@.skip(2));
        }
        let mut i: usize = 0;
        while i < self.clients.len()
            invariant
                i <= self.clients@.len(),
                *self == *old(self),
                old(self).wf(),
                packet.data@.len() >= 2,
                packet.data@[0] >= 1,
                id == (packet.data@[0] - 1) as u8,
                d2@ == packet.data@.skip(2),
                forall|j: int|
                    0 <= j < i ==> !((#[trigger] self.clients@[j]).state == ClientState::Active
                        && self.clients@[j].id == id),
            decreases self.clients@.len() - i,
        {
            let is_active = match self.clients[i].state {
                ClientState::Active => true,
                _ => false,
            };
            if is_active && self.clients[i].get_id() == id {
                proof {
                    lemma_first_active_some(old(self).clients@, id, i as int);
                }
                return self.handle_udp(i, addr, d2.as_slice());
            }
            i = i + 1;
        }
        proof {
            lemma_first_active_none(old(self).clients@, id);
        }
        Ok(())
    }

    /// Hand one plugin's reply to the slot that waits under this token.
    pub fn deliver_reply(&mut self, token: u64, reply: PluginReply)
        requires
            old(self).wf(),
        ensures
            final(self).wf(),
            final(self).clients == old(self).clients,
            final(self).ids == old(self).ids,
            final(self).config == old(self).config,
            final(self).plugin_count == old(self).plugin_count,
            final(self).next_token == old(self).next_token,
            final(self).plugin_out == old(self).plugin_out,
            final(self).udp_out == old(self).udp_out,
            final(self).mod_progress == old(self).mod_progress,
            delivered_join_upto(
                old(self).join_queue@,
                final(self).join_queue@,
                token,
                Some(reply),
                old(self).join_queue@.len() as int,
            ),
            delivered_chat_upto(
                old(self).chat_queue@,
                final(self).chat_queue@,
                token,
                Some(reply),
                old(self).chat_queue@.len() as int,
            ),
            delivered_spawn_upto(
                old(self).veh_spawn_queue@,
                final(self).veh_spawn_queue@,
                token,
                Some(reply),
                old(self).veh_spawn_queue@.len() as int,
            ),
            delivered_edit_upto(
                old(self).veh_edit_queue@,
                final(self).veh_edit_queue@,
                token,
                Some(reply),
                old(self).veh_edit_queue@.len() as int,
            ),
    {
        self.deliver_step(token, Some(reply));
    }

    /// Note that one plugin will never answer under this token: a
    /// missing reply counts as no opinion.
    pub fn abandon_reply(&mut self, token: u64)
        requires
            old(self).wf(),
        ensures
            final(self).wf(),
            final(self).clients == old(self).clients,
            final(self).ids == old(self).ids,
            final(self).config == old(self).config,
            final(self).plugin_count == old(self).plugin_count,
            final(self).next_token == old(self).next_token,
            final(self).plugin_out == old(self).plugin_out,
            final(self).udp_out == old(self).udp_out,
            final(self).mod_progress == old(self).mod_progress,
            delivered_join_upto(
                old(self).join_queue@,
                final(self).join_queue@,
                token,
                None,
                old(self).join_queue@.len() as int,
            ),
            delivered_chat_upto(
                old(self).chat_queue@,
                final(self).chat_queue@,
                token,
                None,
                old(self).chat_queue@.len() as int,
            ),
            delivered_spawn_upto(
                old(self).veh_spawn_queue@,
                final(self).veh_spawn_queue@,
                token,
                None,
                old(self).veh_spawn_queue@.len() as int,
            ),
            delivered_edit_upto(
                old(self).veh_edit_queue@,
                final(self).veh_edit_queue@,
                token,
                None,
                old(self).veh_edit_queue@.len() as int,
            ),
    {
        self.deliver_step(token, None);
    }

    /// The shared bookkeeping behind a delivered or abandoned reply.
    fn deliver_step(&mut self, token: u64, reply: Option<PluginReply>)
        requires
            old(self).wf(),
        ensures
            final(self).wf(),
            final(self).clients == old(self).clients,
            final(self).ids == old(self).ids,
            final(self).config == old(self).config,
            final(self).plugin_count == old(self).plugin_count,
            final(self).next_token == old(self).next_token,
            final(self).plugin_out == old(self).plugin_out,
            final(self).udp_out == old(self).udp_out,
            final(self).mod_progress == old(self).mod_progress,
            delivered_join_upto(
                old(self).join_queue@,
                final(self).join_queue@,
                token,
                reply,
                old(self).join_queue@.len() as int,
            ),
            delivered_chat_upto(
                old(self).chat_queue@,
                final(self).chat_queue@,
                token,
                reply,
                old(self).chat_queue@.len() as int,
            ),
            delivered_spawn_upto(
                old(self).veh_spawn_queue@,
                final(self).veh_spawn_queue@,
                token,
                reply,
                old(self).veh_spawn_queue@.len() as int,
            ),
            delivered_edit_upto(
                old(self).veh_edit_queue@,
                final(self).veh_edit_queue@,
                token,
                reply,
                old(self).veh_edit_queue@.len() as int,
            ),
    {
        let mut i1: usize = 0;
        while i1 < self.join_queue.len()
            invariant
                i1 <= self.join_queue@.len(),
                old(self).wf(),
                self.clients == old(self).clients,
                self.ids == old(self).ids,
                self.config == old(self).config,
                self.plugin_count == old(self).plugin_count,
                self.next_token == old(self).next_token,
                self.plugin_out == old(self).plugin_out,
                self.udp_out == old(self).udp_out,
                self.mod_progress == old(self).mod_progress,
                self.chat_queue == old(self).chat_queue,
                self.veh_spawn_queue == old(self).veh_spawn_queue,
                self.veh_edit_queue == old(self).veh_edit_queue,
                delivered_join_upto(
                    old(self).join_queue@,
                    self.join_queue@,
                    token,
                    reply,
                    i1 as int,
                ),
            decreases self.join_queue@.len() - i1,
        {
            if self.join_queue[i1].token == token {
                let slot = &mut self.join_queue[i1];
                if slot.waiting > 0 {
                    slot.waiting = slot.waiting - 1;
                    match &reply {
                        Some(x) => slot.replies.push(x.clone()),
                        None => {},
                    }
                }
            }
            i1 = i1 + 1;
        }
        let mut i2: usize = 0;
        while i2 < self.chat_queue.len()
            invariant
                i2 <= self.chat_queue@.len(),
                old(self).wf(),
                self.clients == old(self).clients,
                self.ids == old(self).ids,
                self.config == old(self).config,
                self.plugin_count == old(self).plugin_count,
                self.next_token == old(self).next_token,
                self.plugin_out == old(self).plugin_out,
                self.udp_out == old(self).udp_out,
                self.mod_progress == old(self).mod_progress,
                self.veh_spawn_queue == old(self).veh_spawn_queue,
                self.veh_edit_queue == old(self).veh_edit_queue,
                delivered_join_upto(
                    old(self).join_queue@,
                    self.join_queue@,
                    token,
                    reply,
                    old(self).join_queue@.len() as int,
                ),
                delivered_chat_upto(
                    old(self).chat_queue@,
                    self.chat_queue@,
                    token,
                    reply,
                    i2 as int,
                ),
            decreases self.chat_queue@.len() - i2,
        {
            if self.chat_queue[i2].token == token {
                let slot = &mut self.chat_queue[i2];
                if slot.waiting > 0 {
                    slot.waiting = slot.waiting - 1;
                    match &reply {
                        Some(x) => slot.replies.push(x.clone()),
                        None => {},
                    }
                }
            }
            i2 = i2 + 1;
        }
        let mut i3: usize = 0;
        while i3 < self.veh_spawn_queue.len()
            invariant
                i3 <= self.veh_spawn_queue@.len(),
                old(self).wf(),
                self.clients == old(self).clients,
                self.ids == old(self).ids,
                self.config == old(self).config,
                self.plugin_count == old(self).plugin_count,
                self.next_token == old(self).next_token,
                self.plugin_out == old(self).plugin_out,
                self.udp_out == old(self).udp_out,
                self.mod_progress == old(self).mod_progress,
                self.veh_edit_queue == old(self).veh_edit_queue,
                delivered_join_upto(
                    old(self).join_queue@,
                    self.join_queue@,
                    token,
                    reply,
                    old(self).join_queue@.len() as int,
                ),
                delivered_chat_upto(
                    old(self).chat_queue@,
                    self.chat_queue@,
                    token,
                    reply,
                    old(self).chat_queue@.len() as int,
                ),
                delivered_spawn_upto(
                    old(self).veh_spawn_queue@,
                    self.veh_spawn_queue@,
                    token,
                    reply,
                    i3 as int,
                ),
            decreases self.veh_spawn_queue@.len() - i3,
        {
            if self.veh_spawn_queue[i3].token == token {
                let slot = &mut self.veh_spawn_queue[i3];
                if slot.waiting > 0 {
                    slot.waiting = slot.waiting - 1;
                    match &reply {
                        Some(x) => slot.replies.push(x.clone()),
                        None => {},
                    }
                }
            }
            i3 = i3 + 1;
        }
        let mut i4: usize = 0;
        while i4 < self.veh_edit_queue.len()
            invariant
                i4 <= self.veh_edit_queue@.len(),
                old(self).wf(),
                self.clients == old(self).clients,
                self.ids == old(self).ids,
                self.config == old(self).config,
                self.plugin_count == old(self).plugin_count,
                self.next_token == old(self).next_token,
                self.plugin_out == old(self).plugin_out,
                self.udp_out == old(self).udp_out,
                self.mod_progress == old(self).mod_progress,
                delivered_join_upto(
                    old(self).join_queue@,
                    self.join_queue@,
                    token,
                    reply,
                    old(self).join_queue@.len() as int,
                ),
                delivered_chat_upto(
                    old(self).chat_queue@,
                    self.chat_queue@,
                    token,
                    reply,
                    old(self).chat_queue@.len() as int,
                ),
                delivered_spawn_upto(
                    old(self).veh_spawn_queue@,
                    self.veh_spawn_queue@,
                    token,
                    reply,
                    old(self).veh_spawn_queue@.len() as int,
                ),
                delivered_edit_upto(
                    old(self).veh_edit_queue@,
                    self.veh_edit_queue@,
                    token,
                    reply,
                    i4 as int,
                ),
            decreases self.veh_edit_queue@.len() - i4,
        {
            if self.veh_edit_queue[i4].token == token {
                let slot = &mut self.veh_edit_queue[i4];
                if slot.waiting > 0 {
                    slot.waiting = slot.waiting - 1;
                    match &reply {
                        Some(x) => slot.replies.push(x.clone()),
                        None => {},
                    }
                }
            }
            i4 = i4 + 1;
        }
    }

    /// Resolve the oldest join decision whose replies are all in:
    /// vetoed sessions are kicked, allowed ones become Active and the
    /// joining events go out. Returns whether a slot was resolved.
    pub fn resolve_next_join(&mut self) -> (r: bool)
        requires
            old(self).wf(),
        ensures
            final(self).wf(),
            final(self).ids.wf(),
            final(self).config == old(self).config,
            final(self).plugin_count == old(self).plugin_count,
            final(self).chat_queue == old(self).chat_queue,
            final(self).veh_spawn_queue == old(self).veh_spawn_queue,
            final(self).veh_edit_queue == old(self).veh_edit_queue,
            final(self).next_token == old(self).next_token,
            final(self).udp_out == old(self).udp_out,
            final(self).mod_progress == old(self).mod_progress,
            r == (spec_first_ready_join(old(self).join_queue@) < old(self).join_queue@.len()),
            !r ==> *final(self) == *old(self),
            r ==> ({
                let t = spec_first_ready_join(old(self).join_queue@);
                let slot = old(self).join_queue@[t];
                let ci = spec_first_with_id(old(self).clients@, slot.pid);
                &&& 0 <= t < old(self).join_queue@.len()
                &&& final(self).join_queue@ == old(self).join_queue@.remove(t)
                &&& final(self).clients@.len() == old(self).clients@.len()
                &&& (forall|i: int|
                    0 <= i < old(self).clients@.len() && i != ci ==> #[trigger] final(self).clients@[i] == old(self).clients@[i])
                &&& if any_veto(slot.replies@) {
                    &&& final(self).plugin_out == old(self).plugin_out
                    &&& (ci < old(self).clients@.len() ==> {
                        let fc = final(self).clients@[ci];
                        &&& fc.state == ClientState::Disconnect
                        &&& fc.outbox_view() == old(self).clients@[ci].outbox_view().push(
                            crate::client::kick_bytes(
                                "You are not allowed to join this server!"@,
                            ),
                        )
                        &&& fc.id == old(self).clients@[ci].id
                        &&& fc.cars == old(self).clients@[ci].cars
                        &&& fc.info == old(self).clients@[ci].info
                    })
                    &&& (ci == old(self).clients@.len() ==> final(self).clients == old(self).clients)
                } else {
                    &&& final(self).ids == old(self).ids
                    &&& if ci < old(self).clients@.len() && old(self).clients@[ci].info is Some
                        && old(self).clients@[ci].state == ClientState::SyncingResources {
                        let fc = final(self).clients@[ci];
                        &&& fc.state == ClientState::Active
                        &&& fc.id == old(self).clients@[ci].id
                        &&& fc.cars == old(self).clients@[ci].cars
                        &&& fc.info == old(self).clients@[ci].info
                        &&& fc.udp_addr == old(self).clients@[ci].udp_addr
                        &&& fc.outbox_view() == old(self).clients@[ci].outbox_view()
                        &&& final(self).plugin_out@.len() == old(self).plugin_out@.len() + 2
                        &&& (forall|j: int|
                            0 <= j < old(self).plugin_out@.len() ==> #[trigger] final(self).plugin_out@[j] == old(self).plugin_out@[j])
                        &&& final(self).plugin_out@[old(self).plugin_out@.len() as int].event
                            matches ScriptEvent::OnPlayerConnecting { pid } && pid == slot.pid
                        &&& final(self).plugin_out@.last().event
                            matches ScriptEvent::OnPlayerJoining { pid } && pid == slot.pid
                    } else {
                        final(self).clients == old(self).clients && final(self).plugin_out == old(self).plugin_out
                    }
                }
            }),
    {
        let t = match self.first_ready_join() {
            Some(t) => t,
            None => {
                return false;
            },
        };
        let slot = self.join_queue.remove(t);
        let vetoed = crate::plugin::reduce_veto(&slot.replies);
        match self.client_index(slot.pid) {
            None => {
                proof {
                    lemma_first_with_id_none(old(self).clients@, slot.pid);
                }
                true
            },
            Some(ci) => {
                proof {
                    lemma_first_with_id_some(old(self).clients@, slot.pid, ci as int);
                }
                if vetoed {
                    self.kick_client(ci, "You are not allowed to join this server!");
                    true
                } else {
                    let has_info = match &self.clients[ci].info {
                        Some(_) => true,
                        None => false,
                    };
                    let syncing = match self.clients[ci].state {
                        ClientState::SyncingResources => true,
                        _ => false,
                    };
                    if has_info && syncing {
                        let cm = &mut self.clients[ci];
                        cm.state = ClientState::Active;
                        self.plugin_out.push(
                            PluginCall {
                                event: ScriptEvent::OnPlayerConnecting { pid: slot.pid },
                                reply_token: None,
                                target_plugin: None,
                            },
                        );
                        self.plugin_out.push(
                            PluginCall {
                                event: ScriptEvent::OnPlayerJoining { pid: slot.pid },
                                reply_token: None,
                                target_plugin: None,
                            },
                        );
                        proof {
                            lemma_same_live_same_pool(old(self), final(self));
                        }
                    }
                    true
                }
            },
        }
    }

    /// Resolve the oldest chat line whose replies are all in: a veto
    /// drops it, otherwise the last text reply (if any) replaces the
    /// message and the line goes to every Active player.
    pub fn resolve_next_chat(&mut self) -> (r: bool)
        requires
            old(self).wf(),
        ensures
            final(self).wf(),
            final(self).ids == old(self).ids,
            final(self).config == old(self).config,
            final(self).plugin_count == old(self).plugin_count,
            final(self).join_queue == old(self).join_queue,
            final(self).veh_spawn_queue == old(self).veh_spawn_queue,
            final(self).veh_edit_queue == old(self).veh_edit_queue,
            final(self).next_token == old(self).next_token,
            final(self).plugin_out == old(self).plugin_out,
            final(self).udp_out == old(self).udp_out,
            final(self).mod_progress == old(self).mod_progress,
            r == (spec_first_ready_chat(old(self).chat_queue@) < old(self).chat_queue@.len()),
            !r ==> *final(self) == *old(self),
            r ==> ({
                let t = spec_first_ready_chat(old(self).chat_queue@);
                let slot = old(self).chat_queue@[t];
                let msg2 = match crate::plugin::last_text(slot.replies@) {
                    Some(text) => vstd::utf8::encode_utf8(text),
                    None => slot.message@,
                };
                &&& 0 <= t < old(self).chat_queue@.len()
                &&& final(self).chat_queue@ == old(self).chat_queue@.remove(t)
                &&& final(self).clients@.len() == old(self).clients@.len()
                &&& if any_veto(slot.replies@) {
                    final(self).clients == old(self).clients
                } else {
                    forall|i: int|
                        0 <= i < old(self).clients@.len() ==> same_but_outbox(
                            old(self).clients@[i],
                            #[trigger] final(self).clients@[i],
                            if recv_bcast(old(self).clients@[i], None) {
                                old(self).clients@[i].outbox_view().push(
                                    crate::text::chat_bytes(slot.name@, msg2),
                                )
                            } else {
                                old(self).clients@[i].outbox_view()
                            },
                        )
                }
            }),
    {
        let t = match self.first_ready_chat() {
            Some(t) => t,
            None => {
                return false;
            },
        };
        let slot = self.chat_queue.remove(t);
        let vetoed = crate::plugin::reduce_veto(&slot.replies);
        if vetoed {
            return true;
        }
        let msg2: Vec<u8> = match crate::plugin::chat_replacement(&slot.replies) {
            Some(text) => text.as_str().as_bytes_vec(),
            None => slot.message,
        };
        let line = crate::text::build_chat(slot.name.as_slice(), msg2.as_slice());
        self.broadcast(line.as_slice(), None);
        proof {
            lemma_same_live_same_pool(old(self), final(self));
        }
        true
    }

    /// Resolve the oldest vehicle spawn whose replies are all in: a veto
    /// sends the originator the echo and the correction and removes the
    /// car; approval broadcasts the spawn frame.
    pub fn resolve_next_spawn(&mut self) -> (r: bool)
        requires
            old(self).wf(),
        ensures
            final(self).wf(),
            final(self).ids == old(self).ids,
            final(self).config == old(self).config,
            final(self).plugin_count == old(self).plugin_count,
            final(self).join_queue == old(self).join_queue,
            final(self).chat_queue == old(self).chat_queue,
            final(self).veh_edit_queue == old(self).veh_edit_queue,
            final(self).next_token == old(self).next_token,
            final(self).plugin_out == old(self).plugin_out,
            final(self).udp_out == old(self).udp_out,
            final(self).mod_progress == old(self).mod_progress,
            r == (spec_first_ready_spawn(old(self).veh_spawn_queue@) < old(self).veh_spawn_queue@.len()),
            !r ==> *final(self) == *old(self),
            r ==> ({
                let t = spec_first_ready_spawn(old(self).veh_spawn_queue@);
                let slot = old(self).veh_spawn_queue@[t];
                let ci = spec_first_with_id(old(self).clients@, slot.pid);
                &&& 0 <= t < old(self).veh_spawn_queue@.len()
                &&& final(self).veh_spawn_queue@ == old(self).veh_spawn_queue@.remove(t)
                &&& final(self).clients@.len() == old(self).clients@.len()
                &&& if !any_veto(slot.replies@) {
                    forall|i: int|
                        0 <= i < old(self).clients@.len() ==> same_but_outbox(
                            old(self).clients@[i],
                            #[trigger] final(self).clients@[i],
                            if recv_bcast(old(self).clients@[i], None) {
                                old(self).clients@[i].outbox_view().push(slot.frame@)
                            } else {
                                old(self).clients@[i].outbox_view()
                            },
                        )
                } else {
                    &&& (forall|i: int|
                        0 <= i < old(self).clients@.len() && i != ci ==> #[trigger] final(self).clients@[i] == old(self).clients@[i])
                    &&& if ci < old(self).clients@.len() && old(self).clients@[ci].info is Some {
                        let c = old(self).clients@[ci];
                        let fc = final(self).clients@[ci];
                        let roles_b = vstd::utf8::encode_utf8(c.info->0.roles@);
                        let name_b = vstd::utf8::encode_utf8(c.info->0.username@);
                        &&& fc.id == c.id
                        &&& fc.state == c.state
                        &&& fc.info == c.info
                        &&& fc.udp_addr == c.udp_addr
                        &&& fc.outbox_view() == c.outbox_view().push(
                            crate::vehicle::os_bytes(
                                roles_b,
                                name_b,
                                slot.pid,
                                slot.vid,
                                slot.car_json@,
                            ),
                        ).push(crate::vehicle::od_bytes(slot.pid, slot.vid))
                        &&& !fc.has_car(slot.vid)
                        &&& (c.has_car(slot.vid) ==> fc.cars@ == c.cars@.remove(
                            c.spec_car_index(slot.vid),
                        ))
                        &&& (!c.has_car(slot.vid) ==> fc.cars@ == c.cars@)
                    } else {
                        final(self).clients == old(self).clients
                    }
                }
            }),
    {
        let t = match self.first_ready_spawn() {
            Some(t) => t,
            None => {
                return false;
            },
        };
        let slot = self.veh_spawn_queue.remove(t);
        let vetoed = crate::plugin::reduce_veto(&slot.replies);
        if !vetoed {
            self.broadcast(slot.frame.as_slice(), None);
            proof {
                lemma_same_live_same_pool(old(self), final(self));
            }
            return true;
        }
        match self.client_index(slot.pid) {
            None => {
                proof {
                    lemma_first_with_id_none(old(self).clients@, slot.pid);
                }
                true
            },
            Some(ci) => {
                proof {
                    lemma_first_with_id_some(old(self).clients@, slot.pid, ci as int);
                }
                let has_info = match &self.clients[ci].info {
                    Some(_) => true,
                    None => false,
                };
                if has_info {
                    let roles_b = self.clients[ci].get_roles().as_bytes_vec();
                    let name_b = self.clients[ci].get_name().as_bytes_vec();
                    let echo = crate::vehicle::build_os(
                        roles_b.as_slice(),
                        name_b.as_slice(),
                        slot.pid,
                        slot.vid,
                        slot.car_json.as_slice(),
                    );
                    let od = crate::vehicle::build_od(slot.pid, slot.vid);
                    let cm = &mut self.clients[ci];
                    cm.queue_bytes(echo);
                    cm.queue_bytes(od);
                    cm.unregister_car(slot.vid);
                    proof {
                        lemma_same_live_same_pool(old(self), final(self));
                    }
                }
                true
            },
        }
    }

    /// Resolve the oldest vehicle edit whose replies are all in: a veto
    /// sends the correction and removes the car; approval writes the
    /// descriptor and tells every other Active player.
    pub fn resolve_next_edit(&mut self) -> (r: bool)
        requires
            old(self).wf(),
        ensures
            final(self).wf(),
            final(self).ids == old(self).ids,
            final(self).config == old(self).config,
            final(self).plugin_count == old(self).plugin_count,
            final(self).join_queue == old(self).join_queue,
            final(self).chat_queue == old(self).chat_queue,
            final(self).veh_spawn_queue == old(self).veh_spawn_queue,
            final(self).next_token == old(self).next_token,
            final(self).plugin_out == old(self).plugin_out,
            final(self).udp_out == old(self).udp_out,
            final(self).mod_progress == old(self).mod_progress,
            r == (spec_first_ready_edit(old(self).veh_edit_queue@) < old(self).veh_edit_queue@.len()),
            !r ==> *final(self) == *old(self),
            r ==> ({
                let t = spec_first_ready_edit(old(self).veh_edit_queue@);
                let slot = old(self).veh_edit_queue@[t];
                let ci = spec_first_with_id(old(self).clients@, slot.pid);
                &&& 0 <= t < old(self).veh_edit_queue@.len()
                &&& final(self).veh_edit_queue@ == old(self).veh_edit_queue@.remove(t)
                &&& final(self).clients@.len() == old(self).clients@.len()
                &&& if any_veto(slot.replies@) {
                    &&& (forall|i: int|
                        0 <= i < old(self).clients@.len() && i != ci ==> #[trigger] final(self).clients@[i] == old(self).clients@[i])
                    &&& if ci < old(self).clients@.len() {
                        let c = old(self).clients@[ci];
                        let fc = final(self).clients@[ci];
                        &&& fc.id == c.id
                        &&& fc.state == c.state
                        &&& fc.info == c.info
                        &&& fc.udp_addr == c.udp_addr
                        &&& fc.outbox_view() == c.outbox_view().push(
                            crate::vehicle::od_bytes(slot.pid, slot.vid),
                        )
                        &&& !fc.has_car(slot.vid)
                        &&& (c.has_car(slot.vid) ==> fc.cars@ == c.cars@.remove(
                            c.spec_car_index(slot.vid),
                        ))
                        &&& (!c.has_car(slot.vid) ==> fc.cars@ == c.cars@)
                    } else {
                        final(self).clients == old(self).clients
                    }
                } else {
                    &&& (forall|i: int|
                        0 <= i < old(self).clients@.len() && i != ci ==> same_but_outbox(
                            old(self).clients@[i],
                            #[trigger] final(self).clients@[i],
                            if recv_bcast(old(self).clients@[i], Some(slot.pid)) {
                                old(self).clients@[i].outbox_view().push(slot.frame@)
                            } else {
                                old(self).clients@[i].outbox_view()
                            },
                        ))
                    &&& if ci < old(self).clients@.len() {
                        let c = old(self).clients@[ci];
                        let fc = final(self).clients@[ci];
                        &&& fc.id == c.id
                        &&& fc.state == c.state
                        &&& fc.info == c.info
                        &&& fc.udp_addr == c.udp_addr
                        &&& fc.outbox_view() == c.outbox_view()
                        &&& if c.has_car(slot.vid) {
                            let k = c.spec_car_index(slot.vid);
                            &&& fc.cars@.len() == c.cars@.len()
                            &&& (forall|m: int|
                                0 <= m < c.cars@.len() && m != k ==> #[trigger] fc.cars@[m]
                                    == c.cars@[m])
                            &&& fc.cars@[k].0 == c.cars@[k].0
                            &&& fc.cars@[k].1.car_json == slot.car_json
                            &&& fc.cars@[k].1.last_transform == c.cars@[k].1.last_transform
                        } else {
                            fc.cars@ == c.cars@
                        }
                    } else {
                        true
                    }
                }
            }),
    {
        let t = match self.first_ready_edit() {
            Some(t) => t,
            None => {
                return false;
            },
        };
        let slot = self.veh_edit_queue.remove(t);
        let vetoed = crate::plugin::reduce_veto(&slot.replies);
        match self.client_index(slot.pid) {
            None => {
                proof {
                    lemma_first_with_id_none(old(self).clients@, slot.pid);
                }
                if !vetoed {
                    self.broadcast(slot.frame.as_slice(), Some(slot.pid));
                    proof {
                        lemma_same_live_same_pool(old(self), final(self));
                    }
                }
                true
            },
            Some(ci) => {
                proof {
                    lemma_first_with_id_some(old(self).clients@, slot.pid, ci as int);
                }
                if vetoed {
                    let od = crate::vehicle::build_od(slot.pid, slot.vid);
                    let cm = &mut self.clients[ci];
                    cm.queue_bytes(od);
                    proof {
                        assert(old(self).clients@[ci as int].wf());
                    }
                    cm.unregister_car(slot.vid);
                    proof {
                        lemma_same_live_same_pool(old(self), final(self));
                    }
                    true
                } else {
                    match self.clients[ci].car_index(slot.vid) {
                        Some(k) => {
                            proof {
                                let c = old(self).clients@[ci as int];
                                assert(c.wf());
                                if k as int != c.spec_car_index(slot.vid) {
                                    let other = c.spec_car_index(slot.vid);
                                    assert(c.cars@[other].0 == slot.vid);
                                    assert(c.cars@[k as int].0 == slot.vid);
                                }
                            }
                            let cm = &mut self.clients[ci];
                            cm.set_car_json(k, slot.car_json);
                        },
                        None => {},
                    }
                    self.broadcast(slot.frame.as_slice(), Some(slot.pid));
                    proof {
                        lemma_same_live_same_pool(old(self), final(self));
                    }
                    true
                }
            },
        }
    }

    fn first_ready_join(&self) -> (r: Option<usize>)
        ensures
            match r {
                Some(t) => t < self.join_queue@.len() && t == spec_first_ready_join(
                    self.join_queue@,
                ),
                None => spec_first_ready_join(self.join_queue@) == self.join_queue@.len(),
            },
    {
        let mut i: usize = 0;
        while i < self.join_queue.len()
            invariant
                i <= self.join_queue@.len(),
                forall|j: int| 0 <= j < i ==> (#[trigger] self.join_queue@[j]).waiting != 0,
            decreases self.join_queue@.len() - i,
        {
            if self.join_queue[i].waiting == 0 {
                proof {
                    lemma_first_ready_join(self.join_queue@, i as int);
                }
                return Some(i);
            }
            i = i + 1;
        }
        proof {
            lemma_first_ready_join_none(self.join_queue@);
        }
        None
    }

    fn first_ready_chat(&self) -> (r: Option<usize>)
        ensures
            match r {
                Some(t) => t < self.chat_queue@.len() && t == spec_first_ready_chat(
                    self.chat_queue@,
                ),
                None => spec_first_ready_chat(self.chat_queue@) == self.chat_queue@.len(),
            },
    {
        let mut i: usize = 0;
        while i < self.chat_queue.len()
            invariant
                i <= self.chat_queue@.len(),
                forall|j: int| 0 <= j < i ==> (#[trigger] self.chat_queue@[j]).waiting != 0,
            decreases self.chat_queue@.len() - i,
        {
            if self.chat_queue[i].waiting == 0 {
                proof {
                    lemma_first_ready_chat(self.chat_queue@, i as int);
                }
                return Some(i);
            }
            i = i + 1;
        }
        proof {
            lemma_first_ready_chat_none(self.chat_queue@);
        }
        None
    }

    fn first_ready_spawn(&self) -> (r: Option<usize>)
        ensures
            match r {
                Some(t) => t < self.veh_spawn_queue@.len() && t == spec_first_ready_spawn(
                    self.veh_spawn_queue@,
                ),
                None => spec_first_ready_spawn(self.veh_spawn_queue@)
                    == self.veh_spawn_queue@.len(),
            },
    {
        let mut i: usize = 0;
        while i < self.veh_spawn_queue.len()
            invariant
                i <= self.veh_spawn_queue@.len(),
                forall|j: int| 0 <= j < i ==> (#[trigger] self.veh_spawn_queue@[j]).waiting != 0,
            decreases self.veh_spawn_queue@.len() - i,
        {
            if self.veh_spawn_queue[i].waiting == 0 {
                proof {
                    lemma_first_ready_spawn(self.veh_spawn_queue@, i as int);
                }
                return Some(i);
            }
            i = i + 1;
        }
        proof {
            lemma_first_ready_spawn_none(self.veh_spawn_queue@);
        }
        None
    }

    fn first_ready_edit(&self) -> (r: Option<usize>)
        ensures
            match r {
                Some(t) => t < self.veh_edit_queue@.len() && t == spec_first_ready_edit(
                    self.veh_edit_queue@,
                ),
                None => spec_first_ready_edit(self.veh_edit_queue@) == self.veh_edit_queue@.len(),
            },
    {
        let mut i: usize = 0;
        while i < self.veh_edit_queue.len()
            invariant
                i <= self.veh_edit_queue@.len(),
                forall|j: int| 0 <= j < i ==> (#[trigger] self.veh_edit_queue@[j]).waiting != 0,
            decreases self.veh_edit_queue@.len() - i,
        {
            if self.veh_edit_queue[i].waiting == 0 {
                proof {
                    lemma_first_ready_edit(self.veh_edit_queue@, i as int);
                }
                return Some(i);
            }
            i = i + 1;
        }
        proof {
            lemma_first_ready_edit_none(self.veh_edit_queue@);
        }
        None
    }

    /// Reclaim the oldest session in `Disconnect`: its cars are deleted
    /// for every Active player (one `Od` frame per car, in order), the
    /// departure event and notice go out, the download cursor is
    /// cleared, and the session record is dropped. Returns whether one
    /// was reclaimed.
    pub fn sweep_disconnected(&mut self) -> (r: bool)
        requires
            old(self).wf(),
        ensures
            final(self).wf(),
            final(self).ids == old(self).ids,
            final(self).config == old(self).config,
            final(self).plugin_count == old(self).plugin_count,
            final(self).join_queue == old(self).join_queue,
            final(self).chat_queue == old(self).chat_queue,
            final(self).veh_spawn_queue == old(self).veh_spawn_queue,
            final(self).veh_edit_queue == old(self).veh_edit_queue,
            final(self).next_token == old(self).next_token,
            final(self).udp_out == old(self).udp_out,
            r == (spec_first_disconnect(old(self).clients@) < old(self).clients@.len()),
            !r ==> *final(self) == *old(self),
            r ==> ({
                let dix = spec_first_disconnect(old(self).clients@);
                let c = old(self).clients@[dix];
                let extra = od_frames(c.id, c.cars@) + if c.info is Some {
                    seq![crate::text::left_bytes(vstd::utf8::encode_utf8(c.info->0.username@))]
                } else {
                    Seq::<Seq<u8>>::empty()
                };
                &&& 0 <= dix < old(self).clients@.len()
                &&& final(self).clients@.len() == old(self).clients@.len() - 1
                &&& (forall|i: int|
                    0 <= i < final(self).clients@.len() ==> {
                        let oi = if i < dix {
                            i
                        } else {
                            i + 1
                        };
                        same_but_outbox(
                            old(self).clients@[oi],
                            #[trigger] final(self).clients@[i],
                            if recv_bcast(old(self).clients@[oi], None) {
                                old(self).clients@[oi].outbox_view() + extra
                            } else {
                                old(self).clients@[oi].outbox_view()
                            },
                        )
                    })
                &&& Self::spec_mod_progress(final(self).mod_progress@, c.id) == Some(-1i64)
                &&& (forall|q: u8|
                    q != c.id ==> #[trigger] Self::spec_mod_progress(final(self).mod_progress@, q)
                        == Self::spec_mod_progress(old(self).mod_progress@, q))
                &&& if c.info is Some {
                    &&& final(self).plugin_out@.len() == old(self).plugin_out@.len() + 1
                    &&& (forall|j: int|
                        0 <= j < old(self).plugin_out@.len() ==> #[trigger] final(self).plugin_out@[j] == old(self).plugin_out@[j])
                    &&& final(self).plugin_out@.last().event
                        matches ScriptEvent::OnPlayerDisconnect { pid, name } && pid == c.id
                        && name@ == c.info->0.username@
                    &&& final(self).plugin_out@.last().reply_token is None
                } else {
                    final(self).plugin_out == old(self).plugin_out
                }
            }),
    {
        let dix = match self.first_disconnected() {
            Some(d) => d,
            None => {
                return false;
            },
        };
        let id = self.clients[dix].get_id();
        let ghost c = self.clients@[dix as int];
        let mut vids: Vec<u8> = Vec::new();
        let mut k0: usize = 0;
        while k0 < self.clients[dix].cars.len()
            invariant
                dix < self.clients@.len(),
                *self == *old(self),
                k0 <= self.clients@[dix as int].cars@.len(),
                vids@.len() == k0,
                forall|m: int|
                    0 <= m < k0 ==> #[trigger] vids@[m] == old(self).clients@[dix as int].cars@[m].0,
            decreases self.clients@[dix as int].cars@.len() - k0,
        {
            let vid = self.clients[dix].cars[k0].0;
            vids.push(vid);
            k0 = k0 + 1;
        }
        let name_b: Option<Vec<u8>> = match &self.clients[dix].info {
            Some(_) => Some(self.clients[dix].get_name().as_bytes_vec()),
            None => None,
        };
        let ghost ods = od_frames(c.id, c.cars@);
        let mut k: usize = 0;
        proof {
            assert forall|i: int| 0 <= i < self.clients@.len() implies same_but_outbox(
                old(self).clients@[i],
                #[trigger] self.clients@[i],
                if recv_bcast(old(self).clients@[i], None) {
                    old(self).clients@[i].outbox_view() + ods.take(0)
                } else {
                    old(self).clients@[i].outbox_view()
                },
            ) by {
                assert(old(self).clients@[i].outbox_view() + ods.take(0) =~= old(self).clients@[i].outbox_view());
            }
        }
        while k < vids.len()
            invariant
                dix < self.clients@.len(),
                k <= vids@.len(),
                old(self).wf(),
                vids@.len() == c.cars@.len(),
                c == old(self).clients@[dix as int],
                forall|m: int| 0 <= m < vids@.len() ==> #[trigger] vids@[m] == c.cars@[m].0,
                ods == od_frames(c.id, c.cars@),
                id == c.id,
                self.clients@.len() == old(self).clients@.len(),
                self.ids == old(self).ids,
                Self::same_queues(old(self), self),
                forall|i: int|
                    0 <= i < self.clients@.len() ==> same_but_outbox(
                        old(self).clients@[i],
                        #[trigger] self.clients@[i],
                        if recv_bcast(old(self).clients@[i], None) {
                            old(self).clients@[i].outbox_view() + ods.take(k as int)
                        } else {
                            old(self).clients@[i].outbox_view()
                        },
                    ),
            decreases vids@.len() - k,
        {
            let od = crate::vehicle::build_od(id, vids[k]);
            let ghost before = self.clients@;
            self.broadcast(od.as_slice(), None);
            proof {
                assert(ods.take(k + 1) =~= ods.take(k as int).push(ods[k as int]));
                assert(ods[k as int] == crate::vehicle::od_bytes(c.id, c.cars@[k as int].0));
                assert forall|i: int| 0 <= i < self.clients@.len() implies same_but_outbox(
                    old(self).clients@[i],
                    #[trigger] self.clients@[i],
                    if recv_bcast(old(self).clients@[i], None) {
                        old(self).clients@[i].outbox_view() + ods.take(k + 1)
                    } else {
                        old(self).clients@[i].outbox_view()
                    },
                ) by {
                    assert(recv_bcast(before[i], None) == recv_bcast(old(self).clients@[i], None));
                    if recv_bcast(old(self).clients@[i], None) {
                        assert(self.clients@[i].outbox_view() == before[i].outbox_view().push(
                            od@,
                        ));
                        assert(before[i].outbox_view().push(od@) =~= old(self).clients@[i].outbox_view() + ods.take(k + 1));
                    }
                }
            }
            k = k + 1;
        }
        proof {
            assert(ods.take(vids@.len() as int) =~= ods);
        }
        match &name_b {
            Some(nb) => {
                let uname2 = self.clients[dix].get_name().to_owned();
                self.plugin_out.push(
                    PluginCall {
                        event: ScriptEvent::OnPlayerDisconnect { pid: id, name: uname2 },
                        reply_token: None,
                        target_plugin: None,
                    },
                );
            },
            None => {},
        }
        self.set_mod_progress(id, -1);
        let ghost mid = self.clients@;
        match &name_b {
            Some(nb) => {
                let left = crate::text::build_left(nb.as_slice());
                self.broadcast(left.as_slice(), None);
                proof {
                    let extra = od_frames(c.id, c.cars@) + seq![
                        crate::text::left_bytes(
                            vstd::utf8::encode_utf8(c.info->0.username@),
                        ),
                    ];
                    assert forall|i: int| 0 <= i < self.clients@.len() implies same_but_outbox(
                        old(self).clients@[i],
                        #[trigger] self.clients@[i],
                        if recv_bcast(old(self).clients@[i], None) {
                            old(self).clients@[i].outbox_view() + extra
                        } else {
                            old(self).clients@[i].outbox_view()
                        },
                    ) by {
                        assert(recv_bcast(mid[i], None) == recv_bcast(old(self).clients@[i], None));
                        if recv_bcast(old(self).clients@[i], None) {
                            assert(self.clients@[i].outbox_view() == mid[i].outbox_view().push(
                                crate::text::left_bytes(
                                    vstd::utf8::encode_utf8(c.info->0.username@),
                                ),
                            ));
                            assert(mid[i].outbox_view().push(
                                crate::text::left_bytes(
                                    vstd::utf8::encode_utf8(c.info->0.username@),
                                ),
                            ) =~= old(self).clients@[i].outbox_view() + extra);
                        }
                    }
                }
            },
            None => {},
        }
        self.clients.remove(dix);
        proof {
            let pre = *old(self);
            let post = *final(self);
            let dixg = dix as int;
            assert(!pre.clients@[dixg].live());
            assert forall|w: u8| #[trigger] post.ids.is_taken(w) implies post.spec_has_live(w) by {
                assert(pre.spec_has_live(w));
                let i = choose|i: int|
                    0 <= i < pre.clients@.len() && (#[trigger] pre.clients@[i]).live()
                        && pre.clients@[i].id == w;
                assert(i != dixg);
                if i < dixg {
                    assert(post.clients@[i].live() && post.clients@[i].id == w);
                } else {
                    assert(post.clients@[i - 1].live() && post.clients@[i - 1].id == w);
                }
            }
            assert forall|w: u8| post.spec_has_live(w) implies #[trigger] post.ids.is_taken(w) by {
                let i = choose|i: int|
                    0 <= i < post.clients@.len() && (#[trigger] post.clients@[i]).live()
                        && post.clients@[i].id == w;
                let oi = if i < dixg {
                    i
                } else {
                    i + 1
                };
                assert(pre.clients@[oi].live() && pre.clients@[oi].id == w);
                assert(pre.spec_has_live(w));
            }
        }
        true
    }

    fn first_disconnected(&self) -> (r: Option<usize>)
        ensures
            match r {
                Some(d) => d < self.clients@.len() && d == spec_first_disconnect(self.clients@)
                    && self.clients@[d as int].state == ClientState::Disconnect,
                None => spec_first_disconnect(self.clients@) == self.clients@.len(),
            },
    {
        let mut i: usize = 0;
        while i < self.clients.len()
            invariant
                i <= self.clients@.len(),
                forall|j: int|
                    0 <= j < i ==> (#[trigger] self.clients@[j]).state != ClientState::Disconnect,
            decreases self.clients@.len() - i,
        {
            let is_dc = match self.clients[i].state {
                ClientState::Disconnect => true,
                _ => false,
            };
            if is_dc {
                proof {
                    lemma_first_disconnect(self.clients@, i as int);
                }
                return Some(i);
            }
            i = i + 1;
        }
        proof {
            lemma_first_disconnect_none(self.clients@);
        }
        None
    }

    /// Broadcast the player list `Ss<count>/<max>:<names>` to every
    /// Active player.
    pub fn broadcast_player_list(&mut self)
        requires
            old(self).wf(),
        ensures
            final(self).wf(),
            Self::same_queues(old(self), final(self)),
            final(self).ids == old(self).ids,
            final(self).clients@.len() == old(self).clients@.len(),
            ({
                let names = active_names(old(self).clients@);
                let frame = crate::text::player_list_bytes(
                    names.len(),
                    old(self).config.general.max_players as nat,
                    names,
                );
                forall|i: int|
                    0 <= i < old(self).clients@.len() ==> same_but_outbox(
                        old(self).clients@[i],
                        #[trigger] final(self).clients@[i],
                        if recv_bcast(old(self).clients@[i], None) {
                            old(self).clients@[i].outbox_view().push(frame)
                        } else {
                            old(self).clients@[i].outbox_view()
                        },
                    )
            }),
    {
        let mut names: Vec<Vec<u8>> = Vec::new();
        let mut j: usize = 0;
        proof {
            assert(self.clients@.take(0) =~= Seq::<Client>::empty());
            assert(names.deep_view() =~= active_names(self.clients@.take(0)));
        }
        while j < self.clients.len()
            invariant
                j <= self.clients@.len(),
                *self == *old(self),
                old(self).wf(),
                names.deep_view() == active_names(self.clients@.take(j as int)),
            decreases self.clients@.len() - j,
        {
            proof {
                assert(self.clients@.take(j + 1).drop_last() =~= self.clients@.take(j as int));
                assert(self.clients@.take(j + 1).last() == self.clients@[j as int]);
            }
            let is_active = match self.clients[j].state {
                ClientState::Active => true,
                _ => false,
            };
            if is_active {
                let nb = self.clients[j].get_name().as_bytes_vec();
                let ghost prev = names.deep_view();
                names.push(nb);
                proof {
                    assert forall|m: int|
                        0 <= m < names.deep_view().len() implies #[trigger] names.deep_view()[m]
                        == prev.push(
                        vstd::utf8::encode_utf8(self.clients@[j as int].info->0.username@),
                    )[m] by {
                        assert(names.deep_view()[m] == names@[m].deep_view());
                    }
                    assert(names.deep_view() =~= active_names(self.clients@.take(j + 1)));
                }
            }
            j = j + 1;
        }
        proof {
            assert(self.clients@.take(self.clients@.len() as int) =~= self.clients@);
        }
        let count = names.len();
        let frame = crate::text::build_player_list(
            count,
            self.config.general.max_players,
            &names,
        );
        self.broadcast(frame.as_slice(), None);
        proof {
            lemma_same_live_same_pool(old(self), final(self));
        }
    }

    /// One tick of housekeeping: resolve every completed approval slot,
    /// reclaim every left session, and, when the second is up, send the
    /// player list. Afterwards no completed slot waits in any queue and
    /// no session remains in `Disconnect`.
    pub fn process(&mut self, plist_due: bool)
        requires
            old(self).wf(),
        ensures
            final(self).wf(),
            final(self).config == old(self).config,
            final(self).plugin_count == old(self).plugin_count,
            final(self).next_token == old(self).next_token,
            spec_first_ready_join(final(self).join_queue@) == final(self).join_queue@.len(),
            spec_first_ready_chat(final(self).chat_queue@) == final(self).chat_queue@.len(),
            spec_first_ready_spawn(final(self).veh_spawn_queue@) == final(self).veh_spawn_queue@.len(),
            spec_first_ready_edit(final(self).veh_edit_queue@) == final(self).veh_edit_queue@.len(),
            spec_first_disconnect(final(self).clients@) == final(self).clients@.len(),
            plist_due ==> ({
                let names = active_names(final(self).clients@);
                let frame = crate::text::player_list_bytes(
                    names.len(),
                    final(self).config.general.max_players as nat,
                    names,
                );
                forall|i: int|
                    0 <= i < final(self).clients@.len() && (#[trigger] final(self).clients@[i]).state == ClientState::Active ==> final(self).clients@[i].outbox_view().len() > 0 && final(self).clients@[i].outbox_view().last() == frame
            }),
    {
        let mut more = true;
        while more
            invariant
                self.wf(),
                self.config == old(self).config,
                self.plugin_count == old(self).plugin_count,
                self.next_token == old(self).next_token,
                !more ==> spec_first_ready_join(self.join_queue@) == self.join_queue@.len(),
            decreases self.join_queue@.len() + (if more {
                1int
            } else {
                0int
            }),
        {
            more = self.resolve_next_join();
            proof {
                lemma_first_ready_join_le(self.join_queue@);
            }
        }
        more = true;
        while more
            invariant
                self.wf(),
                self.config == old(self).config,
                self.plugin_count == old(self).plugin_count,
                self.next_token == old(self).next_token,
                spec_first_ready_join(self.join_queue@) == self.join_queue@.len(),
                !more ==> spec_first_ready_chat(self.chat_queue@) == self.chat_queue@.len(),
            decreases self.chat_queue@.len() + (if more {
                1int
            } else {
                0int
            }),
        {
            more = self.resolve_next_chat();
            proof {
                lemma_first_ready_chat_le(self.chat_queue@);
            }
        }
        more = true;
        while more
            invariant
                self.wf(),
                self.config == old(self).config,
                self.plugin_count == old(self).plugin_count,
                self.next_token == old(self).next_token,
                spec_first_ready_join(self.join_queue@) == self.join_queue@.len(),
                spec_first_ready_chat(self.chat_queue@) == self.chat_queue@.len(),
                !more ==> spec_first_ready_spawn(self.veh_spawn_queue@)
                    == self.veh_spawn_queue@.len(),
            decreases self.veh_spawn_queue@.len() + (if more {
                1int
            } else {
                0int
            }),
        {
            more = self.resolve_next_spawn();
            proof {
                lemma_first_ready_spawn_le(self.veh_spawn_queue@);
            }
        }
        more = true;
        while more
            invariant
                self.wf(),
                self.config == old(self).config,
                self.plugin_count == old(self).plugin_count,
                self.next_token == old(self).next_token,
                spec_first_ready_join(self.join_queue@) == self.join_queue@.len(),
                spec_first_ready_chat(self.chat_queue@) == self.chat_queue@.len(),
                spec_first_ready_spawn(self.veh_spawn_queue@) == self.veh_spawn_queue@.len(),
                !more ==> spec_first_ready_edit(self.veh_edit_queue@)
                    == self.veh_edit_queue@.len(),
            decreases self.veh_edit_queue@.len() + (if more {
                1int
            } else {
                0int
            }),
        {
            more = self.resolve_next_edit();
            proof {
                lemma_first_ready_edit_le(self.veh_edit_queue@);
            }
        }
        more = true;
        while more
            invariant
                self.wf(),
                self.config == old(self).config,
                self.plugin_count == old(self).plugin_count,
                self.next_token == old(self).next_token,
                spec_first_ready_join(self.join_queue@) == self.join_queue@.len(),
                spec_first_ready_chat(self.chat_queue@) == self.chat_queue@.len(),
                spec_first_ready_spawn(self.veh_spawn_queue@) == self.veh_spawn_queue@.len(),
                spec_first_ready_edit(self.veh_edit_queue@) == self.veh_edit_queue@.len(),
                !more ==> spec_first_disconnect(self.clients@) == self.clients@.len(),
            decreases self.clients@.len() + (if more {
                1int
            } else {
                0int
            }),
        {
            more = self.sweep_disconnected();
            proof {
                lemma_first_disconnect_le(self.clients@);
            }
        }
        if plist_due {
            let ghost before_plist = *self;
            self.broadcast_player_list();
            proof {
                lemma_active_names_same(before_plist.clients@, final(self).clients@);
                lemma_first_disconnect_same(before_plist.clients@, final(self).clients@);
            }
        }
    }

    /// Send a server chat line: to one player when a target id is
    /// given, to every Active player otherwise.
    pub fn send_chat_message(&mut self, message: &str, target: Option<u8>)
        requires
            old(self).wf(),
        ensures
            final(self).wf(),
            chat_send_step(*old(self), *final(self), message@, target),
    {
        let msg_b = message.as_bytes_vec();
        match target {
            None => {
                let mut line: Vec<u8> = Vec::new();
                line.push(67);
                line.push(58);
                line.push(83);
                line.push(101);
                line.push(114);
                line.push(118);
                line.push(101);
                line.push(114);
                line.push(58);
                line.push(32);
                line.extend_from_slice(msg_b.as_slice());
                assert(line@ =~= server_chat_bytes(msg_b@));
                self.broadcast(line.as_slice(), None);
                proof {
                    lemma_same_live_same_pool(old(self), final(self));
                }
            },
            Some(id) => {
                let mut line: Vec<u8> = Vec::new();
                line.push(67);
                line.push(58);
                line.push(83);
                line.push(101);
                line.push(114);
                line.push(118);
                line.push(101);
                line.push(114);
                line.push(32);
                line.push(64);
                line.push(32);
                let mut dd = crate::wire::u8_to_dec(id);
                line.append(&mut dd);
                line.push(58);
                line.push(32);
                line.extend_from_slice(msg_b.as_slice());
                assert(line@ =~= server_chat_to_bytes(id, msg_b@));
                match self.client_index(id) {
                    Some(ci) => {
                        proof {
                            lemma_first_with_id_some(old(self).clients@, id, ci as int);
                        }
                        let cm = &mut self.clients[ci];
                        cm.queue_bytes(line);
                        proof {
                            lemma_same_live_same_pool(old(self), final(self));
                        }
                    },
                    None => {
                        proof {
                            lemma_first_with_id_none(old(self).clients@, id);
                        }
                    },
                }
            },
        }
    }

    /// Answer one request a plugin raised mid-tick, from live state:
    /// requests that name an unknown player or car answer `Nothing`,
    /// everything else is fixed to the named player's record.
    pub fn answer_plugin_request(
        &mut self,
        plugin_idx: usize,
        req: crate::plugin::PluginRequest,
    ) -> (r: crate::plugin::PluginResponse)
        requires
            old(self).wf(),
        ensures
            final(self).wf(),
            req matches crate::plugin::PluginRequest::PluginLoaded ==> ({
                &&& r is Nothing
                &&& final(self).clients == old(self).clients
                &&& final(self).ids == old(self).ids
                &&& final(self).plugin_out@.len() == old(self).plugin_out@.len() + 1
                &&& (forall|j: int|
                    0 <= j < old(self).plugin_out@.len() ==> #[trigger] final(self).plugin_out@[j] == old(self).plugin_out@[j])
                &&& final(self).plugin_out@.last().event is OnPluginLoaded
                &&& final(self).plugin_out@.last().reply_token is None
                &&& final(self).plugin_out@.last().target_plugin == Some(plugin_idx)
            }),
            req matches crate::plugin::PluginRequest::RequestPlayerCount ==> r matches crate::plugin::PluginResponse::PlayerCount(n)
                && n == old(self).clients@.len() && *final(self) == *old(self),
            req matches crate::plugin::PluginRequest::RequestPlayers ==> ({
                &&& *final(self) == *old(self)
                &&& r matches crate::plugin::PluginResponse::Players(list) && ({
                    let listing = players_listing(old(self).clients@);
                    &&& list@.len() == listing.len()
                    &&& forall|k: int|
                        0 <= k < list@.len() ==> (#[trigger] list@[k]).0 == listing[k].0
                            && list@[k].1@ == listing[k].1
                })
            }),
            (req matches crate::plugin::PluginRequest::RequestPlayerIdentifiers(pid) ==> ({
                let ci = spec_first_with_id(old(self).clients@, pid);
                &&& *final(self) == *old(self)
                &&& if ci < old(self).clients@.len() && old(self).clients@[ci].info is Some {
                    r matches crate::plugin::PluginResponse::PlayerIdentifiers(ident)
                        && ident.beammp_id@ == old(self).clients@[ci].info->0.uid@ && ident.ip@
                        == "not yet implemented"@
                } else {
                    r is Nothing
                }
            })),
            (req matches crate::plugin::PluginRequest::RequestPlayerVehicles(pid) ==> ({
                let ci = spec_first_with_id(old(self).clients@, pid);
                &&& *final(self) == *old(self)
                &&& if ci < old(self).clients@.len() {
                    let cars = old(self).clients@[ci].cars@;
                    r matches crate::plugin::PluginResponse::PlayerVehicles(list) && list@.len()
                        == cars.len() && forall|k: int|
                        0 <= k < list@.len() ==> (#[trigger] list@[k]).0 == cars[k].0
                            && list@[k].1@ == crate::packet::lossy_of(cars[k].1.car_json@)
                } else {
                    r is Nothing
                }
            })),
            (req matches crate::plugin::PluginRequest::RequestPositionRaw(pid, vid) ==> ({
                let ci = spec_first_with_id(old(self).clients@, pid);
                &&& *final(self) == *old(self)
                &&& if ci < old(self).clients@.len() && old(self).clients@[ci].has_car(vid) {
                    let car = old(self).clients@[ci].cars@[old(self).clients@[ci].spec_car_index(
                        vid,
                    )].1;
                    r matches crate::plugin::PluginResponse::PositionRaw(o) && (match car.last_transform {
                        Some(b) => o matches Some(bb) && bb@ == b@,
                        None => o is None,
                    })
                } else {
                    r is Nothing
                }
            })),
            (req matches crate::plugin::PluginRequest::SendChatMessage(t, msg) ==> ({
                let target: Option<u8> = if 0 <= t <= 255 {
                    Some(t as u8)
                } else {
                    None
                };
                r is Nothing && chat_send_step(*old(self), *final(self), msg@, target)
            })),
    {
        match req {
            crate::plugin::PluginRequest::PluginLoaded => {
                self.plugin_out.push(
                    PluginCall {
                        event: ScriptEvent::OnPluginLoaded,
                        reply_token: None,
                        target_plugin: Some(plugin_idx),
                    },
                );
                crate::plugin::PluginResponse::Nothing
            },
            crate::plugin::PluginRequest::RequestPlayerCount => {
                crate::plugin::PluginResponse::PlayerCount(self.clients.len())
            },
            crate::plugin::PluginRequest::RequestPlayers => {
                let mut list: Vec<(u8, String)> = Vec::new();
                let mut i: usize = 0;
                proof {
                    assert(self.clients@.take(0) =~= Seq::<Client>::empty());
                }
                while i < self.clients.len()
                    invariant
                        i <= self.clients@.len(),
                        *self == *old(self),
                        list@.len() == players_listing(self.clients@.take(i as int)).len(),
                        forall|k: int|
                            0 <= k < list@.len() ==> (#[trigger] list@[k]).0 == players_listing(
                                self.clients@.take(i as int),
                            )[k].0 && list@[k].1@ == players_listing(
                                self.clients@.take(i as int),
                            )[k].1,
                    decreases self.clients@.len() - i,
                {
                    proof {
                        assert(self.clients@.take(i + 1).drop_last() =~= self.clients@.take(
                            i as int,
                        ));
                        assert(self.clients@.take(i + 1).last() == self.clients@[i as int]);
                    }
                    match &self.clients[i].info {
                        Some(_) => {
                            let id = self.clients[i].get_id();
                            let nm = self.clients[i].get_name().to_owned();
                            list.push((id, nm));
                        },
                        None => {},
                    }
                    i = i + 1;
                }
                proof {
                    assert(self.clients@.take(self.clients@.len() as int) =~= self.clients@);
                }
                crate::plugin::PluginResponse::Players(list)
            },
            crate::plugin::PluginRequest::RequestPlayerIdentifiers(pid) => {
                match self.client_index(pid) {
                    Some(ci) => {
                        proof {
                            lemma_first_with_id_some(old(self).clients@, pid, ci as int);
                        }
                        match &self.clients[ci].info {
                            Some(_) => {
                                let u = self.clients[ci].get_userdata();
                                crate::plugin::PluginResponse::PlayerIdentifiers(
                                    crate::plugin::PlayerIdentifiers {
                                        ip: String::from_str("not yet implemented"),
                                        beammp_id: u.uid,
                                    },
                                )
                            },
                            None => crate::plugin::PluginResponse::Nothing,
                        }
                    },
                    None => {
                        proof {
                            lemma_first_with_id_none(old(self).clients@, pid);
                        }
                        crate::plugin::PluginResponse::Nothing
                    },
                }
            },
            crate::plugin::PluginRequest::RequestPlayerVehicles(pid) => {
                match self.client_index(pid) {
                    Some(ci) => {
                        proof {
                            lemma_first_with_id_some(old(self).clients@, pid, ci as int);
                        }
                        let mut list: Vec<(u8, String)> = Vec::new();
                        let mut k: usize = 0;
                        while k < self.clients[ci].cars.len()
                            invariant
                                ci < self.clients@.len(),
                                k <= self.clients@[ci as int].cars@.len(),
                                *self == *old(self),
                                list@.len() == k,
                                forall|m: int|
                                    0 <= m < k ==> (#[trigger] list@[m]).0
                                        == self.clients@[ci as int].cars@[m].0 && list@[m].1@
                                        == crate::packet::lossy_of(
                                        self.clients@[ci as int].cars@[m].1.car_json@,
                                    ),
                            decreases self.clients@[ci as int].cars@.len() - k,
                        {
                            let vid = self.clients[ci].cars[k].0;
                            let txt = crate::packet::lossy_string(
                                self.clients[ci].cars[k].1.car_json.as_slice(),
                            );
                            list.push((vid, txt));
                            k = k + 1;
                        }
                        crate::plugin::PluginResponse::PlayerVehicles(list)
                    },
                    None => {
                        proof {
                            lemma_first_with_id_none(old(self).clients@, pid);
                        }
                        crate::plugin::PluginResponse::Nothing
                    },
                }
            },
            crate::plugin::PluginRequest::RequestPositionRaw(pid, vid) => {
                match self.client_index(pid) {
                    Some(ci) => {
                        proof {
                            lemma_first_with_id_some(old(self).clients@, pid, ci as int);
                        }
                        match self.clients[ci].car_index(vid) {
                            Some(k) => {
                                proof {
                                    let c = old(self).clients@[ci as int];
                                    assert(c.wf());
                                    if k as int != c.spec_car_index(vid) {
                                        let other = c.spec_car_index(vid);
                                        assert(c.cars@[other].0 == vid);
                                        assert(c.cars@[k as int].0 == vid);
                                    }
                                }
                                let raw: Option<Vec<u8>> = match &self.clients[ci].cars[k].1
                                    .last_transform {
                                    Some(b) => Some(vstd::slice::slice_to_vec(b.as_slice())),
                                    None => None,
                                };
                                crate::plugin::PluginResponse::PositionRaw(raw)
                            },
                            None => crate::plugin::PluginResponse::Nothing,
                        }
                    },
                    None => {
                        proof {
                            lemma_first_with_id_none(old(self).clients@, pid);
                        }
                        crate::plugin::PluginResponse::Nothing
                    },
                }
            },
            crate::plugin::PluginRequest::SendChatMessage(t, msg) => {
                let target: Option<u8> = if t >= 0 && t <= 255 {
                    Some(t as u8)
                } else {
                    None
                };
                self.send_chat_message(msg.as_str(), target);
                crate::plugin::PluginResponse::Nothing
            },
        }
    }

    /// Shut the session layer down: every session is kicked with the
    /// closing notice, and the shutdown event goes to every plugin.
    pub fn close(&mut self)
        requires
            old(self).wf(),
        ensures
            final(self).wf(),
            final(self).config == old(self).config,
            final(self).clients@.len() == old(self).clients@.len(),
            forall|i: int|
                0 <= i < old(self).clients@.len() ==> {
                    let c = old(self).clients@[i];
                    let fc = #[trigger] final(self).clients@[i];
                    &&& fc.state == ClientState::Disconnect
                    &&& fc.outbox_view() == c.outbox_view().push(
                        crate::client::kick_bytes("Server is closing!"@),
                    )
                    &&& fc.id == c.id
                    &&& fc.cars == c.cars
                    &&& fc.info == c.info
                },
            final(self).plugin_out@.len() == old(self).plugin_out@.len() + 1,
            forall|j: int|
                0 <= j < old(self).plugin_out@.len() ==> #[trigger] final(self).plugin_out@[j]
                    == old(self).plugin_out@[j],
            final(self).plugin_out@.last().event is OnShutdown,
    {
        let mut i: usize = 0;
        while i < self.clients.len()
            invariant
                i <= self.clients@.len(),
                self.wf(),
                self.clients@.len() == old(self).clients@.len(),
                self.config == old(self).config,
                self.plugin_out == old(self).plugin_out,
                forall|j: int|
                    i <= j < old(self).clients@.len() ==> #[trigger] self.clients@[j] == old(self).clients@[j],
                forall|j: int|
                    0 <= j < i ==> {
                        let c = old(self).clients@[j];
                        let fc = #[trigger] self.clients@[j];
                        &&& fc.state == ClientState::Disconnect
                        &&& fc.outbox_view() == c.outbox_view().push(
                            crate::client::kick_bytes("Server is closing!"@),
                        )
                        &&& fc.id == c.id
                        &&& fc.cars == c.cars
                        &&& fc.info == c.info
                    },
            decreases self.clients@.len() - i,
        {
            self.kick_client(i, "Server is closing!");
            i = i + 1;
        }
        self.plugin_out.push(
            PluginCall {
                event: ScriptEvent::OnShutdown,
                reply_token: None,
                target_plugin: None,
            },
        );
    }
}

/// Everything one UDP payload from the session at `index` does: the
/// address refresh, the exact fan-out (byte-identical to the received
/// payload), the pong answer and the transform write; refused packets
/// change nothing beyond the address.
pub open spec fn udp_step(
    pre: Server,
    post: Server,
    index: int,
    addr: UdpPeer,
    raw: Seq<u8>,
    r: Result<(), ServerError>,
) -> bool {
    &&& post.clients@.len() == pre.clients@.len()
    &&& post.ids == pre.ids
    &&& post.config == pre.config
    &&& post.plugin_count == pre.plugin_count
    &&& post.join_queue == pre.join_queue
    &&& post.chat_queue == pre.chat_queue
    &&& post.veh_spawn_queue == pre.veh_spawn_queue
    &&& post.veh_edit_queue == pre.veh_edit_queue
    &&& post.next_token == pre.next_token
    &&& post.plugin_out == pre.plugin_out
    &&& post.mod_progress == pre.mod_progress
    &&& post.clients@[index].udp_addr == Some(addr)
    &&& ({
    forall|i: int|
        0 <= i < pre.clients@.len() ==> {
            let c = pre.clients@[i];
            let fc = #[trigger] post.clients@[i];
            &&& fc.id == c.id
            &&& fc.state == c.state
            &&& fc.info == c.info
            &&& fc.outbox_view() == c.outbox_view()
            &&& (i != index ==> fc.udp_addr == c.udp_addr)
        }
    })
    &&& ({
    r is Err ==> post.udp_out == pre.udp_out && forall|i: int|
        0 <= i < pre.clients@.len() ==> (#[trigger] post.clients@[i]).cars
            == pre.clients@[i].cars
    })
    &&& ({
    ({
        let refreshed = spec_refresh(pre.clients@, index, addr);
        match crate::codec::spec_decompress(raw, crate::DEFAULT_FRAME_CAP as nat) {
            Err(_) => r is Err,
            Ok(d) => {
                if d.len() == 0 {
                    r is Ok && post.udp_out == pre.udp_out && forall|i: int|
                        0 <= i < pre.clients@.len() ==> (#[trigger] post.clients@[i]).cars == pre.clients@[i].cars
                } else if 86 <= d[0] <= 89 {
                    let sid = pre.clients@[index].id;
                    &&& r is Ok
                    &&& post.udp_out_view() == pre.udp_out_view()
                        + udp_targets(refreshed, raw, Some(sid))
                    &&& forall|i: int|
                        0 <= i < pre.clients@.len() ==> (#[trigger] post.clients@[i]).cars == pre.clients@[i].cars
                } else if d[0] == 112 {
                    &&& r is Ok
                    &&& post.udp_out_view() == pre.udp_out_view().push(
                        (addr, seq![112u8]),
                    )
                    &&& forall|i: int|
                        0 <= i < pre.clients@.len() ==> (#[trigger] post.clients@[i]).cars == pre.clients@[i].cars
                } else if d[0] == 90 {
                    if d.len() < 7 || !(48 <= d[3] <= 57) || !(48 <= d[5] <= 57)
                        || !crate::transform::spec_transform_valid(d.skip(7)) {
                        r is Err
                    } else {
                        let tpid = (d[3] - 48) as u8;
                        let tvid = (d[5] - 48) as u8;
                        let t = spec_first_with_id(pre.clients@, tpid);
                        if t == pre.clients@.len() {
                            &&& r is Ok
                            &&& post.udp_out_view() == pre.udp_out_view()
                                + udp_targets(refreshed, raw, Some(tpid))
                            &&& forall|i: int|
                                0 <= i < pre.clients@.len() ==> (#[trigger] post.clients@[i]).cars == pre.clients@[i].cars
                        } else {
                            let tc = pre.clients@[t];
                            if !tc.has_car(tvid) {
                                r is Err
                            } else {
                                &&& r is Ok
                                &&& post.udp_out_view() == pre.udp_out_view() + udp_targets(
                                    spec_refresh(pre.clients@, index, addr),
                                    raw,
                                    Some(tpid),
                                )
                                &&& post.clients@[t].cars@ == tc.cars@.update(
                                    tc.spec_car_index(tvid),
                                    (
                                        tc.cars@[tc.spec_car_index(tvid)].0,
                                        Car {
                                            car_json: tc.cars@[tc.spec_car_index(
                                                tvid,
                                            )].1.car_json,
                                            last_transform: Some(
                                                post.clients@[t].cars@[tc.spec_car_index(
                                                    tvid,
                                                )].1.last_transform->0,
                                            ),
                                        },
                                    ),
                                )
                                &&& post.clients@[t].cars@[tc.spec_car_index(
                                    tvid,
                                )].1.last_transform matches Some(b) && b@ == d.skip(7)
                                &&& forall|i: int|
                                    0 <= i < pre.clients@.len() && i != t ==> (
                                    #[trigger] post.clients@[i]).cars == pre.clients@[i].cars
                            }
                        }
                    }
                } else {
                    r is Ok && post.udp_out == pre.udp_out && forall|i: int|
                        0 <= i < pre.clients@.len() ==> (#[trigger] post.clients@[i]).cars == pre.clients@[i].cars
                }
            },
        }
    })
    })
}

/// Everything one chat line does to the server: a slot and an event for
/// a line spoken under the session's own name, nothing otherwise.
pub open spec fn chat_step(pre: Server, post: Server, index: int, d: Seq<u8>) -> bool {
    let c = pre.clients@[index];
    let c1 = crate::vehicle::spec_find(d, 0, 58);
    let c2 = crate::vehicle::spec_find(d, c1 + 1, 58);
    let c3 = crate::vehicle::spec_find(d, c2 + 1, 58);
    let name = d.subrange(c1 + 1, c2);
    let message = d.subrange(c2 + 1, c3);
    &&& post.clients == pre.clients
    &&& post.ids == pre.ids
    &&& post.config == pre.config
    &&& post.plugin_count == pre.plugin_count
    &&& post.join_queue == pre.join_queue
    &&& post.veh_spawn_queue == pre.veh_spawn_queue
    &&& post.veh_edit_queue == pre.veh_edit_queue
    &&& post.udp_out == pre.udp_out
    &&& post.mod_progress == pre.mod_progress
    &&& if c1 < d.len() && c2 < d.len() && name == vstd::utf8::encode_utf8(c.info->0.username@) {
        &&& post.next_token == pre.next_token + 1
        &&& post.chat_queue@.len() == pre.chat_queue@.len() + 1
        &&& (forall|j: int|
            0 <= j < pre.chat_queue@.len() ==> #[trigger] post.chat_queue@[j]
                == pre.chat_queue@[j])
        &&& ({
            let slot = post.chat_queue@.last();
            &&& slot.token == pre.next_token
            &&& slot.pid == c.id
            &&& slot.name@ == name
            &&& slot.message@ == message
            &&& slot.waiting == pre.plugin_count
            &&& slot.replies@.len() == 0
        })
        &&& post.plugin_out@.len() == pre.plugin_out@.len() + 1
        &&& (forall|j: int|
            0 <= j < pre.plugin_out@.len() ==> #[trigger] post.plugin_out@[j]
                == pre.plugin_out@[j])
        &&& ({
            let call = post.plugin_out@.last();
            &&& call.reply_token == Some(pre.next_token)
            &&& call.target_plugin is None
            &&& call.event matches ScriptEvent::OnChatMessage { pid, name: n, message: m } && pid
                == c.id && n@ == crate::packet::lossy_of(name) && m@ == crate::packet::lossy_of(
                message,
            )
        })
    } else {
        &&& post.chat_queue == pre.chat_queue
        &&& post.plugin_out == pre.plugin_out
        &&& post.next_token == pre.next_token
    }
}

/// Everything one full-sync request does: the requester gets its name
/// and every other Active player's cars, the other players get the
/// arrival notice.
pub open spec fn full_sync_step(pre: Server, post: Server, index: int) -> bool {
    let c = pre.clients@[index];
    let name_b = vstd::utf8::encode_utf8(c.info->0.username@);
    &&& Server::same_queues(&pre, &post)
    &&& post.ids == pre.ids
    &&& post.clients@.len() == pre.clients@.len()
    &&& same_but_outbox(
        c,
        post.clients@[index],
        c.outbox_view().push(crate::text::sn_bytes(name_b)) + os_catalog(pre.clients@, c.id),
    )
    &&& forall|j: int|
        0 <= j < pre.clients@.len() && j != index ==> same_but_outbox(
            pre.clients@[j],
            #[trigger] post.clients@[j],
            if recv_bcast(pre.clients@[j], Some(c.id)) {
                pre.clients@[j].outbox_view().push(crate::text::welcome_bytes(name_b))
            } else {
                pre.clients@[j].outbox_view()
            },
        )
}

/// Everything one vehicle frame does to the server: the exact effect per
/// code, and the owed outcome — well-formed frames succeed, malformed
/// ones are refused with nothing changed.
pub open spec fn vehicle_step(
    pre: Server,
    post: Server,
    index: int,
    d: Seq<u8>,
    r: Result<(), ServerError>,
) -> bool {
    let c = pre.clients@[index];
    let roles_b = vstd::utf8::encode_utf8(c.info->0.roles@);
    let name_b = vstd::utf8::encode_utf8(c.info->0.username@);
    &&& (r is Err ==> post == pre)
    &&& post.ids == pre.ids
    &&& post.config == pre.config
    &&& post.plugin_count == pre.plugin_count
    &&& post.join_queue == pre.join_queue
    &&& post.chat_queue == pre.chat_queue
    &&& post.udp_out == pre.udp_out
    &&& post.mod_progress == pre.mod_progress
    &&& (d.len() < 6 ==> r is Ok && post == pre)
    &&& (d.len() >= 6 && d[1] == 115 ==> match crate::vehicle::spec_parse_os(d) {
        None => r is Err,
        Some(f) => if c.cars@.len() >= 256 {
            r is Err
        } else {
            r is Ok
        },
    })
    &&& (d.len() >= 6 && d[1] == 99 ==> if d.len() >= 7 && 48 <= d[3] <= 57 && 48 <= d[5] <= 57 {
        r is Ok
    } else {
        r is Err
    })
    &&& (d.len() >= 6 && d[1] == 100 ==> if crate::vehicle::spec_parse_od(d) is Some {
        r is Ok
    } else {
        r is Err
    })
    &&& (d.len() >= 6 && (d[1] == 114 || d[1] == 116 || d[1] == 109) ==> r is Ok)
    &&& (d.len() >= 6 && !(d[1] == 115 || d[1] == 99 || d[1] == 100 || d[1] == 114 || d[1] == 116
        || d[1] == 109) ==> r is Ok && post == pre)
    &&& (r is Ok && d.len() >= 6 && d[1] == 115 ==> ({
        &&& crate::vehicle::spec_parse_os(d) is Some
        &&& ({
            let f = crate::vehicle::spec_parse_os(d)->0;
            let desc = f.4;
            let allowed = match pre.config.general.max_cars {
                Some(m) => c.cars@.len() < m as int,
                None => true,
            };
            exists|vid: u8|
                {
                    &&& #[trigger] crate::client::seq_has_car(c.cars@, vid) == false
                    &&& (forall|w: u8| w < vid ==> c.has_car(w))
                    &&& (forall|j: int|
                        0 <= j < pre.clients@.len() && j != index ==> post.clients@[j]
                            == pre.clients@[j])
                    &&& ({
                        let fc = post.clients@[index];
                        &&& fc.id == c.id
                        &&& fc.state == c.state
                        &&& fc.info == c.info
                        &&& fc.udp_addr == c.udp_addr
                        &&& if allowed {
                            &&& fc.cars@.len() == c.cars@.len() + 1
                            &&& fc.cars@.take(c.cars@.len() as int) == c.cars@
                            &&& fc.cars@.last().0 == vid
                            &&& fc.cars@.last().1.car_json@ == desc
                            &&& fc.cars@.last().1.last_transform is None
                            &&& fc.outbox_view() == c.outbox_view()
                            &&& post.next_token == pre.next_token + 1
                            &&& post.veh_spawn_queue@.len() == pre.veh_spawn_queue@.len() + 1
                            &&& (forall|j: int|
                                0 <= j < pre.veh_spawn_queue@.len()
                                    ==> #[trigger] post.veh_spawn_queue@[j]
                                    == pre.veh_spawn_queue@[j])
                            &&& ({
                                let slot = post.veh_spawn_queue@.last();
                                &&& slot.token == pre.next_token
                                &&& slot.pid == c.id
                                &&& slot.vid == vid
                                &&& slot.frame@ == crate::vehicle::os_bytes(
                                    roles_b,
                                    name_b,
                                    c.id,
                                    vid,
                                    desc,
                                )
                                &&& slot.car_json@ == desc
                                &&& slot.waiting == pre.plugin_count
                                &&& slot.replies@.len() == 0
                            })
                            &&& post.plugin_out@.len() == pre.plugin_out@.len() + 1
                        } else {
                            &&& fc.cars@ == c.cars@
                            &&& fc.outbox_view() == c.outbox_view().push(
                                crate::vehicle::os_bytes(roles_b, name_b, c.id, vid, desc),
                            ).push(crate::vehicle::od_bytes(c.id, vid))
                            &&& post.veh_spawn_queue == pre.veh_spawn_queue
                            &&& post.plugin_out == pre.plugin_out
                            &&& post.next_token == pre.next_token
                        }
                    })
                }
        })
    }))
    &&& (r is Ok && d.len() >= 6 && d[1] == 99 ==> ({
        &&& d.len() >= 7
        &&& 48 <= d[3] <= 57
        &&& 48 <= d[5] <= 57
        &&& post.clients == pre.clients
        &&& post.next_token == pre.next_token + 1
        &&& post.veh_edit_queue@.len() == pre.veh_edit_queue@.len() + 1
        &&& (forall|j: int|
            0 <= j < pre.veh_edit_queue@.len() ==> #[trigger] post.veh_edit_queue@[j]
                == pre.veh_edit_queue@[j])
        &&& ({
            let slot = post.veh_edit_queue@.last();
            &&& slot.token == pre.next_token
            &&& slot.pid == (d[3] - 48) as u8
            &&& slot.vid == (d[5] - 48) as u8
            &&& slot.frame@ == d
            &&& slot.car_json@ == d.skip(7)
            &&& slot.waiting == pre.plugin_count
            &&& slot.replies@.len() == 0
        })
    }))
    &&& (r is Ok && d.len() >= 6 && d[1] == 100 ==> ({
        &&& crate::vehicle::spec_parse_od(d) is Some
        &&& ({
            let (pid, vid) = crate::vehicle::spec_parse_od(d)->0;
            &&& post.clients@.len() == pre.clients@.len()
            &&& forall|i: int|
                0 <= i < pre.clients@.len() ==> {
                    let ci = pre.clients@[i];
                    let fc = #[trigger] post.clients@[i];
                    &&& fc.id == ci.id
                    &&& fc.state == ci.state
                    &&& fc.info == ci.info
                    &&& fc.udp_addr == ci.udp_addr
                    &&& fc.outbox_view() == ci.outbox_view().push(d)
                    &&& (ci.id == pid ==> !fc.has_car(vid) && (ci.has_car(vid) ==> fc.cars@
                        == ci.cars@.remove(ci.spec_car_index(vid))) && (!ci.has_car(vid)
                        ==> fc.cars@ == ci.cars@))
                    &&& (ci.id != pid ==> fc.cars@ == ci.cars@)
                }
        })
    }))
    &&& (r is Ok && d.len() >= 6 && (d[1] == 114 || d[1] == 116 || d[1] == 109) ==> ({
        let except = if d[1] == 109 {
            None
        } else {
            Some(c.id)
        };
        &&& post.clients@.len() == pre.clients@.len()
        &&& forall|i: int|
            0 <= i < pre.clients@.len() ==> same_but_outbox(
                pre.clients@[i],
                #[trigger] post.clients@[i],
                if recv_bcast(pre.clients@[i], except) {
                    pre.clients@[i].outbox_view().push(d)
                } else {
                    pre.clients@[i].outbox_view()
                },
            )
    }))
}

/// One slot's reply bookkeeping after a delivery under its token: the
/// waiting count drops (never below zero) and the reply, when one came,
/// is appended.
pub open spec fn stepped(
    pre_waiting: nat,
    pre_replies: Seq<PluginReply>,
    post_waiting: nat,
    post_replies: Seq<PluginReply>,
    reply: Option<PluginReply>,
) -> bool {
    if pre_waiting > 0 {
        post_waiting == pre_waiting - 1 && post_replies == (match reply {
            Some(x) => pre_replies.push(x),
            None => pre_replies,
        })
    } else {
        post_waiting == pre_waiting && post_replies == pre_replies
    }
}

/// The join queue after a delivery under `token`, settled up to `upto`.
pub open spec fn delivered_join_upto(
    pre: Seq<JoinSlot>,
    post: Seq<JoinSlot>,
    token: u64,
    reply: Option<PluginReply>,
    upto: int,
) -> bool {
    &&& post.len() == pre.len()
    &&& forall|j: int| upto <= j < pre.len() ==> #[trigger] post[j] == pre[j]
    &&& forall|j: int|
        0 <= j < upto && j < pre.len() ==> {
            let a = pre[j];
            let b = #[trigger] post[j];
            &&& b.token == a.token
            &&& b.pid == a.pid
            &&& (a.token == token ==> stepped(
                a.waiting as nat,
                a.replies@,
                b.waiting as nat,
                b.replies@,
                reply,
            ))
            &&& (a.token != token ==> b == a)
        }
}

/// The chat queue after a delivery under `token`, settled up to `upto`.
pub open spec fn delivered_chat_upto(
    pre: Seq<ChatSlot>,
    post: Seq<ChatSlot>,
    token: u64,
    reply: Option<PluginReply>,
    upto: int,
) -> bool {
    &&& post.len() == pre.len()
    &&& forall|j: int| upto <= j < pre.len() ==> #[trigger] post[j] == pre[j]
    &&& forall|j: int|
        0 <= j < upto && j < pre.len() ==> {
            let a = pre[j];
            let b = #[trigger] post[j];
            &&& b.token == a.token
            &&& b.pid == a.pid
            &&& b.name == a.name
            &&& b.message == a.message
            &&& (a.token == token ==> stepped(
                a.waiting as nat,
                a.replies@,
                b.waiting as nat,
                b.replies@,
                reply,
            ))
            &&& (a.token != token ==> b == a)
        }
}

/// The spawn queue after a delivery under `token`, settled up to `upto`.
pub open spec fn delivered_spawn_upto(
    pre: Seq<SpawnSlot>,
    post: Seq<SpawnSlot>,
    token: u64,
    reply: Option<PluginReply>,
    upto: int,
) -> bool {
    &&& post.len() == pre.len()
    &&& forall|j: int| upto <= j < pre.len() ==> #[trigger] post[j] == pre[j]
    &&& forall|j: int|
        0 <= j < upto && j < pre.len() ==> {
            let a = pre[j];
            let b = #[trigger] post[j];
            &&& b.token == a.token
            &&& b.pid == a.pid
            &&& b.vid == a.vid
            &&& b.frame == a.frame
            &&& b.car_json == a.car_json
            &&& (a.token == token ==> stepped(
                a.waiting as nat,
                a.replies@,
                b.waiting as nat,
                b.replies@,
                reply,
            ))
            &&& (a.token != token ==> b == a)
        }
}

/// The edit queue after a delivery under `token`, settled up to `upto`.
pub open spec fn delivered_edit_upto(
    pre: Seq<EditSlot>,
    post: Seq<EditSlot>,
    token: u64,
    reply: Option<PluginReply>,
    upto: int,
) -> bool {
    &&& post.len() == pre.len()
    &&& forall|j: int| upto <= j < pre.len() ==> #[trigger] post[j] == pre[j]
    &&& forall|j: int|
        0 <= j < upto && j < pre.len() ==> {
            let a = pre[j];
            let b = #[trigger] post[j];
            &&& b.token == a.token
            &&& b.pid == a.pid
            &&& b.vid == a.vid
            &&& b.frame == a.frame
            &&& b.car_json == a.car_json
            &&& (a.token == token ==> stepped(
                a.waiting as nat,
                a.replies@,
                b.waiting as nat,
                b.replies@,
                reply,
            ))
            &&& (a.token != token ==> b == a)
        }
}

/// Index of the oldest join slot with every reply in, or the length.
pub open spec fn spec_first_ready_join(q: Seq<JoinSlot>) -> int
    decreases q.len(),
{
    if q.len() == 0 {
        0
    } else if q[0].waiting == 0 {
        0
    } else {
        1 + spec_first_ready_join(q.drop_first())
    }
}

proof fn lemma_first_ready_join(q: Seq<JoinSlot>, t: int)
    requires
        0 <= t < q.len(),
        q[t].waiting == 0,
        forall|j: int| 0 <= j < t ==> (#[trigger] q[j]).waiting != 0,
    ensures
        spec_first_ready_join(q) == t,
    decreases q.len(),
{
    if t > 0 {
        lemma_first_ready_join(q.drop_first(), t - 1);
    }
}

proof fn lemma_first_ready_join_none(q: Seq<JoinSlot>)
    requires
        forall|j: int| 0 <= j < q.len() ==> (#[trigger] q[j]).waiting != 0,
    ensures
        spec_first_ready_join(q) == q.len(),
    decreases q.len(),
{
    if q.len() > 0 {
        lemma_first_ready_join_none(q.drop_first());
    }
}

/// Index of the oldest chat slot with every reply in, or the length.
pub open spec fn spec_first_ready_chat(q: Seq<ChatSlot>) -> int
    decreases q.len(),
{
    if q.len() == 0 {
        0
    } else if q[0].waiting == 0 {
        0
    } else {
        1 + spec_first_ready_chat(q.drop_first())
    }
}

proof fn lemma_first_ready_chat(q: Seq<ChatSlot>, t: int)
    requires
        0 <= t < q.len(),
        q[t].waiting == 0,
        forall|j: int| 0 <= j < t ==> (#[trigger] q[j]).waiting != 0,
    ensures
        spec_first_ready_chat(q) == t,
    decreases q.len(),
{
    if t > 0 {
        lemma_first_ready_chat(q.drop_first(), t - 1);
    }
}

proof fn lemma_first_ready_chat_none(q: Seq<ChatSlot>)
    requires
        forall|j: int| 0 <= j < q.len() ==> (#[trigger] q[j]).waiting != 0,
    ensures
        spec_first_ready_chat(q) == q.len(),
    decreases q.len(),
{
    if q.len() > 0 {
        lemma_first_ready_chat_none(q.drop_first());
    }
}

/// Index of the oldest spawn slot with every reply in, or the length.
pub open spec fn spec_first_ready_spawn(q: Seq<SpawnSlot>) -> int
    decreases q.len(),
{
    if q.len() == 0 {
        0
    } else if q[0].waiting == 0 {
        0
    } else {
        1 + spec_first_ready_spawn(q.drop_first())
    }
}

proof fn lemma_first_ready_spawn(q: Seq<SpawnSlot>, t: int)
    requires
        0 <= t < q.len(),
        q[t].waiting == 0,
        forall|j: int| 0 <= j < t ==> (#[trigger] q[j]).waiting != 0,
    ensures
        spec_first_ready_spawn(q) == t,
    decreases q.len(),
{
    if t > 0 {
        lemma_first_ready_spawn(q.drop_first(), t - 1);
    }
}

proof fn lemma_first_ready_spawn_none(q: Seq<SpawnSlot>)
    requires
        forall|j: int| 0 <= j < q.len() ==> (#[trigger] q[j]).waiting != 0,
    ensures
        spec_first_ready_spawn(q) == q.len(),
    decreases q.len(),
{
    if q.len() > 0 {
        lemma_first_ready_spawn_none(q.drop_first());
    }
}

/// Index of the oldest edit slot with every reply in, or the length.
pub open spec fn spec_first_ready_edit(q: Seq<EditSlot>) -> int
    decreases q.len(),
{
    if q.len() == 0 {
        0
    } else if q[0].waiting == 0 {
        0
    } else {
        1 + spec_first_ready_edit(q.drop_first())
    }
}

proof fn lemma_first_ready_edit(q: Seq<EditSlot>, t: int)
    requires
        0 <= t < q.len(),
        q[t].waiting == 0,
        forall|j: int| 0 <= j < t ==> (#[trigger] q[j]).waiting != 0,
    ensures
        spec_first_ready_edit(q) == t,
    decreases q.len(),
{
    if t > 0 {
        lemma_first_ready_edit(q.drop_first(), t - 1);
    }
}

proof fn lemma_first_ready_edit_none(q: Seq<EditSlot>)
    requires
        forall|j: int| 0 <= j < q.len() ==> (#[trigger] q[j]).waiting != 0,
    ensures
        spec_first_ready_edit(q) == q.len(),
    decreases q.len(),
{
    if q.len() > 0 {
        lemma_first_ready_edit_none(q.drop_first());
    }
}

/// Index of the oldest session in `Disconnect`, or the length.
pub open spec fn spec_first_disconnect(cs: Seq<Client>) -> int
    decreases cs.len(),
{
    if cs.len() == 0 {
        0
    } else if cs[0].state == ClientState::Disconnect {
        0
    } else {
        1 + spec_first_disconnect(cs.drop_first())
    }
}

proof fn lemma_first_disconnect(cs: Seq<Client>, t: int)
    requires
        0 <= t < cs.len(),
        cs[t].state == ClientState::Disconnect,
        forall|j: int| 0 <= j < t ==> (#[trigger] cs[j]).state != ClientState::Disconnect,
    ensures
        spec_first_disconnect(cs) == t,
    decreases cs.len(),
{
    if t > 0 {
        lemma_first_disconnect(cs.drop_first(), t - 1);
    }
}

proof fn lemma_first_disconnect_none(cs: Seq<Client>)
    requires
        forall|j: int| 0 <= j < cs.len() ==> (#[trigger] cs[j]).state != ClientState::Disconnect,
    ensures
        spec_first_disconnect(cs) == cs.len(),
    decreases cs.len(),
{
    if cs.len() > 0 {
        lemma_first_disconnect_none(cs.drop_first());
    }
}

/// The `Od` deletion frames of one leaving player's cars, in order.
pub open spec fn od_frames(id: u8, cars: Seq<(u8, Car)>) -> Seq<Seq<u8>> {
    Seq::new(cars.len(), |k: int| crate::vehicle::od_bytes(id, cars[k].0))
}

/// The display names of the Active sessions, in session order.
pub open spec fn active_names(cs: Seq<Client>) -> Seq<Seq<u8>>
    decreases cs.len(),
{
    if cs.len() == 0 {
        Seq::empty()
    } else {
        active_names(cs.drop_last()) + if cs.last().state == ClientState::Active {
            seq![vstd::utf8::encode_utf8(cs.last().info->0.username@)]
        } else {
            Seq::<Seq<u8>>::empty()
        }
    }
}

/// `C:Server: <message>`.
pub open spec fn server_chat_bytes(msg: Seq<u8>) -> Seq<u8> {
    seq![67u8, 58u8, 83u8, 101u8, 114u8, 118u8, 101u8, 114u8, 58u8, 32u8] + msg
}

/// `C:Server @ <id>: <message>`.
pub open spec fn server_chat_to_bytes(id: u8, msg: Seq<u8>) -> Seq<u8> {
    seq![67u8, 58u8, 83u8, 101u8, 114u8, 118u8, 101u8, 114u8, 32u8, 64u8, 32u8] + crate::wire::dec_of(
        id as nat,
    ) + seq![58u8, 32u8] + msg
}

/// Fan-out targets depend only on each session's id and last UDP
/// address.
proof fn lemma_udp_targets_same(
    cs1: Seq<Client>,
    cs2: Seq<Client>,
    data: Seq<u8>,
    except: Option<u8>,
)
    requires
        cs1.len() == cs2.len(),
        forall|i: int|
            0 <= i < cs1.len() ==> (#[trigger] cs1[i]).id == cs2[i].id && cs1[i].udp_addr
                == cs2[i].udp_addr,
    ensures
        udp_targets(cs1, data, except) == udp_targets(cs2, data, except),
    decreases cs1.len(),
{
    if cs1.len() > 0 {
        assert forall|i: int|
            0 <= i < cs1.drop_last().len() implies (#[trigger] cs1.drop_last()[i]).id
            == cs2.drop_last()[i].id && cs1.drop_last()[i].udp_addr
            == cs2.drop_last()[i].udp_addr by {
            assert(cs1.drop_last()[i] == cs1[i]);
            assert(cs2.drop_last()[i] == cs2[i]);
        }
        lemma_udp_targets_same(cs1.drop_last(), cs2.drop_last(), data, except);
        assert(cs1.last().id == cs2[cs1.len() - 1].id);
        assert(udp_target_of(cs1.last(), except) == udp_target_of(cs2.last(), except));
    }
}

/// Index of the first Active session under an id, or the length.
pub open spec fn spec_first_active(cs: Seq<Client>, id: u8) -> int
    decreases cs.len(),
{
    if cs.len() == 0 {
        0
    } else if cs[0].state == ClientState::Active && cs[0].id == id {
        0
    } else {
        1 + spec_first_active(cs.drop_first(), id)
    }
}

proof fn lemma_first_active_none(cs: Seq<Client>, id: u8)
    requires
        forall|j: int|
            0 <= j < cs.len() ==> !((#[trigger] cs[j]).state == ClientState::Active && cs[j].id
                == id),
    ensures
        spec_first_active(cs, id) == cs.len(),
    decreases cs.len(),
{
    if cs.len() > 0 {
        lemma_first_active_none(cs.drop_first(), id);
    }
}

proof fn lemma_first_active_some(cs: Seq<Client>, id: u8, t: int)
    requires
        0 <= t < cs.len(),
        cs[t].state == ClientState::Active,
        cs[t].id == id,
        forall|j: int|
            0 <= j < t ==> !((#[trigger] cs[j]).state == ClientState::Active && cs[j].id == id),
    ensures
        spec_first_active(cs, id) == t,
    decreases cs.len(),
{
    if t > 0 {
        lemma_first_active_some(cs.drop_first(), id, t - 1);
    }
}

/// The first-ready and first-disconnect searches never run past the
/// end of their sequences.
proof fn lemma_first_ready_join_le(q: Seq<JoinSlot>)
    ensures
        0 <= spec_first_ready_join(q) <= q.len(),
    decreases q.len(),
{
    if q.len() > 0 && q[0].waiting != 0 {
        lemma_first_ready_join_le(q.drop_first());
    }
}

proof fn lemma_first_ready_chat_le(q: Seq<ChatSlot>)
    ensures
        0 <= spec_first_ready_chat(q) <= q.len(),
    decreases q.len(),
{
    if q.len() > 0 && q[0].waiting != 0 {
        lemma_first_ready_chat_le(q.drop_first());
    }
}

proof fn lemma_first_ready_spawn_le(q: Seq<SpawnSlot>)
    ensures
        0 <= spec_first_ready_spawn(q) <= q.len(),
    decreases q.len(),
{
    if q.len() > 0 && q[0].waiting != 0 {
        lemma_first_ready_spawn_le(q.drop_first());
    }
}

proof fn lemma_first_ready_edit_le(q: Seq<EditSlot>)
    ensures
        0 <= spec_first_ready_edit(q) <= q.len(),
    decreases q.len(),
{
    if q.len() > 0 && q[0].waiting != 0 {
        lemma_first_ready_edit_le(q.drop_first());
    }
}

proof fn lemma_first_disconnect_le(cs: Seq<Client>)
    ensures
        0 <= spec_first_disconnect(cs) <= cs.len(),
    decreases cs.len(),
{
    if cs.len() > 0 && cs[0].state != ClientState::Disconnect {
        lemma_first_disconnect_le(cs.drop_first());
    }
}

/// Two client lists with pointwise equal states and identities show
/// the same Active display names.
proof fn lemma_active_names_same(cs1: Seq<Client>, cs2: Seq<Client>)
    requires
        cs1.len() == cs2.len(),
        forall|i: int|
            0 <= i < cs1.len() ==> (#[trigger] cs1[i]).state == cs2[i].state && cs1[i].info
                == cs2[i].info,
    ensures
        active_names(cs1) == active_names(cs2),
    decreases cs1.len(),
{
    if cs1.len() > 0 {
        assert forall|i: int|
            0 <= i < cs1.drop_last().len() implies (#[trigger] cs1.drop_last()[i]).state
            == cs2.drop_last()[i].state && cs1.drop_last()[i].info
            == cs2.drop_last()[i].info by {
            assert(cs1.drop_last()[i] == cs1[i]);
            assert(cs2.drop_last()[i] == cs2[i]);
        }
        lemma_active_names_same(cs1.drop_last(), cs2.drop_last());
        assert(cs1.last().state == cs2[cs1.len() - 1].state);
        assert(cs1.last().info == cs2[cs1.len() - 1].info);
    }
}

/// Two client lists with pointwise equal states agree on the first
/// Disconnect position.
proof fn lemma_first_disconnect_same(cs1: Seq<Client>, cs2: Seq<Client>)
    requires
        cs1.len() == cs2.len(),
        forall|i: int| 0 <= i < cs1.len() ==> (#[trigger] cs1[i]).state == cs2[i].state,
    ensures
        spec_first_disconnect(cs1) == spec_first_disconnect(cs2),
    decreases cs1.len(),
{
    if cs1.len() > 0 {
        assert(cs1[0].state == cs2[0].state);
        if cs1[0].state != ClientState::Disconnect {
            assert forall|i: int|
                0 <= i < cs1.drop_first().len() implies (#[trigger] cs1.drop_first()[i]).state
                == cs2.drop_first()[i].state by {
                assert(cs1.drop_first()[i] == cs1[i + 1]);
                assert(cs2.drop_first()[i] == cs2[i + 1]);
            }
            lemma_first_disconnect_same(cs1.drop_first(), cs2.drop_first());
        }
    }
}

/// The identified players in session order: id and display name of
/// every session holding an identity record.
pub open spec fn players_listing(cs: Seq<Client>) -> Seq<(u8, Seq<char>)>
    decreases cs.len(),
{
    if cs.len() == 0 {
        Seq::empty()
    } else {
        players_listing(cs.drop_last()) + if cs.last().info is Some {
            seq![(cs.last().id, cs.last().info->0.username@)]
        } else {
            Seq::<(u8, Seq<char>)>::empty()
        }
    }
}

/// Everything a server chat line does: one line to the named player, or
/// the broadcast form to every Active player.
pub open spec fn chat_send_step(
    pre: Server,
    post: Server,
    msg: Seq<char>,
    target: Option<u8>,
) -> bool {
    let msg_b = vstd::utf8::encode_utf8(msg);
    &&& Server::same_queues(&pre, &post)
    &&& post.ids == pre.ids
    &&& post.clients@.len() == pre.clients@.len()
    &&& match target {
        None => forall|i: int|
            0 <= i < pre.clients@.len() ==> same_but_outbox(
                pre.clients@[i],
                #[trigger] post.clients@[i],
                if recv_bcast(pre.clients@[i], None) {
                    pre.clients@[i].outbox_view().push(server_chat_bytes(msg_b))
                } else {
                    pre.clients@[i].outbox_view()
                },
            ),
        Some(id) => {
            let ci = spec_first_with_id(pre.clients@, id);
            &&& (forall|i: int|
                0 <= i < pre.clients@.len() && i != ci ==> #[trigger] post.clients@[i]
                    == pre.clients@[i])
            &&& (ci < pre.clients@.len() ==> same_but_outbox(
                pre.clients@[ci],
                post.clients@[ci],
                pre.clients@[ci].outbox_view().push(server_chat_to_bytes(id, msg_b)),
            ))
        },
    }
}

/// The client list with one session's UDP address refreshed.
pub open spec fn spec_refresh(cs: Seq<Client>, index: int, addr: UdpPeer) -> Seq<Client> {
    cs.update(
        index,
        Client {
            id: cs[index].id,
            udp_addr: Some(addr),
            state: cs[index].state,
            info: cs[index].info,
            cars: cs[index].cars,
            outbox: cs[index].outbox,
        },
    )
}

/// Index of the first session under an id, or the length when none is.
pub open spec fn spec_first_with_id(cs: Seq<Client>, id: u8) -> int
    decreases cs.len(),
{
    if cs.len() == 0 {
        0
    } else if cs[0].id == id {
        0
    } else {
        1 + spec_first_with_id(cs.drop_first(), id)
    }
}

/// When no session holds the id, the search runs off the end.
proof fn lemma_first_with_id_none(cs: Seq<Client>, id: u8)
    requires
        forall|i: int| 0 <= i < cs.len() ==> (#[trigger] cs[i]).id != id,
    ensures
        spec_first_with_id(cs, id) == cs.len(),
    decreases cs.len(),
{
    if cs.len() > 0 {
        lemma_first_with_id_none(cs.drop_first(), id);
    }
}

/// A first match pins the search result.
proof fn lemma_first_with_id_some(cs: Seq<Client>, id: u8, t: int)
    requires
        0 <= t < cs.len(),
        cs[t].id == id,
        forall|j: int| 0 <= j < t ==> (#[trigger] cs[j]).id != id,
    ensures
        spec_first_with_id(cs, id) == t,
    decreases cs.len(),
{
    if t > 0 {
        lemma_first_with_id_some(cs.drop_first(), id, t - 1);
    }
}

/// What the first byte of a fresh connection selects: a game client,
/// the legacy downloader, a possible HTTP probe, or nothing known.
#[derive(Clone, Copy, Debug, PartialEq, Eq, Structural)]
pub enum AcceptRole {
    GameClient,
    Downloader,
    HttpCandidate,
    Unknown,
}

/// Classify a fresh connection by its first byte.
pub fn classify_connection(first: u8) -> (r: AcceptRole)
    ensures
        r == (if first == 67 {
            AcceptRole::GameClient
        } else if first == 68 {
            AcceptRole::Downloader
        } else if first == 71 {
            AcceptRole::HttpCandidate
        } else {
            AcceptRole::Unknown
        }),
{
    if first == 67 {
        AcceptRole::GameClient
    } else if first == 68 {
        AcceptRole::Downloader
    } else if first == 71 {
        AcceptRole::HttpCandidate
    } else {
        AcceptRole::Unknown
    }
}

/// After a `G`, do the next three bytes spell the rest of an HTTP GET?
pub fn is_http_get(rest: &[u8]) -> (r: bool)
    ensures
        r == (rest@.len() == 3 && rest@[0] == 69 && rest@[1] == 84 && rest@[2] == 32),
{
    rest.len() == 3 && rest[0] == 69 && rest[1] == 84 && rest[2] == 32
}

/// A colon search shared by the text handlers.
fn find_colon(s: &[u8], from: usize) -> (r: usize)
    requires
        from <= s@.len(),
    ensures
        r == crate::vehicle::spec_find(s@, from as int, 58),
        from <= r <= s@.len(),
    decreases s@.len() - from,
{
    if from < s.len() {
        if s[from] == 58 {
            from
        } else {
            find_colon(s, from + 1)
        }
    } else {
        s.len()
    }
}

/// The per-car sync frames one Active peer contributes.
pub open spec fn client_os_frames(c: Client) -> Seq<Seq<u8>> {
    Seq::new(
        c.cars@.len(),
        |k: int|
            crate::vehicle::os_bytes(
                vstd::utf8::encode_utf8(c.info->0.roles@),
                vstd::utf8::encode_utf8(c.info->0.username@),
                c.id,
                c.cars@[k].0,
                c.cars@[k].1.car_json@,
            ),
    )
}

/// Every car of every other Active player, one frame per car, in
/// session order.
pub open spec fn os_catalog(cs: Seq<Client>, req: u8) -> Seq<Seq<u8>>
    decreases cs.len(),
{
    if cs.len() == 0 {
        Seq::empty()
    } else {
        os_catalog(cs.drop_last(), req) + if cs.last().id != req && cs.last().state
            == ClientState::Active && cs.last().info is Some {
            client_os_frames(cs.last())
        } else {
            Seq::<Seq<u8>>::empty()
        }
    }
}

/// What one resource-sync request led to.
pub enum SyncStep {
    /// `Done` or an empty payload: the map announcement was queued and
    /// sync is over.
    Finished,
    /// `SR`: the catalog (or the no-mods marker) was queued.
    SentCatalog,
    /// `f<path>`: a valid request; stream the file and then confirm with
    /// `file_request_ok`.
    SendFile { path: String, mod_id: i64 },
    /// `f<path>` naming a path outside the tree: the session was kicked.
    Rejected,
    /// Anything else: ignored.
    Ignored,
}

/// Does this sync-phase payload end the sync, as `Done` and the empty
/// payload both do?
pub open spec fn is_sync_end(d: Seq<u8>) -> bool {
    d.len() == 0 || d == seq![68u8, 111u8, 110u8, 101u8]
}

/// When two server states have the same id pool and pointwise equally
/// live clients under the same ids, the pool-matching part of
/// well-formedness carries over.
proof fn lemma_same_live_same_pool(pre: &Server, post: &Server)
    requires
        pre.wf(),
        post.ids == pre.ids,
        post.clients@.len() == pre.clients@.len(),
        forall|i: int|
            0 <= i < pre.clients@.len() ==> (#[trigger] post.clients@[i]).live()
                == pre.clients@[i].live() && post.clients@[i].id == pre.clients@[i].id,
    ensures
        forall|id: u8| #[trigger] post.ids.is_taken(id) <==> post.spec_has_live(id),
{
    assert forall|w: u8| #[trigger] post.ids.is_taken(w) implies post.spec_has_live(w) by {
        assert(pre.spec_has_live(w));
        let i = choose|i: int|
            0 <= i < pre.clients@.len() && (#[trigger] pre.clients@[i]).live()
                && pre.clients@[i].id == w;
        assert(post.clients@[i].live() && post.clients@[i].id == w);
    }
    assert forall|w: u8| post.spec_has_live(w) implies #[trigger] post.ids.is_taken(w) by {
        let i = choose|i: int|
            0 <= i < post.clients@.len() && (#[trigger] post.clients@[i]).live()
                && post.clients@[i].id == w;
        assert(pre.clients@[i].live() && pre.clients@[i].id == w);
        assert(pre.spec_has_live(w));
    }
}

/// Updating the first entry of a player rewrites only that player's
/// cursor.
proof fn lemma_mod_progress_update(mp: Seq<(u8, i64)>, k: int, pid: u8, v: i64)
    requires
        0 <= k < mp.len(),
        mp[k].0 == pid,
        forall|j: int| 0 <= j < k ==> (#[trigger] mp[j]).0 != pid,
    ensures
        Server::spec_mod_progress(mp.update(k, (pid, v)), pid) == Some(v),
        forall|q: u8|
            q != pid ==> #[trigger] Server::spec_mod_progress(mp.update(k, (pid, v)), q)
                == Server::spec_mod_progress(mp, q),
    decreases mp.len(),
{
    let mp2 = mp.update(k, (pid, v));
    if k == 0 {
        assert(mp2[0] == (pid, v));
        assert(Server::spec_mod_progress(mp2, pid) == Some(v));
        assert forall|q: u8|
            q != pid implies #[trigger] Server::spec_mod_progress(mp2, q)
            == Server::spec_mod_progress(mp, q) by {
            assert(mp2.drop_first() =~= mp.drop_first());
            assert(Server::spec_mod_progress(mp2, q) == Server::spec_mod_progress(
                mp2.drop_first(),
                q,
            ));
            assert(Server::spec_mod_progress(mp, q) == if mp[0].0 == q {
                Some(mp[0].1)
            } else {
                Server::spec_mod_progress(mp.drop_first(), q)
            });
            assert(mp[0].0 == pid);
        }
    } else {
        lemma_mod_progress_update(mp.drop_first(), k - 1, pid, v);
        assert(mp2.drop_first() =~= mp.drop_first().update(k - 1, (pid, v)));
        assert(mp2[0] == mp[0]);
        assert(mp[0].0 != pid);
        assert(Server::spec_mod_progress(mp2, pid) == Server::spec_mod_progress(
            mp.drop_first().update(k - 1, (pid, v)),
            pid,
        ));
        assert forall|q: u8|
            q != pid implies #[trigger] Server::spec_mod_progress(mp2, q)
            == Server::spec_mod_progress(mp, q) by {
            if mp[0].0 == q {
            } else {
                assert(Server::spec_mod_progress(mp2, q) == Server::spec_mod_progress(
                    mp.drop_first().update(k - 1, (pid, v)),
                    q,
                ));
            }
        }
    }
}

/// Appending a fresh entry sets only that player's cursor.
proof fn lemma_mod_progress_append(mp: Seq<(u8, i64)>, pid: u8, v: i64)
    requires
        forall|j: int| 0 <= j < mp.len() ==> (#[trigger] mp[j]).0 != pid,
    ensures
        Server::spec_mod_progress(mp.push((pid, v)), pid) == Some(v),
        forall|q: u8|
            q != pid ==> #[trigger] Server::spec_mod_progress(mp.push((pid, v)), q)
                == Server::spec_mod_progress(mp, q),
    decreases mp.len(),
{
    let mp2 = mp.push((pid, v));
    if mp.len() == 0 {
        assert(mp2[0] == (pid, v));
        assert(Server::spec_mod_progress(mp2, pid) == Some(v));
        assert forall|q: u8|
            q != pid implies #[trigger] Server::spec_mod_progress(mp2, q)
            == Server::spec_mod_progress(mp, q) by {
            assert(mp2.drop_first() =~= Seq::<(u8, i64)>::empty());
            assert(Server::spec_mod_progress(mp2, q) == Server::spec_mod_progress(
                Seq::<(u8, i64)>::empty(),
                q,
            ));
            assert(Server::spec_mod_progress(Seq::<(u8, i64)>::empty(), q)
                == Option::<i64>::None);
            assert(Server::spec_mod_progress(mp, q) == Option::<i64>::None);
        }
    } else {
        lemma_mod_progress_append(mp.drop_first(), pid, v);
        assert(mp2.drop_first() =~= mp.drop_first().push((pid, v)));
        assert(mp2[0] == mp[0]);
        assert(mp[0].0 != pid);
        assert(Server::spec_mod_progress(mp2, pid) == Server::spec_mod_progress(
            mp.drop_first().push((pid, v)),
            pid,
        ));
        assert forall|q: u8|
            q != pid implies #[trigger] Server::spec_mod_progress(mp2, q)
            == Server::spec_mod_progress(mp, q) by {
            if mp[0].0 == q {
            } else {
                assert(Server::spec_mod_progress(mp2, q) == Server::spec_mod_progress(
                    mp.drop_first().push((pid, v)),
                    q,
                ));
            }
        }
    }
}

/// The live sessions hold pairwise distinct player ids.
pub proof fn lemma_live_ids_distinct(s: &Server, i: int, j: int)
    requires
        s.wf(),
        0 <= i < s.clients@.len(),
        0 <= j < s.clients@.len(),
        i != j,
        s.clients@[i].live(),
        s.clients@[j].live(),
    ensures
        s.clients@[i].id != s.clients@[j].id,
{
}

/// The claimed-id set is exactly the set of live sessions' ids, and —
/// the live ids being pairwise distinct — each id occurs in the live
/// multiset exactly once if claimed and never otherwise.
pub proof fn lemma_taken_ids_match_live(s: &Server)
    requires
        s.wf(),
    ensures
        s.ids.taken_set() =~= s.clients@.filter(|c: Client| c.live()).map_values(
            |c: Client| c.id,
        ).to_set(),
        s.clients@.filter(|c: Client| c.live()).map_values(|c: Client| c.id).no_duplicates(),
        forall|id: u8|
            #![trigger s.ids.is_taken(id)]
            s.clients@.filter(|c: Client| c.live()).map_values(|c: Client| c.id).to_multiset().count(
                id,
            ) == if s.ids.is_taken(id) {
                1nat
            } else {
                0nat
            },
{
    broadcast use vstd::seq_lib::group_seq_properties;

    let live = s.clients@.filter(|c: Client| c.live());
    let ids = live.map_values(|c: Client| c.id);
    assert forall|id: u8| s.ids.taken_set().contains(id) implies ids.to_set().contains(id) by {
        assert(s.spec_has_live(id));
        let i = choose|i: int|
            0 <= i < s.clients@.len() && (#[trigger] s.clients@[i]).live() && s.clients@[i].id
                == id;
        lemma_filter_holds(s.clients@, |c: Client| c.live(), i);
        let k = choose|k: int| 0 <= k < live.len() && live[k] == s.clients@[i];
        assert(ids[k] == id);
        assert(ids.to_set().contains(ids[k]));
    }
    assert forall|id: u8| ids.to_set().contains(id) implies s.ids.taken_set().contains(id) by {
        let k = choose|k: int| 0 <= k < ids.len() && ids[k] == id;
        lemma_filter_from(s.clients@, |c: Client| c.live(), k);
        assert(s.spec_has_live(id));
    }
    assert forall|a: int, b: int| 0 <= a < b < ids.len() implies ids[a] != ids[b] by {
        lemma_filter_pair(s.clients@, |c: Client| c.live(), a, b);
    }
    ids.lemma_multiset_has_no_duplicates();
    assert forall|id: u8|
        ids.to_multiset().count(id) == (if s.ids.is_taken(id) {
            1nat
        } else {
            0nat
        }) by {
        vstd::seq_lib::to_multiset_contains(ids, id);
        if s.ids.is_taken(id) {
            assert(s.ids.taken_set().contains(id));
            assert(ids.to_set().contains(id));
            assert(ids.contains(id));
            assert(ids.to_multiset().count(id) > 0);
            assert(ids.to_multiset().contains(id));
        } else {
            assert(!ids.to_set().contains(id));
            assert(!ids.contains(id));
        }
    }
}

/// A member satisfying the filter is in the filtered sequence.
proof fn lemma_filter_holds(s: Seq<Client>, p: spec_fn(Client) -> bool, i: int)
    requires
        0 <= i < s.len(),
        p(s[i]),
    ensures
        exists|k: int| 0 <= k < s.filter(p).len() && s.filter(p)[k] == s[i],
    decreases s.len(),
{
    reveal(Seq::filter);
    if i == s.len() - 1 {
        assert(s.filter(p).last() == s[i]);
    } else {
        lemma_filter_holds(s.drop_last(), p, i);
        let k = choose|k: int|
            0 <= k < s.drop_last().filter(p).len() && s.drop_last().filter(p)[k] == s.drop_last()[i];
        if p(s.last()) {
            assert(s.filter(p)[k] == s.drop_last().filter(p)[k]);
        } else {
            assert(s.filter(p) == s.drop_last().filter(p));
        }
    }
}

/// Every member of the filtered sequence comes from the base sequence.
proof fn lemma_filter_from(s: Seq<Client>, p: spec_fn(Client) -> bool, k: int)
    requires
        0 <= k < s.filter(p).len(),
    ensures
        exists|i: int| 0 <= i < s.len() && s[i] == s.filter(p)[k] && p(s[i]),
    decreases s.len(),
{
    reveal(Seq::filter);
    if s.len() > 0 {
        if p(s.last()) && k == s.filter(p).len() - 1 {
            assert(s.filter(p)[k] == s.last());
            assert(s[s.len() - 1] == s.last());
        } else {
            lemma_filter_from(s.drop_last(), p, k);
            let i = choose|i: int|
                0 <= i < s.drop_last().len() && s.drop_last()[i] == s.drop_last().filter(p)[k] && p(
                    s.drop_last()[i],
                );
            assert(s[i] == s.drop_last()[i]);
        }
    }
}

/// Two distinct positions of the filtered sequence come from two
/// distinct positions of a well-formed client list, so their ids differ.
proof fn lemma_filter_pair(s: Seq<Client>, p: spec_fn(Client) -> bool, a: int, b: int)
    requires
        0 <= a < b < s.filter(p).len(),
        forall|i: int, j: int|
            0 <= i < j < s.len() && (#[trigger] s[i]).live() && (#[trigger] s[j]).live() ==> s[i].id
                != s[j].id,
        p == (|c: Client| c.live()),
    ensures
        s.filter(p).map_values(|c: Client| c.id)[a] != s.filter(p).map_values(|c: Client| c.id)[b],
    decreases s.len(),
{
    reveal(Seq::filter);
    if s.len() > 0 {
        if p(s.last()) && b == s.filter(p).len() - 1 {
            lemma_filter_from(s.drop_last(), p, a);
            let i = choose|i: int|
                0 <= i < s.drop_last().len() && s.drop_last()[i] == s.drop_last().filter(p)[a] && p(
                    s.drop_last()[i],
                );
            assert(s[i].live() && s.last().live());
            assert(s[i].id != s[s.len() - 1].id);
            assert(s.filter(p)[a] == s.drop_last().filter(p)[a]);
        } else {
            lemma_filter_pair(s.drop_last(), p, a, b);
            assert(s.filter(p)[a] == s.drop_last().filter(p)[a]);
            assert(s.filter(p)[b] == s.drop_last().filter(p)[b]);
        }
    }
}

} // verus!
