//! Server-side state for one game client: identity, session state, the
//! car list with unique vehicle ids, the last-seen UDP peer address, and
//! the queue of outbound payloads that a single writer drains in order.
//!
//! Sockets never appear here: reads and writes happen outside the
//! library, which only decides what bytes to queue and how state moves.

use vstd::prelude::*;
use vstd::set_lib::{lemma_int_range, lemma_len_subset};
use vstd::string::StringExecFns;
use vstd::string::StringSliceAdditionalSpecFns;
use vstd::utf8::encode_utf8;

use crate::car::Car;
use crate::packet::Packet;

verus! {

/// Where a session stands, from accept to teardown.
#[derive(Clone, Copy, Debug, PartialEq, Eq, Structural)]
pub enum ClientState {
    /// Authenticating: nothing replicated yet.
    Connecting,
    /// Downloading the mod catalog and files.
    SyncingResources,
    /// A full participant in session traffic.
    Active,
    /// Terminal; the sweep reclaims the session.
    Disconnect,
}

/// The identity record the authentication service returns for a key.
#[derive(Debug)]
#[allow(non_snake_case)]
pub struct UserData {
    pub uid: String,
    pub createdAt: String,
    pub guest: bool,
    pub roles: String,
    pub username: String,
}

impl Clone for UserData {
    fn clone(&self) -> (r: Self)
        ensures
            r == *self,
    {
        UserData {
            uid: self.uid.clone(),
            createdAt: self.createdAt.clone(),
            guest: self.guest,
            roles: self.roles.clone(),
            username: self.username.clone(),
        }
    }
}

/// A UDP peer: one IPv4 address and port.
#[derive(Clone, Copy, Debug, PartialEq, Eq, Structural)]
pub struct UdpPeer {
    pub ip: u32,
    pub port: u16,
}

/// Errors of the per-client connection machinery.
#[derive(Clone, Copy, Debug, PartialEq, Eq, Structural)]
pub enum ClientError {
    AuthenticateError,
    ConnectionTimeout,
    IsDownloader,
}

/// The payload bytes of a kick packet: the `K` code and the reason.
pub open spec fn kick_bytes(msg: Seq<char>) -> Seq<u8> {
    encode_utf8(seq!['K'] + msg)
}

/// The payload bytes of a client event call: `E:<event>:<data>`.
pub open spec fn client_event_bytes(event: Seq<char>, data: Seq<char>) -> Seq<u8> {
    encode_utf8(seq!['E', ':'] + event + seq![':'] + data)
}

/// Does a car list hold the given vehicle id?
pub open spec fn seq_has_car(cars: Seq<(u8, Car)>, vid: u8) -> bool {
    exists|i: int| 0 <= i < cars.len() && (#[trigger] cars[i]).0 == vid
}

/// One connected client.
pub struct Client {
    /// The claimed player id, unique among live sessions.
    pub id: u8,
    /// The most recent source address seen from this player over UDP.
    pub udp_addr: Option<UdpPeer>,
    /// Session state; `Disconnect` is terminal.
    pub state: ClientState,
    /// The identity record, once authentication succeeded.
    pub info: Option<UserData>,
    /// The owned cars, each under a vehicle id unique within this list.
    pub cars: Vec<(u8, Car)>,
    /// Outbound payloads, drained in order by this client's one writer.
    pub outbox: Vec<Vec<u8>>,
}

impl Client {
    /// Well-formed: no two cars share a vehicle id.
    pub open spec fn wf(&self) -> bool {
        forall|i: int, j: int|
            0 <= i < j < self.cars@.len() ==> (#[trigger] self.cars@[i]).0 != (
            #[trigger] self.cars@[j]).0
    }

    /// Live sessions are those not yet in `Disconnect`.
    pub open spec fn live(&self) -> bool {
        self.state != ClientState::Disconnect
    }

    /// Does this client own a car under the given vehicle id?
    pub open spec fn has_car(&self, vid: u8) -> bool {
        seq_has_car(self.cars@, vid)
    }

    /// The index of the car with the given vehicle id.
    pub open spec fn spec_car_index(&self, vid: u8) -> int {
        choose|i: int| 0 <= i < self.cars@.len() && (#[trigger] self.cars@[i]).0 == vid
    }

    /// The queued payloads, as byte strings.
    pub open spec fn outbox_view(&self) -> Seq<Seq<u8>> {
        self.outbox.deep_view()
    }

    /// A fresh session under the given id, about to authenticate.
    pub fn new(id: u8) -> (r: Self)
        ensures
            r.id == id,
            r.state == ClientState::Connecting,
            r.info is None,
            r.udp_addr is None,
            r.cars@.len() == 0,
            r.outbox_view() =~= Seq::<Seq<u8>>::empty(),
            r.wf(),
    {
        Client {
            id,
            udp_addr: None,
            state: ClientState::Connecting,
            info: None,
            cars: Vec::new(),
            outbox: Vec::new(),
        }
    }

    /// Queue raw payload bytes for the writer.
    pub fn queue_bytes(&mut self, data: Vec<u8>)
        ensures
            final(self).outbox_view() == old(self).outbox_view().push(data@),
            final(self).id == old(self).id,
            final(self).state == old(self).state,
            final(self).info == old(self).info,
            final(self).udp_addr == old(self).udp_addr,
            final(self).cars == old(self).cars,
    {
        self.outbox.push(data);
        proof {
            let o = old(self).outbox@;
            let f = final(self).outbox@;
            assert(f == o.push(data));
            assert forall|i: int|
                0 <= i < f.len() implies #[trigger] final(self).outbox_view()[i] == o.push(
                data,
            ).map_values(|v: Vec<u8>| v@)[i] by {
                assert(f[i] == o.push(data)[i]);
            }
            assert(final(self).outbox_view() =~= old(self).outbox_view().push(data@));
        }
    }

    /// Queue a packet for the writer.
    pub fn queue_packet(&mut self, packet: Packet)
        ensures
            final(self).outbox_view() == old(self).outbox_view().push(packet.spec_data()),
            final(self).id == old(self).id,
            final(self).state == old(self).state,
            final(self).info == old(self).info,
            final(self).udp_addr == old(self).udp_addr,
            final(self).cars == old(self).cars,
    {
        let data = vstd::slice::slice_to_vec(packet.get_data());
        self.queue_bytes(data);
    }

    /// Mark the session as leaving; the sweep reclaims it.
    pub fn disconnect(&mut self)
        ensures
            final(self).state == ClientState::Disconnect,
            final(self).id == old(self).id,
            final(self).info == old(self).info,
            final(self).udp_addr == old(self).udp_addr,
            final(self).cars == old(self).cars,
            final(self).outbox_view() == old(self).outbox_view(),
    {
        self.state = ClientState::Disconnect;
    }

    /// Queue a `K`-coded reason and mark the session as leaving.
    pub fn kick(&mut self, msg: &str)
        ensures
            final(self).state == ClientState::Disconnect,
            final(self).outbox_view() == old(self).outbox_view().push(kick_bytes(msg@)),
            final(self).id == old(self).id,
            final(self).info == old(self).info,
            final(self).udp_addr == old(self).udp_addr,
            final(self).cars == old(self).cars,
    {
        proof {
            reveal_strlit("K");
        }
        let mut s = String::from_str("K");
        assert(s@ =~= seq!['K']);
        s.append(msg);
        assert(s@ =~= seq!['K'] + msg@);
        let data = s.as_str().as_bytes_vec();
        self.queue_bytes(data);
        self.disconnect();
    }

    /// Queue a client-side event call `E:<event>:<data>`.
    pub fn trigger_client_event(&mut self, event_name: &str, data: &str)
        ensures
            final(self).outbox_view() == old(self).outbox_view().push(
                client_event_bytes(event_name@, data@),
            ),
            final(self).id == old(self).id,
            final(self).state == old(self).state,
            final(self).info == old(self).info,
            final(self).udp_addr == old(self).udp_addr,
            final(self).cars == old(self).cars,
    {
        proof {
            reveal_strlit("E:");
            reveal_strlit(":");
        }
        let mut s = String::from_str("E:");
        s.append(event_name);
        s.append(":");
        s.append(data);
        assert(s@ =~= seq!['E', ':'] + event_name@ + seq![':'] + data@);
        let bytes = s.as_str().as_bytes_vec();
        self.queue_bytes(bytes);
    }

    /// The identity record; authentication must have finished.
    pub fn get_userdata(&self) -> (r: UserData)
        requires
            self.info is Some,
        ensures
            r == self.info->0,
    {
        match &self.info {
            Some(u) => u.clone(),
            None => unreached(),
        }
    }

    /// The display name out of the identity record.
    pub fn get_name(&self) -> (r: &str)
        requires
            self.info is Some,
        ensures
            r@ == self.info->0.username@,
    {
        match &self.info {
            Some(u) => u.username.as_str(),
            None => unreached(),
        }
    }

    pub fn get_id(&self) -> (r: u8)
        ensures
            r == self.id,
    {
        self.id
    }

    /// The role label out of the identity record.
    pub fn get_roles(&self) -> (r: &str)
        requires
            self.info is Some,
        ensures
            r@ == self.info->0.roles@,
    {
        match &self.info {
            Some(u) => u.roles.as_str(),
            None => unreached(),
        }
    }

    /// The index of the car under this vehicle id, if any.
    pub fn car_index(&self, vid: u8) -> (r: Option<usize>)
        ensures
            match r {
                Some(i) => i < self.cars@.len() && self.cars@[i as int].0 == vid,
                None => !self.has_car(vid),
            },
    {
        let mut i: usize = 0;
        while i < self.cars.len()
            invariant
                i <= self.cars@.len(),
                forall|j: int| 0 <= j < i ==> (#[trigger] self.cars@[j]).0 != vid,
            decreases self.cars@.len() - i,
        {
            if self.cars[i].0 == vid {
                return Some(i);
            }
            i = i + 1;
        }
        None
    }

    /// Register a car under the smallest vehicle id this client does not
    /// use yet.
    pub fn register_car(&mut self, car: Car) -> (vid: u8)
        requires
            old(self).wf(),
            old(self).cars@.len() < 256,
        ensures
            final(self).wf(),
            !old(self).has_car(vid),
            forall|w: u8| w < vid ==> old(self).has_car(w),
            final(self).cars@ == old(self).cars@.push((vid, car)),
            final(self).id == old(self).id,
            final(self).state == old(self).state,
            final(self).info == old(self).info,
            final(self).udp_addr == old(self).udp_addr,
            final(self).outbox_view() == old(self).outbox_view(),
    {
        let mut v: usize = 0;
        loop
            invariant
                *self == *old(self),
                old(self).wf(),
                old(self).cars@.len() < 256,
                v <= 256,
                forall|w: u8| w < v ==> seq_has_car(old(self).cars@, w),
            decreases 256 - v,
        {
            proof {
                lemma_free_vid_exists(self.cars@, v as int);
            }
            assert(v < 256);
            match self.car_index(v as u8) {
                None => {
                    let vid = v as u8;
                    self.cars.push((vid, car));
                    proof {
                        assert forall|i: int, j: int|
                            0 <= i < j < final(self).cars@.len() implies (
                        #[trigger] final(self).cars@[i]).0 != (#[trigger] final(self).cars@[j]).0 by {
                            if j == final(self).cars@.len() - 1 {
                                assert(old(self).has_car(final(self).cars@[i].0) || true);
                            }
                        }
                    }
                    return vid;
                },
                Some(_) => {
                    assert(seq_has_car(old(self).cars@, v as u8));
                    v = v + 1;
                },
            }
        }
    }

    /// Remove the car under this vehicle id; a no-op when there is none.
    pub fn unregister_car(&mut self, vid: u8)
        requires
            old(self).wf(),
        ensures
            final(self).wf(),
            !final(self).has_car(vid),
            old(self).has_car(vid) ==> final(self).cars@ == old(self).cars@.remove(
                old(self).spec_car_index(vid),
            ),
            !old(self).has_car(vid) ==> final(self).cars@ == old(self).cars@,
            final(self).id == old(self).id,
            final(self).state == old(self).state,
            final(self).info == old(self).info,
            final(self).udp_addr == old(self).udp_addr,
            final(self).outbox_view() == old(self).outbox_view(),
    {
        match self.car_index(vid) {
            Some(i) => {
                self.cars.remove(i);
                proof {
                    let oc = old(self).cars@;
                    assert(i as int == old(self).spec_car_index(vid));
                    assert forall|k: int|
                        0 <= k < final(self).cars@.len() implies (#[trigger] final(self).cars@[k]).0
                        != vid by {
                        if k < i as int {
                            assert(final(self).cars@[k] == oc[k]);
                        } else {
                            assert(final(self).cars@[k] == oc[k + 1]);
                        }
                    }
                }
            },
            None => {},
        }
    }

    /// Replace the descriptor of the car at a known index.
    pub fn set_car_json(&mut self, ci: usize, json: Vec<u8>)
        requires
            ci < old(self).cars@.len(),
        ensures
            final(self).cars@ == old(self).cars@.update(
                ci as int,
                (
                    old(self).cars@[ci as int].0,
                    Car {
                        car_json: json,
                        last_transform: old(self).cars@[ci as int].1.last_transform,
                    },
                ),
            ),
            final(self).id == old(self).id,
            final(self).state == old(self).state,
            final(self).info == old(self).info,
            final(self).udp_addr == old(self).udp_addr,
            final(self).outbox_view() == old(self).outbox_view(),
            old(self).wf() ==> final(self).wf(),
    {
        let entry = &mut self.cars[ci];
        entry.1.car_json = json;
        proof {
            assert(final(self).cars@ =~= old(self).cars@.update(
                ci as int,
                (
                    old(self).cars@[ci as int].0,
                    Car {
                        car_json: final(self).cars@[ci as int].1.car_json,
                        last_transform: old(self).cars@[ci as int].1.last_transform,
                    },
                ),
            ));
        }
    }

    /// Record the raw transform bytes of the car at a known index.
    pub fn set_car_transform(&mut self, ci: usize, body: Vec<u8>)
        requires
            ci < old(self).cars@.len(),
        ensures
            final(self).cars@ == old(self).cars@.update(
                ci as int,
                (
                    old(self).cars@[ci as int].0,
                    Car {
                        car_json: old(self).cars@[ci as int].1.car_json,
                        last_transform: Some(body),
                    },
                ),
            ),
            final(self).id == old(self).id,
            final(self).state == old(self).state,
            final(self).info == old(self).info,
            final(self).udp_addr == old(self).udp_addr,
            final(self).outbox_view() == old(self).outbox_view(),
            old(self).wf() ==> final(self).wf(),
    {
        let entry = &mut self.cars[ci];
        entry.1.last_transform = Some(body);
        proof {
            assert(final(self).cars@ =~= old(self).cars@.update(
                ci as int,
                (
                    old(self).cars@[ci as int].0,
                    Car {
                        car_json: old(self).cars@[ci as int].1.car_json,
                        last_transform: final(self).cars@[ci as int].1.last_transform,
                    },
                ),
            ));
        }
    }
}

/// No two cars of one well-formed session share a vehicle id.
pub proof fn lemma_car_vids_distinct(c: &Client, i: int, j: int)
    requires
        c.wf(),
        0 <= i < c.cars@.len(),
        0 <= j < c.cars@.len(),
        i != j,
    ensures
        c.cars@[i].0 != c.cars@[j].0,
{
}

/// Pigeonhole step for vehicle-id allocation: when every id below `v` is
/// in use by some car in a duplicate-free list, the list holds at least
/// `v` cars.
proof fn lemma_free_vid_exists(cars: Seq<(u8, Car)>, v: int)
    requires
        0 <= v <= 256,
        cars.len() < 256,
        forall|i: int, j: int|
            0 <= i < j < cars.len() ==> (#[trigger] cars[i]).0 != (#[trigger] cars[j]).0,
        forall|w: u8| w < v ==> seq_has_car(cars, w),
    ensures
        v <= cars.len(),
        v < 256,
{
    broadcast use vstd::seq_lib::group_seq_properties;
    broadcast use vstd::seq_lib::seq_to_set_is_finite;

    let ids = cars.map_values(|c: (u8, Car)| c.0 as int);
    let range = Set::new(|w: int| 0 <= w < v);
    assert forall|w: int| range.contains(w) implies ids.to_set().contains(w) by {
        assert(0 <= w < v);
        let wb = w as u8;
        assert(wb < v);
        assert(seq_has_car(cars, wb));
        let i = choose|i: int| 0 <= i < cars.len() && (#[trigger] cars[i]).0 == wb;
        assert(ids[i] == w);
        assert(ids.to_set().contains(ids[i]));
    }
    lemma_int_range(0, v);
    assert(range =~= vstd::set_lib::set_int_range(0, v));
    ids.lemma_cardinality_of_set();
    assert(range.subset_of(ids.to_set()));
    lemma_len_subset(range, ids.to_set());
    assert(v <= ids.to_set().len());
}

} // verus!
