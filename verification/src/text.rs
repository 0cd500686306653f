//! Builders for the single-code text frames: chat lines, the name reply,
//! the player-id and map announcements, the player-list broadcast, the
//! mod catalog, and the `J` notifications.

use vstd::prelude::*;
use vstd::string::StringSliceAdditionalSpecFns;

use crate::wire::{dec_of, usize_to_dec, u8_to_dec};

verus! {

/// `C:<name>:<message>`.
pub open spec fn chat_bytes(name: Seq<u8>, message: Seq<u8>) -> Seq<u8> {
    seq![67u8, 58u8] + name + seq![58u8] + message
}

pub fn build_chat(name: &[u8], message: &[u8]) -> (r: Vec<u8>)
    ensures
        r@ == chat_bytes(name@, message@),
{
    let mut v: Vec<u8> = Vec::new();
    v.push(67);
    v.push(58);
    v.extend_from_slice(name);
    v.push(58);
    v.extend_from_slice(message);
    assert(v@ =~= chat_bytes(name@, message@));
    v
}

/// `Sn<name>`: tells a syncing player their display name.
pub open spec fn sn_bytes(name: Seq<u8>) -> Seq<u8> {
    seq![83u8, 110u8] + name
}

pub fn build_sn(name: &[u8]) -> (r: Vec<u8>)
    ensures
        r@ == sn_bytes(name@),
{
    let mut v: Vec<u8> = Vec::new();
    v.push(83);
    v.push(110);
    v.extend_from_slice(name);
    assert(v@ =~= sn_bytes(name@));
    v
}

/// `P<id>`: the player id granted after authentication.
pub open spec fn pid_bytes(id: u8) -> Seq<u8> {
    seq![80u8] + dec_of(id as nat)
}

pub fn build_pid(id: u8) -> (r: Vec<u8>)
    ensures
        r@ == pid_bytes(id),
{
    let mut v: Vec<u8> = Vec::new();
    v.push(80);
    let mut d = u8_to_dec(id);
    v.append(&mut d);
    assert(v@ =~= pid_bytes(id));
    v
}

/// `M<map>`: the map announcement that ends resource sync.
pub open spec fn map_bytes(map: Seq<u8>) -> Seq<u8> {
    seq![77u8] + map
}

pub fn build_map(map: &[u8]) -> (r: Vec<u8>)
    ensures
        r@ == map_bytes(map@),
{
    let mut v: Vec<u8> = Vec::new();
    v.push(77);
    v.extend_from_slice(map);
    assert(v@ =~= map_bytes(map@));
    v
}

/// The comma-joined name list of the player-list broadcast.
pub open spec fn names_joined(names: Seq<Seq<u8>>) -> Seq<u8>
    decreases names.len(),
{
    if names.len() == 0 {
        Seq::empty()
    } else if names.len() == 1 {
        names[0]
    } else {
        names_joined(names.drop_last()) + seq![44u8] + names.last()
    }
}

/// `Ss<count>/<max>:<name1>,<name2>,…`.
pub open spec fn player_list_bytes(count: nat, max: nat, names: Seq<Seq<u8>>) -> Seq<u8> {
    seq![83u8, 115u8] + dec_of(count) + seq![47u8] + dec_of(max) + seq![58u8] + names_joined(names)
}

pub fn build_player_list(count: usize, max: usize, names: &Vec<Vec<u8>>) -> (r: Vec<u8>)
    ensures
        r@ == player_list_bytes(count as nat, max as nat, names.deep_view()),
{
    let mut v: Vec<u8> = Vec::new();
    v.push(83);
    v.push(115);
    let mut c = usize_to_dec(count);
    v.append(&mut c);
    v.push(47);
    let mut m = usize_to_dec(max);
    v.append(&mut m);
    v.push(58);
    let ghost prefix = v@;
    let mut k: usize = 0;
    proof {
        assert(names.deep_view().take(0) =~= Seq::<Seq<u8>>::empty());
    }
    while k < names.len()
        invariant
            k <= names@.len(),
            v@ == prefix + names_joined(names.deep_view().take(k as int)),
        decreases names@.len() - k,
    {
        proof {
            assert(names.deep_view().take(k + 1).drop_last() =~= names.deep_view().take(k as int));
            assert(names.deep_view().take(k + 1).last() == names.deep_view()[k as int]);
            assert(names.deep_view()[k as int] == names@[k as int]@);
        }
        if k > 0 {
            v.push(44);
        }
        v.extend_from_slice(names[k].as_slice());
        proof {
            if k == 0 {
                assert(names.deep_view().take(1) =~= seq![names.deep_view()[0]]);
                assert(names_joined(names.deep_view().take(1)) == names.deep_view()[0]);
                assert(v@ =~= prefix + names_joined(names.deep_view().take(1)));
            } else {
                assert(v@ =~= prefix + names_joined(names.deep_view().take(k + 1)));
            }
        }
        k = k + 1;
    }
    proof {
        assert(names.deep_view().take(names@.len() as int) =~= names.deep_view());
        assert(v@ =~= player_list_bytes(count as nat, max as nat, names.deep_view()));
    }
    v
}

/// A path with a leading separator forced on.
pub open spec fn slashified(name: Seq<u8>) -> Seq<u8> {
    if name.len() > 0 && name[0] == 47 {
        name
    } else {
        seq![47u8] + name
    }
}

/// The catalog body: every mod path (normalized to start with `/`) then
/// every size, each entry closed with `;`.
pub open spec fn catalog_paths(mods: Seq<(String, usize)>) -> Seq<u8>
    decreases mods.len(),
{
    if mods.len() == 0 {
        Seq::empty()
    } else {
        catalog_paths(mods.drop_last()) + slashified(vstd::utf8::encode_utf8(mods.last().0@)) + seq![59u8]
    }
}

pub open spec fn catalog_sizes(mods: Seq<(String, usize)>) -> Seq<u8>
    decreases mods.len(),
{
    if mods.len() == 0 {
        Seq::empty()
    } else {
        catalog_sizes(mods.drop_last()) + dec_of(mods.last().1 as nat) + seq![59u8]
    }
}

pub open spec fn catalog_bytes(mods: Seq<(String, usize)>) -> Seq<u8> {
    catalog_paths(mods) + catalog_sizes(mods)
}

pub fn build_catalog(mods: &Vec<(String, usize)>) -> (r: Vec<u8>)
    ensures
        r@ == catalog_bytes(mods@),
{
    let mut v: Vec<u8> = Vec::new();
    let mut k: usize = 0;
    proof {
        assert(mods@.take(0) =~= Seq::<(String, usize)>::empty());
    }
    while k < mods.len()
        invariant
            k <= mods@.len(),
            v@ == catalog_paths(mods@.take(k as int)),
        decreases mods@.len() - k,
    {
        proof {
            assert(mods@.take(k + 1).drop_last() =~= mods@.take(k as int));
            assert(mods@.take(k + 1).last() == mods@[k as int]);
        }
        let name = vstd::string::StrSliceExecFns::as_bytes_vec(mods[k].0.as_str());
        if !(name.len() > 0 && name[0] == 47) {
            v.push(47);
        }
        v.extend_from_slice(name.as_slice());
        v.push(59);
        assert(v@ =~= catalog_paths(mods@.take(k + 1)));
        k = k + 1;
    }
    proof {
        assert(mods@.take(mods@.len() as int) =~= mods@);
    }
    let ghost paths = v@;
    let mut k2: usize = 0;
    proof {
        assert(mods@.take(0) =~= Seq::<(String, usize)>::empty());
    }
    while k2 < mods.len()
        invariant
            k2 <= mods@.len(),
            v@ == paths + catalog_sizes(mods@.take(k2 as int)),
        decreases mods@.len() - k2,
    {
        proof {
            assert(mods@.take(k2 + 1).drop_last() =~= mods@.take(k2 as int));
            assert(mods@.take(k2 + 1).last() == mods@[k2 as int]);
        }
        let mut d = usize_to_dec(mods[k2].1);
        v.append(&mut d);
        v.push(59);
        assert(v@ =~= paths + catalog_sizes(mods@.take(k2 + 1)));
        k2 = k2 + 1;
    }
    proof {
        assert(mods@.take(mods@.len() as int) =~= mods@);
    }
    v
}

/// `J`-coded welcome: `JWelcome <name>!`.
pub open spec fn welcome_bytes(name: Seq<u8>) -> Seq<u8> {
    seq![74u8, 87u8, 101u8, 108u8, 99u8, 111u8, 109u8, 101u8, 32u8] + name + seq![33u8]
}

pub fn build_welcome(name: &[u8]) -> (r: Vec<u8>)
    ensures
        r@ == welcome_bytes(name@),
{
    let mut v: Vec<u8> = Vec::new();
    v.push(74);
    v.push(87);
    v.push(101);
    v.push(108);
    v.push(99);
    v.push(111);
    v.push(109);
    v.push(101);
    v.push(32);
    v.extend_from_slice(name);
    v.push(33);
    assert(v@ =~= welcome_bytes(name@));
    v
}

/// `J`-coded departure notice: `J<name> left!`.
pub open spec fn left_bytes(name: Seq<u8>) -> Seq<u8> {
    seq![74u8] + name + seq![32u8, 108u8, 101u8, 102u8, 116u8, 33u8]
}

pub fn build_left(name: &[u8]) -> (r: Vec<u8>)
    ensures
        r@ == left_bytes(name@),
{
    let mut v: Vec<u8> = Vec::new();
    v.push(74);
    v.extend_from_slice(name);
    v.push(32);
    v.push(108);
    v.push(101);
    v.push(102);
    v.push(116);
    v.push(33);
    assert(v@ =~= left_bytes(name@));
    v
}

} // verus!
