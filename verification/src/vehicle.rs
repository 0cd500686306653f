//! The vehicle text frames: the full spawn/sync form
//! `Os:<role>:<name>:<pid>-<vid>:<descriptor>` and the delete form
//! `Od:<pid>-<vid>`.
//!
//! The descriptor keeps its internal colons: parsing takes the role and
//! name fields up to their colons, the ids from the dash-joined chunk,
//! and leaves everything after the fourth colon untouched.

use vstd::prelude::*;

use crate::wire::{
    dec_of, dec_val, is_canon_dec, lemma_canon_dec_of_val, lemma_dec_of_canon, parse_u8_dec,
    u8_to_dec,
};

verus! {

/// Index of the first occurrence of `b` at or after `from`, or the
/// length of `s` when there is none.
pub open spec fn spec_find(s: Seq<u8>, from: int, b: u8) -> int
    decreases s.len() - from,
{
    if 0 <= from < s.len() {
        if s[from] == b {
            from
        } else {
            spec_find(s, from + 1, b)
        }
    } else {
        s.len() as int
    }
}

/// What `spec_find` returns: the first hit, or the end.
pub proof fn lemma_spec_find(s: Seq<u8>, from: int, b: u8)
    requires
        0 <= from <= s.len(),
    ensures
        from <= spec_find(s, from, b) <= s.len(),
        spec_find(s, from, b) < s.len() ==> s[spec_find(s, from, b)] == b,
        forall|j: int| from <= j < spec_find(s, from, b) ==> s[j] != b,
    decreases s.len() - from,
{
    if from < s.len() && s[from] != b {
        lemma_spec_find(s, from + 1, b);
    }
}

/// `spec_find` is pinned by any witness of a first occurrence.
pub proof fn lemma_find_unique(s: Seq<u8>, from: int, b: u8, i: int)
    requires
        0 <= from <= i < s.len(),
        s[i] == b,
        forall|j: int| from <= j < i ==> s[j] != b,
    ensures
        spec_find(s, from, b) == i,
{
    lemma_spec_find(s, from, b);
}

/// No colon anywhere in the byte string.
pub open spec fn colon_free(s: Seq<u8>) -> bool {
    forall|i: int| 0 <= i < s.len() ==> s[i] != 58
}

/// The canonical bytes of a full vehicle frame.
pub open spec fn os_bytes(role: Seq<u8>, name: Seq<u8>, pid: u8, vid: u8, desc: Seq<u8>) -> Seq<
    u8,
> {
    seq![79u8, 115u8, 58u8] + role + seq![58u8] + name + seq![58u8] + dec_of(pid as nat)
        + seq![45u8] + dec_of(vid as nat) + seq![58u8] + desc
}

/// The canonical bytes of a vehicle delete frame.
pub open spec fn od_bytes(pid: u8, vid: u8) -> Seq<u8> {
    seq![79u8, 100u8, 58u8] + dec_of(pid as nat) + seq![45u8] + dec_of(vid as nat)
}

/// The fields of a parsed full vehicle frame.
pub struct OsFrame {
    pub role: Vec<u8>,
    pub name: Vec<u8>,
    pub pid: u8,
    pub vid: u8,
    pub descriptor: Vec<u8>,
}

/// What parsing a full vehicle frame yields: role and name up to their
/// colons, canonical one-byte ids around the dash, and the untouched
/// descriptor after the fourth colon.
pub open spec fn spec_parse_os(data: Seq<u8>) -> Option<(Seq<u8>, Seq<u8>, u8, u8, Seq<u8>)> {
    if data.len() < 3 || data[0] != 79 || data[1] != 115 || data[2] != 58 {
        None
    } else {
        let c1 = spec_find(data, 3, 58);
        if c1 >= data.len() {
            None
        } else {
            let c2 = spec_find(data, c1 + 1, 58);
            if c2 >= data.len() {
                None
            } else {
                let c3 = spec_find(data, c2 + 1, 58);
                if c3 >= data.len() {
                    None
                } else {
                    let h = spec_find(data, c2 + 1, 45);
                    if h >= c3 {
                        None
                    } else {
                        let pid_s = data.subrange(c2 + 1, h);
                        let vid_s = data.subrange(h + 1, c3);
                        if is_canon_dec(pid_s) && dec_val(pid_s) <= 255 && is_canon_dec(vid_s)
                            && dec_val(vid_s) <= 255 {
                            Some(
                                (
                                    data.subrange(3, c1),
                                    data.subrange(c1 + 1, c2),
                                    dec_val(pid_s) as u8,
                                    dec_val(vid_s) as u8,
                                    data.subrange(c3 + 1, data.len() as int),
                                ),
                            )
                        } else {
                            None
                        }
                    }
                }
            }
        }
    }
}

/// What parsing a delete frame yields.
pub open spec fn spec_parse_od(data: Seq<u8>) -> Option<(u8, u8)> {
    if data.len() < 3 || data[0] != 79 || data[1] != 100 || data[2] != 58 {
        None
    } else {
        let h = spec_find(data, 3, 45);
        if h >= data.len() {
            None
        } else {
            let pid_s = data.subrange(3, h);
            let vid_s = data.subrange(h + 1, data.len() as int);
            if is_canon_dec(pid_s) && dec_val(pid_s) <= 255 && is_canon_dec(vid_s) && dec_val(
                vid_s,
            ) <= 255 {
                Some((dec_val(pid_s) as u8, dec_val(vid_s) as u8))
            } else {
                None
            }
        }
    }
}

fn find_to(s: &[u8], from: usize, b: u8) -> (r: usize)
    requires
        from <= s@.len(),
    ensures
        r == spec_find(s@, from as int, b),
        from <= r <= s@.len(),
    decreases s@.len() - from,
{
    if from < s.len() {
        if s[from] == b {
            from
        } else {
            find_to(s, from + 1, b)
        }
    } else {
        s.len()
    }
}

/// Parse a full vehicle frame.
pub fn parse_os(data: &[u8]) -> (r: Option<OsFrame>)
    ensures
        match r {
            Some(f) => spec_parse_os(data@) == Some(
                (f.role@, f.name@, f.pid, f.vid, f.descriptor@),
            ),
            None => spec_parse_os(data@) is None,
        },
{
    if data.len() < 3 || data[0] != 79 || data[1] != 115 || data[2] != 58 {
        return None;
    }
    let c1 = find_to(data, 3, 58);
    if c1 >= data.len() {
        return None;
    }
    let c2 = find_to(data, c1 + 1, 58);
    if c2 >= data.len() {
        return None;
    }
    let c3 = find_to(data, c2 + 1, 58);
    if c3 >= data.len() {
        return None;
    }
    let h = find_to(data, c2 + 1, 45);
    if h >= c3 {
        return None;
    }
    let pid_bytes = crate::wire::copy_range(data, c2 + 1, h);
    let vid_bytes = crate::wire::copy_range(data, h + 1, c3);
    let pid = match parse_u8_dec(pid_bytes.as_slice()) {
        Some(p) => p,
        None => {
            return None;
        },
    };
    let vid = match parse_u8_dec(vid_bytes.as_slice()) {
        Some(v) => v,
        None => {
            return None;
        },
    };
    let role = crate::wire::copy_range(data, 3, c1);
    let name = crate::wire::copy_range(data, c1 + 1, c2);
    let descriptor = crate::wire::copy_range(data, c3 + 1, data.len());
    Some(OsFrame { role, name, pid, vid, descriptor })
}

/// Parse a delete frame.
pub fn parse_od(data: &[u8]) -> (r: Option<(u8, u8)>)
    ensures
        r == spec_parse_od(data@),
{
    if data.len() < 3 || data[0] != 79 || data[1] != 100 || data[2] != 58 {
        return None;
    }
    let h = find_to(data, 3, 45);
    if h >= data.len() {
        return None;
    }
    let pid_bytes = crate::wire::copy_range(data, 3, h);
    let vid_bytes = crate::wire::copy_range(data, h + 1, data.len());
    let pid = match parse_u8_dec(pid_bytes.as_slice()) {
        Some(p) => p,
        None => {
            return None;
        },
    };
    let vid = match parse_u8_dec(vid_bytes.as_slice()) {
        Some(v) => v,
        None => {
            return None;
        },
    };
    Some((pid, vid))
}

/// Build a full vehicle frame.
pub fn build_os(role: &[u8], name: &[u8], pid: u8, vid: u8, desc: &[u8]) -> (r: Vec<u8>)
    ensures
        r@ == os_bytes(role@, name@, pid, vid, desc@),
{
    let mut v: Vec<u8> = Vec::new();
    v.push(79);
    v.push(115);
    v.push(58);
    v.extend_from_slice(role);
    v.push(58);
    v.extend_from_slice(name);
    v.push(58);
    let mut p = u8_to_dec(pid);
    v.append(&mut p);
    v.push(45);
    let mut q = u8_to_dec(vid);
    v.append(&mut q);
    v.push(58);
    v.extend_from_slice(desc);
    assert(v@ =~= os_bytes(role@, name@, pid, vid, desc@));
    v
}

/// Build a delete frame.
pub fn build_od(pid: u8, vid: u8) -> (r: Vec<u8>)
    ensures
        r@ == od_bytes(pid, vid),
{
    let mut v: Vec<u8> = Vec::new();
    v.push(79);
    v.push(100);
    v.push(58);
    let mut p = u8_to_dec(pid);
    v.append(&mut p);
    v.push(45);
    let mut q = u8_to_dec(vid);
    v.append(&mut q);
    assert(v@ =~= od_bytes(pid, vid));
    v
}

/// Parsing and then serializing a full vehicle frame reproduces the
/// original bytes, colons in the descriptor and all.
pub proof fn lemma_os_parse_then_build(data: Seq<u8>)
    requires
        spec_parse_os(data) is Some,
    ensures
        ({
            let (role, name, pid, vid, desc) = spec_parse_os(data)->0;
            os_bytes(role, name, pid, vid, desc) == data
        }),
{
    let c1 = spec_find(data, 3, 58);
    let c2 = spec_find(data, c1 + 1, 58);
    let c3 = spec_find(data, c2 + 1, 58);
    let h = spec_find(data, c2 + 1, 45);
    lemma_spec_find(data, 3, 58);
    lemma_spec_find(data, c1 + 1, 58);
    lemma_spec_find(data, c2 + 1, 58);
    lemma_spec_find(data, c2 + 1, 45);
    let pid_s = data.subrange(c2 + 1, h);
    let vid_s = data.subrange(h + 1, c3);
    lemma_canon_dec_of_val(pid_s);
    lemma_canon_dec_of_val(vid_s);
    let (role, name, pid, vid, desc) = spec_parse_os(data)->0;
    assert(dec_of(pid as nat) == pid_s);
    assert(dec_of(vid as nat) == vid_s);
    assert(os_bytes(role, name, pid, vid, desc) =~= data);
}

/// Serializing fields with colon-free role and name and then parsing
/// them gives the fields back.
pub proof fn lemma_os_build_then_parse(
    role: Seq<u8>,
    name: Seq<u8>,
    pid: u8,
    vid: u8,
    desc: Seq<u8>,
)
    requires
        colon_free(role),
        colon_free(name),
    ensures
        spec_parse_os(os_bytes(role, name, pid, vid, desc)) == Some(
            (role, name, pid, vid, desc),
        ),
{
    let s = os_bytes(role, name, pid, vid, desc);
    let pd = dec_of(pid as nat);
    let vd = dec_of(vid as nat);
    lemma_dec_of_canon(pid as nat);
    lemma_dec_of_canon(vid as nat);
    let c1 = 3 + role.len() as int;
    let c2 = c1 + 1 + name.len() as int;
    let c3 = c2 + 1 + pd.len() as int + 1 + vd.len() as int;
    let h = c2 + 1 + pd.len() as int;
    assert(s.len() == c3 + 1 + desc.len());
    assert(s[0] == 79 && s[1] == 115 && s[2] == 58);
    assert(s[c1] == 58);
    assert(s[c2] == 58);
    assert(s[c3] == 58);
    assert(s[h] == 45);
    assert forall|j: int| 3 <= j < c1 implies s[j] != 58 by {
        assert(s[j] == role[j - 3]);
    }
    lemma_find_unique(s, 3, 58, c1);
    assert forall|j: int| c1 + 1 <= j < c2 implies s[j] != 58 by {
        assert(s[j] == name[j - (c1 + 1)]);
    }
    lemma_find_unique(s, c1 + 1, 58, c2);
    assert forall|j: int| c2 + 1 <= j < c3 implies s[j] != 58 by {
        if j < h {
            assert(s[j] == pd[j - (c2 + 1)]);
            assert(crate::wire::is_digit(pd[j - (c2 + 1)]));
        } else if j == h {
        } else {
            assert(s[j] == vd[j - (h + 1)]);
            assert(crate::wire::is_digit(vd[j - (h + 1)]));
        }
    }
    lemma_find_unique(s, c2 + 1, 58, c3);
    assert forall|j: int| c2 + 1 <= j < h implies s[j] != 45 by {
        assert(s[j] == pd[j - (c2 + 1)]);
        assert(crate::wire::is_digit(pd[j - (c2 + 1)]));
    }
    lemma_find_unique(s, c2 + 1, 45, h);
    assert(s.subrange(c2 + 1, h) =~= pd);
    assert(s.subrange(h + 1, c3) =~= vd);
    assert(s.subrange(3, c1) =~= role);
    assert(s.subrange(c1 + 1, c2) =~= name);
    assert(s.subrange(c3 + 1, s.len() as int) =~= desc);
    assert(dec_val(pd) as u8 == pid);
    assert(dec_val(vd) as u8 == vid);
}

/// The delete-frame round trip in both directions.
pub proof fn lemma_od_round_trip(pid: u8, vid: u8)
    ensures
        spec_parse_od(od_bytes(pid, vid)) == Some((pid, vid)),
{
    let s = od_bytes(pid, vid);
    let pd = dec_of(pid as nat);
    let vd = dec_of(vid as nat);
    lemma_dec_of_canon(pid as nat);
    lemma_dec_of_canon(vid as nat);
    let h = 3 + pd.len() as int;
    assert(s[h] == 45);
    assert forall|j: int| 3 <= j < h implies s[j] != 45 by {
        assert(s[j] == pd[j - 3]);
        assert(crate::wire::is_digit(pd[j - 3]));
    }
    lemma_find_unique(s, 3, 45, h);
    assert(s.subrange(3, h) =~= pd);
    assert(s.subrange(h + 1, s.len() as int) =~= vd);
}

/// Parsing and then serializing a delete frame reproduces the bytes.
pub proof fn lemma_od_parse_then_build(data: Seq<u8>)
    requires
        spec_parse_od(data) is Some,
    ensures
        ({
            let (pid, vid) = spec_parse_od(data)->0;
            od_bytes(pid, vid) == data
        }),
{
    let h = spec_find(data, 3, 45);
    lemma_spec_find(data, 3, 45);
    let pid_s = data.subrange(3, h);
    let vid_s = data.subrange(h + 1, data.len() as int);
    lemma_canon_dec_of_val(pid_s);
    lemma_canon_dec_of_val(vid_s);
    let (pid, vid) = spec_parse_od(data)->0;
    assert(dec_of(pid as nat) == pid_s);
    assert(dec_of(vid as nat) == vid_s);
    assert(od_bytes(pid, vid) =~= data);
}

} // verus!
