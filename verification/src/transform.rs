//! The position-update body: the JSON object carried after the header of
//! a `Z` packet.
//!
//! The object must hold exactly the six transform fields — `pos`, `vel`,
//! `rvel` (arrays of three numbers), `rot` (array of four), `tim` and
//! `ping` (numbers) — each once, in any order. Unknown and repeated keys
//! are refused on purpose: the wire format names these six fields and
//! nothing else, and silently skipped extras would hide malformed
//! traffic. The server never computes with the numbers; it only checks
//! the shape before storing and rebroadcasting the raw bytes.

use vstd::prelude::*;

use crate::wire::is_digit;

verus! {

/// JSON whitespace.
pub open spec fn is_ws(b: u8) -> bool {
    b == 32 || b == 9 || b == 10 || b == 13
}

/// Index of the first non-whitespace byte at or after `i`.
pub open spec fn spec_skip_ws(s: Seq<u8>, i: int) -> int
    decreases s.len() - i,
{
    if 0 <= i < s.len() && is_ws(s[i]) {
        spec_skip_ws(s, i + 1)
    } else {
        i
    }
}

/// Index just past the run of digits starting at `i`.
pub open spec fn spec_skip_digits(s: Seq<u8>, i: int) -> int
    decreases s.len() - i,
{
    if 0 <= i < s.len() && is_digit(s[i]) {
        spec_skip_digits(s, i + 1)
    } else {
        i
    }
}

/// Index just past one JSON number starting at `i`, or `None`.
pub open spec fn spec_number(s: Seq<u8>, i: int) -> Option<int> {
    let j = if i < s.len() && s[i] == 45 {
        i + 1
    } else {
        i
    };
    if !(0 <= j < s.len() && is_digit(s[j])) {
        None
    } else {
        let j2 = if s[j] == 48 {
            j + 1
        } else {
            spec_skip_digits(s, j)
        };
        let j3 = if j2 < s.len() && s[j2] == 46 {
            if j2 + 1 < s.len() && is_digit(s[j2 + 1]) {
                spec_skip_digits(s, j2 + 1)
            } else {
                -1
            }
        } else {
            j2
        };
        if j3 < 0 {
            None
        } else {
            let j4 = if j3 < s.len() && (s[j3] == 101 || s[j3] == 69) {
                let j5 = if j3 + 1 < s.len() && (s[j3 + 1] == 43 || s[j3 + 1] == 45) {
                    j3 + 2
                } else {
                    j3 + 1
                };
                if j5 < s.len() && is_digit(s[j5]) {
                    spec_skip_digits(s, j5)
                } else {
                    -1
                }
            } else {
                j3
            };
            if j4 < 0 {
                None
            } else {
                Some(j4)
            }
        }
    }
}

/// Index just past a whitespace-padded number starting at `i`.
pub open spec fn spec_padded_number(s: Seq<u8>, i: int) -> Option<int> {
    match spec_number(s, spec_skip_ws(s, i)) {
        Some(j) => Some(spec_skip_ws(s, j)),
        None => None,
    }
}

/// Index just past the remaining `n` comma-separated array elements.
pub open spec fn spec_array_elems(s: Seq<u8>, i: int, n: nat) -> Option<int>
    decreases n,
{
    match spec_padded_number(s, i) {
        None => None,
        Some(j) => if n <= 1 {
            if j < s.len() && s[j] == 93 {
                Some(j + 1)
            } else {
                None
            }
        } else {
            if j < s.len() && s[j] == 44 {
                spec_array_elems(s, j + 1, (n - 1) as nat)
            } else {
                None
            }
        },
    }
}

/// Index just past a JSON array of exactly `n` numbers starting at `i`.
pub open spec fn spec_array(s: Seq<u8>, i: int, n: nat) -> Option<int> {
    let j = spec_skip_ws(s, i);
    if j < s.len() && s[j] == 91 && n >= 1 {
        spec_array_elems(s, j + 1, n)
    } else {
        None
    }
}

/// Does the literal occur in `s` at position `i`?
pub open spec fn lit_at(s: Seq<u8>, i: int, lit: Seq<u8>) -> bool {
    0 <= i && i + lit.len() <= s.len() && s.subrange(i, i + lit.len()) == lit
}

pub open spec fn key_rvel() -> Seq<u8> {
    seq![34u8, 114u8, 118u8, 101u8, 108u8, 34u8]
}

pub open spec fn key_tim() -> Seq<u8> {
    seq![34u8, 116u8, 105u8, 109u8, 34u8]
}

pub open spec fn key_pos() -> Seq<u8> {
    seq![34u8, 112u8, 111u8, 115u8, 34u8]
}

pub open spec fn key_ping() -> Seq<u8> {
    seq![34u8, 112u8, 105u8, 110u8, 103u8, 34u8]
}

pub open spec fn key_rot() -> Seq<u8> {
    seq![34u8, 114u8, 111u8, 116u8, 34u8]
}

pub open spec fn key_vel() -> Seq<u8> {
    seq![34u8, 118u8, 101u8, 108u8, 34u8]
}

/// The quoted key starting at `i`, as a field bit, with the index just
/// past its closing quote.
pub open spec fn spec_key(s: Seq<u8>, i: int) -> Option<(u8, int)> {
    if lit_at(s, i, key_rvel()) {
        Some((1u8, i + 6))
    } else if lit_at(s, i, key_tim()) {
        Some((2u8, i + 5))
    } else if lit_at(s, i, key_pos()) {
        Some((4u8, i + 5))
    } else if lit_at(s, i, key_ping()) {
        Some((8u8, i + 6))
    } else if lit_at(s, i, key_rot()) {
        Some((16u8, i + 5))
    } else if lit_at(s, i, key_vel()) {
        Some((32u8, i + 5))
    } else {
        None
    }
}

/// The value grammar a field uses: three-element arrays for `pos`, `vel`
/// and `rvel`, a four-element array for `rot`, bare numbers for `tim`
/// and `ping`.
pub open spec fn spec_value_for(s: Seq<u8>, i: int, field: u8) -> Option<int> {
    if field == 1 || field == 4 || field == 32 {
        match spec_array(s, i, 3) {
            Some(j) => Some(spec_skip_ws(s, j)),
            None => None,
        }
    } else if field == 16 {
        match spec_array(s, i, 4) {
            Some(j) => Some(spec_skip_ws(s, j)),
            None => None,
        }
    } else {
        spec_padded_number(s, i)
    }
}

/// One `"key": value` pair starting at `i`: the field bit and the index
/// just past the value and its trailing whitespace.
pub open spec fn spec_pair(s: Seq<u8>, i: int) -> Option<(u8, int)> {
    let j = spec_skip_ws(s, i);
    match spec_key(s, j) {
        None => None,
        Some((field, k)) => {
            let k2 = spec_skip_ws(s, k);
            if k2 < s.len() && s[k2] == 58 {
                match spec_value_for(s, k2 + 1, field) {
                    Some(e) => Some((field, e)),
                    None => None,
                }
            } else {
                None
            }
        },
    }
}

/// The member list from `i` on: each pair adds a fresh field bit; after
/// the last pair all six bits must be set. `remaining` bounds how many
/// more pairs may follow the current one.
pub open spec fn spec_members(s: Seq<u8>, i: int, mask: u8, remaining: nat) -> Option<int>
    decreases remaining,
{
    match spec_pair(s, i) {
        None => None,
        Some((field, j)) => if mask & field != 0 {
            None
        } else {
            let m2 = mask | field;
            if j < s.len() && s[j] == 44 {
                if remaining == 0 {
                    None
                } else {
                    spec_members(s, j + 1, m2, (remaining - 1) as nat)
                }
            } else if m2 == 63 {
                Some(j)
            } else {
                None
            }
        },
    }
}

/// Is `s` one whole transform object: the six fields, each once, and
/// nothing but whitespace around them?
pub open spec fn spec_transform_valid(s: Seq<u8>) -> bool {
    let i = spec_skip_ws(s, 0);
    if i < s.len() && s[i] == 123 {
        match spec_members(s, i + 1, 0, 5) {
            None => false,
            Some(j) => if j < s.len() && s[j] == 125 {
                spec_skip_ws(s, j + 1) == s.len()
            } else {
                false
            },
        }
    } else {
        false
    }
}

fn skip_ws(s: &[u8], i: usize) -> (r: usize)
    requires
        i <= s@.len(),
    ensures
        r == spec_skip_ws(s@, i as int),
        i <= r <= s@.len(),
    decreases s@.len() - i,
{
    if i < s.len() && (s[i] == 32 || s[i] == 9 || s[i] == 10 || s[i] == 13) {
        skip_ws(s, i + 1)
    } else {
        i
    }
}

fn skip_digits(s: &[u8], i: usize) -> (r: usize)
    requires
        i <= s@.len(),
    ensures
        r == spec_skip_digits(s@, i as int),
        i <= r <= s@.len(),
    decreases s@.len() - i,
{
    if i < s.len() && s[i] >= 48 && s[i] <= 57 {
        skip_digits(s, i + 1)
    } else {
        i
    }
}

fn parse_number(s: &[u8], i: usize) -> (r: Option<usize>)
    requires
        i <= s@.len(),
    ensures
        match r {
            Some(j) => spec_number(s@, i as int) == Some(j as int) && j <= s@.len(),
            None => spec_number(s@, i as int) is None,
        },
{
    let j = if i < s.len() && s[i] == 45 {
        i + 1
    } else {
        i
    };
    if !(j < s.len() && s[j] >= 48 && s[j] <= 57) {
        return None;
    }
    let j2 = if s[j] == 48 {
        j + 1
    } else {
        skip_digits(s, j)
    };
    let j3 = if j2 < s.len() && s[j2] == 46 {
        if j2 + 1 < s.len() && s[j2 + 1] >= 48 && s[j2 + 1] <= 57 {
            skip_digits(s, j2 + 1)
        } else {
            return None;
        }
    } else {
        j2
    };
    let j4 = if j3 < s.len() && (s[j3] == 101 || s[j3] == 69) {
        let j5 = if j3 + 1 < s.len() && (s[j3 + 1] == 43 || s[j3 + 1] == 45) {
            j3 + 2
        } else {
            j3 + 1
        };
        if j5 < s.len() && s[j5] >= 48 && s[j5] <= 57 {
            skip_digits(s, j5)
        } else {
            return None;
        }
    } else {
        j3
    };
    Some(j4)
}

fn parse_padded_number(s: &[u8], i: usize) -> (r: Option<usize>)
    requires
        i <= s@.len(),
    ensures
        match r {
            Some(j) => spec_padded_number(s@, i as int) == Some(j as int) && j <= s@.len(),
            None => spec_padded_number(s@, i as int) is None,
        },
{
    let j = skip_ws(s, i);
    match parse_number(s, j) {
        Some(k) => Some(skip_ws(s, k)),
        None => None,
    }
}

fn parse_array_elems(s: &[u8], i: usize, n: u8) -> (r: Option<usize>)
    requires
        i <= s@.len(),
        n >= 1,
    ensures
        match r {
            Some(j) => spec_array_elems(s@, i as int, n as nat) == Some(j as int) && j <= s@.len(),
            None => spec_array_elems(s@, i as int, n as nat) is None,
        },
    decreases n,
{
    match parse_padded_number(s, i) {
        None => None,
        Some(j) => if n <= 1 {
            if j < s.len() && s[j] == 93 {
                Some(j + 1)
            } else {
                None
            }
        } else {
            if j < s.len() && s[j] == 44 {
                parse_array_elems(s, j + 1, n - 1)
            } else {
                None
            }
        },
    }
}

fn parse_array(s: &[u8], i: usize, n: u8) -> (r: Option<usize>)
    requires
        i <= s@.len(),
        n >= 1,
    ensures
        match r {
            Some(j) => spec_array(s@, i as int, n as nat) == Some(j as int) && j <= s@.len(),
            None => spec_array(s@, i as int, n as nat) is None,
        },
{
    let j = skip_ws(s, i);
    if j < s.len() && s[j] == 91 {
        parse_array_elems(s, j + 1, n)
    } else {
        None
    }
}

/// Compare a literal at an offset.
fn match_at(s: &[u8], i: usize, lit: &[u8]) -> (r: bool)
    requires
        i <= s@.len(),
    ensures
        r == lit_at(s@, i as int, lit@),
{
    if s.len() - i < lit.len() {
        return false;
    }
    let mut k: usize = 0;
    while k < lit.len()
        invariant
            s@.len() <= usize::MAX,
            i + lit@.len() <= s@.len(),
            k <= lit@.len(),
            forall|m: int| 0 <= m < k ==> s@[i + m] == lit@[m],
        decreases lit@.len() - k,
    {
        if s[i + k] != lit[k] {
            assert(s@.subrange(i as int, i + lit@.len())[k as int] != lit@[k as int]);
            return false;
        }
        k = k + 1;
    }
    assert(s@.subrange(i as int, i + lit@.len()) =~= lit@);
    true
}

fn parse_key(s: &[u8], i: usize) -> (r: Option<(u8, usize)>)
    requires
        i <= s@.len(),
    ensures
        match r {
            Some((field, j)) => spec_key(s@, i as int) == Some((field, j as int)) && j <= s@.len(),
            None => spec_key(s@, i as int) is None,
        },
{
    proof {
        vstd::slice::axiom_spec_len(s);
    }
    let k_rvel: [u8; 6] = [34, 114, 118, 101, 108, 34];
    let k_tim: [u8; 5] = [34, 116, 105, 109, 34];
    let k_pos: [u8; 5] = [34, 112, 111, 115, 34];
    let k_ping: [u8; 6] = [34, 112, 105, 110, 103, 34];
    let k_rot: [u8; 5] = [34, 114, 111, 116, 34];
    let k_vel: [u8; 5] = [34, 118, 101, 108, 34];
    proof {
        assert(k_rvel@ =~= key_rvel());
        assert(k_tim@ =~= key_tim());
        assert(k_pos@ =~= key_pos());
        assert(k_ping@ =~= key_ping());
        assert(k_rot@ =~= key_rot());
        assert(k_vel@ =~= key_vel());
    }
    if match_at(s, i, k_rvel.as_slice()) {
        Some((1, i + 6))
    } else if match_at(s, i, k_tim.as_slice()) {
        Some((2, i + 5))
    } else if match_at(s, i, k_pos.as_slice()) {
        Some((4, i + 5))
    } else if match_at(s, i, k_ping.as_slice()) {
        Some((8, i + 6))
    } else if match_at(s, i, k_rot.as_slice()) {
        Some((16, i + 5))
    } else if match_at(s, i, k_vel.as_slice()) {
        Some((32, i + 5))
    } else {
        None
    }
}

fn parse_value_for(s: &[u8], i: usize, field: u8) -> (r: Option<usize>)
    requires
        i <= s@.len(),
    ensures
        match r {
            Some(j) => spec_value_for(s@, i as int, field) == Some(j as int) && j <= s@.len(),
            None => spec_value_for(s@, i as int, field) is None,
        },
{
    if field == 1 || field == 4 || field == 32 {
        match parse_array(s, i, 3) {
            Some(j) => Some(skip_ws(s, j)),
            None => None,
        }
    } else if field == 16 {
        match parse_array(s, i, 4) {
            Some(j) => Some(skip_ws(s, j)),
            None => None,
        }
    } else {
        parse_padded_number(s, i)
    }
}

fn parse_pair(s: &[u8], i: usize) -> (r: Option<(u8, usize)>)
    requires
        i <= s@.len(),
    ensures
        match r {
            Some((field, j)) => spec_pair(s@, i as int) == Some((field, j as int)) && j <= s@.len(),
            None => spec_pair(s@, i as int) is None,
        },
{
    let j = skip_ws(s, i);
    match parse_key(s, j) {
        None => None,
        Some((field, k)) => {
            let k2 = skip_ws(s, k);
            if k2 < s.len() && s[k2] == 58 {
                match parse_value_for(s, k2 + 1, field) {
                    Some(e) => Some((field, e)),
                    None => None,
                }
            } else {
                None
            }
        },
    }
}

fn parse_members(s: &[u8], i: usize, mask: u8, remaining: u8) -> (r: Option<usize>)
    requires
        i <= s@.len(),
    ensures
        match r {
            Some(j) => spec_members(s@, i as int, mask, remaining as nat) == Some(j as int) && j
                <= s@.len(),
            None => spec_members(s@, i as int, mask, remaining as nat) is None,
        },
    decreases remaining,
{
    match parse_pair(s, i) {
        None => None,
        Some((field, j)) => if mask & field != 0 {
            None
        } else {
            let m2 = mask | field;
            if j < s.len() && s[j] == 44 {
                if remaining == 0 {
                    None
                } else {
                    parse_members(s, j + 1, m2, remaining - 1)
                }
            } else if m2 == 63 {
                Some(j)
            } else {
                None
            }
        },
    }
}

/// Validate one transform object, whole.
pub fn transform_valid(s: &[u8]) -> (r: bool)
    ensures
        r == spec_transform_valid(s@),
{
    let i = skip_ws(s, 0);
    if i < s.len() && s[i] == 123 {
        match parse_members(s, i + 1, 0, 5) {
            None => false,
            Some(j) => if j < s.len() && s[j] == 125 {
                skip_ws(s, j + 1) == s.len()
            } else {
                false
            },
        }
    } else {
        false
    }
}

} // verus!
