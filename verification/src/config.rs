//! Server configuration: the general settings block, the mod catalog
//! loaded at boot, and the path rules for the two resource trees.
//!
//! Reading the configuration file happens outside the library; here live
//! the settings values and the decisions made on them: auth-key shape,
//! resource-folder layout, and the traversal-safe join that keeps mod
//! requests inside the client-resource tree.

use vstd::prelude::*;
use vstd::string::StrSliceExecFns;
use vstd::string::StringExecFns;

verus! {

/// Whether uuid parsing accepts a piece of text; the acceptance depends
/// on the text alone.
pub uninterp spec fn uuid_parse_ok(s: Seq<char>) -> bool;

/// Relies on `uuid::Uuid::parse_str`: a pure check of the text.
#[verifier::external_body]
fn uuid_accepts(s: &str) -> (r: bool)
    ensures
        r == uuid_parse_ok(s@),
{
    uuid::Uuid::parse_str(s).is_ok()
}

/// The `General` block of the server configuration.
#[derive(Debug)]
pub struct GeneralSettings {
    pub port: Option<u16>,
    pub name: String,
    pub description: String,
    pub auth_key: Option<String>,
    pub max_cars: Option<u8>,
    pub max_players: usize,
    pub private: bool,
    pub map: String,
    pub log_chat: bool,
    pub debug: bool,
    pub resource_folder: String,
}

/// The whole configuration: settings plus the mod catalog found at boot.
#[derive(Debug)]
pub struct Config {
    /// Ordered (path, size) pairs of the client mods.
    pub mods: Vec<(String, usize)>,
    pub general: GeneralSettings,
}

/// A path joined under a base directory: a separator is added unless the
/// base already ends with one or is empty.
pub open spec fn joined_path(base: Seq<char>, sub: Seq<char>) -> Seq<char> {
    if base.len() == 0 {
        sub
    } else if base.last() == '/' {
        base + sub
    } else {
        base + seq!['/'] + sub
    }
}

impl GeneralSettings {
    /// Does the configured auth key have the uuid shape the master
    /// service expects?
    pub fn is_auth_key_valid(&self) -> (r: bool)
        ensures
            r == match self.auth_key {
                Some(k) => uuid_parse_ok(k@),
                None => false,
            },
    {
        match &self.auth_key {
            Some(k) => uuid_accepts(k.as_str()),
            None => false,
        }
    }

    /// The client resource tree: `Client` under the resource folder.
    pub fn get_client_resource_folder(&self) -> (r: String)
        ensures
            r@ == joined_path(self.resource_folder@, "Client"@),
    {
        join_under(&self.resource_folder, "Client")
    }

    /// The server resource tree: `Server` under the resource folder.
    pub fn get_server_resource_folder(&self) -> (r: String)
        ensures
            r@ == joined_path(self.resource_folder@, "Server"@),
    {
        join_under(&self.resource_folder, "Server")
    }
}

/// Join one relative name under a base directory.
fn join_under(base: &String, sub: &str) -> (r: String)
    ensures
        r@ == joined_path(base@, sub@),
{
    let n = base.as_str().unicode_len();
    if n == 0 {
        let mut s = String::new();
        s.append(sub);
        assert(s@ =~= sub@);
        s
    } else {
        let last = base.as_str().get_char(n - 1);
        let mut s = base.clone();
        if last != '/' {
            proof {
                reveal_strlit("/");
            }
            s.append("/");
            assert(s@ =~= base@ + seq!['/']);
        }
        s.append(sub);
        assert(s@ =~= joined_path(base@, sub@));
        s
    }
}

/// Index of the first occurrence of `c` at or after `from`, or the end.
pub open spec fn spec_find_char(s: Seq<char>, from: int, c: char) -> int
    decreases s.len() - from,
{
    if 0 <= from < s.len() {
        if s[from] == c {
            from
        } else {
            spec_find_char(s, from + 1, c)
        }
    } else {
        s.len() as int
    }
}

pub proof fn lemma_spec_find_char(s: Seq<char>, from: int, c: char)
    requires
        0 <= from <= s.len(),
    ensures
        from <= spec_find_char(s, from, c) <= s.len(),
    decreases s.len() - from,
{
    if from < s.len() && s[from] != c {
        lemma_spec_find_char(s, from + 1, c);
    }
}

/// Textual normalization of a relative path, segment by segment from
/// position `i`: empty segments and `.` vanish, `..` pops the last kept
/// segment and fails when there is none to pop — the path would escape
/// its base.
pub open spec fn spec_norm(s: Seq<char>, i: int, stack: Seq<Seq<char>>) -> Option<Seq<Seq<char>>>
    decreases s.len() - i,
    when 0 <= i <= s.len()
    via spec_norm_dec
{
    let e = spec_find_char(s, i, '/');
    let seg = s.subrange(i, e);
    let next = if seg.len() == 0 || seg == seq!['.'] {
        Some(stack)
    } else if seg == seq!['.', '.'] {
        if stack.len() == 0 {
            None
        } else {
            Some(stack.drop_last())
        }
    } else {
        Some(stack.push(seg))
    };
    match next {
        None => None,
        Some(st) => if e == s.len() {
            Some(st)
        } else {
            spec_norm(s, e + 1, st)
        },
    }
}

#[via_fn]
proof fn spec_norm_dec(s: Seq<char>, i: int, stack: Seq<Seq<char>>) {
    lemma_spec_find_char(s, i, '/');
}

/// The base directory with the kept segments appended, one separator
/// each.
pub open spec fn joined_all(parent: Seq<char>, segs: Seq<Seq<char>>) -> Seq<char>
    decreases segs.len(),
{
    if segs.len() == 0 {
        parent
    } else {
        joined_all(parent, segs.drop_last()) + seq!['/'] + segs.last()
    }
}

fn find_char(s: &str, n: usize, from: usize, c: char) -> (r: usize)
    requires
        n == s@.len(),
        from <= n,
    ensures
        r == spec_find_char(s@, from as int, c),
        from <= r <= n,
    decreases n - from,
{
    if from < n {
        if s.get_char(from) == c {
            from
        } else {
            find_char(s, n, from + 1, c)
        }
    } else {
        n
    }
}

fn norm_rec(s: &str, n: usize, i: usize, stack: Vec<String>) -> (r: Option<Vec<String>>)
    requires
        n == s@.len(),
        i <= n,
    ensures
        match r {
            Some(st) => spec_norm(s@, i as int, stack.deep_view()) == Some(st.deep_view()),
            None => spec_norm(s@, i as int, stack.deep_view()) is None,
        },
    decreases n - i,
{
    let e = find_char(s, n, i, '/');
    let seg = s.substring_char(i, e);
    let ghost seg_view = s@.subrange(i as int, e as int);
    let seg_len = e - i;
    let is_empty = seg_len == 0;
    let is_dot = seg_len == 1 && seg.get_char(0) == '.';
    let is_dotdot = seg_len == 2 && seg.get_char(0) == '.' && seg.get_char(1) == '.';
    proof {
        if is_dot {
            assert(seg_view =~= seq!['.']);
        }
        if is_dotdot {
            assert(seg_view =~= seq!['.', '.']);
        }
        if !is_dot {
            assert(seg_view != seq!['.']) by {
                if seg_view == seq!['.'] {
                    assert(seg_view.len() == 1);
                }
            }
        }
        if !is_dotdot {
            assert(seg_view != seq!['.', '.']) by {
                if seg_view == seq!['.', '.'] {
                    assert(seg_view.len() == 2);
                }
            }
        }
    }
    let ghost stack_view = stack.deep_view();
    let next: Option<Vec<String>> = if is_empty || is_dot {
        Some(stack)
    } else if is_dotdot {
        if stack.len() == 0 {
            proof {
                assert(stack_view.len() == 0);
            }
            return None;
        } else {
            let mut st = stack;
            st.pop();
            proof {
                assert forall|j: int| 0 <= j < st.deep_view().len() implies #[trigger] st.deep_view()[j]
                    == stack_view.drop_last()[j] by {
                    assert(st.deep_view()[j] == st@[j].deep_view());
                }
                assert(st.deep_view() =~= stack_view.drop_last());
            }
            Some(st)
        }
    } else {
        let mut st = stack;
        let owned = seg.to_owned();
        st.push(owned);
        proof {
            assert forall|j: int| 0 <= j < st.deep_view().len() implies #[trigger] st.deep_view()[j]
                == stack_view.push(seg_view)[j] by {
                assert(st.deep_view()[j] == st@[j].deep_view());
            }
            assert(st.deep_view() =~= stack_view.push(seg_view));
        }
        Some(st)
    };
    match next {
        None => None,
        Some(st) => {
            if e == n {
                Some(st)
            } else {
                norm_rec(s, n, e + 1, st)
            }
        },
    }
}

/// Join `sub` under `parent`, refusing any sub-path whose `..` segments
/// would climb out of `parent`.
pub fn join_path_secure(parent: &str, sub: &str) -> (r: Option<String>)
    ensures
        match spec_norm(sub@, 0, Seq::<Seq<char>>::empty()) {
            Some(segs) => r is Some && r->0@ == joined_all(parent@, segs),
            None => r is None,
        },
{
    let n = sub.unicode_len();
    let empty_stack: Vec<String> = Vec::new();
    proof {
        assert(empty_stack.deep_view() =~= Seq::<Seq<char>>::empty());
    }
    let segs = match norm_rec(sub, n, 0, empty_stack) {
        Some(st) => st,
        None => {
            return None;
        },
    };
    let mut out = parent.to_owned();
    let mut k: usize = 0;
    proof {
        reveal_strlit("/");
        assert(segs.deep_view().take(0) =~= Seq::<Seq<char>>::empty());
    }
    while k < segs.len()
        invariant
            k <= segs@.len(),
            out@ == joined_all(parent@, segs.deep_view().take(k as int)),
        decreases segs@.len() - k,
    {
        proof {
            reveal_strlit("/");
            assert(segs.deep_view().take(k + 1).drop_last() =~= segs.deep_view().take(k as int));
            assert(segs.deep_view().take(k + 1).last() == segs.deep_view()[k as int]);
            assert(segs.deep_view()[k as int] == segs@[k as int]@);
        }
        out.append("/");
        out.append(segs[k].as_str());
        k = k + 1;
    }
    proof {
        assert(segs.deep_view().take(segs@.len() as int) =~= segs.deep_view());
    }
    Some(out)
}

} // verus!
