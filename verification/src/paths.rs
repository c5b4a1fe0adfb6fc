//! The last component of a path given as the platform's path bytes, as a
//! directory's name is shown: trailing separators and `.` components do not
//! count, a path ending in `..` (or with no component, as the root) has no
//! name and shows as `/`.
use crate::text::chars_of;
use crate::windows::{dot, slash};
use vstd::prelude::*;

verus! {

/// The path without its trailing separators and trailing `.` components.
pub open spec fn trim_tail(p: Seq<u8>) -> Seq<u8>
    decreases p.len(),
{
    if p.len() == 0 {
        p
    } else if p.last() == slash() {
        trim_tail(p.drop_last())
    } else if p.last() == dot() && (p.len() == 1 || p[p.len() - 2] == slash()) {
        trim_tail(p.drop_last())
    } else {
        p
    }
}

/// Where the last component of `t` starts: just after its last separator,
/// or at 0 when it has none.
pub open spec fn component_start(t: Seq<u8>) -> int
    decreases t.len(),
{
    if t.len() == 0 {
        0
    } else if t.last() == slash() {
        t.len() as int
    } else {
        component_start(t.drop_last())
    }
}

/// The last component of path `p`, if it has one that names something:
/// none for a path with no component (the root, an empty path, `.`) or
/// one ending in `..`.
pub open spec fn last_component(p: Seq<u8>) -> Option<Seq<u8>> {
    let t = trim_tail(p);
    let name = t.subrange(component_start(t), t.len() as int);
    if name.len() == 0 || name == seq![dot(), dot()] {
        None
    } else {
        Some(name)
    }
}

/// What `String::from_utf8_lossy` makes of the bytes: their UTF-8 decoding,
/// each invalid sequence replaced by U+FFFD.
pub uninterp spec fn utf8_lossy(b: Seq<u8>) -> Seq<char>;

/// `String::from_utf8_lossy`, as characters. The decoding is named, not
/// stated: the contract claims only that the result depends on the bytes
/// alone.
#[verifier::external_body]
fn decode_lossy(b: &Vec<u8>) -> (r: Vec<char>)
    ensures
        r@ == utf8_lossy(b@),
{
    String::from_utf8_lossy(b).chars().collect()
}

/// The name a path is shown by: its last component decoded, or `/` when it
/// has none.
pub open spec fn path_name(p: Seq<u8>) -> Seq<char> {
    match last_component(p) {
        Some(n) => utf8_lossy(n),
        None => "/"@,
    }
}

/// The last component of `path`, as `Path::file_name` gives it.
pub fn file_name(path: &Vec<u8>) -> (r: Option<Vec<u8>>)
    ensures
        match r {
            Some(v) => last_component(path@) == Some(v@),
            None => last_component(path@) is None,
        },
{
    let ghost p = path@;
    let mut n: usize = path.len();
    proof {
        assert(p.subrange(0, n as int) =~= p);
    }
    while n > 0 && (path[n - 1] == 47u8 || (path[n - 1] == 46u8 && (n == 1 || path[n - 2] == 47u8)))
        invariant
            n <= p.len(),
            p == path@,
            trim_tail(p) == trim_tail(p.subrange(0, n as int)),
        decreases n,
    {
        proof {
            assert(p.subrange(0, n as int).drop_last() =~= p.subrange(0, n - 1));
        }
        n = n - 1;
    }
    let ghost t = p.subrange(0, n as int);
    proof {
        if n > 0 {
            assert(t.last() == p[n - 1]);
            if n > 1 {
                assert(t[t.len() - 2] == p[n - 2]);
            }
        }
        assert(trim_tail(t) == t);
    }
    let mut s: usize = n;
    proof {
        assert(t.subrange(0, s as int) =~= t);
    }
    while s > 0 && path[s - 1] != 47u8
        invariant
            s <= n,
            n <= p.len(),
            p == path@,
            t == p.subrange(0, n as int),
            component_start(t) == component_start(t.subrange(0, s as int)),
        decreases s,
    {
        proof {
            assert(t.subrange(0, s as int).drop_last() =~= t.subrange(0, s - 1));
            assert(t.subrange(0, s as int).last() == p[s - 1]);
        }
        s = s - 1;
    }
    proof {
        if s > 0 {
            assert(t.subrange(0, s as int).last() == p[s - 1]);
        }
        assert(component_start(t) == s);
    }
    let ghost name = t.subrange(s as int, n as int);
    if n - s == 0 || (n - s == 2 && path[s] == 46u8 && path[s + 1] == 46u8) {
        proof {
            if n - s == 2 {
                assert(name =~= seq![dot(), dot()]);
            }
        }
        return None;
    }
    let mut v: Vec<u8> = Vec::new();
    let mut i: usize = s;
    while i < n
        invariant
            s <= i <= n,
            n <= p.len(),
            p == path@,
            v@ == p.subrange(s as int, i as int),
        decreases n - i,
    {
        v.push(path[i]);
        i = i + 1;
        assert(v@ =~= p.subrange(s as int, i as int));
    }
    proof {
        assert(name =~= v@);
        if name.len() == 2 {
            assert(!(name =~= seq![dot(), dot()]));
        }
    }
    Some(v)
}

/// The name `path` is shown by: its last component (decoded as UTF-8, each
/// invalid sequence replaced), or `/` for a path with none, such as the
/// root.
pub fn path_basename(path: &Vec<u8>) -> (r: Vec<char>)
    ensures
        r@ == path_name(path@),
{
    match file_name(path) {
        Some(n) => decode_lossy(&n),
        None => chars_of("/"),
    }
}

} // verus!
