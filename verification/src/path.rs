//! File system locations as text, with `/` between the components.

use vstd::prelude::*;
use vstd::string::*;
use crate::text::{chars_of, replace_all, replaced};

verus! {

/// The path reached from `base` by `name`: `name` itself where it starts at
/// the root or `base` is empty, else `base` and `name` with exactly one `/`
/// put between them unless `base` already ends in one.
pub open spec fn path_joined(base: Seq<char>, name: Seq<char>) -> Seq<char> {
    if name.len() > 0 && name[0] == '/' {
        name
    } else if base.len() == 0 {
        name
    } else if base.last() == '/' {
        base + name
    } else {
        base + seq!['/'] + name
    }
}

/// Appends `name` to the path `base`.
pub fn join_path(base: &str, name: &str) -> (out: String)
    ensures
        out@ == path_joined(base@, name@),
{
    let b = chars_of(base);
    let n = chars_of(name);
    if n.len() > 0 && n[0] == '/' {
        return name.to_owned();
    }
    if b.len() == 0 {
        return name.to_owned();
    }
    let mut out = base.to_owned();
    if b[b.len() - 1] != '/' {
        proof {
            reveal_strlit("/");
            assert("/"@ =~= seq!['/']);
        }
        out.append("/");
    }
    out.append(name);
    out
}

/// The name of the directory that belongs to an exercise id: the id with
/// every `/` turned into `_`.
pub open spec fn dir_name(id: Seq<char>) -> Seq<char> {
    Seq::new(
        id.len(),
        |i: int|
            if id[i] == '/' {
                '_'
            } else {
                id[i]
            },
    )
}

/// Replacing each `/` of an id by `_` gives its directory name.
proof fn lemma_dir_name(id: Seq<char>)
    ensures
        replaced(id, seq!['/'], seq!['_']) == dir_name(id),
    decreases id.len(),
{
    let from = seq!['/'];
    let to = seq!['_'];
    if id.len() >= 1 {
        lemma_dir_name(id.skip(1));
        assert(id.take(1) =~= seq![id[0]]);
        if id.take(1) == from {
            assert(id.take(1)[0] == from[0]);
            assert(to + dir_name(id.skip(1)) =~= dir_name(id));
        } else {
            assert(id[0] != '/') by {
                if id[0] == '/' {
                    assert(id.take(1) =~= from);
                }
            }
            assert(seq![id[0]] + dir_name(id.skip(1)) =~= dir_name(id));
        }
    } else {
        assert(id =~= dir_name(id));
    }
}

/// The directory name for an exercise id.
pub fn dir_name_of(id: &str) -> (out: String)
    ensures
        out@ == dir_name(id@),
{
    proof {
        reveal_strlit("/");
        reveal_strlit("_");
        assert("/"@ =~= seq!['/']);
        assert("_"@ =~= seq!['_']);
        lemma_dir_name(id@);
    }
    replace_all(id, "/", "_")
}

} // verus!
