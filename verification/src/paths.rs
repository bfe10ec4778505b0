//! What every platform's `std::path` agrees on. A path with no `\`, no
//! `:` and no leading `//` has no prefix on any platform (Windows reads
//! `//` at the start as the `\\` of a network-share or device prefix, and
//! a drive prefix needs `:`), and `/` is its only separator, so its file name
//! and extension follow from its `/`-separated pieces alone.

use vstd::prelude::*;
use crate::text::{lemma_split_on_nonempty, split_on};

verus! {

/// The last `/`-separated piece of a path.
pub open spec fn final_piece(p: Seq<char>) -> Seq<char> {
    split_on(p, '/').last()
}

/// A path whose file name every platform reads alike: it holds no `\` and
/// no `:`, does not begin with two `/` (a prefix on Windows), and its last
/// `/`-separated piece is a name (not empty, `.` or `..`), which is then its
/// file name (`Path::file_name`).
pub open spec fn plain_path(p: Seq<char>) -> bool {
    &&& !p.contains('\\')
    &&& !p.contains(':')
    &&& !(p.len() >= 2 && p[0] == '/' && p[1] == '/')
    &&& final_piece(p).len() > 0
    &&& final_piece(p) != seq!['.']
    &&& final_piece(p) != seq!['.', '.']
}

/// The position of the last `.` in `s`.
pub open spec fn last_dot(s: Seq<char>) -> Option<int>
    decreases s.len(),
{
    if s.len() == 0 {
        None
    } else if s.last() == '.' {
        Some(s.len() - 1)
    } else {
        last_dot(s.drop_last())
    }
}

/// The extension of a file name (`Path::extension`): what follows its last
/// `.`, unless it has no `.` or its only `.` comes first.
pub open spec fn name_extension(name: Seq<char>) -> Option<Seq<char>> {
    match last_dot(name) {
        Some(i) => if i == 0 {
            None
        } else {
            Some(name.subrange(i + 1, name.len() as int))
        },
        None => None,
    }
}

/// The extension of a plain path's file name, or the empty string when it
/// has none.
pub open spec fn extension_or_empty(p: Seq<char>) -> Seq<char> {
    match name_extension(final_piece(p)) {
        Some(x) => x,
        None => Seq::empty(),
    }
}

/// Whether `c` separates path components on some platform (`/` everywhere,
/// `\` on Windows).
pub open spec fn is_any_separator(c: char) -> bool {
    c == '/' || c == '\\'
}

/// What follows the last `/` or `\` of a path (the whole path when it has
/// neither).
pub open spec fn last_piece_any(p: Seq<char>) -> Seq<char>
    decreases p.len(),
{
    if p.len() == 0 {
        Seq::empty()
    } else if is_any_separator(p.last()) {
        Seq::empty()
    } else {
        last_piece_any(p.drop_last()).push(p.last())
    }
}

/// A path that has a file name on every platform: it does not begin with
/// two separators (a network-share, device or verbatim prefix on Windows),
/// and what follows its last `/` or `\` is a name without `:` (so no drive
/// prefix reaches it), neither `.` nor `..`. On Unix its file name is its
/// last `/`-separated piece, on Windows its last piece after `/` or `\`;
/// either way that name ends the path and ends with `last_piece_any`.
pub open spec fn named_path(p: Seq<char>) -> bool {
    &&& !(p.len() >= 2 && is_any_separator(p[0]) && is_any_separator(p[1]))
    &&& last_piece_any(p).len() > 0
    &&& !last_piece_any(p).contains(':')
    &&& last_piece_any(p) != seq!['.']
    &&& last_piece_any(p) != seq!['.', '.']
}

/// Whether `a` ends `b`.
pub open spec fn is_suffix_of(a: Seq<char>, b: Seq<char>) -> bool {
    a.len() <= b.len() && b.subrange(b.len() - a.len(), b.len() as int) == a
}

/// Without `\`, what follows the last separator of either kind is the last
/// `/`-separated piece, and it ends the path.
pub proof fn lemma_final_piece_without_backslash(p: Seq<char>)
    requires
        !p.contains('\\'),
    ensures
        last_piece_any(p) == final_piece(p),
        is_suffix_of(final_piece(p), p),
    decreases p.len(),
{
    lemma_split_on_nonempty(p, '/');
    if p.len() > 0 {
        let q = p.drop_last();
        assert(!q.contains('\\')) by {
            if q.contains('\\') {
                let j = choose|j: int| 0 <= j < q.len() && q[j] == '\\';
                assert(p[j] == '\\');
            }
        }
        lemma_final_piece_without_backslash(q);
        lemma_split_on_nonempty(q, '/');
        assert(p[p.len() - 1] == p.last());
        if p.last() == '/' {
            assert(final_piece(p) =~= Seq::<char>::empty());
            assert(p.subrange(p.len() as int, p.len() as int) =~= Seq::<char>::empty());
        } else {
            assert(p.last() != '\\');
            let fq = final_piece(q);
            assert(final_piece(p) == fq.push(p.last()));
            assert(q.subrange(q.len() - fq.len(), q.len() as int) == fq);
            assert(fq.len() <= q.len());
            assert(p.subrange(p.len() - final_piece(p).len(), p.len() as int) =~= q.subrange(
                q.len() - fq.len(),
                q.len() as int,
            ).push(p.last()));
        }
    } else {
        assert(split_on(p, '/') == seq![Seq::<char>::empty()]);
        assert(final_piece(p) =~= Seq::<char>::empty());
        assert(p.subrange(0, 0) =~= Seq::<char>::empty());
    }
}

} // verus!
