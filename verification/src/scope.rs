//! Path segmentation.
//!
//! The scanned directory's path is decomposed into its `/`-separated
//! segments (empty segments dropped); all segments but the first — the
//! conventional project root — name the scopes that enclose the generated
//! submodule declarations.

use crate::names::push_char;
use crate::order::name_views;
use vstd::prelude::*;
use vstd::string::StrSliceExecFns;

verus! {

/// The `/`-separated segments of the remaining path, given the pending
/// segment characters read so far.
pub open spec fn segments_from(s: Seq<char>, cur: Seq<char>) -> Seq<Seq<char>>
    decreases s.len(),
{
    if s.len() == 0 {
        if cur.len() == 0 {
            Seq::empty()
        } else {
            seq![cur]
        }
    } else if s[0] == '/' {
        if cur.len() == 0 {
            segments_from(s.drop_first(), Seq::empty())
        } else {
            seq![cur] + segments_from(s.drop_first(), Seq::empty())
        }
    } else {
        segments_from(s.drop_first(), cur.push(s[0]))
    }
}

/// The non-empty `/`-separated segments of a path.
pub open spec fn path_segments(s: Seq<char>) -> Seq<Seq<char>> {
    segments_from(s, Seq::empty())
}

/// The enclosing scope chain: every path segment but the first.
pub open spec fn enclosing_scopes(s: Seq<char>) -> Seq<Seq<char>> {
    if path_segments(s).len() == 0 {
        Seq::empty()
    } else {
        path_segments(s).drop_first()
    }
}

/// Returns the names of the scopes enclosing the scanned directory's
/// submodules: the directory path's segments with the root segment dropped.
pub fn get_enclosing_modules(directory: &str) -> (r: Vec<String>)
    ensures
        name_views(r@) == enclosing_scopes(directory@),
{
    let len = directory.unicode_len();
    let mut segs: Vec<String> = Vec::new();
    let mut cur = String::new();
    let mut i: usize = 0;
    proof {
        assert(name_views(segs@) =~= Seq::<Seq<char>>::empty());
        assert(directory@.skip(0) =~= directory@);
    }
    while i < len
        invariant
            len == directory@.len(),
            i <= len,
            path_segments(directory@) =~= name_views(segs@) + segments_from(
                directory@.skip(i as int),
                cur@,
            ),
        decreases len - i,
    {
        let ghost rem = directory@.skip(i as int);
        let ghost old_segs = segs@;
        let ghost old_cur = cur@;
        let c = directory.get_char(i);
        proof {
            assert(rem[0] == directory@[i as int]);
            assert(rem.drop_first() =~= directory@.skip(i + 1));
        }
        if c == '/' {
            if cur.unicode_len() > 0 {
                segs.push(cur);
                cur = String::new();
                proof {
                    assert(name_views(segs@) =~= name_views(old_segs) + seq![old_cur]);
                    assert(segments_from(rem, old_cur) == seq![old_cur] + segments_from(
                        rem.drop_first(),
                        Seq::empty(),
                    ));
                    assert(cur@ =~= Seq::<char>::empty());
                    assert(name_views(old_segs) + segments_from(rem, old_cur) =~= name_views(segs@)
                        + segments_from(directory@.skip(i + 1), cur@));
                }
            } else {
                proof {
                    assert(old_cur =~= Seq::<char>::empty());
                    assert(segments_from(rem, old_cur) == segments_from(
                        directory@.skip(i + 1),
                        cur@,
                    ));
                }
            }
        } else {
            push_char(&mut cur, c);
            proof {
                assert(cur@ == old_cur.push(c));
                assert(segments_from(rem, old_cur) == segments_from(directory@.skip(i + 1), cur@));
            }
        }
        i += 1;
    }
    proof {
        assert(directory@.skip(len as int).len() == 0);
    }
    if cur.unicode_len() > 0 {
        let ghost old_segs = segs@;
        segs.push(cur);
        proof {
            assert(name_views(segs@) =~= name_views(old_segs) + seq![cur@]);
        }
    }
    proof {
        assert(name_views(segs@) =~= path_segments(directory@));
    }
    if segs.len() > 0 {
        let ghost whole = segs@;
        segs.remove(0);
        proof {
            assert(name_views(segs@) =~= name_views(whole).drop_first());
        }
    }
    segs
}

} // verus!
