//! File-name classification and identifier derivation.
//!
//! A directory entry is an eligible submodule when it is a regular file whose
//! name carries the source extension `.src` and is none of the reserved
//! aggregator names (`mod.src`, `lib.src`, `main.src`).  The stem (the name
//! without the extension) addresses the submodule; hyphens in it are replaced
//! by underscores to obtain the declared identifier.

use crate::order::str_eq;
use vstd::prelude::*;
use vstd::string::{StrSliceExecFns, StringExecFns};

verus! {

/// A character that may start an identifier of the generation target language.
pub open spec fn is_ident_start_char(c: char) -> bool {
    ('a' as u32) <= (c as u32) <= ('z' as u32) || ('A' as u32) <= (c as u32) <= ('Z' as u32) || c
        == '_'
}

/// A character that may continue an identifier.
pub open spec fn is_ident_char(c: char) -> bool {
    is_ident_start_char(c) || ('0' as u32) <= (c as u32) <= ('9' as u32)
}

/// A valid identifier of the generation target language.
pub open spec fn is_identifier(s: Seq<char>) -> bool {
    &&& s.len() > 0
    &&& is_ident_start_char(s[0])
    &&& forall|i: int| 1 <= i < s.len() ==> is_ident_char(#[trigger] s[i])
}

/// The characters of the source extension, `.src`.
pub open spec fn src_ext() -> Seq<char> {
    seq!['.', 's', 'r', 'c']
}

/// The decoded name ends in the source extension.
pub open spec fn has_src_ext(s: Seq<char>) -> bool {
    s.len() > 4 && s.skip(s.len() - 4) == src_ext()
}

/// The reserved aggregator names, always excluded from enumeration.
pub open spec fn is_reserved(s: Seq<char>) -> bool {
    ||| s == seq!['m', 'o', 'd', '.', 's', 'r', 'c']
    ||| s == seq!['l', 'i', 'b', '.', 's', 'r', 'c']
    ||| s == seq!['m', 'a', 'i', 'n', '.', 's', 'r', 'c']
}

/// An eligible submodule file name: carries the source extension and is not reserved.
pub open spec fn eligible_name(s: Seq<char>) -> bool {
    has_src_ext(s) && !is_reserved(s)
}

/// The stem of an eligible name: the name without its extension.
pub open spec fn stem_of(s: Seq<char>) -> Seq<char> {
    s.take(s.len() - 4)
}

/// A raw, non-decodable name that would have counted as a source file:
/// its bytes end in `.src`.
pub open spec fn raw_src_like(b: Seq<u8>) -> bool {
    b.len() > 4 && b[b.len() - 4] == 46u8 && b[b.len() - 3] == 115u8 && b[b.len() - 2] == 114u8
        && b[b.len() - 1] == 99u8
}

/// The stem with every hyphen replaced by an underscore.
pub open spec fn normalize_chars(s: Seq<char>) -> Seq<char> {
    s.map_values(|c: char| if c == '-' { '_' } else { c })
}

/// Relies on `String::push`: appends exactly the one character.
#[verifier::external_body]
pub fn push_char(s: &mut String, c: char)
    ensures
        final(s)@ == old(s)@.push(c),
{
    s.push(c)
}

/// Decides identifier validity, as `is_identifier` states it.
pub fn is_valid_identifier(s: &str) -> (r: bool)
    ensures
        r == is_identifier(s@),
{
    let len = s.unicode_len();
    if len == 0 {
        return false;
    }
    let c0 = s.get_char(0);
    let start_ok = ('a' <= c0 && c0 <= 'z') || ('A' <= c0 && c0 <= 'Z') || c0 == '_';
    if !start_ok {
        return false;
    }
    let mut i: usize = 1;
    while i < len
        invariant
            len == s@.len(),
            1 <= i <= len,
            is_ident_start_char(s@[0]),
            forall|j: int| 1 <= j < i ==> is_ident_char(#[trigger] s@[j]),
        decreases len - i,
    {
        let c = s.get_char(i);
        let ok = ('a' <= c && c <= 'z') || ('A' <= c && c <= 'Z') || c == '_' || ('0' <= c && c
            <= '9');
        if !ok {
            return false;
        }
        i += 1;
    }
    true
}

/// Decides whether a decoded name ends in the source extension.
pub fn has_src_extension(s: &str) -> (r: bool)
    ensures
        r == has_src_ext(s@),
{
    let len = s.unicode_len();
    if len <= 4 {
        assert(!has_src_ext(s@));
        return false;
    }
    let r = s.get_char(len - 4) == '.' && s.get_char(len - 3) == 's' && s.get_char(len - 2) == 'r'
        && s.get_char(len - 1) == 'c';
    proof {
        if r {
            assert(s@.skip(s@.len() - 4) =~= src_ext());
        } else {
            assert(s@.skip(s@.len() - 4) != src_ext()) by {
                if s@.skip(s@.len() - 4) == src_ext() {
                    assert(s@[s@.len() - 4] == src_ext()[0]);
                    assert(s@[s@.len() - 3] == src_ext()[1]);
                    assert(s@[s@.len() - 2] == src_ext()[2]);
                    assert(s@[s@.len() - 1] == src_ext()[3]);
                }
            }
        }
    }
    r
}

/// Decides whether a decoded name is one of the reserved aggregator names.
pub fn is_reserved_name(s: &str) -> (r: bool)
    ensures
        r == is_reserved(s@),
{
    proof {
        reveal_strlit("mod.src");
        reveal_strlit("lib.src");
        reveal_strlit("main.src");
        assert("mod.src"@ =~= seq!['m', 'o', 'd', '.', 's', 'r', 'c']);
        assert("lib.src"@ =~= seq!['l', 'i', 'b', '.', 's', 'r', 'c']);
        assert("main.src"@ =~= seq!['m', 'a', 'i', 'n', '.', 's', 'r', 'c']);
    }
    str_eq(s, "mod.src") || str_eq(s, "lib.src") || str_eq(s, "main.src")
}

/// Decides whether a raw, non-decodable name would have counted as a source file.
pub fn raw_is_src_like(b: &Vec<u8>) -> (r: bool)
    ensures
        r == raw_src_like(b@),
{
    let len = b.len();
    if len <= 4 {
        return false;
    }
    b[len - 4] == 46u8 && b[len - 3] == 115u8 && b[len - 2] == 114u8 && b[len - 1] == 99u8
}

/// Strips the source extension from an eligible name.
pub fn strip_src_extension(s: &str) -> (r: String)
    requires
        has_src_ext(s@),
    ensures
        r@ == stem_of(s@),
{
    let len = s.unicode_len();
    let sub = s.substring_char(0, len - 4);
    proof {
        assert(s@.subrange(0, s@.len() - 4) =~= stem_of(s@));
    }
    String::from_str(sub)
}

/// Tests whether a stem contains the multi-word separator.
pub fn contains_hyphen(s: &str) -> (r: bool)
    ensures
        r == s@.contains('-'),
{
    let len = s.unicode_len();
    let mut i: usize = 0;
    while i < len
        invariant
            len == s@.len(),
            i <= len,
            forall|j: int| 0 <= j < i ==> s@[j] != '-',
        decreases len - i,
    {
        if s.get_char(i) == '-' {
            return true;
        }
        i += 1;
    }
    false
}

/// Replaces every hyphen in a stem by an underscore.
pub fn normalize_stem(s: &str) -> (r: String)
    ensures
        r@ == normalize_chars(s@),
{
    let len = s.unicode_len();
    let mut out = String::new();
    let mut i: usize = 0;
    while i < len
        invariant
            len == s@.len(),
            i <= len,
            out@ =~= normalize_chars(s@).take(i as int),
        decreases len - i,
    {
        let c = s.get_char(i);
        if c == '-' {
            push_char(&mut out, '_');
        } else {
            push_char(&mut out, c);
        }
        proof {
            assert(out@ =~= normalize_chars(s@).take(i + 1));
        }
        i += 1;
    }
    proof {
        assert(normalize_chars(s@).take(len as int) =~= normalize_chars(s@));
    }
    out
}

} // verus!
