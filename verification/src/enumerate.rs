//! Submodule enumeration.
//!
//! Given the entries of the scanned directory, keeps the regular files whose
//! names mark them as source files and are not reserved, strips their
//! extension, and returns the stems sorted lexicographically ascending, so
//! that generation is deterministic whatever order the directory was read in.
//!
//! Entries whose raw names could not be decoded as text are collected rather
//! than aborting the scan; if any occurred, enumeration fails with the
//! lexicographically least such raw name, so the report too is stable across
//! iteration orders.  A directory with no eligible file at all fails with the
//! distinct empty condition.

use crate::error::Error;
use crate::names::{
    eligible_name, has_src_extension, is_reserved_name, raw_is_src_like, raw_src_like,
    stem_of, strip_src_extension,
};
use crate::order::{
    byte_seq_leq, bytes_le, char_seq_leq, lemma_byte_seq_leq_total_ordering,
    lemma_bytes_le_antisymmetric, lemma_bytes_le_transitive, name_views, raw_le, raw_views,
    sort_strings,
};
use vstd::prelude::*;
use vstd::seq_lib::lemma_sorted_unique;

verus! {

/// One directory entry, as the filesystem reported it: whether it is a
/// regular file, and its name, decoded when possible.
#[derive(Debug, PartialEq, Eq)]
pub struct DirEntry {
    pub is_file: bool,
    pub name: EntryName,
}

/// A directory entry's name: decoded text, or the raw bytes when the name is
/// no valid text.
#[derive(Debug, PartialEq, Eq)]
pub enum EntryName {
    Text(String),
    Raw(Vec<u8>),
}

/// The entry is a regular file whose decoded name is an eligible source file.
pub open spec fn entry_eligible(e: DirEntry) -> bool {
    e.is_file && (e.name matches EntryName::Text(s) && eligible_name(s@))
}

/// The entry is a regular file that would count as a source file but whose
/// name could not be decoded.
pub open spec fn entry_failing(e: DirEntry) -> bool {
    e.is_file && (e.name matches EntryName::Raw(b) && raw_src_like(b@))
}

/// The stem of an eligible entry.
pub open spec fn stem_of_entry(e: DirEntry) -> Seq<char>
    recommends
        entry_eligible(e),
{
    match e.name {
        EntryName::Text(s) => stem_of(s@),
        EntryName::Raw(_) => Seq::empty(),
    }
}

/// The raw name of a failing entry.
pub open spec fn raw_of_entry(e: DirEntry) -> Seq<u8>
    recommends
        entry_failing(e),
{
    match e.name {
        EntryName::Raw(b) => b@,
        EntryName::Text(_) => Seq::empty(),
    }
}

/// The stems of the eligible entries, in scan order.
pub open spec fn eligible_stems(es: Seq<DirEntry>) -> Seq<Seq<char>>
    decreases es.len(),
{
    if es.len() == 0 {
        Seq::empty()
    } else {
        let rest = eligible_stems(es.drop_last());
        if entry_eligible(es.last()) {
            rest.push(stem_of_entry(es.last()))
        } else {
            rest
        }
    }
}

/// The raw names of the non-decodable source-like entries, in scan order.
pub open spec fn failing_names(es: Seq<DirEntry>) -> Seq<Seq<u8>>
    decreases es.len(),
{
    if es.len() == 0 {
        Seq::empty()
    } else {
        let rest = failing_names(es.drop_last());
        if entry_failing(es.last()) {
            rest.push(raw_of_entry(es.last()))
        } else {
            rest
        }
    }
}

/// Enumeration succeeds: every name decoded, and at least one eligible file.
pub open spec fn enumeration_ok(es: Seq<DirEntry>) -> bool {
    failing_names(es).len() == 0 && eligible_stems(es).len() > 0
}

/// The eligible stems, sorted lexicographically ascending.
pub open spec fn sorted_stems(es: Seq<DirEntry>) -> Seq<Seq<char>> {
    eligible_stems(es).sort_by(char_seq_leq())
}

/// The lexicographically least non-decodable raw name.
pub open spec fn least_failing(es: Seq<DirEntry>) -> Seq<u8> {
    failing_names(es).sort_by(byte_seq_leq())[0]
}

/// Lists the stems of the directory's eligible source files, sorted
/// lexicographically ascending.  Fails with `Error::Utf8` carrying the least
/// non-decodable raw name when one occurred, else with `Error::Empty` when no
/// eligible file remains.
pub fn source_file_names(entries: &Vec<DirEntry>) -> (r: Result<Vec<String>, Error>)
    ensures
        r is Ok <==> enumeration_ok(entries@),
        r matches Ok(names) ==> name_views(names@) == sorted_stems(entries@),
        failing_names(entries@).len() > 0 ==> (r matches Err(e) && e matches Error::Utf8(m)
            && m@ == least_failing(entries@)),
        failing_names(entries@).len() == 0 && eligible_stems(entries@).len() == 0 ==> (r matches
            Err(e) && e == Error::Empty),
{
    let ghost es = entries@;
    let mut names: Vec<String> = Vec::new();
    let mut failures: Vec<Vec<u8>> = Vec::new();
    let mut k: usize = 0;
    while k < entries.len()
        invariant
            k <= es.len(),
            es == entries@,
            name_views(names@) =~= eligible_stems(es.take(k as int)),
            raw_views(failures@) =~= failing_names(es.take(k as int)),
        decreases es.len() - k,
    {
        let ghost prefix = es.take(k as int);
        let e = &entries[k];
        if e.is_file {
            match &e.name {
                EntryName::Text(s) => {
                    if !is_reserved_name(s.as_str()) && has_src_extension(s.as_str()) {
                        let stem = strip_src_extension(s.as_str());
                        names.push(stem);
                    }
                },
                EntryName::Raw(b) => {
                    if raw_is_src_like(b) {
                        failures.push(b.clone());
                    }
                },
            }
        }
        proof {
            assert(es.take(k + 1).drop_last() =~= prefix);
            assert(es.take(k + 1).last() == es[k as int]);
            assert(name_views(names@) =~= eligible_stems(es.take(k + 1)));
            assert(raw_views(failures@) =~= failing_names(es.take(k + 1)));
        }
        k += 1;
    }
    proof {
        assert(es.take(es.len() as int) =~= es);
    }
    if failures.len() > 0 {
        proof {
            crate::order::lemma_bytes_le_reflexive(failures@[0]@);
        }
        let mut mi: usize = 0;
        let mut j: usize = 1;
        while j < failures.len()
            invariant
                mi < j <= failures@.len(),
                forall|t: int|
                    0 <= t < j ==> bytes_le(failures@[mi as int]@, #[trigger] failures@[t]@),
            decreases failures@.len() - j,
        {
            if raw_le(&failures[j], &failures[mi]) {
                proof {
                    let ghost old_mi = mi as int;
                    assert forall|t: int| 0 <= t < j + 1 implies bytes_le(
                        failures@[j as int]@,
                        #[trigger] failures@[t]@,
                    ) by {
                        if t < j {
                            lemma_bytes_le_transitive(
                                failures@[j as int]@,
                                failures@[old_mi]@,
                                failures@[t]@,
                            );
                        } else {
                            crate::order::lemma_bytes_le_reflexive(failures@[j as int]@);
                        }
                    }
                }
                mi = j;
            } else {
                proof {
                    crate::order::lemma_bytes_le_connected(
                        failures@[j as int]@,
                        failures@[mi as int]@,
                    );
                }
            }
            j += 1;
        }
        let ghost all_fail = failures@;
        let least = failures.remove(mi);
        proof {
            broadcast use vstd::seq_lib::group_to_multiset_ensures;

            let fs = failing_names(es);
            assert(fs =~= raw_views(all_fail));
            lemma_byte_seq_leq_total_ordering();
            fs.lemma_sort_by_ensures(byte_seq_leq());
            let canon = fs.sort_by(byte_seq_leq());
            assert(least == all_fail[mi as int]);
            assert(fs.to_multiset() =~= canon.to_multiset());
            assert(fs.to_multiset().len() == canon.to_multiset().len());
            assert(canon.len() == fs.len());
            assert(canon.len() > 0);
            assert(canon.contains(canon[0]));
            assert(fs.contains(canon[0])) by {
                assert(canon.to_multiset().count(canon[0]) > 0);
                assert(fs.to_multiset().count(canon[0]) > 0);
            }
            let ci = choose|ci: int| 0 <= ci < fs.len() && fs[ci] == canon[0];
            assert(bytes_le(least@, canon[0])) by {
                assert(fs[ci] == all_fail[ci]@);
                assert(bytes_le(all_fail[mi as int]@, all_fail[ci]@));
            }
            assert(canon.contains(least@)) by {
                assert(fs[mi as int] == least@);
                assert(fs.contains(least@));
                assert(fs.to_multiset().count(least@) > 0);
                assert(canon.to_multiset().count(least@) > 0);
            }
            let li = choose|li: int| 0 <= li < canon.len() && canon[li] == least@;
            assert(bytes_le(canon[0], least@)) by {
                if li > 0 {
                    assert(byte_seq_leq()(canon[0], canon[li]));
                } else {
                    crate::order::lemma_bytes_le_reflexive(least@);
                }
            }
            lemma_bytes_le_antisymmetric(least@, canon[0]);
        }
        return Err(Error::Utf8(least));
    }
    if names.len() == 0 {
        proof {
            assert(eligible_stems(es).len() == name_views(names@).len());
        }
        return Err(Error::Empty);
    }
    let sorted = sort_strings(&names);
    Ok(sorted)
}

} // verus!
