//! Laws of the generation pass, proved over the whole pipeline.
//!
//! Enumeration returns a sorted, duplicate-free name list for any directory
//! whose file names are distinct, and the entire generated output — and the
//! reported failure, when one occurs — depends only on the directory's
//! contents, never on the order its entries were scanned in.

use crate::enumerate::{
    eligible_stems, entry_eligible, enumeration_ok, failing_names, least_failing, sorted_stems,
    stem_of_entry, DirEntry, EntryName,
};
use crate::generation_output;
use crate::names::{has_src_ext, stem_of};
use crate::registry::{call_arm, call_arms, registry_text, scope_prefix};
use crate::order::{
    byte_seq_leq, char_seq_leq, lemma_byte_seq_leq_total_ordering,
    lemma_char_seq_leq_total_ordering,
};
use vstd::prelude::*;
use vstd::relations::sorted_by;
use vstd::seq_lib::lemma_multiset_commutative;
use vstd::seq_lib::lemma_sorted_unique;

verus! {

/// The decoded name of an entry, empty for a raw one.
pub open spec fn text_of_entry(e: DirEntry) -> Seq<char> {
    match e.name {
        EntryName::Text(s) => s@,
        EntryName::Raw(_) => Seq::empty(),
    }
}

/// No two eligible entries carry the same decoded name, as file names within
/// one directory never do.
pub open spec fn distinct_file_names(es: Seq<DirEntry>) -> bool {
    forall|i: int, j: int|
        0 <= i < j < es.len() && entry_eligible(#[trigger] es[i]) && entry_eligible(
            #[trigger] es[j],
        ) ==> text_of_entry(es[i]) != text_of_entry(es[j])
}

/// Two names with the source extension and the same stem are the same name.
proof fn lemma_stem_injective(s1: Seq<char>, s2: Seq<char>)
    requires
        has_src_ext(s1),
        has_src_ext(s2),
        stem_of(s1) == stem_of(s2),
    ensures
        s1 == s2,
{
    assert(s1 =~= stem_of(s1) + s1.skip(s1.len() - 4));
    assert(s2 =~= stem_of(s2) + s2.skip(s2.len() - 4));
    assert(s1 =~= s2);
}

/// With distinct file names, every stem occurs at most once, and a stem that
/// occurs belongs to some eligible entry.
proof fn lemma_stems_count(es: Seq<DirEntry>, x: Seq<char>)
    requires
        distinct_file_names(es),
    ensures
        eligible_stems(es).to_multiset().count(x) <= 1,
        eligible_stems(es).to_multiset().count(x) == 1 ==> exists|t: int|
            0 <= t < es.len() && entry_eligible(#[trigger] es[t]) && stem_of_entry(es[t]) == x,
    decreases es.len(),
{
    broadcast use vstd::seq_lib::group_to_multiset_ensures;
    broadcast use vstd::multiset::group_multiset_axioms;

    if es.len() == 0 {
        assert(eligible_stems(es).to_multiset().len() == 0);
    } else {
        let d = es.drop_last();
        assert(distinct_file_names(d)) by {
            assert forall|i: int, j: int|
                0 <= i < j < d.len() && entry_eligible(#[trigger] d[i]) && entry_eligible(
                    #[trigger] d[j],
                ) implies text_of_entry(d[i]) != text_of_entry(d[j]) by {
                assert(d[i] == es[i] && d[j] == es[j]);
            }
        }
        lemma_stems_count(d, x);
        let stems_d = eligible_stems(d);
        if entry_eligible(es.last()) {
            let st = stem_of_entry(es.last());
            assert(eligible_stems(es) == stems_d.push(st));
            assert(eligible_stems(es).to_multiset() =~= stems_d.to_multiset().insert(st));
            if x == st {
                if stems_d.to_multiset().count(x) == 1 {
                    let t = choose|t: int|
                        0 <= t < d.len() && entry_eligible(#[trigger] d[t]) && stem_of_entry(d[t])
                            == x;
                    assert(d[t] == es[t]);
                    lemma_stem_injective(text_of_entry(es[t]), text_of_entry(es.last()));
                    assert(es[t] == es[t] && es[es.len() - 1] == es.last());
                    assert(false);
                }
                assert(eligible_stems(es).to_multiset().count(x) == 1);
                assert(es[es.len() - 1] == es.last() && stem_of_entry(es.last()) == x);
            } else {
                assert(eligible_stems(es).to_multiset().count(x) == stems_d.to_multiset().count(
                    x,
                ));
                if eligible_stems(es).to_multiset().count(x) == 1 {
                    let t = choose|t: int|
                        0 <= t < d.len() && entry_eligible(#[trigger] d[t]) && stem_of_entry(d[t])
                            == x;
                    assert(es[t] == d[t]);
                }
            }
        } else {
            assert(eligible_stems(es) == stems_d);
            if eligible_stems(es).to_multiset().count(x) == 1 {
                let t = choose|t: int|
                    0 <= t < d.len() && entry_eligible(#[trigger] d[t]) && stem_of_entry(d[t])
                        == x;
                assert(es[t] == d[t]);
            }
        }
    }
}

/// Law: for a directory whose file names are distinct, the enumerated name
/// list is sorted lexicographically ascending and holds no duplicates.
pub proof fn lemma_enumeration_sorted_and_distinct(es: Seq<DirEntry>)
    requires
        distinct_file_names(es),
    ensures
        sorted_by(sorted_stems(es), char_seq_leq()),
        forall|i: int, j: int|
            0 <= i < j < sorted_stems(es).len() ==> sorted_stems(es)[i] != sorted_stems(es)[j],
{
    broadcast use vstd::seq_lib::group_to_multiset_ensures;
    broadcast use vstd::multiset::group_multiset_axioms;

    lemma_char_seq_leq_total_ordering();
    eligible_stems(es).lemma_sort_by_ensures(char_seq_leq());
    let ss = sorted_stems(es);
    assert forall|i: int, j: int| 0 <= i < j < ss.len() implies ss[i] != ss[j] by {
        if ss[i] == ss[j] {
            let x = ss[i];
            ss.remove_ensures(i);
            assert(ss.remove(i)[j - 1] == ss[j]);
            assert(ss.remove(i).contains(x));
            assert(ss.remove(i).to_multiset().count(x) > 0);
            assert(ss.remove(i).to_multiset() =~= ss.to_multiset().remove(x));
            assert(ss.contains(x));
            assert(ss.to_multiset().count(x) >= 2);
            lemma_stems_count(es, x);
            assert(eligible_stems(es).to_multiset().count(x) <= 1);
            assert(false);
        }
    }
}

proof fn lemma_eligible_stems_concat(a: Seq<DirEntry>, b: Seq<DirEntry>)
    ensures
        eligible_stems(a + b) == eligible_stems(a) + eligible_stems(b),
    decreases b.len(),
{
    if b.len() == 0 {
        assert(a + b =~= a);
        assert(eligible_stems(a) + eligible_stems(b) =~= eligible_stems(a));
    } else {
        lemma_eligible_stems_concat(a, b.drop_last());
        assert((a + b).drop_last() =~= a + b.drop_last());
        assert((a + b).last() == b.last());
        if entry_eligible(b.last()) {
            assert(eligible_stems(a) + eligible_stems(b) =~= (eligible_stems(a) + eligible_stems(
                b.drop_last(),
            )).push(stem_of_entry(b.last())));
        }
    }
}

proof fn lemma_failing_names_concat(a: Seq<DirEntry>, b: Seq<DirEntry>)
    ensures
        failing_names(a + b) == failing_names(a) + failing_names(b),
    decreases b.len(),
{
    if b.len() == 0 {
        assert(a + b =~= a);
        assert(failing_names(a) + failing_names(b) =~= failing_names(a));
    } else {
        lemma_failing_names_concat(a, b.drop_last());
        assert((a + b).drop_last() =~= a + b.drop_last());
        assert((a + b).last() == b.last());
        if crate::enumerate::entry_failing(b.last()) {
            assert(failing_names(a) + failing_names(b) =~= (failing_names(a) + failing_names(
                b.drop_last(),
            )).push(crate::enumerate::raw_of_entry(b.last())));
        }
    }
}

/// The stems and the failures of a directory are determined, as multisets,
/// by its contents alone.
proof fn lemma_contents_determined(es1: Seq<DirEntry>, es2: Seq<DirEntry>)
    requires
        es1.to_multiset() == es2.to_multiset(),
    ensures
        eligible_stems(es1).to_multiset() == eligible_stems(es2).to_multiset(),
        failing_names(es1).to_multiset() == failing_names(es2).to_multiset(),
    decreases es1.len(),
{
    broadcast use vstd::seq_lib::group_to_multiset_ensures;
    broadcast use vstd::multiset::group_multiset_axioms;
    broadcast use lemma_multiset_commutative;

    if es1.len() == 0 {
        assert(es2.to_multiset().len() == 0);
        assert(es2.len() == 0);
        assert(eligible_stems(es1) =~= eligible_stems(es2));
        assert(failing_names(es1) =~= failing_names(es2));
    } else {
        let x = es1.last();
        let d1 = es1.drop_last();
        assert(es1[es1.len() - 1] == x);
        assert(es1.contains(x));
        assert(es1.to_multiset().count(x) > 0);
        assert(es2.to_multiset().count(x) > 0);
        assert(es2.contains(x));
        let i = choose|i: int| 0 <= i < es2.len() && es2[i] == x;
        let a = es2.take(i);
        let b = es2.skip(i + 1);
        let d2 = es2.remove(i);
        assert(es2 =~= (a + seq![x]) + b);
        assert(d2 =~= a + b);
        assert(es1.remove(es1.len() - 1) =~= d1);
        assert(d1.to_multiset() =~= es1.to_multiset().remove(x));
        assert(d2.to_multiset() =~= es2.to_multiset().remove(x));
        lemma_contents_determined(d1, d2);
        assert(es1 =~= d1 + seq![x]);
        lemma_eligible_stems_concat(d1, seq![x]);
        lemma_eligible_stems_concat(a + seq![x], b);
        lemma_eligible_stems_concat(a, seq![x]);
        lemma_eligible_stems_concat(a, b);
        lemma_failing_names_concat(d1, seq![x]);
        lemma_failing_names_concat(a + seq![x], b);
        lemma_failing_names_concat(a, seq![x]);
        lemma_failing_names_concat(a, b);
        assert(eligible_stems(es1).to_multiset() =~= eligible_stems(d1).to_multiset().add(
            eligible_stems(seq![x]).to_multiset(),
        ));
        assert(eligible_stems(es2).to_multiset() =~= eligible_stems(d2).to_multiset().add(
            eligible_stems(seq![x]).to_multiset(),
        ));
        assert(eligible_stems(es1).to_multiset() =~= eligible_stems(es2).to_multiset());
        assert(failing_names(es1).to_multiset() =~= failing_names(d1).to_multiset().add(
            failing_names(seq![x]).to_multiset(),
        ));
        assert(failing_names(es2).to_multiset() =~= failing_names(d2).to_multiset().add(
            failing_names(seq![x]).to_multiset(),
        ));
        assert(failing_names(es1).to_multiset() =~= failing_names(es2).to_multiset());
    }
}

proof fn lemma_call_arms_concat(a: Seq<Seq<char>>, b: Seq<Seq<char>>, prefix: Seq<char>, method: Seq<char>)
    ensures
        call_arms(a + b, prefix, method) == call_arms(a, prefix, method) + call_arms(
            b,
            prefix,
            method,
        ),
    decreases b.len(),
{
    if b.len() == 0 {
        assert(a + b =~= a);
        assert(call_arms(a, prefix, method) + call_arms(b, prefix, method) =~= call_arms(
            a,
            prefix,
            method,
        ));
    } else {
        lemma_call_arms_concat(a, b.drop_last(), prefix, method);
        assert((a + b).drop_last() =~= a + b.drop_last());
        assert((a + b).last() == b.last());
        assert(call_arms(a, prefix, method) + call_arms(b, prefix, method) =~= (call_arms(
            a,
            prefix,
            method,
        ) + call_arms(b.drop_last(), prefix, method)) + call_arm(b.last(), prefix, method));
    }
}

/// Law: the dispatcher's branch table lists exactly the enumerated set: for
/// every submodule the generated text holds, as a contiguous piece, the
/// branch mapping its name to the qualified reference of its method.
pub proof fn lemma_registry_branch_per_submodule(
    stems: Seq<Seq<char>>,
    scopes: Seq<Seq<char>>,
    method: Seq<char>,
    params: Seq<Seq<char>>,
    ret: Option<Seq<char>>,
    i: int,
)
    requires
        0 <= i < stems.len(),
    ensures
        ({
            let text = registry_text(stems, scopes, method, params, ret);
            let arm = call_arm(stems[i], scope_prefix(scopes), method);
            exists|lo: int|
                0 <= lo && lo + arm.len() <= text.len() && #[trigger] text.subrange(
                    lo,
                    lo + arm.len(),
                ) == arm
        }),
{
    let text = registry_text(stems, scopes, method, params, ret);
    let prefix = scope_prefix(scopes);
    let arm = call_arm(stems[i], prefix, method);
    let header = "fn doko_"@ + method + "(module_name) -> fn("@ + crate::registry::params_text(
        params,
    ) + ")"@ + crate::registry::ret_text(ret) + " {\nmatch module_name {\n"@;
    let tail = "unknown => abort(unknown),\n}\n}\n"@;
    assert(stems =~= (stems.take(i) + seq![stems[i]]) + stems.skip(i + 1));
    lemma_call_arms_concat(stems.take(i) + seq![stems[i]], stems.skip(i + 1), prefix, method);
    lemma_call_arms_concat(stems.take(i), seq![stems[i]], prefix, method);
    assert(seq![stems[i]].drop_last() =~= Seq::<Seq<char>>::empty());
    assert(seq![stems[i]].last() == stems[i]);
    assert(call_arms(Seq::<Seq<char>>::empty(), prefix, method) == Seq::<char>::empty());
    assert(call_arms(seq![stems[i]], prefix, method) == call_arms(
        Seq::<Seq<char>>::empty(),
        prefix,
        method,
    ) + call_arm(stems[i], prefix, method));
    assert(call_arms(seq![stems[i]], prefix, method) =~= arm);
    let before = header + call_arms(stems.take(i), prefix, method);
    let lo = before.len() as int;
    assert(text =~= (before + arm) + (call_arms(stems.skip(i + 1), prefix, method) + tail));
    assert(text.subrange(lo, lo + arm.len()) =~= arm);
}

/// Law: generation is deterministic.  Two scans of the same directory
/// contents — however the entries were ordered — succeed or fail alike,
/// yield the same sorted name list and byte-identical generated output, and
/// report the same least failing raw name.
pub proof fn lemma_generation_deterministic(
    path: Seq<char>,
    method: Seq<char>,
    params: Seq<Seq<char>>,
    ret: Option<Seq<char>>,
    es1: Seq<DirEntry>,
    es2: Seq<DirEntry>,
    with_inclusions: bool,
)
    requires
        es1.to_multiset() == es2.to_multiset(),
    ensures
        enumeration_ok(es1) == enumeration_ok(es2),
        sorted_stems(es1) == sorted_stems(es2),
        failing_names(es1).len() == failing_names(es2).len(),
        failing_names(es1).len() > 0 ==> least_failing(es1) == least_failing(es2),
        generation_output(path, method, params, ret, es1, with_inclusions) == generation_output(
            path,
            method,
            params,
            ret,
            es2,
            with_inclusions,
        ),
{
    broadcast use vstd::seq_lib::group_to_multiset_ensures;
    broadcast use vstd::multiset::group_multiset_axioms;

    lemma_contents_determined(es1, es2);
    assert(eligible_stems(es1).to_multiset().len() == eligible_stems(es2).to_multiset().len());
    assert(eligible_stems(es1).len() == eligible_stems(es2).len());
    assert(failing_names(es1).to_multiset().len() == failing_names(es2).to_multiset().len());
    assert(failing_names(es1).len() == failing_names(es2).len());
    lemma_char_seq_leq_total_ordering();
    eligible_stems(es1).lemma_sort_by_ensures(char_seq_leq());
    eligible_stems(es2).lemma_sort_by_ensures(char_seq_leq());
    lemma_sorted_unique(sorted_stems(es1), sorted_stems(es2), char_seq_leq());
    if failing_names(es1).len() > 0 {
        lemma_byte_seq_leq_total_ordering();
        failing_names(es1).lemma_sort_by_ensures(byte_seq_leq());
        failing_names(es2).lemma_sort_by_ensures(byte_seq_leq());
        lemma_sorted_unique(
            failing_names(es1).sort_by(byte_seq_leq()),
            failing_names(es2).sort_by(byte_seq_leq()),
            byte_seq_leq(),
        );
    }
}

} // verus!
