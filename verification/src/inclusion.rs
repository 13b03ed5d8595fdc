//! Inclusion synthesis.
//!
//! Wraps the per-submodule inclusion declarations inside nested scope
//! declarations matching the enclosing scope chain, innermost first, so the
//! generated text mirrors the physical directory nesting.  An empty scope is
//! valid: with no submodules the wrapping scopes are still emitted.

use crate::order::name_views;
use crate::submodule::{inclusion_decl, stems_of, submodule_wf, SubmoduleData};
use vstd::prelude::*;
use vstd::string::{StrSliceExecFns, StringExecFns};

verus! {

/// The concatenated inclusion declarations of the given stems, in order.
pub open spec fn inclusions_body(stems: Seq<Seq<char>>) -> Seq<char>
    decreases stems.len(),
{
    if stems.len() == 0 {
        Seq::empty()
    } else {
        inclusions_body(stems.drop_last()) + inclusion_decl(stems.last())
    }
}

/// The inner text wrapped in one scope declaration per enclosing scope,
/// outermost scope outermost in the text.
pub open spec fn wrap_scopes(scopes: Seq<Seq<char>>, inner: Seq<char>) -> Seq<char>
    decreases scopes.len(),
{
    if scopes.len() == 0 {
        inner
    } else {
        "mod "@ + scopes[0] + " {\n"@ + wrap_scopes(scopes.drop_first(), inner) + "}\n"@
    }
}

/// The full inclusion output: every submodule's declaration, nested inside
/// the enclosing scope chain.
pub open spec fn inclusions_text(scopes: Seq<Seq<char>>, stems: Seq<Seq<char>>) -> Seq<char> {
    wrap_scopes(scopes, inclusions_body(stems))
}

/// Builds the inclusion declarations of all submodules, nested inside the
/// enclosing scope declarations, innermost first.
pub fn build_module_inclusions(
    submodules: &Vec<SubmoduleData>,
    enclosing_modules: &Vec<String>,
) -> (r: String)
    requires
        forall|i: int|
            0 <= i < submodules@.len() ==> submodule_wf(
                #[trigger] submodules@[i],
                submodules@[i].name@,
            ),
    ensures
        r@ == inclusions_text(name_views(enclosing_modules@), stems_of(submodules@)),
{
    let ghost stems = stems_of(submodules@);
    let ghost scopes = name_views(enclosing_modules@);
    let mut out = String::new();
    let mut k: usize = 0;
    proof {
        assert(stems.take(0) =~= Seq::<Seq<char>>::empty());
        assert(out@ =~= inclusions_body(stems.take(0)));
    }
    while k < submodules.len()
        invariant
            k <= stems.len(),
            stems == stems_of(submodules@),
            forall|i: int|
                0 <= i < submodules@.len() ==> submodule_wf(
                    #[trigger] submodules@[i],
                    submodules@[i].name@,
                ),
            out@ == inclusions_body(stems.take(k as int)),
        decreases stems.len() - k,
    {
        out.append(submodules[k].inclusion.as_str());
        proof {
            assert(stems.take(k + 1).drop_last() =~= stems.take(k as int));
            assert(stems.take(k + 1).last() == stems[k as int]);
            assert(stems[k as int] == submodules@[k as int].name@);
            assert(out@ == inclusions_body(stems.take(k + 1)));
        }
        k += 1;
    }
    proof {
        assert(stems.take(stems.len() as int) =~= stems);
    }
    let mut idx = enclosing_modules.len();
    proof {
        assert(scopes.skip(idx as int) =~= Seq::<Seq<char>>::empty());
    }
    while idx > 0
        invariant
            idx <= scopes.len(),
            scopes == name_views(enclosing_modules@),
            out@ == wrap_scopes(scopes.skip(idx as int), inclusions_body(stems)),
        decreases idx,
    {
        idx = idx - 1;
        let mut wrapped = String::from_str("mod ");
        wrapped.append(enclosing_modules[idx].as_str());
        wrapped.append(" {\n");
        wrapped.append(out.as_str());
        wrapped.append("}\n");
        out = wrapped;
        proof {
            assert(scopes.skip(idx as int)[0] == scopes[idx as int]);
            assert(scopes.skip(idx as int).drop_first() =~= scopes.skip(idx + 1));
            assert(out@ == wrap_scopes(scopes.skip(idx as int), inclusions_body(stems)));
        }
    }
    proof {
        assert(scopes.skip(0) =~= scopes);
    }
    out
}

} // verus!
