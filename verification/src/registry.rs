//! Dispatcher synthesis.
//!
//! Builds the one generated function, named by prefixing the shared method
//! name with the fixed marker `doko_`, that maps a submodule's name to a
//! callable of the declared signature.  Its body is a string match with one
//! branch per submodule, each yielding the qualified reference
//! `<scopes>::<identifier>::<method>`, and a fatal-abort branch for any
//! unknown name.

use crate::names::normalize_chars;
use crate::order::{name_views, str_eq};
use crate::submodule::{stems_of, submodule_wf, SubmoduleData};
use vstd::prelude::*;
use vstd::string::{StrSliceExecFns, StringExecFns};

verus! {

/// The declared shared signature: the parameter types and the optional
/// return type, each as target-language type text.
#[derive(Debug, PartialEq, Eq)]
pub struct Signature {
    pub params: Vec<String>,
    pub ret: Option<String>,
}

/// The return type's text as a sequence, when one is declared.
pub open spec fn ret_view(sig: Signature) -> Option<Seq<char>> {
    match sig.ret {
        Some(t) => Some(t@),
        None => None,
    }
}

/// The qualification prefix: every enclosing scope followed by `::`.
pub open spec fn scope_prefix(scopes: Seq<Seq<char>>) -> Seq<char>
    decreases scopes.len(),
{
    if scopes.len() == 0 {
        Seq::empty()
    } else {
        scope_prefix(scopes.drop_last()) + scopes.last() + "::"@
    }
}

/// The match branch for one submodule: its name as the key, yielding the
/// qualified reference to the shared method inside it.
pub open spec fn call_arm(stem: Seq<char>, prefix: Seq<char>, method: Seq<char>) -> Seq<char> {
    "\""@ + stem + "\" => "@ + prefix + normalize_chars(stem) + "::"@ + method + ",\n"@
}

/// All match branches, in stem order.
pub open spec fn call_arms(stems: Seq<Seq<char>>, prefix: Seq<char>, method: Seq<char>) -> Seq<
    char,
>
    decreases stems.len(),
{
    if stems.len() == 0 {
        Seq::empty()
    } else {
        call_arms(stems.drop_last(), prefix, method) + call_arm(stems.last(), prefix, method)
    }
}

/// The comma-separated parameter type list.
pub open spec fn params_text(params: Seq<Seq<char>>) -> Seq<char>
    decreases params.len(),
{
    if params.len() == 0 {
        Seq::empty()
    } else if params.len() == 1 {
        params[0]
    } else {
        params_text(params.drop_last()) + ", "@ + params.last()
    }
}

/// The return type's text, empty when none is declared.
pub open spec fn ret_text(ret: Option<Seq<char>>) -> Seq<char> {
    match ret {
        Some(t) => " -> "@ + t,
        None => Seq::empty(),
    }
}

/// The entire dispatcher function for the given stems, scopes, shared method
/// name and signature.
pub open spec fn registry_text(
    stems: Seq<Seq<char>>,
    scopes: Seq<Seq<char>>,
    method: Seq<char>,
    params: Seq<Seq<char>>,
    ret: Option<Seq<char>>,
) -> Seq<char> {
    "fn doko_"@ + method + "(module_name) -> fn("@ + params_text(params) + ")"@ + ret_text(ret)
        + " {\nmatch module_name {\n"@ + call_arms(stems, scope_prefix(scopes), method)
        + "unknown => abort(unknown),\n}\n}\n"@
}

/// Builds the qualification prefix from the enclosing scope names.
pub fn build_scope_prefix(enclosing_modules: &Vec<String>) -> (r: String)
    ensures
        r@ == scope_prefix(name_views(enclosing_modules@)),
{
    let ghost scopes = name_views(enclosing_modules@);
    let mut out = String::new();
    let mut k: usize = 0;
    proof {
        assert(out@ =~= scope_prefix(scopes.take(0)));
    }
    while k < enclosing_modules.len()
        invariant
            k <= scopes.len(),
            scopes == name_views(enclosing_modules@),
            out@ == scope_prefix(scopes.take(k as int)),
        decreases scopes.len() - k,
    {
        out.append(enclosing_modules[k].as_str());
        out.append("::");
        proof {
            assert(scopes.take(k + 1).drop_last() =~= scopes.take(k as int));
            assert(scopes.take(k + 1).last() == scopes[k as int]);
            assert(out@ == scope_prefix(scopes.take(k + 1)));
        }
        k += 1;
    }
    proof {
        assert(scopes.take(scopes.len() as int) =~= scopes);
    }
    out
}

/// Builds the match branch for one submodule.
pub fn get_call_for_submodule(submod: &SubmoduleData, prefix: &str, method: &str) -> (r: String)
    requires
        submodule_wf(*submod, submod.name@),
    ensures
        r@ == call_arm(submod.name@, prefix@, method@),
{
    let mut out = String::from_str("\"");
    out.append(submod.name.as_str());
    out.append("\" => ");
    out.append(prefix);
    out.append(submod.ident.as_str());
    out.append("::");
    out.append(method);
    out.append(",\n");
    out
}

/// Builds the dispatcher function over the given submodules: a string match
/// with one branch per submodule in order, and the fatal-abort branch last.
pub fn build_registry(
    submodules: &Vec<SubmoduleData>,
    enclosing_modules: &Vec<String>,
    method: &str,
    signature: &Signature,
) -> (r: String)
    requires
        forall|i: int|
            0 <= i < submodules@.len() ==> submodule_wf(
                #[trigger] submodules@[i],
                submodules@[i].name@,
            ),
    ensures
        r@ == registry_text(
            stems_of(submodules@),
            name_views(enclosing_modules@),
            method@,
            name_views(signature.params@),
            ret_view(*signature),
        ),
{
    let ghost stems = stems_of(submodules@);
    let prefix = build_scope_prefix(enclosing_modules);
    let mut out = String::from_str("fn doko_");
    out.append(method);
    out.append("(module_name) -> fn(");
    let ghost params = name_views(signature.params@);
    let mut p: usize = 0;
    let ghost header = out@;
    proof {
        assert(params.take(0) =~= Seq::<Seq<char>>::empty());
    }
    while p < signature.params.len()
        invariant
            p <= params.len(),
            params == name_views(signature.params@),
            out@ == header + params_text(params.take(p as int)),
        decreases params.len() - p,
    {
        if p > 0 {
            out.append(", ");
        }
        out.append(signature.params[p].as_str());
        proof {
            assert(params.take(p + 1).drop_last() =~= params.take(p as int));
            assert(params.take(p + 1).last() == params[p as int]);
            if p == 0 {
                assert(params_text(params.take(1)) == params[0]);
            }
            assert(out@ == header + params_text(params.take(p + 1)));
        }
        p += 1;
    }
    proof {
        assert(params.take(params.len() as int) =~= params);
    }
    out.append(")");
    match &signature.ret {
        Some(t) => {
            out.append(" -> ");
            out.append(t.as_str());
        },
        None => {},
    }
    out.append(" {\nmatch module_name {\n");
    let ghost arms_start = out@;
    let mut k: usize = 0;
    proof {
        assert(stems.take(0) =~= Seq::<Seq<char>>::empty());
    }
    while k < submodules.len()
        invariant
            k <= stems.len(),
            stems == stems_of(submodules@),
            forall|i: int|
                0 <= i < submodules@.len() ==> submodule_wf(
                    #[trigger] submodules@[i],
                    submodules@[i].name@,
                ),
            prefix@ == scope_prefix(name_views(enclosing_modules@)),
            out@ == arms_start + call_arms(stems.take(k as int), prefix@, method@),
        decreases stems.len() - k,
    {
        let arm = get_call_for_submodule(&submodules[k], prefix.as_str(), method);
        out.append(arm.as_str());
        proof {
            assert(stems.take(k + 1).drop_last() =~= stems.take(k as int));
            assert(stems.take(k + 1).last() == stems[k as int]);
            assert(stems[k as int] == submodules@[k as int].name@);
            assert(out@ == arms_start + call_arms(stems.take(k + 1), prefix@, method@));
        }
        k += 1;
    }
    proof {
        assert(stems.take(stems.len() as int) =~= stems);
    }
    out.append("unknown => abort(unknown),\n}\n}\n");
    proof {
        assert(out@ =~= registry_text(
            stems,
            name_views(enclosing_modules@),
            method@,
            params,
            ret_view(*signature),
        ));
    }
    out
}

/// The qualified reference a dispatcher branch yields for a stem.
pub open spec fn qualified_target(
    scopes: Seq<Seq<char>>,
    stem: Seq<char>,
    method: Seq<char>,
) -> Seq<char> {
    scope_prefix(scopes) + normalize_chars(stem) + "::"@ + method
}

/// The dispatch table's lookup, as the generated match resolves it: the
/// qualified reference for a known submodule name, and nothing for an
/// unknown one, which the generated branch table aborts on.
pub fn dispatch_target(
    submodules: &Vec<SubmoduleData>,
    enclosing_modules: &Vec<String>,
    method: &str,
    module_name: &str,
) -> (r: Option<String>)
    requires
        forall|i: int|
            0 <= i < submodules@.len() ==> submodule_wf(
                #[trigger] submodules@[i],
                submodules@[i].name@,
            ),
    ensures
        r is Some <==> stems_of(submodules@).contains(module_name@),
        r matches Some(q) ==> q@ == qualified_target(
            name_views(enclosing_modules@),
            module_name@,
            method@,
        ),
{
    let mut k: usize = 0;
    while k < submodules.len()
        invariant
            k <= submodules@.len(),
            forall|i: int|
                0 <= i < submodules@.len() ==> submodule_wf(
                    #[trigger] submodules@[i],
                    submodules@[i].name@,
                ),
            forall|i: int| 0 <= i < k ==> stems_of(submodules@)[i] != module_name@,
        decreases submodules@.len() - k,
    {
        if str_eq(submodules[k].name.as_str(), module_name) {
            let mut out = build_scope_prefix(enclosing_modules);
            out.append(submodules[k].ident.as_str());
            out.append("::");
            out.append(method);
            proof {
                assert(stems_of(submodules@)[k as int] == module_name@);
            }
            return Some(out);
        }
        proof {
            assert(stems_of(submodules@)[k as int] == submodules@[k as int].name@);
        }
        k += 1;
    }
    proof {
        assert(!stems_of(submodules@).contains(module_name@));
    }
    None
}

} // verus!
