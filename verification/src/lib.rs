//! Build-time generation of module-inclusion declarations and a name-keyed
//! dispatcher for a directory of sibling source files.
//!
//! Given a directory whose files each expose a method of a shared name and
//! signature, the library derives from the directory's entries (as the host
//! hands them in) the inclusion declarations that mirror the directory's
//! nesting, and a dispatcher function `doko_<method>` whose body maps each
//! submodule's name to the qualified reference of its method, aborting on an
//! unknown name.  The whole output is a deterministic function of the
//! directory's contents: names are sorted, so iteration order never shows.

use vstd::prelude::*;

pub mod enumerate;
pub mod error;
pub mod inclusion;
pub mod laws;
pub mod names;
pub mod order;
pub mod registry;
pub mod scope;
pub mod submodule;

use crate::enumerate::{
    eligible_stems, entry_eligible, enumeration_ok, failing_names, least_failing, sorted_stems,
    stem_of_entry, DirEntry,
};
use crate::error::Error;
use crate::inclusion::{build_module_inclusions, inclusions_text};
use crate::names::{is_identifier, normalize_chars};
use crate::registry::{build_registry, registry_text, ret_view, Signature};
use crate::scope::{enclosing_scopes, path_segments};
use crate::submodule::{get_submodule_data, stems_of, submodules_match};
use vstd::string::StringExecFns;

verus! {

/// The three generation parameters are structurally valid: a non-empty
/// directory text whose segments past the root are valid scope identifiers,
/// and a valid shared method identifier.
pub open spec fn valid_request(path: Seq<char>, method: Seq<char>) -> bool {
    &&& path.len() > 0
    &&& is_identifier(method)
    &&& forall|i: int|
        1 <= i < path_segments(path).len() ==> is_identifier(#[trigger] path_segments(path)[i])
}

/// Every eligible file stem yields a valid declared identifier once its
/// hyphens are replaced.
pub open spec fn entries_normalizable(es: Seq<DirEntry>) -> bool {
    forall|i: int|
        0 <= i < es.len() && entry_eligible(#[trigger] es[i]) ==> is_identifier(
            normalize_chars(stem_of_entry(es[i])),
        )
}

/// The full generated text for the given request and directory entries:
/// the dispatcher alone, or the inclusion declarations followed by it.
pub open spec fn generation_output(
    path: Seq<char>,
    method: Seq<char>,
    params: Seq<Seq<char>>,
    ret: Option<Seq<char>>,
    es: Seq<DirEntry>,
    with_inclusions: bool,
) -> Seq<char> {
    let scopes = enclosing_scopes(path);
    let stems = sorted_stems(es);
    let registry = registry_text(stems, scopes, method, params, ret);
    if with_inclusions {
        inclusions_text(scopes, stems) + registry
    } else {
        registry
    }
}

/// Performs the whole generation pass: enumerates the directory's
/// submodules, synthesizes the inclusion declarations (unless omitted) and
/// the dispatcher, and concatenates them.  Fails exactly as enumeration
/// does, propagating its error verbatim.
fn output_for_input(
    path: &str,
    method: &str,
    signature: &Signature,
    entries: &Vec<DirEntry>,
    with_inclusions: bool,
) -> (r: Result<String, Error>)
    requires
        valid_request(path@, method@),
        entries_normalizable(entries@),
    ensures
        r is Ok <==> enumeration_ok(entries@),
        r matches Ok(out) ==> out@ == generation_output(
            path@,
            method@,
            crate::order::name_views(signature.params@),
            ret_view(*signature),
            entries@,
            with_inclusions,
        ),
        failing_names(entries@).len() > 0 ==> (r matches Err(e) && e matches Error::Utf8(m) && m@
            == least_failing(entries@)),
        failing_names(entries@).len() == 0 && eligible_stems(entries@).len() == 0 ==> (r matches
            Err(e) && e == Error::Empty),
{
    let enclosing_modules = crate::scope::get_enclosing_modules(path);
    let submodules = match get_submodule_data(entries) {
        Ok(ds) => ds,
        Err(e) => {
            return Err(e);
        },
    };
    proof {
        assert(submodules_match(submodules@, sorted_stems(entries@)));
        assert(stems_of(submodules@) =~= sorted_stems(entries@));
    }
    let registry = build_registry(&submodules, &enclosing_modules, method, signature);
    if with_inclusions {
        let mut out = build_module_inclusions(&submodules, &enclosing_modules);
        out.append(registry.as_str());
        Ok(out)
    } else {
        Ok(registry)
    }
}

/// Generates the inclusion declarations for every submodule of the given
/// directory, followed by the dispatcher `doko_<method>` over them.
pub fn doko(path: &str, method: &str, signature: &Signature, entries: &Vec<DirEntry>) -> (r:
    Result<String, Error>)
    requires
        valid_request(path@, method@),
        entries_normalizable(entries@),
    ensures
        r is Ok <==> enumeration_ok(entries@),
        r matches Ok(out) ==> out@ == generation_output(
            path@,
            method@,
            crate::order::name_views(signature.params@),
            ret_view(*signature),
            entries@,
            true,
        ),
        failing_names(entries@).len() > 0 ==> (r matches Err(e) && e matches Error::Utf8(m) && m@
            == least_failing(entries@)),
        failing_names(entries@).len() == 0 && eligible_stems(entries@).len() == 0 ==> (r matches
            Err(e) && e == Error::Empty),
{
    output_for_input(path, method, signature, entries, true)
}

/// Generates only the dispatcher, never the scope or inclusion declarations:
/// for a directory whose inclusions were already declared by a prior full
/// generation, so several shared methods can be dispatched per directory.
pub fn doko_skip_mods(path: &str, method: &str, signature: &Signature, entries: &Vec<DirEntry>) -> (r:
    Result<String, Error>)
    requires
        valid_request(path@, method@),
        entries_normalizable(entries@),
    ensures
        r is Ok <==> enumeration_ok(entries@),
        r matches Ok(out) ==> out@ == generation_output(
            path@,
            method@,
            crate::order::name_views(signature.params@),
            ret_view(*signature),
            entries@,
            false,
        ),
        failing_names(entries@).len() > 0 ==> (r matches Err(e) && e matches Error::Utf8(m) && m@
            == least_failing(entries@)),
        failing_names(entries@).len() == 0 && eligible_stems(entries@).len() == 0 ==> (r matches
            Err(e) && e == Error::Empty),
{
    output_for_input(path, method, signature, entries, false)
}

} // verus!
