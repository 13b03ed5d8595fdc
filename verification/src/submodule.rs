//! Per-submodule metadata and its inclusion declaration.
//!
//! Every eligible file stem yields one entry: the stem itself (the
//! user-facing submodule name and dispatch key), the declared identifier
//! (the stem with hyphens replaced by underscores), and the inclusion
//! declaration.  When normalization changed the name, the declaration
//! names the physical file explicitly so it still points at the file on
//! disk.

use crate::enumerate::{
    enumeration_ok, least_failing, sorted_stems, source_file_names, DirEntry,
};
use crate::error::Error;
use crate::names::{contains_hyphen, normalize_chars, normalize_stem};
use crate::order::name_views;
use vstd::prelude::*;
use vstd::string::{StrSliceExecFns, StringExecFns};

verus! {

/// All data needed to declare and call one submodule.
#[derive(Debug, PartialEq, Eq)]
pub struct SubmoduleData {
    /// The file stem, as on disk: the submodule's name and dispatch key.
    pub name: String,
    /// The declared identifier: the stem with hyphens replaced by underscores.
    pub ident: String,
    /// The inclusion declaration for this submodule.
    pub inclusion: String,
}

/// The inclusion declaration for a stem: a plain scope inclusion, or one
/// that names the physical file when normalization changed the name.
pub open spec fn inclusion_decl(stem: Seq<char>) -> Seq<char> {
    if stem.contains('-') {
        "mod "@ + normalize_chars(stem) + " from \""@ + stem + ".src\";\n"@
    } else {
        "mod "@ + stem + ";\n"@
    }
}

/// The entry correctly describes the given stem.
pub open spec fn submodule_wf(d: SubmoduleData, stem: Seq<char>) -> bool {
    &&& d.name@ == stem
    &&& d.ident@ == normalize_chars(stem)
    &&& d.inclusion@ == inclusion_decl(stem)
}

/// The entries describe exactly the given stems, in order.
pub open spec fn submodules_match(ds: Seq<SubmoduleData>, stems: Seq<Seq<char>>) -> bool {
    &&& ds.len() == stems.len()
    &&& forall|i: int| 0 <= i < ds.len() ==> submodule_wf(#[trigger] ds[i], stems[i])
}

/// The stems described by a sequence of entries.
pub open spec fn stems_of(ds: Seq<SubmoduleData>) -> Seq<Seq<char>> {
    ds.map_values(|d: SubmoduleData| d.name@)
}

/// Builds the metadata for one submodule: normalizes hyphens in the name and
/// constructs the inclusion declaration, naming the physical file when
/// normalization was needed.
pub fn data_for_submodule(name: String) -> (d: SubmoduleData)
    ensures
        submodule_wf(d, name@),
{
    if contains_hyphen(name.as_str()) {
        let ident = normalize_stem(name.as_str());
        let mut inclusion = String::from_str("mod ");
        inclusion.append(ident.as_str());
        inclusion.append(" from \"");
        inclusion.append(name.as_str());
        inclusion.append(".src\";\n");
        SubmoduleData { name, ident, inclusion }
    } else {
        proof {
            assert(normalize_chars(name@) =~= name@);
        }
        let ident = String::from_str(name.as_str());
        let mut inclusion = String::from_str("mod ");
        inclusion.append(name.as_str());
        inclusion.append(";\n");
        SubmoduleData { name, ident, inclusion }
    }
}

/// Enumerates the directory's submodules and builds the metadata of each, in
/// sorted name order.  Fails exactly as enumeration does.
pub fn get_submodule_data(entries: &Vec<DirEntry>) -> (r: Result<Vec<SubmoduleData>, Error>)
    ensures
        r is Ok <==> enumeration_ok(entries@),
        r matches Ok(ds) ==> submodules_match(ds@, sorted_stems(entries@)),
        crate::enumerate::failing_names(entries@).len() > 0 ==> (r matches Err(e) && e matches
            Error::Utf8(m) && m@ == least_failing(entries@)),
        crate::enumerate::failing_names(entries@).len() == 0 && crate::enumerate::eligible_stems(
            entries@,
        ).len() == 0 ==> (r matches Err(e) && e == Error::Empty),
{
    let names = match source_file_names(entries) {
        Ok(names) => names,
        Err(e) => {
            return Err(e);
        },
    };
    let ghost stems = sorted_stems(entries@);
    let mut ds: Vec<SubmoduleData> = Vec::new();
    let mut k: usize = 0;
    while k < names.len()
        invariant
            k <= names@.len(),
            name_views(names@) == stems,
            ds@.len() == k,
            forall|i: int| 0 <= i < k ==> submodule_wf(#[trigger] ds@[i], stems[i]),
        decreases names@.len() - k,
    {
        let d = data_for_submodule(names[k].clone());
        proof {
            assert(names@[k as int]@ == stems[k as int]);
        }
        ds.push(d);
        k += 1;
    }
    proof {
        assert(stems.len() == name_views(names@).len());
    }
    Ok(ds)
}

} // verus!
