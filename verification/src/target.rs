//! The target specification: the document source name must end in `.tex`, and
//! the target artifact is that name with the suffix replaced by `.pdf`. Also
//! builds the argument list handed to the driver for one invocation.

use vstd::prelude::*;

use crate::msg::has_suffix;

verus! {

/// The suffix a document source name must carry.
pub open spec fn tex_suffix() -> Seq<char> {
    ".tex"@
}

/// The suffix of the target artifact.
pub open spec fn pdf_suffix() -> Seq<char> {
    ".pdf"@
}

/// Whether a document source name is acceptable: it ends in `.tex`.
pub open spec fn is_tex_name(s: Seq<char>) -> bool {
    s.len() >= tex_suffix().len()
        && s.subrange(s.len() - tex_suffix().len(), s.len() as int) == tex_suffix()
}

/// The base document name: the source name with its `.tex` suffix stripped.
pub open spec fn root_of(s: Seq<char>) -> Seq<char> {
    s.subrange(0, s.len() - tex_suffix().len())
}

/// The target artifact name: the base document name followed by `.pdf`.
pub open spec fn target_of(s: Seq<char>) -> Seq<char> {
    root_of(s) + pdf_suffix()
}

/// The target artifact name for a document source name: `Some` exactly when
/// the name ends in `.tex`, and then the name with that suffix replaced by
/// `.pdf`. A name without the suffix is rejected.
pub fn target_artifact(file: &str) -> (r: Option<String>)
    ensures
        r is Some <==> is_tex_name(file@),
        r matches Some(t) ==> t@ == target_of(file@),
{
    let suf: &str = ".tex";
    proof {
        reveal_strlit(".tex");
        reveal_strlit(".pdf");
    }
    if has_suffix(file, suf) {
        let n = file.unicode_len();
        let root = file.substring_char(0, n - 4);
        assert(root@ == root_of(file@));
        let targ = String::from_str(root).concat(".pdf");
        Some(targ)
    } else {
        None
    }
}

/// The argument list for one driver invocation: the pass-through arguments in
/// order, then the clean flag when a clean pass is requested, then the
/// document source name.
pub fn invocation_args(base: &Vec<String>, file: &String, clean: bool) -> (r: Vec<String>)
    ensures
        r.deep_view() == base.deep_view() + (if clean {
            seq!["-c"@, file@]
        } else {
            seq![file@]
        }),
{
    let mut r: Vec<String> = Vec::new();
    let mut i: usize = 0;
    while i < base.len()
        invariant
            0 <= i <= base.len(),
            r@.len() == i,
            forall|j: int| 0 <= j < i ==> r@[j] == base@[j],
        decreases base.len() - i,
    {
        r.push(base[i].clone());
        i += 1;
    }
    if clean {
        r.push(String::from_str("-c"));
    }
    r.push(file.clone());
    proof {
        if clean {
            assert(r.deep_view() =~= base.deep_view() + seq!["-c"@, file@]);
        } else {
            assert(r.deep_view() =~= base.deep_view() + seq![file@]);
        }
    }
    r
}

} // verus!
