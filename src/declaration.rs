use vstd::prelude::*;

verus! {

/// How a declaration gives its code.
#[derive(Clone, Debug, PartialEq, Eq)]
pub enum Discriminant {
    /// No code is written: the label takes the code after the previous one,
    /// or 0 when it comes first.
    Implicit,
    /// The code is written out as an integer.
    Explicit(usize),
    /// Something stands where the code goes that is not an integer literal.
    Malformed,
}

/// One member of an enumeration as it was declared.
#[derive(Clone, Debug, PartialEq, Eq)]
pub struct Declaration {
    pub label: String,
    /// Whether the member carries fields; only unit members can be coded.
    pub has_fields: bool,
    pub discriminant: Discriminant,
}

/// Why a sequence of declarations does not make a table.
#[derive(Clone, Copy, Debug, PartialEq, Eq)]
pub enum BuildError {
    /// An explicit code repeats the code of the member just before it.
    DuplicateCode,
    /// An explicit code is below the code that would come next.
    NonMonotonicCode,
    /// A member carries fields, its code is not an integer literal, or its
    /// label was declared before.
    InvalidSource,
    /// An implicit code would come after the largest representable code.
    CodeOverflow,
}

/// The code that an implicit member takes after `entries`.
pub open spec fn next_code(entries: Seq<(Seq<char>, usize)>) -> int {
    if entries.len() == 0 {
        0
    } else {
        entries.last().1 + 1
    }
}

/// Whether `label` is among the labels of `entries`.
pub open spec fn has_label(entries: Seq<(Seq<char>, usize)>, label: Seq<char>) -> bool {
    exists|i: int| 0 <= i < entries.len() && #[trigger] entries[i].0 == label
}

/// The code a member with discriminant `d` takes after `entries`.
pub open spec fn resolve_code(entries: Seq<(Seq<char>, usize)>, d: Discriminant) -> Result<
    usize,
    BuildError,
> {
    match d {
        Discriminant::Implicit => if next_code(entries) <= usize::MAX {
            Ok(next_code(entries) as usize)
        } else {
            Err(BuildError::CodeOverflow)
        },
        Discriminant::Explicit(c) => if entries.len() > 0 && c == entries.last().1 {
            Err(BuildError::DuplicateCode)
        } else if c < next_code(entries) {
            Err(BuildError::NonMonotonicCode)
        } else {
            Ok(c)
        },
        Discriminant::Malformed => Err(BuildError::InvalidSource),
    }
}

/// The entries that `decls` resolve to, read in order, or the first failure.
pub open spec fn resolve(decls: Seq<Declaration>) -> Result<Seq<(Seq<char>, usize)>, BuildError>
    decreases decls.len(),
{
    if decls.len() == 0 {
        Ok(Seq::empty())
    } else {
        match resolve(decls.drop_last()) {
            Err(e) => Err(e),
            Ok(entries) => {
                let d = decls.last();
                match resolve_code(entries, d.discriminant) {
                    Err(e) => Err(e),
                    Ok(c) => if has_label(entries, d.label@) {
                        Err(BuildError::InvalidSource)
                    } else {
                        Ok(entries.push((d.label@, c)))
                    },
                }
            },
        }
    }
}

/// Whether some member of `decls` carries fields.
pub open spec fn any_fields(decls: Seq<Declaration>) -> bool {
    exists|i: int| 0 <= i < decls.len() && #[trigger] decls[i].has_fields
}

/// What building a table from `decls` gives: members with fields are refused
/// before any code is resolved.
pub open spec fn build_result(decls: Seq<Declaration>) -> Result<
    Seq<(Seq<char>, usize)>,
    BuildError,
> {
    if any_fields(decls) {
        Err(BuildError::InvalidSource)
    } else {
        resolve(decls)
    }
}

/// A resolved table: labels are distinct and codes rise strictly in order.
pub open spec fn valid_table(entries: Seq<(Seq<char>, usize)>) -> bool {
    &&& forall|i: int, j: int|
        0 <= i < j < entries.len() ==> #[trigger] entries[i].0 != #[trigger] entries[j].0
    &&& forall|i: int, j: int|
        0 <= i < j < entries.len() ==> #[trigger] entries[i].1 < #[trigger] entries[j].1
}

} // verus!
