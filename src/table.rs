use vstd::prelude::*;

use crate::declaration::{
    any_fields, build_result, has_label, next_code, resolve, resolve_code, valid_table,
    BuildError, Declaration, Discriminant,
};
use crate::linked_map::{insert_label_code, label_codes, new_label_codes};

verus! {

/// Implicit codes of distinct unit members, resolved in order, are their positions.
proof fn lemma_resolve_implicit(decls: Seq<Declaration>)
    requires
        decls.len() <= usize::MAX,
        forall|i: int| 0 <= i < decls.len() ==> (#[trigger] decls[i]).discriminant is Implicit,
        forall|i: int, j: int|
            0 <= i < j < decls.len() ==> (#[trigger] decls[i]).label@ != (#[trigger] decls[j]).label@,
    ensures
        resolve(decls) is Ok,
        resolve(decls)->Ok_0.len() == decls.len(),
        forall|i: int|
            0 <= i < decls.len() ==> #[trigger] resolve(decls)->Ok_0[i] == (decls[i].label@, i as usize),
    decreases decls.len(),
{
    if decls.len() > 0 {
        let prefix = decls.drop_last();
        assert forall|i: int| 0 <= i < prefix.len() implies (#[trigger] prefix[i]).discriminant is Implicit by {
            assert(prefix[i] == decls[i]);
        }
        assert forall|i: int, j: int| 0 <= i < j < prefix.len() implies (#[trigger] prefix[i]).label@
            != (#[trigger] prefix[j]).label@ by {
            assert(prefix[i] == decls[i]);
            assert(prefix[j] == decls[j]);
        }
        lemma_resolve_implicit(prefix);
        let entries = resolve(prefix)->Ok_0;
        let last = decls.len() - 1;
        assert(decls[last].discriminant is Implicit);
        if entries.len() > 0 {
            assert(entries.last() == (prefix[last - 1].label@, (last - 1) as usize));
        }
        assert(next_code(entries) == last);
        if has_label(entries, decls.last().label@) {
            let i = choose|i: int| 0 <= i < entries.len() && #[trigger] entries[i].0 == decls.last().label@;
            assert(entries[i] == (prefix[i].label@, i as usize));
            assert(prefix[i] == decls[i]);
            assert(false);
        }
        let out = resolve(decls)->Ok_0;
        assert(out == entries.push((decls.last().label@, last as usize)));
        assert forall|i: int| 0 <= i < decls.len() implies #[trigger] out[i] == (
            decls[i].label@,
            i as usize,
        ) by {
            if i < last {
                assert(prefix[i] == decls[i]);
            }
        }
    }
}

/// When every member is a unit member without an explicit code and the labels
/// are distinct, the table is built and each label's code is its position.
pub proof fn lemma_implicit_codes_are_positions(decls: Seq<Declaration>)
    requires
        decls.len() <= usize::MAX,
        forall|i: int|
            0 <= i < decls.len() ==> (#[trigger] decls[i]).discriminant is Implicit
                && !decls[i].has_fields,
        forall|i: int, j: int|
            0 <= i < j < decls.len() ==> (#[trigger] decls[i]).label@ != (#[trigger] decls[j]).label@,
    ensures
        build_result(decls) is Ok,
        build_result(decls)->Ok_0.len() == decls.len(),
        forall|i: int|
            0 <= i < decls.len() ==> #[trigger] build_result(decls)->Ok_0[i] == (
                decls[i].label@,
                i as usize,
            ),
{
    lemma_resolve_implicit(decls);
    if any_fields(decls) {
        let i = choose|i: int| 0 <= i < decls.len() && #[trigger] decls[i].has_fields;
        assert(!decls[i].has_fields);
    }
}

/// The label-to-code map of `entries`, filled in order.
pub open spec fn forward_of(entries: Seq<(Seq<char>, usize)>) -> Map<Seq<char>, usize>
    decreases entries.len(),
{
    if entries.len() == 0 {
        Map::empty()
    } else {
        forward_of(entries.drop_last()).insert(entries.last().0, entries.last().1)
    }
}

/// The code-to-label map of `entries`, filled in order.
pub open spec fn reverse_of(entries: Seq<(Seq<char>, usize)>) -> Map<usize, Seq<char>>
    decreases entries.len(),
{
    if entries.len() == 0 {
        Map::empty()
    } else {
        reverse_of(entries.drop_last()).insert(entries.last().1, entries.last().0)
    }
}

/// Whether `code` is the code of some entry.
pub open spec fn has_code(entries: Seq<(Seq<char>, usize)>, code: usize) -> bool {
    exists|i: int| 0 <= i < entries.len() && #[trigger] entries[i].1 == code
}

/// The forward map holds exactly the labels of the entries, each with its code.
pub proof fn lemma_forward_of(entries: Seq<(Seq<char>, usize)>)
    requires
        valid_table(entries),
    ensures
        forall|l: Seq<char>| #[trigger]
            forward_of(entries).contains_key(l) <==> has_label(entries, l),
        forall|i: int|
            0 <= i < entries.len() ==> #[trigger] forward_of(entries)[entries[i].0]
                == entries[i].1,
    decreases entries.len(),
{
    if entries.len() > 0 {
        let prefix = entries.drop_last();
        lemma_forward_of(prefix);
        assert(forward_of(entries) == forward_of(prefix).insert(
            entries.last().0,
            entries.last().1,
        ));
        assert forall|l: Seq<char>| #[trigger]
            forward_of(entries).contains_key(l) <==> has_label(entries, l) by {
            if has_label(entries, l) {
                let i = choose|i: int| 0 <= i < entries.len() && #[trigger] entries[i].0 == l;
                if i < prefix.len() {
                    assert(prefix[i].0 == l);
                }
            }
            if has_label(prefix, l) {
                let i = choose|i: int| 0 <= i < prefix.len() && #[trigger] prefix[i].0 == l;
                assert(entries[i].0 == l);
            }
        }
        assert forall|i: int| 0 <= i < entries.len() implies #[trigger] forward_of(
            entries,
        )[entries[i].0] == entries[i].1 by {
            if i < prefix.len() {
                assert(prefix[i] == entries[i]);
                assert(entries[i].0 != entries[entries.len() - 1].0);
            }
        }
    }
}

/// The reverse map holds exactly the codes of the entries, each with its label.
pub proof fn lemma_reverse_of(entries: Seq<(Seq<char>, usize)>)
    requires
        valid_table(entries),
    ensures
        forall|c: usize| #[trigger] reverse_of(entries).contains_key(c) <==> has_code(entries, c),
        forall|i: int|
            0 <= i < entries.len() ==> #[trigger] reverse_of(entries)[entries[i].1]
                == entries[i].0,
    decreases entries.len(),
{
    if entries.len() > 0 {
        let prefix = entries.drop_last();
        lemma_reverse_of(prefix);
        assert(reverse_of(entries) == reverse_of(prefix).insert(
            entries.last().1,
            entries.last().0,
        ));
        assert forall|c: usize| #[trigger]
            reverse_of(entries).contains_key(c) <==> has_code(entries, c) by {
            if has_code(entries, c) {
                let i = choose|i: int| 0 <= i < entries.len() && #[trigger] entries[i].1 == c;
                if i < prefix.len() {
                    assert(prefix[i].1 == c);
                }
            }
            if has_code(prefix, c) {
                let i = choose|i: int| 0 <= i < prefix.len() && #[trigger] prefix[i].1 == c;
                assert(entries[i].1 == c);
            }
        }
        assert forall|i: int| 0 <= i < entries.len() implies #[trigger] reverse_of(
            entries,
        )[entries[i].1] == entries[i].0 by {
            if i < prefix.len() {
                assert(prefix[i] == entries[i]);
                assert(entries[i].1 < entries[entries.len() - 1].1);
            }
        }
    }
}

/// Whatever resolves is a valid table with one entry per declaration.
pub proof fn lemma_resolve_valid(decls: Seq<Declaration>)
    requires
        resolve(decls) is Ok,
    ensures
        valid_table(resolve(decls)->Ok_0),
        resolve(decls)->Ok_0.len() == decls.len(),
    decreases decls.len(),
{
    if decls.len() > 0 {
        let prefix = decls.drop_last();
        lemma_resolve_valid(prefix);
        let entries = resolve(prefix)->Ok_0;
        let d = decls.last();
        let c = resolve_code(entries, d.discriminant)->Ok_0;
        let out = entries.push((d.label@, c));
        assert forall|i: int, j: int| 0 <= i < j < out.len() implies #[trigger] out[i].0
            != #[trigger] out[j].0 by {
            if j == entries.len() {
                assert(entries[i].0 == out[i].0);
            }
        }
        assert forall|i: int, j: int| 0 <= i < j < out.len() implies #[trigger] out[i].1
            < #[trigger] out[j].1 by {
            if j == entries.len() {
                if i < entries.len() - 1 {
                    assert(entries[i].1 < entries[entries.len() - 1].1);
                }
            }
        }
    }
}

/// A failure in a prefix of the declarations is the failure of the whole.
pub proof fn lemma_resolve_err_extends(decls: Seq<Declaration>, k: int)
    requires
        0 <= k <= decls.len(),
        resolve(decls.take(k)) is Err,
    ensures
        resolve(decls) == resolve(decls.take(k)),
    decreases decls.len() - k,
{
    if k < decls.len() {
        assert(decls.take(k + 1).drop_last() =~= decls.take(k));
        lemma_resolve_err_extends(decls, k + 1);
    } else {
        assert(decls.take(k) =~= decls);
    }
}

/// The entries of a vector of labels and codes, labels seen as characters.
pub open spec fn pairs_view(v: Seq<(String, usize)>) -> Seq<(Seq<char>, usize)> {
    v.map_values(|p: (String, usize)| (p.0@, p.1))
}

/// A resolved discriminant table: labels in declaration order, each with its
/// code. Labels are distinct and codes rise strictly.
pub struct Table {
    entries: Vec<(String, usize)>,
}

impl View for Table {
    type V = Seq<(Seq<char>, usize)>;

    closed spec fn view(&self) -> Seq<(Seq<char>, usize)> {
        pairs_view(self.entries@)
    }
}

impl Table {
    #[verifier::type_invariant]
    closed spec fn inv(&self) -> bool {
        valid_table(self@)
    }

    /// Resolves the codes of `decls` in order. Members with fields are refused
    /// first; after that the first declaration that cannot be resolved decides
    /// the failure.
    pub fn build(decls: &Vec<Declaration>) -> (r: Result<Table, BuildError>)
        ensures
            match r {
                Ok(t) => build_result(decls@) is Ok && build_result(decls@)->Ok_0 == t@,
                Err(e) => build_result(decls@) is Err && build_result(decls@)->Err_0 == e,
            },
    {
        let mut i: usize = 0;
        while i < decls.len()
            invariant
                i <= decls.len(),
                forall|j: int| 0 <= j < i ==> !(#[trigger] decls@[j]).has_fields,
            decreases decls.len() - i,
        {
            if decls[i].has_fields {
                assert(decls@[i as int].has_fields);
                return Err(BuildError::InvalidSource);
            }
            i += 1;
        }
        assert(!any_fields(decls@));
        let mut entries: Vec<(String, usize)> = Vec::new();
        let mut seen = new_label_codes();
        let mut k: usize = 0;
        proof {
            assert(decls@.take(0) =~= Seq::<Declaration>::empty());
            assert(pairs_view(entries@) =~= Seq::<(Seq<char>, usize)>::empty());
            assert(label_codes(seen) =~= forward_of(pairs_view(entries@)));
        }
        while k < decls.len()
            invariant
                k <= decls.len(),
                !any_fields(decls@),
                resolve(decls@.take(k as int)) is Ok,
                resolve(decls@.take(k as int))->Ok_0 == pairs_view(entries@),
                label_codes(seen) == forward_of(pairs_view(entries@)),
            decreases decls.len() - k,
        {
            let ghost before = pairs_view(entries@);
            let d = &decls[k];
            proof {
                lemma_resolve_valid(decls@.take(k as int));
                lemma_forward_of(before);
                assert(decls@.take(k + 1).drop_last() =~= decls@.take(k as int));
                assert(decls@.take(k + 1).last() == decls@[k as int]);
                if entries.len() > 0 {
                    assert(before.last().1 == entries@[entries.len() - 1].1);
                }
            }
            let code: usize = match &d.discriminant {
                Discriminant::Implicit => {
                    if entries.len() == 0 {
                        0
                    } else {
                        let last = entries[entries.len() - 1].1;
                        if last == usize::MAX {
                            proof {
                                lemma_resolve_err_extends(decls@, k + 1);
                            }
                            return Err(BuildError::CodeOverflow);
                        }
                        last + 1
                    }
                },
                Discriminant::Explicit(c) => {
                    if entries.len() > 0 {
                        let last = entries[entries.len() - 1].1;
                        if *c == last {
                            proof {
                                lemma_resolve_err_extends(decls@, k + 1);
                            }
                            return Err(BuildError::DuplicateCode);
                        } else if *c < last {
                            proof {
                                lemma_resolve_err_extends(decls@, k + 1);
                            }
                            return Err(BuildError::NonMonotonicCode);
                        }
                    }
                    *c
                },
                Discriminant::Malformed => {
                    proof {
                        lemma_resolve_err_extends(decls@, k + 1);
                    }
                    return Err(BuildError::InvalidSource);
                },
            };
            assert(resolve_code(before, d.discriminant) == Ok::<usize, BuildError>(code));
            let previous = insert_label_code(&mut seen, d.label.clone(), code);
            if previous.is_some() {
                proof {
                    lemma_resolve_err_extends(decls@, k + 1);
                }
                return Err(BuildError::InvalidSource);
            }
            entries.push((d.label.clone(), code));
            proof {
                let after = pairs_view(entries@);
                assert(after =~= before.push((d.label@, code)));
                assert(after.drop_last() =~= before);
            }
            k += 1;
        }
        proof {
            assert(decls@.take(k as int) =~= decls@);
            lemma_resolve_valid(decls@);
        }
        Ok(Table { entries })
    }

    /// The number of labels.
    pub fn len(&self) -> (r: usize)
        ensures
            r == self@.len(),
    {
        self.entries.len()
    }

    /// The label at position `i`, in declaration order.
    pub fn label(&self, i: usize) -> (r: &String)
        requires
            i < self@.len(),
        ensures
            r@ == self@[i as int].0,
    {
        &self.entries[i].0
    }

    /// The code at position `i`, in declaration order.
    pub fn code(&self, i: usize) -> (r: usize)
        requires
            i < self@.len(),
        ensures
            r == self@[i as int].1,
    {
        self.entries[i].1
    }
}

} // verus!
