use linked_hash_map::LinkedHashMap;
use vstd::prelude::*;

use crate::declaration::{has_label, valid_table};
use crate::linked_map::{
    code_labels, get_code_label, get_label_code, insert_code_label, insert_label_code,
    label_codes, new_code_labels, new_label_codes,
};
use crate::table::{forward_of, has_code, lemma_forward_of, lemma_reverse_of, reverse_of, Table};

verus! {

/// Why a lookup found nothing.
#[derive(Clone, Copy, Debug, PartialEq, Eq)]
pub enum LookupError {
    /// The label is not in the table.
    UnknownLabel,
    /// No label has the code.
    UnknownCode,
}

/// What looking up `label` in `entries` gives.
pub open spec fn code_of(entries: Seq<(Seq<char>, usize)>, label: Seq<char>) -> Result<
    usize,
    LookupError,
> {
    if forward_of(entries).contains_key(label) {
        Ok(forward_of(entries)[label])
    } else {
        Err(LookupError::UnknownLabel)
    }
}

/// What looking up `code` in `entries` gives.
pub open spec fn label_of(entries: Seq<(Seq<char>, usize)>, code: usize) -> Result<
    Seq<char>,
    LookupError,
> {
    if reverse_of(entries).contains_key(code) {
        Ok(reverse_of(entries)[code])
    } else {
        Err(LookupError::UnknownCode)
    }
}

/// Lookups in both directions over one table. Each direction has a cache that
/// the first lookup in that direction fills from the table; later lookups
/// read the cache and leave the registry as it is.
pub struct Registry {
    table: Table,
    forward: Option<LinkedHashMap<String, usize>>,
    reverse: Option<LinkedHashMap<usize, String>>,
}

impl Registry {
    /// The table the registry answers for.
    pub closed spec fn table(&self) -> Seq<(Seq<char>, usize)> {
        self.table@
    }

    /// Whether the label-to-code cache has been filled.
    pub closed spec fn forward_built(&self) -> bool {
        self.forward is Some
    }

    /// Whether the code-to-label cache has been filled.
    pub closed spec fn reverse_built(&self) -> bool {
        self.reverse is Some
    }

    /// A filled cache holds exactly what the table maps.
    pub closed spec fn wf(&self) -> bool {
        &&& (self.forward matches Some(m) ==> label_codes(m) == forward_of(self.table@))
        &&& (self.reverse matches Some(m) ==> code_labels(m) == reverse_of(self.table@))
    }

    /// A registry over `table` with both caches still empty.
    pub fn new(table: Table) -> (r: Registry)
        ensures
            r.wf(),
            r.table() == table@,
            !r.forward_built(),
            !r.reverse_built(),
    {
        Registry { table, forward: None, reverse: None }
    }

    /// Fills the label-to-code cache, unless it was filled before.
    fn build_forward(&mut self)
        requires
            old(self).wf(),
        ensures
            final(self).wf(),
            final(self).forward_built(),
            final(self).table() == old(self).table(),
            final(self).reverse_built() == old(self).reverse_built(),
            old(self).forward_built() ==> *final(self) == *old(self),
    {
        if self.forward.is_none() {
            let mut m = new_label_codes();
            let n = self.table.len();
            let mut i: usize = 0;
            proof {
                assert(self.table@.take(0) =~= Seq::<(Seq<char>, usize)>::empty());
            }
            while i < n
                invariant
                    n == self.table@.len(),
                    i <= n,
                    label_codes(m) == forward_of(self.table@.take(i as int)),
                decreases n - i,
            {
                let label = self.table.label(i).clone();
                let code = self.table.code(i);
                insert_label_code(&mut m, label, code);
                proof {
                    assert(self.table@.take(i + 1).drop_last() =~= self.table@.take(i as int));
                }
                i += 1;
            }
            proof {
                assert(self.table@.take(n as int) =~= self.table@);
            }
            self.forward = Some(m);
        }
    }

    /// Fills the code-to-label cache, unless it was filled before.
    fn build_reverse(&mut self)
        requires
            old(self).wf(),
        ensures
            final(self).wf(),
            final(self).reverse_built(),
            final(self).table() == old(self).table(),
            final(self).forward_built() == old(self).forward_built(),
            old(self).reverse_built() ==> *final(self) == *old(self),
    {
        if self.reverse.is_none() {
            let mut m = new_code_labels();
            let n = self.table.len();
            let mut i: usize = 0;
            proof {
                assert(self.table@.take(0) =~= Seq::<(Seq<char>, usize)>::empty());
            }
            while i < n
                invariant
                    n == self.table@.len(),
                    i <= n,
                    code_labels(m) == reverse_of(self.table@.take(i as int)),
                decreases n - i,
            {
                let label = self.table.label(i).clone();
                let code = self.table.code(i);
                insert_code_label(&mut m, code, label);
                proof {
                    assert(self.table@.take(i + 1).drop_last() =~= self.table@.take(i as int));
                }
                i += 1;
            }
            proof {
                assert(self.table@.take(n as int) =~= self.table@);
            }
            self.reverse = Some(m);
        }
    }

    /// The code of `label`. Fills the label-to-code cache on first use; once
    /// it is filled the registry is left unchanged.
    pub fn to_code(&mut self, label: &str) -> (r: Result<usize, LookupError>)
        requires
            old(self).wf(),
        ensures
            r == code_of(old(self).table(), label@),
            final(self).wf(),
            final(self).forward_built(),
            final(self).table() == old(self).table(),
            final(self).reverse_built() == old(self).reverse_built(),
            old(self).forward_built() ==> *final(self) == *old(self),
    {
        self.build_forward();
        match &self.forward {
            Some(m) => match get_label_code(m, label) {
                Some(code) => Ok(code),
                None => Err(LookupError::UnknownLabel),
            },
            None => Err(LookupError::UnknownLabel),
        }
    }

    /// The label whose code is `code`. Fills the code-to-label cache on first
    /// use; once it is filled the registry is left unchanged.
    pub fn from_code(&mut self, code: usize) -> (r: Result<String, LookupError>)
        requires
            old(self).wf(),
        ensures
            match r {
                Ok(s) => label_of(old(self).table(), code) is Ok && s@ == label_of(
                    old(self).table(),
                    code,
                )->Ok_0,
                Err(e) => label_of(old(self).table(), code) is Err && e == label_of(
                    old(self).table(),
                    code,
                )->Err_0,
            },
            final(self).wf(),
            final(self).reverse_built(),
            final(self).table() == old(self).table(),
            final(self).forward_built() == old(self).forward_built(),
            old(self).reverse_built() ==> *final(self) == *old(self),
    {
        self.build_reverse();
        match &self.reverse {
            Some(m) => match get_code_label(m, code) {
                Some(s) => Ok(s),
                None => Err(LookupError::UnknownCode),
            },
            None => Err(LookupError::UnknownCode),
        }
    }

    /// Whether some label has the code `code`. Fills the code-to-label cache on
    /// first use; once it is filled the registry is left unchanged.
    pub fn is_valid_code(&mut self, code: usize) -> (r: bool)
        requires
            old(self).wf(),
        ensures
            r == reverse_of(old(self).table()).contains_key(code),
            final(self).wf(),
            final(self).reverse_built(),
            final(self).table() == old(self).table(),
            final(self).forward_built() == old(self).forward_built(),
            old(self).reverse_built() ==> *final(self) == *old(self),
    {
        self.build_reverse();
        match &self.reverse {
            Some(m) => get_code_label(m, code).is_some(),
            None => false,
        }
    }

    /// The code of `label` as a signed 64-bit integer: the same bits, read as
    /// `i64`.
    pub fn to_i64(&mut self, label: &str) -> (r: Result<i64, LookupError>)
        requires
            old(self).wf(),
        ensures
            code_of(old(self).table(), label@) is Ok ==> r is Ok && r->Ok_0 == code_of(
                old(self).table(),
                label@,
            )->Ok_0 as i64,
            code_of(old(self).table(), label@) is Err ==> r == Err::<i64, LookupError>(
                LookupError::UnknownLabel,
            ),
            final(self).wf(),
            final(self).forward_built(),
            final(self).table() == old(self).table(),
            final(self).reverse_built() == old(self).reverse_built(),
            old(self).forward_built() ==> *final(self) == *old(self),
    {
        match self.to_code(label) {
            Ok(code) => Ok(code as i64),
            Err(e) => Err(e),
        }
    }

    /// The code of `label` as an unsigned 64-bit integer.
    pub fn to_u64(&mut self, label: &str) -> (r: Result<u64, LookupError>)
        requires
            old(self).wf(),
        ensures
            code_of(old(self).table(), label@) is Ok ==> r is Ok && r->Ok_0 == code_of(
                old(self).table(),
                label@,
            )->Ok_0 as u64,
            code_of(old(self).table(), label@) is Err ==> r == Err::<u64, LookupError>(
                LookupError::UnknownLabel,
            ),
            final(self).wf(),
            final(self).forward_built(),
            final(self).table() == old(self).table(),
            final(self).reverse_built() == old(self).reverse_built(),
            old(self).forward_built() ==> *final(self) == *old(self),
    {
        match self.to_code(label) {
            Ok(code) => Ok(code as u64),
            Err(e) => Err(e),
        }
    }

    /// Whether the label-to-code cache has been filled.
    pub fn is_forward_built(&self) -> (r: bool)
        ensures
            r == self.forward_built(),
    {
        self.forward.is_some()
    }

    /// Whether the code-to-label cache has been filled.
    pub fn is_reverse_built(&self) -> (r: bool)
        ensures
            r == self.reverse_built(),
    {
        self.reverse.is_some()
    }
}

/// In a valid table, looking a declared label's code back up gives the label.
pub proof fn lemma_label_round_trip(entries: Seq<(Seq<char>, usize)>, label: Seq<char>)
    requires
        valid_table(entries),
        has_label(entries, label),
    ensures
        code_of(entries, label) is Ok,
        label_of(entries, code_of(entries, label)->Ok_0) is Ok,
        label_of(entries, code_of(entries, label)->Ok_0)->Ok_0 == label,
{
    lemma_forward_of(entries);
    lemma_reverse_of(entries);
    let i = choose|i: int| 0 <= i < entries.len() && #[trigger] entries[i].0 == label;
    assert(forward_of(entries)[entries[i].0] == entries[i].1);
    assert(reverse_of(entries)[entries[i].1] == entries[i].0);
    assert(has_code(entries, entries[i].1));
}

/// In a valid table, looking a used code's label back up gives the code.
pub proof fn lemma_code_round_trip(entries: Seq<(Seq<char>, usize)>, code: usize)
    requires
        valid_table(entries),
        has_code(entries, code),
    ensures
        label_of(entries, code) is Ok,
        code_of(entries, label_of(entries, code)->Ok_0) is Ok,
        code_of(entries, label_of(entries, code)->Ok_0)->Ok_0 == code,
{
    lemma_forward_of(entries);
    lemma_reverse_of(entries);
    let i = choose|i: int| 0 <= i < entries.len() && #[trigger] entries[i].1 == code;
    assert(forward_of(entries)[entries[i].0] == entries[i].1);
    assert(reverse_of(entries)[entries[i].1] == entries[i].0);
    assert(has_label(entries, entries[i].0));
}

/// A code is valid exactly when some label of the table has it.
pub proof fn lemma_valid_code(entries: Seq<(Seq<char>, usize)>, code: usize)
    requires
        valid_table(entries),
    ensures
        reverse_of(entries).contains_key(code) <==> has_code(entries, code),
{
    lemma_reverse_of(entries);
}

} // verus!
