//! Name resolution: the tables and columns visible in a query.

use vstd::prelude::*;

use crate::algebra::iu::IURef;
use crate::parser::ast::ColId;
use crate::semana::semana_errors::SemanticError;
use crate::util::strings::{spec_trim, str_eq, trim};

verus! {

#[verifier::external_type_specification]
#[verifier::external_body]
#[verifier::reject_recursive_types(K)]
#[verifier::reject_recursive_types(V)]
#[verifier::reject_recursive_types(S)]
pub struct ExIndexMap<K, V, S>(indexmap::IndexMap<K, V, S>);

/// The entries of an alias index, in insertion order: each alias with the
/// position of its columns.
pub uninterp spec fn alias_entries(m: indexmap::IndexMap<String, usize>) -> Seq<(Seq<char>, usize)>;

/// The value of the first entry with the given key.
pub open spec fn entry_lookup(entries: Seq<(Seq<char>, usize)>, k: Seq<char>) -> Option<usize>
    decreases entries.len(),
{
    if entries.len() == 0 {
        None
    } else if entries[0].0 == k {
        Some(entries[0].1)
    } else {
        entry_lookup(entries.drop_first(), k)
    }
}

/// Looking a key up after an entry is appended: what it found before, or else
/// the appended entry's value where the key is the appended one.
pub proof fn lemma_entry_lookup_push(entries: Seq<(Seq<char>, usize)>, key: Seq<char>, v: usize, k: Seq<char>)
    ensures
        entry_lookup(entries.push((key, v)), k) == match entry_lookup(entries, k) {
            Some(w) => Some(w),
            None => if k == key {
                Some(v)
            } else {
                None
            },
        },
    decreases entries.len(),
{
    let e = entries.push((key, v));
    if entries.len() > 0 {
        assert(e[0] == entries[0]);
        assert(e.drop_first() =~= entries.drop_first().push((key, v)));
        lemma_entry_lookup_push(entries.drop_first(), key, v, k);
    } else {
        assert(e[0] == (key, v));
        assert(e.drop_first() =~= Seq::<(Seq<char>, usize)>::empty());
        assert(entry_lookup(e.drop_first(), k) is None);
    }
}

/// `indexmap::IndexMap::new`: an empty map.
#[verifier::external_body]
fn alias_index_new() -> (m: indexmap::IndexMap<String, usize>)
    ensures
        alias_entries(m).len() == 0,
{
    indexmap::IndexMap::new()
}

/// `indexmap::IndexMap::get`: the value stored for the key, if any.
#[verifier::external_body]
fn alias_index_get(m: &indexmap::IndexMap<String, usize>, k: &str) -> (r: Option<usize>)
    ensures
        r == entry_lookup(alias_entries(*m), k@),
{
    m.get(k).copied()
}

/// `indexmap::IndexMap::insert` of a key that the map does not hold: the
/// entry goes last in order.
#[verifier::external_body]
fn alias_index_insert(m: &mut indexmap::IndexMap<String, usize>, k: String, v: usize)
    requires
        entry_lookup(alias_entries(*old(m)), k@) is None,
    ensures
        alias_entries(*final(m)) == alias_entries(*old(m)).push((k@, v)),
{
    m.insert(k, v);
}

/// A column visible under an alias.
#[derive(Debug)]
pub struct IUMap {
    /// The name the column is referred to by
    pub alias: String,
    /// The IU of the column
    pub iu: IURef,
}

impl IUMap {
    /// A copy of the mapping.
    pub fn dup(&self) -> (r: IUMap)
        ensures
            r == *self,
    {
        IUMap { alias: self.alias.clone(), iu: self.iu.dup() }
    }
}

/// The tables and columns visible in a query, in the order they were added.
pub struct Scope {
    /// Each table name or alias with the position of its columns
    pub ius: indexmap::IndexMap<String, usize>,
    /// The columns of each table or alias
    pub columns: Vec<Vec<IUMap>>,
}

/// The first column of the list with the given alias.
pub open spec fn find_alias(maps: Seq<IUMap>, column: Seq<char>) -> Option<IURef>
    decreases maps.len(),
{
    if maps.len() == 0 {
        None
    } else if maps[0].alias@ == column {
        Some(maps[0].iu)
    } else {
        find_alias(maps.drop_first(), column)
    }
}

/// All visible columns, table by table, in order.
pub open spec fn all_maps(columns: Seq<Vec<IUMap>>) -> Seq<IUMap>
    decreases columns.len(),
{
    if columns.len() == 0 {
        Seq::empty()
    } else {
        all_maps(columns.drop_last()) + columns.last()@
    }
}

/// The columns of the list with the given alias.
pub open spec fn matching(maps: Seq<IUMap>, column: Seq<char>) -> Seq<IUMap>
    decreases maps.len(),
{
    if maps.len() == 0 {
        Seq::empty()
    } else {
        matching(maps.drop_last(), column) + if maps.last().alias@ == column {
            seq![maps.last()]
        } else {
            Seq::empty()
        }
    }
}

/// The matching columns of a concatenation are those of its parts.
pub proof fn lemma_matching_concat(a: Seq<IUMap>, b: Seq<IUMap>, column: Seq<char>)
    ensures
        matching(a + b, column) == matching(a, column) + matching(b, column),
    decreases b.len(),
{
    if b.len() == 0 {
        assert(a + b =~= a);
        assert(matching(a, column) + matching(b, column) =~= matching(a, column));
    } else {
        lemma_matching_concat(a, b.drop_last(), column);
        assert((a + b).drop_last() =~= a + b.drop_last());
        assert((a + b).last() == b.last());
    }
}

/// The columns of a list of tables are those of its parts.
pub proof fn lemma_all_maps_concat(a: Seq<Vec<IUMap>>, b: Seq<Vec<IUMap>>)
    ensures
        all_maps(a + b) == all_maps(a) + all_maps(b),
    decreases b.len(),
{
    if b.len() == 0 {
        assert(a + b =~= a);
        assert(all_maps(a) + all_maps(b) =~= all_maps(a));
    } else {
        lemma_all_maps_concat(a, b.drop_last());
        assert((a + b).drop_last() =~= a + b.drop_last());
        assert(all_maps(a) + all_maps(b) =~= all_maps(a) + all_maps(b.drop_last()) + b.last()@);
    }
}

impl Scope {
    /// The aliases and the columns agree: the `i`-th alias refers to the
    /// `i`-th list of columns, and no alias occurs twice.
    pub open spec fn wf(&self) -> bool {
        &&& alias_entries(self.ius).len() == self.columns@.len()
        &&& forall|i: int|
            0 <= i < self.columns@.len() ==> (#[trigger] alias_entries(self.ius)[i]).1 == i
        &&& forall|i: int, j: int|
            0 <= i < j < self.columns@.len() ==> (#[trigger] alias_entries(self.ius)[i]).0
                != (#[trigger] alias_entries(self.ius)[j]).0
    }

    /// The columns visible under the alias, if it is in scope.
    pub open spec fn columns_of(&self, alias: Seq<char>) -> Option<Seq<IUMap>> {
        match entry_lookup(alias_entries(self.ius), alias) {
            Some(i) => Some(self.columns@[i as int]@),
            None => None,
        }
    }

    /// What a column reference resolves to.
    pub open spec fn resolve(&self, c: ColId) -> Result<IURef, SemanticError> {
        let table = spec_trim(c.table@);
        let column = spec_trim(c.column@);
        if table.len() > 0 {
            match self.columns_of(table) {
                Some(maps) => match find_alias(maps, column) {
                    Some(iu) => Ok(iu),
                    None => Err(SemanticError::UnknownColumnInTable(arbitrary(), arbitrary())),
                },
                None => Err(SemanticError::UnknownTable(arbitrary())),
            }
        } else {
            let ms = matching(all_maps(self.columns@), column);
            if ms.len() == 1 {
                Ok(ms[0].iu)
            } else if ms.len() == 0 {
                Err(SemanticError::UnknownColumn(arbitrary()))
            } else {
                Err(SemanticError::AmbiguousColumn(arbitrary()))
            }
        }
    }
}

/// Two resolution results agree: the same IU, or an error of the same kind
/// naming the same texts.
pub open spec fn same_resolution(r: Result<IURef, SemanticError>, s: Result<IURef, SemanticError>, table: Seq<char>, column: Seq<char>) -> bool {
    match (r, s) {
        (Ok(a), Ok(b)) => a == b,
        (Err(SemanticError::UnknownColumnInTable(t, c)), Err(SemanticError::UnknownColumnInTable(_, _))) => t@ == table && c@ == column,
        (Err(SemanticError::UnknownTable(t)), Err(SemanticError::UnknownTable(_))) => t@ == table,
        (Err(SemanticError::UnknownColumn(c)), Err(SemanticError::UnknownColumn(_))) => c@ == column,
        (Err(SemanticError::AmbiguousColumn(c)), Err(SemanticError::AmbiguousColumn(_))) => c@ == column,
        _ => false,
    }
}

/// What the first-entry lookup finds.
pub proof fn lemma_entry_lookup(entries: Seq<(Seq<char>, usize)>, k: Seq<char>)
    ensures
        match entry_lookup(entries, k) {
            Some(v) => exists|i: int|
                0 <= i < entries.len() && #[trigger] entries[i] == (k, v) && forall|j: int|
                    0 <= j < i ==> (#[trigger] entries[j]).0 != k,
            None => forall|i: int| 0 <= i < entries.len() ==> (#[trigger] entries[i]).0 != k,
        },
    decreases entries.len(),
{
    if entries.len() > 0 {
        let rest = entries.drop_first();
        lemma_entry_lookup(rest, k);
        if entries[0].0 == k {
            assert(entries[0] == (k, entries[0].1));
        } else {
            match entry_lookup(rest, k) {
                Some(v) => {
                    let i = choose|i: int|
                        0 <= i < rest.len() && #[trigger] rest[i] == (k, v) && forall|j: int|
                            0 <= j < i ==> (#[trigger] rest[j]).0 != k;
                    assert(entries[i + 1] == rest[i]);
                    assert forall|j: int| 0 <= j < i + 1 implies (#[trigger] entries[j]).0 != k by {
                        if j > 0 {
                            assert(entries[j] == rest[j - 1]);
                        }
                    }
                },
                None => {
                    assert forall|i: int| 0 <= i < entries.len() implies (#[trigger] entries[i]).0 != k by {
                        if i > 0 {
                            assert(entries[i] == rest[i - 1]);
                        }
                    }
                },
            }
        }
    }
}

/// The aliases in scope.
pub open spec fn scope_keys(s: Scope) -> Set<Seq<char>> {
    Set::new(|k: Seq<char>| s.columns_of(k) is Some)
}

impl Scope {
    /// A scope with nothing in it.
    pub fn new() -> (s: Self)
        ensures
            s.wf(),
            s.columns@.len() == 0,
    {
        Scope { ius: alias_index_new(), columns: Vec::new() }
    }

    /// Resolves a column reference: `table.column` among the columns of that
    /// table or alias; `column` among all visible columns, where it must
    /// occur exactly once.
    pub fn iu(&self, c: &ColId) -> (r: Result<IURef, SemanticError>)
        requires
            self.wf(),
        ensures
            same_resolution(r, self.resolve(*c), spec_trim(c.table@), spec_trim(c.column@)),
    {
        let table = trim(c.table.as_str());
        let column = trim(c.column.as_str());
        if table.unicode_len() > 0 {
            proof {
                lemma_entry_lookup(alias_entries(self.ius), table@);
            }
            match alias_index_get(&self.ius, table) {
                Some(i) => {
                    proof {
                        let w = choose|w: int|
                            0 <= w < alias_entries(self.ius).len() && #[trigger] alias_entries(
                                self.ius,
                            )[w] == (table@, i) && forall|j: int|
                                0 <= j < w ==> (#[trigger] alias_entries(self.ius)[j]).0
                                    != table@;
                        assert(alias_entries(self.ius)[w].1 == w);
                    }
                    let cols = &self.columns[i];
                    let n = cols.len();
                    let mut k: usize = 0;
                    assert(cols@.skip(0) =~= cols@);
                    while k < n
                        invariant
                            k <= n,
                            n == cols@.len(),
                            find_alias(cols@, column@) == find_alias(cols@.skip(k as int), column@),
                            entry_lookup(alias_entries(self.ius), table@) == Some(i),
                            i < self.columns@.len(),
                            *cols == self.columns@[i as int],
                            table@ == spec_trim(c.table@),
                            column@ == spec_trim(c.column@),
                            table@.len() > 0,
                        decreases n - k,
                    {
                        assert(cols@.skip(k as int).drop_first() =~= cols@.skip(k + 1));
                        assert(cols@.skip(k as int)[0] == cols@[k as int]);
                        if str_eq(cols[k].alias.as_str(), column) {
                            let r = cols[k].iu.dup();
                            assert(entry_lookup(alias_entries(self.ius), table@) == Some(i));
                            assert(*cols == self.columns@[i as int]);
                            assert(self.columns_of(table@) == Some(cols@));
                            assert(find_alias(cols@.skip(k as int), column@) == Some(cols@[k as int].iu));
                            assert(self.resolve(*c) == Ok::<IURef, SemanticError>(r));
                            return Ok(r);
                        }
                        k = k + 1;
                    }
                    Err(SemanticError::UnknownColumnInTable(String::from_str(table), String::from_str(column)))
                },
                None => Err(SemanticError::UnknownTable(String::from_str(table))),
            }
        } else {
            let ghost all = all_maps(self.columns@);
            let mut found: Option<IURef> = None;
            let nt = self.columns.len();
            let mut t: usize = 0;
            assert(self.columns@.take(0) =~= Seq::<Vec<IUMap>>::empty());
            while t < nt
                invariant
                    t <= nt,
                    nt == self.columns@.len(),
                    all == all_maps(self.columns@),
                    table@ == spec_trim(c.table@),
                    column@ == spec_trim(c.column@),
                    table@.len() == 0,
                    match found {
                        None => matching(all_maps(self.columns@.take(t as int)), column@).len() == 0,
                        Some(iu) => {
                            &&& matching(all_maps(self.columns@.take(t as int)), column@).len() == 1
                            &&& matching(all_maps(self.columns@.take(t as int)), column@)[0].iu == iu
                        },
                    },
                decreases nt - t,
            {
                let cols = &self.columns[t];
                let ghost before = all_maps(self.columns@.take(t as int));
                let n = cols.len();
                let mut k: usize = 0;
                assert(before + cols@.take(0) =~= before);
                while k < n
                    invariant
                        k <= n,
                        n == cols@.len(),
                        t < nt,
                        nt == self.columns@.len(),
                        *cols == self.columns@[t as int],
                        all == all_maps(self.columns@),
                        before == all_maps(self.columns@.take(t as int)),
                        table@ == spec_trim(c.table@),
                        column@ == spec_trim(c.column@),
                        table@.len() == 0,
                        match found {
                            None => matching(before + cols@.take(k as int), column@).len() == 0,
                            Some(iu) => {
                                &&& matching(before + cols@.take(k as int), column@).len() == 1
                                &&& matching(before + cols@.take(k as int), column@)[0].iu == iu
                            },
                        },
                    decreases n - k,
                {
                    let ghost p = before + cols@.take(k as int);
                    assert((before + cols@.take(k + 1)).drop_last() =~= p);
                    assert((before + cols@.take(k + 1)).last() == cols@[k as int]);
                    if str_eq(cols[k].alias.as_str(), column) {
                        if found.is_some() {
                            proof {
                                let q = before + cols@.take(k + 1);
                                assert(matching(q, column@).len() == 2);
                                lemma_all_maps_concat(self.columns@.take(t as int), self.columns@.skip(t as int));
                                assert(self.columns@ =~= self.columns@.take(t as int) + self.columns@.skip(t as int));
                                let rest = self.columns@.skip(t as int);
                                assert(all_maps(rest) =~= all_maps(seq![rest[0]] + rest.drop_first())) by {
                                    assert(rest =~= seq![rest[0]] + rest.drop_first());
                                }
                                lemma_all_maps_concat(seq![rest[0]], rest.drop_first());
                                assert(all_maps(seq![rest[0]]) =~= rest[0]@) by {
                                    let one = seq![rest[0]];
                                    assert(one.drop_last() =~= Seq::<Vec<IUMap>>::empty());
                                    assert(one.last() == rest[0]);
                                    assert(all_maps(one.drop_last()) =~= Seq::<IUMap>::empty());
                                    assert(all_maps(one) == all_maps(one.drop_last()) + one.last()@);
                                }
                                assert(rest[0]@ =~= cols@.take(k + 1) + cols@.skip(k + 1));
                                assert(all =~= q + (cols@.skip(k + 1) + all_maps(rest.drop_first())));
                                lemma_matching_concat(q, cols@.skip(k + 1) + all_maps(rest.drop_first()), column@);
                            }
                            return Err(SemanticError::AmbiguousColumn(String::from_str(column)));
                        }
                        found = Some(cols[k].iu.dup());
                    }
                    k = k + 1;
                }
                proof {
                    assert(cols@.take(n as int) =~= cols@);
                    assert(self.columns@.take(t + 1).drop_last() =~= self.columns@.take(t as int));
                    assert(self.columns@.take(t + 1).last() == *cols);
                }
                t = t + 1;
            }
            assert(self.columns@.take(nt as int) =~= self.columns@);
            match found {
                Some(iu) => Ok(iu),
                None => Err(SemanticError::UnknownColumn(String::from_str(column))),
            }
        }
    }

    /// Adds the columns of a table or subquery under an alias; an alias that
    /// is in scope already is refused.
    pub fn add_ius(&mut self, alias: &str, ius: Vec<IUMap>) -> (r: Result<(), SemanticError>)
        requires
            old(self).wf(),
        ensures
            final(self).wf(),
            match old(self).columns_of(alias@) {
                Some(_) => r matches Err(SemanticError::DuplicateAlias(a)) && a@ == alias@
                    && final(self).columns@ == old(self).columns@ && alias_entries(final(self).ius)
                    == alias_entries(old(self).ius),
                None => {
                    &&& r is Ok
                    &&& final(self).columns@ == old(self).columns@.push(ius)
                    &&& alias_entries(final(self).ius) == alias_entries(old(self).ius).push(
                        (alias@, old(self).columns@.len() as usize),
                    )
                    &&& scope_keys(*final(self)) == scope_keys(*old(self)).insert(alias@)
                },
            },
    {
        proof {
            lemma_entry_lookup(alias_entries(self.ius), alias@);
        }
        if alias_index_get(&self.ius, alias).is_some() {
            return Err(SemanticError::DuplicateAlias(String::from_str(alias)));
        }
        let n = self.columns.len();
        alias_index_insert(&mut self.ius, String::from_str(alias), n);
        self.columns.push(ius);
        proof {
            let e0 = alias_entries(old(self).ius);
            assert forall|k: Seq<char>| #[trigger] scope_keys(*self).contains(k) == scope_keys(*old(self)).insert(alias@).contains(k) by {
                lemma_entry_lookup_push(e0, alias@, n, k);
            }
            assert(scope_keys(*self) =~= scope_keys(*old(self)).insert(alias@));
            let e = alias_entries(self.ius);
            assert forall|i: int, j: int| 0 <= i < j < self.columns@.len() implies (#[trigger] e[i]).0
                != (#[trigger] e[j]).0 by {
                if j == n {
                    assert(e[i] == alias_entries(old(self).ius)[i]);
                }
            }
        }
        Ok(())
    }

    /// All visible IUs, table by table, in order.
    pub fn all_ius(&self) -> (r: Vec<IURef>)
        ensures
            r@ == all_maps(self.columns@).map_values(|m: IUMap| m.iu),
    {
        let mut r: Vec<IURef> = Vec::new();
        let nt = self.columns.len();
        let mut t: usize = 0;
        assert(self.columns@.take(0) =~= Seq::<Vec<IUMap>>::empty());
        while t < nt
            invariant
                t <= nt,
                nt == self.columns@.len(),
                r@ == all_maps(self.columns@.take(t as int)).map_values(|m: IUMap| m.iu),
            decreases nt - t,
        {
            let cols = &self.columns[t];
            let ghost before = all_maps(self.columns@.take(t as int));
            let n = cols.len();
            let mut k: usize = 0;
            while k < n
                invariant
                    k <= n,
                    n == cols@.len(),
                    t < nt,
                    nt == self.columns@.len(),
                    *cols == self.columns@[t as int],
                    before == all_maps(self.columns@.take(t as int)),
                    r@ == (before + cols@.take(k as int)).map_values(|m: IUMap| m.iu),
                decreases n - k,
            {
                r.push(cols[k].iu.dup());
                k = k + 1;
                assert(r@ =~= (before + cols@.take(k as int)).map_values(|m: IUMap| m.iu));
            }
            proof {
                assert(cols@.take(n as int) =~= cols@);
                assert(self.columns@.take(t + 1).drop_last() =~= self.columns@.take(t as int));
                assert(self.columns@.take(t + 1).last() == *cols);
            }
            t = t + 1;
        }
        assert(self.columns@.take(nt as int) =~= self.columns@);
        r
    }
}

} // verus!
