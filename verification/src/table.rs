//! A map from text keys to values, held as a list of entries with distinct keys.
use vstd::prelude::*;
use crate::text::string_from_str;

verus! {

/// The map a list of entries denotes; a later entry overrides an earlier one.
pub open spec fn table_map<V>(e: Seq<(Seq<char>, V)>) -> Map<Seq<char>, V>
    decreases e.len(),
{
    if e.len() == 0 {
        Map::empty()
    } else {
        table_map(e.drop_last()).insert(e.last().0, e.last().1)
    }
}

/// No key occurs twice.
pub open spec fn distinct_keys<V>(e: Seq<(Seq<char>, V)>) -> bool {
    forall|i: int, j: int| 0 <= i < j < e.len() ==> (#[trigger] e[i]).0 != (#[trigger] e[j]).0
}

/// The entries of `m` whose value satisfies `keep`.
pub open spec fn keep_where<V>(m: Map<Seq<char>, V>, keep: spec_fn(V) -> bool) -> Map<Seq<char>, V> {
    Map::new(|k: Seq<char>| m.contains_key(k) && keep(m[k]), |k: Seq<char>| m[k])
}

pub proof fn lemma_table_dom<V>(e: Seq<(Seq<char>, V)>, k: Seq<char>)
    ensures
        table_map(e).contains_key(k) <==> exists|i: int| 0 <= i < e.len() && (#[trigger] e[i]).0 == k,
    decreases e.len(),
{
    if e.len() > 0 {
        lemma_table_dom(e.drop_last(), k);
        if table_map(e.drop_last()).contains_key(k) {
            let i = choose|i: int| 0 <= i < e.drop_last().len() && (#[trigger] e.drop_last()[i]).0 == k;
            assert(e[i].0 == k);
        }
        if exists|i: int| 0 <= i < e.len() && (#[trigger] e[i]).0 == k {
            let i = choose|i: int| 0 <= i < e.len() && (#[trigger] e[i]).0 == k;
            if i < e.len() - 1 {
                assert(e.drop_last()[i].0 == k);
            }
        }
    }
}

pub proof fn lemma_table_index<V>(e: Seq<(Seq<char>, V)>, i: int)
    requires
        distinct_keys(e),
        0 <= i < e.len(),
    ensures
        table_map(e).contains_key(e[i].0),
        table_map(e)[e[i].0] == e[i].1,
    decreases e.len(),
{
    if i < e.len() - 1 {
        lemma_table_index(e.drop_last(), i);
        assert(e[i].0 != e.last().0);
    }
}

pub proof fn lemma_table_len<V>(e: Seq<(Seq<char>, V)>)
    requires
        distinct_keys(e),
    ensures
        table_map(e).dom().finite(),
        table_map(e).len() == e.len(),
    decreases e.len(),
{
    if e.len() > 0 {
        lemma_table_len(e.drop_last());
        lemma_table_dom(e.drop_last(), e.last().0);
        if table_map(e.drop_last()).contains_key(e.last().0) {
            let i = choose|i: int| 0 <= i < e.drop_last().len() && (#[trigger] e.drop_last()[i]).0 == e.last().0;
            assert(e[i].0 == e[e.len() - 1].0);
        }
    }
}

pub proof fn lemma_table_remove<V>(e: Seq<(Seq<char>, V)>, i: int)
    requires
        distinct_keys(e),
        0 <= i < e.len(),
    ensures
        distinct_keys(e.remove(i)),
        table_map(e.remove(i)) == table_map(e).remove(e[i].0),
    decreases e.len(),
{
    let r = e.remove(i);
    assert(distinct_keys(r)) by {
        assert forall|a: int, b: int| 0 <= a < b < r.len() implies (#[trigger] r[a]).0 != (#[trigger] r[b]).0 by {
            let a2 = if a < i { a } else { a + 1 };
            let b2 = if b < i { b } else { b + 1 };
            assert(r[a] == e[a2]);
            assert(r[b] == e[b2]);
        }
    }
    if i == e.len() - 1 {
        assert(r =~= e.drop_last());
        lemma_table_dom(e.drop_last(), e[i].0);
        if table_map(e.drop_last()).contains_key(e[i].0) {
            let j = choose|j: int| 0 <= j < e.drop_last().len() && (#[trigger] e.drop_last()[j]).0 == e[i].0;
            assert(e[j].0 == e[i].0);
        }
        assert(table_map(r) =~= table_map(e).remove(e[i].0));
    } else {
        let d = e.drop_last();
        lemma_table_remove(d, i);
        assert(r.drop_last() =~= d.remove(i));
        assert(r.last() == e.last());
        assert(e.last().0 != e[i].0);
        assert(table_map(r) =~= table_map(e).remove(e[i].0));
    }
}

pub proof fn lemma_table_update<V>(e: Seq<(Seq<char>, V)>, i: int, v: V)
    requires
        distinct_keys(e),
        0 <= i < e.len(),
    ensures
        distinct_keys(e.update(i, (e[i].0, v))),
        table_map(e.update(i, (e[i].0, v))) == table_map(e).insert(e[i].0, v),
    decreases e.len(),
{
    let u = e.update(i, (e[i].0, v));
    assert(distinct_keys(u)) by {
        assert forall|a: int, b: int| 0 <= a < b < u.len() implies (#[trigger] u[a]).0 != (#[trigger] u[b]).0 by {
            assert(u[a].0 == e[a].0);
            assert(u[b].0 == e[b].0);
        }
    }
    if i == e.len() - 1 {
        assert(u.drop_last() =~= e.drop_last());
        assert(table_map(u) =~= table_map(e).insert(e[i].0, v));
    } else {
        lemma_table_update(e.drop_last(), i, v);
        assert(u.drop_last() =~= e.drop_last().update(i, (e[i].0, v)));
        assert(e.last().0 != e[i].0);
        assert(table_map(u) =~= table_map(e).insert(e[i].0, v));
    }
}

/// Every entry of `outp` is an entry of `orig` at or after `lo` whose value is kept.
pub open spec fn from_kept<V>(orig: Seq<(Seq<char>, V)>, lo: int, outp: Seq<(Seq<char>, V)>, keep: spec_fn(V) -> bool) -> bool {
    forall|j: int| 0 <= j < outp.len() ==> orig.skip(lo).contains(#[trigger] outp[j]) && keep(outp[j].1)
}

/// Every kept entry of `orig` at or after `lo` is an entry of `outp`.
pub open spec fn covers_kept<V>(orig: Seq<(Seq<char>, V)>, lo: int, outp: Seq<(Seq<char>, V)>, keep: spec_fn(V) -> bool) -> bool {
    forall|m: int| lo <= m < orig.len() && keep(#[trigger] orig[m].1) ==> outp.contains(orig[m])
}

proof fn lemma_skip_contains<V>(orig: Seq<(Seq<char>, V)>, n: int, e: (Seq<char>, V))
    requires
        0 <= n < orig.len(),
        orig.skip(n + 1).contains(e),
    ensures
        orig.skip(n).contains(e),
        exists|m: int| n + 1 <= m < orig.len() && orig[m] == e,
{
    let i = choose|i: int| 0 <= i < orig.skip(n + 1).len() && #[trigger] orig.skip(n + 1)[i] == e;
    assert(orig.skip(n)[i + 1] == e);
    assert(orig[n + 1 + i] == e);
}

proof fn lemma_retain_step<V>(
    orig: Seq<(Seq<char>, V)>,
    n: int,
    outp: Seq<(Seq<char>, V)>,
    kept: bool,
    keep: spec_fn(V) -> bool,
)
    requires
        distinct_keys(orig),
        0 <= n < orig.len(),
        distinct_keys(outp),
        from_kept(orig, n + 1, outp, keep),
        covers_kept(orig, n + 1, outp, keep),
        kept == keep(orig[n].1),
    ensures
        kept ==> distinct_keys(outp.push(orig[n])),
        kept ==> from_kept(orig, n, outp.push(orig[n]), keep),
        kept ==> covers_kept(orig, n, outp.push(orig[n]), keep),
        !kept ==> from_kept(orig, n, outp, keep),
        !kept ==> covers_kept(orig, n, outp, keep),
{
    assert forall|j: int| 0 <= j < outp.len() implies orig.skip(n).contains(#[trigger] outp[j]) && (exists|m: int|
        n + 1 <= m < orig.len() && orig[m] == outp[j]) by {
        lemma_skip_contains(orig, n, outp[j]);
    }
    if kept {
        let newp = outp.push(orig[n]);
        assert forall|a: int, b: int| 0 <= a < b < newp.len() implies (#[trigger] newp[a]).0 != (#[trigger] newp[b]).0 by {
            assert(newp[a] == outp[a]);
            if b == newp.len() - 1 {
                let m = choose|m: int| n + 1 <= m < orig.len() && orig[m] == outp[a];
                assert(orig[m].0 != orig[n].0);
            } else {
                assert(newp[b] == outp[b]);
            }
        }
        assert forall|j: int| 0 <= j < newp.len() implies orig.skip(n).contains(#[trigger] newp[j]) && keep(newp[j].1) by {
            if j == newp.len() - 1 {
                assert(orig.skip(n)[0] == orig[n]);
            } else {
                assert(newp[j] == outp[j]);
            }
        }
        assert forall|m: int| n <= m < orig.len() && keep(#[trigger] orig[m].1) implies newp.contains(orig[m]) by {
            if m == n {
                assert(newp[newp.len() - 1] == orig[m]);
            } else {
                let j = choose|j: int| 0 <= j < outp.len() && outp[j] == orig[m];
                assert(newp[j] == outp[j]);
            }
        }
    } else {
        assert forall|m: int| n <= m < orig.len() && keep(#[trigger] orig[m].1) implies outp.contains(orig[m]) by {
            assert(m != n);
        }
    }
}

proof fn lemma_retain_done<V>(orig: Seq<(Seq<char>, V)>, fp: Seq<(Seq<char>, V)>, keep: spec_fn(V) -> bool)
    requires
        distinct_keys(orig),
        distinct_keys(fp),
        from_kept(orig, 0, fp, keep),
        covers_kept(orig, 0, fp, keep),
    ensures
        table_map(fp) == keep_where(table_map(orig), keep),
        fp.len() <= orig.len(),
{
    lemma_table_len(fp);
    lemma_table_len(orig);
    assert(orig.skip(0) =~= orig);
    let m0 = table_map(orig);
    assert forall|k: Seq<char>| #[trigger] table_map(fp).contains_key(k) == keep_where(m0, keep).contains_key(k) && (
    table_map(fp).contains_key(k) ==> table_map(fp)[k] == keep_where(m0, keep)[k]) by {
        lemma_table_dom(fp, k);
        lemma_table_dom(orig, k);
        if table_map(fp).contains_key(k) {
            let j = choose|j: int| 0 <= j < fp.len() && (#[trigger] fp[j]).0 == k;
            assert(orig.contains(fp[j]));
            let m = choose|m: int| 0 <= m < orig.len() && orig[m] == fp[j];
            lemma_table_index(fp, j);
            lemma_table_index(orig, m);
        }
        if keep_where(m0, keep).contains_key(k) {
            let m = choose|m: int| 0 <= m < orig.len() && (#[trigger] orig[m]).0 == k;
            lemma_table_index(orig, m);
            let j = choose|j: int| 0 <= j < fp.len() && fp[j] == orig[m];
            lemma_table_index(fp, j);
        }
    }
    assert(table_map(fp) =~= keep_where(m0, keep));
    assert(table_map(fp).dom().subset_of(m0.dom()));
    vstd::set_lib::lemma_len_subset(table_map(fp).dom(), m0.dom());
}

/// A test on table values, with the predicate it computes.
pub trait KeepRule<V> {
    spec fn keeps(&self, v: V) -> bool;

    fn test(&self, v: &V) -> (b: bool)
        ensures
            b == self.keeps(*v),
    ;
}

/// A map from text keys to values with at most one entry per key.
#[derive(Debug)]
pub struct KeyedTable<V> {
    entries: Vec<(String, V)>,
}

impl<V> View for KeyedTable<V> {
    type V = Map<Seq<char>, V>;

    closed spec fn view(&self) -> Map<Seq<char>, V> {
        table_map(self.pairs())
    }
}

pub open spec fn pairs_of<V>(v: Seq<(String, V)>) -> Seq<(Seq<char>, V)> {
    v.map_values(|e: (String, V)| (e.0@, e.1))
}

impl<V> KeyedTable<V> {
    /// The entries, keys taken by their text.
    pub closed spec fn pairs(&self) -> Seq<(Seq<char>, V)> {
        pairs_of(self.entries@)
    }

    /// The keys are distinct.
    pub closed spec fn wf(&self) -> bool {
        distinct_keys(self.pairs())
    }

    pub closed spec fn spec_len(&self) -> nat {
        self.entries@.len()
    }

    /// The entry at a position.
    pub closed spec fn entry(&self, i: int) -> (Seq<char>, V) {
        self.pairs()[i]
    }

    pub proof fn lemma_view(&self)
        requires
            self.wf(),
        ensures
            self@.dom().finite(),
            self@.len() == self.spec_len(),
            forall|i: int|
                0 <= i < self.spec_len() ==> self@.contains_key(#[trigger] self.entry(i).0) && self@[self.entry(
                    i,
                ).0] == self.entry(i).1,
            forall|k: Seq<char>|
                #[trigger] self@.contains_key(k) ==> exists|i: int| 0 <= i < self.spec_len() && #[trigger] self.entry(i).0 == k,
    {
        lemma_table_len(self.pairs());
        assert forall|i: int| 0 <= i < self.spec_len() implies self@.contains_key(#[trigger] self.entry(i).0)
            && self@[self.entry(i).0] == self.entry(i).1 by {
            lemma_table_index(self.pairs(), i);
        }
        assert forall|k: Seq<char>| #[trigger] self@.contains_key(k) implies exists|i: int|
            0 <= i < self.spec_len() && #[trigger] self.entry(i).0 == k by {
            lemma_table_dom(self.pairs(), k);
            let i = choose|i: int| 0 <= i < self.pairs().len() && (#[trigger] self.pairs()[i]).0 == k;
            assert(self.entry(i).0 == k);
        }
    }

    pub fn new() -> (r: Self)
        ensures
            r.wf(),
            r@ == Map::<Seq<char>, V>::empty(),
            r.spec_len() == 0,
    {
        let r = KeyedTable { entries: Vec::new() };
        assert(r.pairs() =~= Seq::<(Seq<char>, V)>::empty());
        r
    }

    pub fn len(&self) -> (r: usize)
        requires
            self.wf(),
        ensures
            r == self@.len(),
            r == self.spec_len(),
            self@.dom().finite(),
    {
        proof {
            self.lemma_view();
        }
        self.entries.len()
    }

    /// The position of `key`, if present.
    pub fn position(&self, key: &String) -> (r: Option<usize>)
        requires
            self.wf(),
        ensures
            r matches Some(i) ==> i < self.spec_len() && self.entry(i as int).0 == key@,
            r is None ==> !self@.contains_key(key@),
    {
        proof {
            self.lemma_view();
        }
        let mut i: usize = 0;
        while i < self.entries.len()
            invariant
                self.wf(),
                i <= self.entries@.len(),
                forall|j: int| 0 <= j < i ==> (#[trigger] self.entry(j)).0 != key@,
            decreases self.entries.len() - i,
        {
            assert(self.entry(i as int).0 == self.entries@[i as int].0@);
            if self.entries[i].0 == *key {
                return Some(i);
            }
            i = i + 1;
        }
        proof {
            if self@.contains_key(key@) {
                let j = choose|j: int| 0 <= j < self.spec_len() && #[trigger] self.entry(j).0 == key@;
                assert(self.entry(j).0 != key@);
            }
        }
        None
    }

    /// The key at a position.
    pub fn key_at(&self, i: usize) -> (r: &String)
        requires
            i < self.spec_len(),
        ensures
            r@ == self.entry(i as int).0,
    {
        &self.entries[i].0
    }

    /// The value at a position.
    pub fn value_at(&self, i: usize) -> (r: &V)
        requires
            i < self.spec_len(),
        ensures
            *r == self.entry(i as int).1,
    {
        &self.entries[i].1
    }

    pub fn contains_key(&self, key: &str) -> (r: bool)
        requires
            self.wf(),
        ensures
            r == self@.contains_key(key@),
    {
        let k = string_from_str(key);
        match self.position(&k) {
            Some(i) => {
                proof {
                    self.lemma_view();
                    assert(self@.contains_key(self.entry(i as int).0));
                }
                true
            },
            None => false,
        }
    }

    pub fn get(&self, key: &str) -> (r: Option<&V>)
        requires
            self.wf(),
        ensures
            r matches Some(v) ==> self@.contains_key(key@) && self@[key@] == *v,
            r is None ==> !self@.contains_key(key@),
    {
        let k = string_from_str(key);
        match self.position(&k) {
            Some(i) => {
                proof {
                    self.lemma_view();
                    assert(self@[self.entry(i as int).0] == self.entry(i as int).1);
                }
                Some(&self.entries[i].1)
            },
            None => None,
        }
    }

    /// Sets the value of `key`, adding the key when it is new.
    pub fn insert(&mut self, key: String, value: V)
        requires
            old(self).wf(),
        ensures
            final(self).wf(),
            final(self)@ == old(self)@.insert(key@, value),
            final(self).spec_len() == if old(self)@.contains_key(key@) {
                old(self).spec_len()
            } else {
                old(self).spec_len() + 1
            },
    {
        proof {
            self.lemma_view();
        }
        match self.position(&key) {
            Some(i) => {
                let ghost before = self.pairs();
                proof {
                    lemma_table_update(before, i as int, value);
                }
                self.entries.set(i, (key, value));
                assert(self.pairs() =~= before.update(i as int, (before[i as int].0, value)));
            },
            None => {
                let ghost before = self.pairs();
                let ghost k = key@;
                self.entries.push((key, value));
                assert(self.pairs().drop_last() =~= before);
                assert(self.pairs().last() == (k, value));
                proof {
                    lemma_table_dom(before, k);
                    assert forall|a: int, b: int| 0 <= a < b < self.pairs().len() implies (#[trigger] self.pairs()[a]).0
                        != (#[trigger] self.pairs()[b]).0 by {
                        if b == self.pairs().len() - 1 {
                            assert(before[a].0 == self.pairs()[a].0);
                        } else {
                            assert(before[a] == self.pairs()[a]);
                            assert(before[b] == self.pairs()[b]);
                        }
                    }
                }
            },
        }
    }

    /// Removes the entry at a position.
    pub fn remove_at(&mut self, i: usize)
        requires
            old(self).wf(),
            i < old(self).spec_len(),
        ensures
            final(self).wf(),
            final(self)@ == old(self)@.remove(old(self).entry(i as int).0),
            final(self).spec_len() == old(self).spec_len() - 1,
    {
        let ghost before = self.pairs();
        proof {
            lemma_table_remove(before, i as int);
        }
        self.entries.remove(i);
        assert(self.pairs() =~= before.remove(i as int));
    }

    /// Removes `key`, if present.
    pub fn remove(&mut self, key: &str)
        requires
            old(self).wf(),
        ensures
            final(self).wf(),
            final(self)@ == old(self)@.remove(key@),
    {
        let k = string_from_str(key);
        match self.position(&k) {
            Some(i) => self.remove_at(i),
            None => {
                assert(self@ =~= self@.remove(key@));
            },
        }
    }

    /// Keeps the entries whose value `rule` accepts.
    pub fn retain<R: KeepRule<V>>(&mut self, rule: &R)
        requires
            old(self).wf(),
        ensures
            final(self).wf(),
            final(self)@ == keep_where(old(self)@, |v: V| rule.keeps(v)),
            final(self).spec_len() <= old(self).spec_len(),
    {
        let ghost keep = |v: V| rule.keeps(v);
        let ghost orig = self.pairs();
        let mut rest: Vec<(String, V)> = Vec::new();
        std::mem::swap(&mut rest, &mut self.entries);
        let mut out: Vec<(String, V)> = Vec::new();
        assert(pairs_of(rest@) =~= orig);
        assert(pairs_of(out@) =~= Seq::<(Seq<char>, V)>::empty());
        while rest.len() > 0
            invariant
                distinct_keys(orig),
                rest@.len() <= orig.len(),
                pairs_of(rest@) == orig.take(rest@.len() as int),
                distinct_keys(pairs_of(out@)),
                out@.len() <= orig.len() - rest@.len(),
                from_kept(orig, rest@.len() as int, pairs_of(out@), keep),
                covers_kept(orig, rest@.len() as int, pairs_of(out@), keep),
                keep == (|v: V| rule.keeps(v)),
            decreases rest.len(),
        {
            let ghost n = rest@.len() - 1;
            let ghost outp = pairs_of(out@);
            let e = rest.pop().unwrap();
            assert(orig.take(n + 1)[n] == orig[n as int]);
            assert(pairs_of(rest@) =~= orig.take(n as int));
            assert((e.0@, e.1) == orig[n as int]);
            let kept = rule.test(&e.1);
            proof {
                lemma_retain_step(orig, n, outp, kept, keep);
            }
            if kept {
                out.push(e);
                assert(pairs_of(out@) =~= outp.push(orig[n as int]));
            }
        }
        self.entries = out;
        proof {
            lemma_retain_done(orig, self.pairs(), keep);
        }
    }

    /// Removes every entry.
    pub fn clear(&mut self)
        ensures
            final(self).wf(),
            final(self)@ == Map::<Seq<char>, V>::empty(),
            final(self).spec_len() == 0,
    {
        self.entries = Vec::new();
        assert(self.pairs() =~= Seq::<(Seq<char>, V)>::empty());
    }
}

} // verus!
