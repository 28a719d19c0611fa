//! The in-memory record set: a sequence of name/password records.
//!
//! A record set is viewed as a sequence of (name, password) character
//! sequences. The controller keeps the invariant that no two records share
//! a name ([`wf`]); every mutation here states that it preserves it.

use vstd::prelude::*;
use crate::error::StoreError;

verus! {

/// One name/password pair.
#[derive(Debug)]
pub struct Record {
    pub name: String,
    pub password: String,
}

impl View for Record {
    type V = (Seq<char>, Seq<char>);

    open spec fn view(&self) -> Self::V {
        (self.name@, self.password@)
    }
}

impl Clone for Record {
    fn clone(&self) -> (r: Record)
        ensures
            r@ == self@,
    {
        Record { name: self.name.clone(), password: self.password.clone() }
    }
}

/// The record set, in insertion order.
#[derive(Debug)]
pub struct Records {
    pub records: Vec<Record>,
}

impl View for Records {
    type V = Seq<(Seq<char>, Seq<char>)>;

    open spec fn view(&self) -> Self::V {
        self.records@.map_values(|r: Record| r@)
    }
}

/// Whether some record in `v` has the name `n`.
pub open spec fn contains_name(v: Seq<(Seq<char>, Seq<char>)>, n: Seq<char>) -> bool {
    exists|i: int| 0 <= i < v.len() && v[i].0 == n
}

/// The first record in `v` whose name is `n`, if any.
pub open spec fn lookup(v: Seq<(Seq<char>, Seq<char>)>, n: Seq<char>) -> Option<
    (Seq<char>, Seq<char>),
>
    decreases v.len(),
{
    if v.len() == 0 {
        None
    } else if v[0].0 == n {
        Some(v[0])
    } else {
        lookup(v.drop_first(), n)
    }
}

/// No two records share a name: the set is well-formed.
pub open spec fn wf(v: Seq<(Seq<char>, Seq<char>)>) -> bool {
    forall|i: int, j: int| 0 <= i < v.len() && 0 <= j < v.len() && i != j ==> v[i].0 != v[j].0
}

/// `lookup` finds a record exactly when one with that name is present.
pub proof fn lemma_lookup_contains(v: Seq<(Seq<char>, Seq<char>)>, n: Seq<char>)
    ensures
        lookup(v, n) is Some <==> contains_name(v, n),
        lookup(v, n) matches Some(r) ==> r.0 == n && v.contains(r),
    decreases v.len(),
{
    if v.len() > 0 {
        if v[0].0 == n {
            assert(contains_name(v, n));
        } else {
            lemma_lookup_contains(v.drop_first(), n);
            if contains_name(v, n) {
                let i = choose|i: int| 0 <= i < v.len() && v[i].0 == n;
                assert(v.drop_first()[i - 1] == v[i]);
                assert(contains_name(v.drop_first(), n));
            }
            if lookup(v, n) is Some {
                let r = lookup(v, n)->Some_0;
                assert(v.drop_first().contains(r));
                let i = choose|i: int| 0 <= i < v.drop_first().len() && v.drop_first()[i] == r;
                assert(v[i + 1] == r);
            }
            if contains_name(v.drop_first(), n) {
                let i = choose|i: int| 0 <= i < v.drop_first().len() && v.drop_first()[i].0 == n;
                assert(v[i + 1].0 == n);
            }
        }
    }
}

/// The records of `v` whose name is not `n`, in their original order.
pub open spec fn remove_name(v: Seq<(Seq<char>, Seq<char>)>, n: Seq<char>) -> Seq<
    (Seq<char>, Seq<char>),
> {
    v.filter(|p: (Seq<char>, Seq<char>)| p.0 != n)
}

/// Removing the records of one name never introduces a shared name, and
/// keeps only records of the original set.
pub proof fn lemma_wf_remove_name(v: Seq<(Seq<char>, Seq<char>)>, n: Seq<char>)
    requires
        wf(v),
    ensures
        wf(remove_name(v, n)),
        forall|i: int|
            0 <= i < remove_name(v, n).len() ==> v.contains(#[trigger] remove_name(v, n)[i]),
    decreases v.len(),
{
    reveal(Seq::filter);
    if v.len() > 0 {
        let prefix = v.drop_last();
        assert(wf(prefix)) by {
            assert(forall|i: int| 0 <= i < prefix.len() ==> prefix[i] == v[i]);
        }
        lemma_wf_remove_name(prefix, n);
        let f0 = remove_name(prefix, n);
        let f = remove_name(v, n);
        assert forall|i: int| 0 <= i < f.len() implies v.contains(#[trigger] f[i]) by {
            if v.last().0 != n && i == f.len() - 1 {
                assert(f[i] == v.last());
                assert(v[v.len() - 1] == v.last());
            } else {
                assert(f[i] == f0[i]);
                assert(prefix.contains(f0[i]));
                let k = choose|k: int| 0 <= k < prefix.len() && prefix[k] == f0[i];
                assert(v[k] == f[i]);
            }
        }
        if v.last().0 != n {
            assert(f == f0.push(v.last()));
            assert forall|i: int, j: int|
                0 <= i < f.len() && 0 <= j < f.len() && i != j implies f[i].0 != f[j].0 by {
                if i < f0.len() && j == f0.len() {
                    let k = choose|k: int| 0 <= k < prefix.len() && prefix[k] == f0[i];
                    assert(v[k] == f0[i]);
                    assert(v[k].0 != v[v.len() - 1].0);
                } else if j < f0.len() && i == f0.len() {
                    let k = choose|k: int| 0 <= k < prefix.len() && prefix[k] == f0[j];
                    assert(v[k] == f0[j]);
                    assert(v[k].0 != v[v.len() - 1].0);
                }
            }
        }
    }
}

/// Removing an absent name changes nothing: `remove` is a no-op on it.
pub proof fn lemma_remove_absent(v: Seq<(Seq<char>, Seq<char>)>, n: Seq<char>)
    requires
        !contains_name(v, n),
    ensures
        remove_name(v, n) == v,
    decreases v.len(),
{
    reveal(Seq::filter);
    if v.len() > 0 {
        let prefix = v.drop_last();
        assert(!contains_name(prefix, n)) by {
            if contains_name(prefix, n) {
                let i = choose|i: int| 0 <= i < prefix.len() && prefix[i].0 == n;
                assert(v[i].0 == n);
            }
        }
        lemma_remove_absent(prefix, n);
        assert(v[v.len() - 1].0 != n);
        assert(remove_name(v, n) =~= prefix.push(v.last()));
        assert(prefix.push(v.last()) =~= v);
    } else {
        assert(remove_name(v, n) =~= v);
    }
}

/// Whether a record with name `key` is present.
pub fn is_present(data: &Records, key: &str) -> (r: bool)
    ensures
        r == contains_name(data@, key@),
{
    let k: String = key.to_owned();
    let n = data.records.len();
    let mut i: usize = 0;
    while i < n
        invariant
            n == data.records.len(),
            i <= n,
            k@ == key@,
            forall|j: int| 0 <= j < i ==> data@[j].0 != key@,
        decreases n - i,
    {
        if data.records[i].name == k {
            assert(data@[i as int].0 == key@);
            return true;
        }
        i += 1;
    }
    false
}

/// The first record with name `key`, or `KeyNotFoundError` if none exists.
pub fn find_record<'a>(data: &'a Records, key: String) -> (r: Result<&'a Record, StoreError>)
    ensures
        r matches Ok(rec) ==> lookup(data@, key@) == Some(rec@),
        r matches Err(e) ==> e == StoreError::KeyNotFoundError && !contains_name(data@, key@),
        contains_name(data@, key@) <==> r is Ok,
{
    proof {
        lemma_lookup_contains(data@, key@);
        assert(data@.skip(0) =~= data@);
    }
    let n = data.records.len();
    let mut i: usize = 0;
    while i < n
        invariant
            n == data.records.len(),
            i <= n,
            forall|j: int| 0 <= j < i ==> data@[j].0 != key@,
            lookup(data@, key@) == lookup(data@.skip(i as int), key@),
        decreases n - i,
    {
        if data.records[i].name == key {
            assert(data@.skip(i as int)[0] == data@[i as int]);
            return Ok(&data.records[i]);
        }
        proof {
            assert(data@.skip(i as int)[0] == data@[i as int]);
            assert(data@.skip(i as int).drop_first() =~= data@.skip(i + 1));
        }
        i += 1;
    }
    proof {
        if contains_name(data@, key@) {
            let j = choose|j: int| 0 <= j < data@.len() && data@[j].0 == key@;
            assert(data@[j].0 != key@);
        }
    }
    Err(StoreError::KeyNotFoundError)
}

impl Records {
    /// An empty record set.
    pub fn new() -> (r: Records)
        ensures
            r@ == Seq::<(Seq<char>, Seq<char>)>::empty(),
            wf(r@),
    {
        let r = Records { records: Vec::new() };
        proof {
            assert(r@ =~= Seq::<(Seq<char>, Seq<char>)>::empty());
        }
        r
    }

    /// The number of records.
    pub fn len(&self) -> (r: usize)
        ensures
            r == self@.len(),
    {
        self.records.len()
    }

    /// Appends a record, unless the name is already taken: then the set is
    /// unchanged and the call fails with `DuplicateKeyError`.
    pub fn add(&mut self, name: String, password: String) -> (r: Result<(), StoreError>)
        ensures
            contains_name(old(self)@, name@) ==> r == Err::<(), StoreError>(
                StoreError::DuplicateKeyError,
            ) && final(self)@ == old(self)@,
            !contains_name(old(self)@, name@) ==> r == Ok::<(), StoreError>(()) && final(self)@
                == old(self)@.push((name@, password@)),
            wf(old(self)@) && r is Ok ==> wf(final(self)@),
    {
        if is_present(self, name.as_str()) {
            return Err(StoreError::DuplicateKeyError);
        }
        let ghost pre = self@;
        let ghost nv = name@;
        let ghost pv = password@;
        self.records.push(Record { name, password });
        proof {
            assert(self@ =~= pre.push((nv, pv)));
            if wf(pre) {
                assert forall|i: int, j: int|
                    0 <= i < self@.len() && 0 <= j < self@.len() && i != j
                    implies self@[i].0 != self@[j].0 by {
                    if i == pre.len() as int {
                        assert(pre[j].0 != nv);
                    } else if j == pre.len() as int {
                        assert(pre[i].0 != nv);
                    }
                }
            }
        }
        Ok(())
    }

    /// Removes every record named `key`; removing an absent name is a no-op.
    pub fn remove(&mut self, key: &str)
        ensures
            final(self)@ == remove_name(old(self)@, key@),
            wf(old(self)@) ==> wf(final(self)@),
    {
        let ghost pre = self@;
        let k: String = key.to_owned();
        let mut kept: Vec<Record> = Vec::new();
        let n = self.records.len();
        let mut i: usize = 0;
        proof {
            reveal(Seq::filter);
            assert(pre.take(0) =~= Seq::<(Seq<char>, Seq<char>)>::empty());
            assert(kept@.map_values(|r: Record| r@) =~= remove_name(pre.take(0), key@));
        }
        while i < n
            invariant
                n == self.records.len(),
                i <= n,
                k@ == key@,
                pre == self@,
                kept@.map_values(|r: Record| r@) == remove_name(pre.take(i as int), key@),
            decreases n - i,
        {
            let ghost kept_pre = kept@.map_values(|r: Record| r@);
            proof {
                assert(pre[i as int] == self.records@[i as int]@);
            }
            if !(self.records[i].name == k) {
                kept.push(self.records[i].clone());
                proof {
                    assert(kept@.map_values(|r: Record| r@) =~= kept_pre.push(pre[i as int]));
                }
            }
            proof {
                reveal(Seq::filter);
                let t1 = pre.take(i + 1);
                assert(t1.drop_last() =~= pre.take(i as int));
                assert(t1.last() == pre[i as int]);
                assert(remove_name(t1, key@) == if pre[i as int].0 != key@ {
                    remove_name(pre.take(i as int), key@).push(pre[i as int])
                } else {
                    remove_name(pre.take(i as int), key@)
                });
            }
            i += 1;
        }
        proof {
            assert(pre.take(n as int) =~= pre);
        }
        self.records = kept;
        proof {
            if wf(pre) {
                lemma_wf_remove_name(pre, key@);
            }
        }
    }

    /// Replaces the record named `name` with a new one holding `password`;
    /// if no such record exists the set is unchanged and the call fails with
    /// `KeyNotFoundError`.
    pub fn update(&mut self, name: String, password: String) -> (r: Result<(), StoreError>)
        ensures
            !contains_name(old(self)@, name@) ==> r == Err::<(), StoreError>(
                StoreError::KeyNotFoundError,
            ) && final(self)@ == old(self)@,
            contains_name(old(self)@, name@) ==> r == Ok::<(), StoreError>(()) && final(self)@
                == remove_name(old(self)@, name@).push((name@, password@)),
            wf(old(self)@) ==> wf(final(self)@),
    {
        let ghost pre = self@;
        if !is_present(self, name.as_str()) {
            return Err(StoreError::KeyNotFoundError);
        }
        self.remove(name.as_str());
        let ghost mid = self@;
        let ghost nv = name@;
        let ghost pv = password@;
        self.records.push(Record { name, password });
        proof {
            assert(self@ =~= mid.push((nv, pv)));
            if wf(pre) {
                lemma_wf_remove_name(pre, nv);
                broadcast use vstd::seq_lib::group_filter_ensures;

                assert forall|i: int, j: int|
                    0 <= i < self@.len() && 0 <= j < self@.len() && i != j
                    implies self@[i].0 != self@[j].0 by {
                    if i < mid.len() {
                        assert(mid[i].0 != nv);
                    }
                    if j < mid.len() {
                        assert(mid[j].0 != nv);
                    }
                }
            }
        }
        Ok(())
    }

    /// The names of all records, in order.
    pub fn names(&self) -> (r: Vec<String>)
        ensures
            r@.map_values(|s: String| s@) == self@.map_values(|p: (Seq<char>, Seq<char>)| p.0),
    {
        let mut out: Vec<String> = Vec::new();
        let n = self.records.len();
        let mut i: usize = 0;
        proof {
            assert(out@.map_values(|s: String| s@) =~= self@.map_values(
                |p: (Seq<char>, Seq<char>)| p.0,
            ).take(0));
        }
        while i < n
            invariant
                n == self.records.len(),
                i <= n,
                out@.map_values(|s: String| s@) == self@.map_values(
                    |p: (Seq<char>, Seq<char>)| p.0,
                ).take(i as int),
            decreases n - i,
        {
            let ghost out_pre = out@.map_values(|s: String| s@);
            out.push(self.records[i].name.clone());
            proof {
                assert(out@.map_values(|s: String| s@) =~= out_pre.push(self@[i as int].0));
                assert(self@.map_values(|p: (Seq<char>, Seq<char>)| p.0).take(i + 1) =~= out_pre.push(
                    self@[i as int].0,
                ));
            }
            i += 1;
        }
        proof {
            assert(self@.map_values(|p: (Seq<char>, Seq<char>)| p.0).take(n as int) =~= self@.map_values(
                |p: (Seq<char>, Seq<char>)| p.0,
            ));
        }
        out
    }
}

} // verus!
