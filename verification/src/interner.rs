//! Header interning: canonicalizes column-name text into lightweight,
//! identity-comparable handles with reference counts.
//!
//! The cache never reclaims the backing text: releasing a handle only lowers
//! its count, so a handle stays valid for the cache's whole life. This is the
//! simple, safe reclamation policy; the cost is slow growth in the set of
//! distinct header names ever interned.
//!
//! The cache is a plain value. A host that shares one cache across engines on
//! several threads guards it with a lock of its own and takes that lock once
//! per engine at header-read time and once at disposal.

use vstd::prelude::*;

verus! {

/// Failure while interning.
#[derive(Debug, Clone, Copy, PartialEq, Eq, Structural)]
pub enum CacheError {
    /// A reference count cannot go any higher.
    CounterSaturated,
}

/// An interned column name: a cheap, identity-comparable handle. Equality of
/// handles from one cache is equality of the names they stand for.
#[derive(Debug, Clone, Copy, PartialEq, Eq, Structural, Hash)]
pub struct StringCacheKey {
    id: usize,
}

impl StringCacheKey {
    /// The handle's index into the cache that issued it.
    pub closed spec fn spec_id(self) -> int {
        self.id as int
    }

    pub fn id(self) -> (r: usize)
        ensures
            r as int == self.spec_id(),
    {
        self.id
    }
}

/// The indices that a sequence of handles points at.
pub open spec fn ids_of(ks: Seq<StringCacheKey>) -> Seq<int> {
    ks.map_values(|k: StringCacheKey| k.spec_id())
}

struct InternEntry {
    text: Vec<u8>,
    refcount: u64,
}

/// The process-wide header-text cache: a mapping from header text to a handle
/// (its slot index) and a reference count.
pub struct StringCache {
    entries: Vec<InternEntry>,
}

/// One interning step at the model level: bump the existing slot's count, or
/// append a fresh slot with count one. Returns the new table and the slot
/// index handed out.
pub open spec fn spec_intern_one(entries: Seq<(Seq<u8>, nat)>, name: Seq<u8>) -> (
    Seq<(Seq<u8>, nat)>,
    int,
) {
    if exists|j: int| 0 <= j < entries.len() && entries[j].0 == name {
        let j = choose|j: int| 0 <= j < entries.len() && entries[j].0 == name;
        (entries.update(j, (name, (entries[j].1 + 1) as nat)), j)
    } else {
        (entries.push((name, 1nat)), entries.len() as int)
    }
}

/// Interning a sequence of names, threading the table left to right.
pub open spec fn spec_intern_many(entries: Seq<(Seq<u8>, nat)>, names: Seq<Seq<u8>>) -> (
    Seq<(Seq<u8>, nat)>,
    Seq<int>,
)
    decreases names.len(),
{
    if names.len() == 0 {
        (entries, Seq::empty())
    } else {
        let (e1, h) = spec_intern_one(entries, names.first());
        let (e2, hs) = spec_intern_many(e1, names.drop_first());
        (e2, seq![h] + hs)
    }
}

/// Whether every count along the way stays within the counter's range.
pub open spec fn spec_intern_fits(entries: Seq<(Seq<u8>, nat)>, names: Seq<Seq<u8>>) -> bool
    decreases names.len(),
{
    if names.len() == 0 {
        true
    } else {
        let (e1, h) = spec_intern_one(entries, names.first());
        e1[h].1 <= u64::MAX && spec_intern_fits(e1, names.drop_first())
    }
}

/// One release step at the model level: lower the slot's count by one; an
/// index outside the table or a count already at zero changes nothing.
pub open spec fn spec_release_one(entries: Seq<(Seq<u8>, nat)>, id: int) -> Seq<
    (Seq<u8>, nat),
> {
    if 0 <= id < entries.len() && entries[id].1 > 0 {
        entries.update(id, (entries[id].0, (entries[id].1 - 1) as nat))
    } else {
        entries
    }
}

/// Releasing a sequence of handles, threading the table left to right.
pub open spec fn spec_release_many(entries: Seq<(Seq<u8>, nat)>, ids: Seq<int>) -> Seq<
    (Seq<u8>, nat),
>
    decreases ids.len(),
{
    if ids.len() == 0 {
        entries
    } else {
        spec_release_many(spec_release_one(entries, ids.first()), ids.drop_first())
    }
}

/// The reference count recorded for `name`: zero when the text was never
/// interned.
pub open spec fn rc_of(entries: Seq<(Seq<u8>, nat)>, name: Seq<u8>) -> nat {
    if exists|j: int| 0 <= j < entries.len() && entries[j].0 == name {
        let j = choose|j: int| 0 <= j < entries.len() && entries[j].0 == name;
        entries[j].1
    } else {
        0
    }
}

/// A well-formed table holds each text at most once.
pub open spec fn wf_entries(entries: Seq<(Seq<u8>, nat)>) -> bool {
    forall|i: int, j: int|
        0 <= i < j < entries.len() ==> (#[trigger] entries[i]).0 != (
        #[trigger] entries[j]).0
}

impl View for StringCache {
    type V = Seq<(Seq<u8>, nat)>;

    closed spec fn view(&self) -> Seq<(Seq<u8>, nat)> {
        Seq::new(
            self.entries@.len(),
            |i: int| (self.entries@[i].text@, self.entries@[i].refcount as nat),
        )
    }
}

impl StringCache {
    /// A well-formed cache holds each header text at most once.
    pub open spec fn wf(&self) -> bool {
        wf_entries(self@)
    }

    /// An empty cache.
    pub fn new() -> (r: Self)
        ensures
            r@ == Seq::<(Seq<u8>, nat)>::empty(),
            r.wf(),
    {
        let r = StringCache { entries: Vec::new() };
        proof {
            assert(r@ =~= Seq::<(Seq<u8>, nat)>::empty());
        }
        r
    }

    /// How many distinct header texts the cache holds.
    pub fn slot_count(&self) -> (r: usize)
        ensures
            r == self@.len(),
    {
        self.entries.len()
    }

    /// The text behind a handle, when the handle points into this cache.
    pub fn text_of(&self, key: StringCacheKey) -> (r: Option<&Vec<u8>>)
        ensures
            match r {
                Some(t) => 0 <= key.spec_id() < self@.len() && t@ == self@[key.spec_id()].0,
                None => key.spec_id() >= self@.len(),
            },
    {
        if key.id() < self.entries.len() {
            Some(&self.entries[key.id()].text)
        } else {
            None
        }
    }

    /// The reference count behind a handle, when the handle points into this
    /// cache.
    pub fn count_of(&self, key: StringCacheKey) -> (r: Option<u64>)
        ensures
            match r {
                Some(c) => 0 <= key.spec_id() < self@.len() && c as nat == self@[
                    key.spec_id()].1,
                None => key.spec_id() >= self@.len(),
            },
    {
        if key.id() < self.entries.len() {
            Some(self.entries[key.id()].refcount)
        } else {
            None
        }
    }

    /// Interns every name in `names`, taking the table once for the whole
    /// batch. Existing names get their current handle back with the count
    /// raised by one per occurrence; new names get a fresh slot with count
    /// one.
    ///
    /// Fails only when a count would outgrow the counter; the table then
    /// holds the names of a processed prefix of `names`.
    #[verifier::loop_isolation(false)]
    pub fn intern_many(&mut self, names: &Vec<Vec<u8>>) -> (r: Result<
        Vec<StringCacheKey>,
        CacheError,
    >)
        requires
            old(self).wf(),
        ensures
            final(self).wf(),
            match r {
                Ok(ks) => {
                    &&& spec_intern_fits(old(self)@, names.deep_view())
                    &&& (final(self)@, ids_of(ks@)) == spec_intern_many(
                        old(self)@,
                        names.deep_view(),
                    )
                    &&& ks@.len() == names@.len()
                },
                Err(_) => {
                    &&& !spec_intern_fits(old(self)@, names.deep_view())
                    &&& exists|k: int|
                        0 <= k <= names@.len() && final(self)@ == spec_intern_many(
                            old(self)@,
                            names.deep_view().take(k),
                        ).0
                },
            },
    {
        let ghost entries0 = self@;
        let ghost names0 = names.deep_view();
        let mut keys: Vec<StringCacheKey> = Vec::new();
        let mut k: usize = 0;
        proof {
            assert(names0.take(names@.len() as int) =~= names0);
            assert(names0.skip(0) =~= names0);
            assert(names0.take(0) =~= Seq::<Seq<u8>>::empty());
            assert(ids_of(keys@) =~= Seq::<int>::empty());
            assert(ids_of(keys@) + spec_intern_many(self@, names0).1 =~= spec_intern_many(
                self@,
                names0,
            ).1);
        }
        while k < names.len()
            invariant
                k <= names@.len(),
                names0 == names.deep_view(),
                keys@.len() == k,
                wf_entries(self@),
                spec_intern_many(entries0, names0).0 == spec_intern_many(
                    self@,
                    names0.skip(k as int),
                ).0,
                spec_intern_many(entries0, names0).1 == ids_of(keys@) + spec_intern_many(
                    self@,
                    names0.skip(k as int),
                ).1,
                spec_intern_fits(entries0, names0) == spec_intern_fits(
                    self@,
                    names0.skip(k as int),
                ),
                self@ == spec_intern_many(entries0, names0.take(k as int)).0,
            decreases names@.len() - k,
        {
            let ghost pre = self@;
            let name = &names[k];
            proof {
                assert(names0.skip(k as int).first() == name@);
                assert(names0.skip(k as int).drop_first() =~= names0.skip(k + 1));
            }
            let mut found: usize = self.entries.len();
            let mut j: usize = 0;
            let n = self.entries.len();
            while j < n
                invariant
                    j <= n,
                    found <= n,
                    n == self@.len(),
                    found == n ==> forall|t: int| 0 <= t < j ==> self@[t].0 != name@,
                    found < n ==> self@[found as int].0 == name@,
                decreases n - j,
            {
                if vecs_eq(&self.entries[j].text, name) {
                    found = j;
                    j = n;
                } else {
                    j = j + 1;
                }
            }
            if found < n {
                proof {
                    assert(exists|t: int| 0 <= t < pre.len() && pre[t].0 == name@);
                    let c = choose|t: int| 0 <= t < pre.len() && pre[t].0 == name@;
                    assert(c == found as int);
                }
                let rc = self.entries[found].refcount;
                if rc == u64::MAX {
                    proof {
                        assert(spec_intern_one(pre, name@).1 == found as int);
                        assert(spec_intern_one(pre, name@).0[found as int].1 > u64::MAX);
                        assert(!spec_intern_fits(pre, names0.skip(k as int)));
                        assert(0 <= k as int <= names@.len() && self@ == spec_intern_many(
                            entries0,
                            names0.take(k as int),
                        ).0);
                    }
                    return Err(CacheError::CounterSaturated);
                }
                let ghost keys0 = keys@;
                let slot = &mut self.entries[found];
                slot.refcount = rc + 1;
                keys.push(StringCacheKey { id: found });
                proof {
                    assert(self@ =~= spec_intern_one(pre, name@).0);
                    lemma_intern_one_wf(pre, name@);
                    assert(ids_of(keys@) =~= ids_of(keys0).push(found as int));
                    lemma_acc_shift(ids_of(keys0), found as int, spec_intern_many(self@, names0.skip(k + 1)).1);
                }
            } else {
                let mut text: Vec<u8> = Vec::new();
                let mut c: usize = 0;
                while c < name.len()
                    invariant
                        c <= name@.len(),
                        text@ == name@.subrange(0, c as int),
                    decreases name@.len() - c,
                {
                    text.push(name[c]);
                    proof {
                        assert(name@.subrange(0, c + 1) =~= name@.subrange(0, c as int).push(
                            name@[c as int],
                        ));
                    }
                    c = c + 1;
                }
                proof {
                    assert(text@ =~= name@);
                    assert(forall|t: int| 0 <= t < pre.len() ==> pre[t].0 != name@);
                }
                let ghost keys0 = keys@;
                let fresh: usize = self.entries.len();
                self.entries.push(InternEntry { text, refcount: 1 });
                keys.push(StringCacheKey { id: fresh });
                proof {
                    assert(self@ =~= pre.push((name@, 1nat)));
                    assert(self@ =~= spec_intern_one(pre, name@).0);
                    lemma_intern_one_wf(pre, name@);
                    assert(ids_of(keys@) =~= ids_of(keys0).push(fresh as int));
                    lemma_acc_shift(ids_of(keys0), fresh as int, spec_intern_many(self@, names0.skip(k + 1)).1);
                }
            }
            proof {
                assert(names0.take(k + 1).drop_last() =~= names0.take(k as int));
                assert(names0.take(k + 1).last() == names0[k as int]);
                lemma_intern_many_snoc(entries0, names0.take(k + 1));
            }
            k = k + 1;
        }
        proof {
            assert(names0.skip(names@.len() as int) =~= Seq::<Seq<u8>>::empty());
            assert(ids_of(keys@) + Seq::<int>::empty() =~= ids_of(keys@));
        }
        Ok(keys)
    }

    /// Lowers the count of each handle in `handles` by one. A handle that
    /// does not point into this cache, or whose count is already zero,
    /// changes nothing; the backing text is never reclaimed.
    #[verifier::loop_isolation(false)]
    pub fn release(&mut self, handles: &Vec<StringCacheKey>)
        requires
            old(self).wf(),
        ensures
            final(self).wf(),
            final(self)@ == spec_release_many(old(self)@, ids_of(handles@)),
    {
        let ghost entries0 = self@;
        let ghost ids0 = ids_of(handles@);
        let mut k: usize = 0;
        proof {
            assert(ids0.skip(0) =~= ids0);
        }
        while k < handles.len()
            invariant
                k <= handles@.len(),
                ids0 == ids_of(handles@),
                wf_entries(self@),
                spec_release_many(entries0, ids0) == spec_release_many(
                    self@,
                    ids0.skip(k as int),
                ),
            decreases handles@.len() - k,
        {
            let ghost pre = self@;
            let key = handles[k];
            proof {
                assert(ids0.skip(k as int).first() == key.spec_id());
                assert(ids0.skip(k as int).drop_first() =~= ids0.skip(k + 1));
            }
            if key.id() < self.entries.len() {
                let rc = self.entries[key.id()].refcount;
                if rc > 0 {
                    let slot = &mut self.entries[key.id()];
                    slot.refcount = rc - 1;
                    proof {
                        assert(self@ =~= spec_release_one(pre, key.spec_id()));
                        lemma_release_one_wf(pre, key.spec_id());
                    }
                } else {
                    proof {
                        assert(self@ =~= spec_release_one(pre, key.spec_id()));
                    }
                }
            } else {
                proof {
                    assert(self@ =~= spec_release_one(pre, key.spec_id()));
                }
            }
            k = k + 1;
        }
        proof {
            assert(ids0.skip(handles@.len() as int) =~= Seq::<int>::empty());
        }
    }
}


/// Interning hands back one handle per name, in order, and each handle's
/// slot holds exactly that name; texts already in the table keep their
/// slots.
pub proof fn lemma_intern_many_matches(entries: Seq<(Seq<u8>, nat)>, names: Seq<Seq<u8>>)
    requires
        wf_entries(entries),
    ensures
        ({
            let (e2, ids) = spec_intern_many(entries, names);
            &&& ids.len() == names.len()
            &&& e2.len() >= entries.len()
            &&& wf_entries(e2)
            &&& forall|j: int| 0 <= j < entries.len() ==> (#[trigger] e2[j]).0 == entries[j].0
            &&& forall|i: int|
                0 <= i < names.len() ==> 0 <= #[trigger] ids[i] < e2.len() && e2[ids[i]].0
                    == names[i]
        }),
    decreases names.len(),
{
    if names.len() > 0 {
        let (e1, h) = spec_intern_one(entries, names.first());
        lemma_intern_one_wf(entries, names.first());
        assert(forall|j: int| 0 <= j < entries.len() ==> (#[trigger] e1[j]).0 == entries[j].0);
        lemma_intern_many_matches(e1, names.drop_first());
        let (e2, rest_ids) = spec_intern_many(e1, names.drop_first());
        assert(e2[h].0 == names.first());
        let ids = spec_intern_many(entries, names).1;
        assert(ids == seq![h] + rest_ids);
        assert forall|i: int| 0 <= i < names.len() implies 0 <= #[trigger] ids[i] < e2.len()
            && e2[ids[i]].0 == names[i] by {
            if i == 0 {
                assert(ids[0] == h);
            } else {
                assert(ids[i] == rest_ids[i - 1]);
                assert(names.drop_first()[i - 1] == names[i]);
            }
        }
    }
}

/// Shifting one element from the head of the pending part onto the end of
/// the accumulated part keeps the concatenation.
proof fn lemma_acc_shift(acc: Seq<int>, h: int, rest: Seq<int>)
    ensures
        acc + (seq![h] + rest) == acc.push(h) + rest,
{
    assert(acc + (seq![h] + rest) =~= acc.push(h) + rest);
}


/// Law: interning the same header text twice hands back the same handle both
/// times and raises its reference count by one per call, and releasing the
/// handle the same number of times restores the prior count.
pub proof fn lemma_intern_idempotent(entries: Seq<(Seq<u8>, nat)>, name: Seq<u8>)
    requires
        wf_entries(entries),
    ensures
        ({
            let (e1, hs1) = spec_intern_many(entries, seq![name]);
            let (e2, hs2) = spec_intern_many(e1, seq![name]);
            &&& hs2 == hs1
            &&& hs1.len() == 1
            &&& rc_of(e1, name) == rc_of(entries, name) + 1
            &&& rc_of(e2, name) == rc_of(entries, name) + 2
            &&& rc_of(spec_release_many(e2, hs1 + hs2), name) == rc_of(entries, name)
        }),
{
    lemma_intern_many_singleton(entries, name);
    let (e1, h1) = spec_intern_one(entries, name);
    lemma_intern_one_wf(entries, name);
    lemma_intern_many_singleton(e1, name);
    let (e2, h2) = spec_intern_one(e1, name);
    lemma_intern_one_wf(e1, name);
    lemma_rc_after_intern(entries, name);
    lemma_rc_after_intern(e1, name);
    assert(h2 == h1) by {
        assert(e1[h1].0 == name);
        assert(exists|j: int| 0 <= j < e1.len() && e1[j].0 == name);
    }
    let ids = seq![h1] + seq![h2];
    assert(ids.first() == h1);
    assert(ids.drop_first() =~= seq![h2]);
    assert(seq![h2].first() == h2);
    assert(seq![h2].drop_first() =~= Seq::<int>::empty());
    let r1 = spec_release_one(e2, h1);
    let r2 = spec_release_one(r1, h2);
    assert(spec_release_many(e2, ids) == r2) by {
        reveal_with_fuel(spec_release_many, 3);
    }
    assert(e2[h1].0 == name && e2[h1].1 == rc_of(entries, name) + 2);
    assert(r1 =~= e2.update(h1, (name, (e2[h1].1 - 1) as nat)));
    assert(r2 =~= r1.update(h1, (name, (r1[h1].1 - 1) as nat)));
    assert(wf_entries(r2)) by {
        assert(forall|t: int|
            0 <= t < e2.len() && t != h1 ==> (#[trigger] r2[t]).0 == e2[t].0);
    }
    assert(rc_of(r2, name) == r2[h1].1) by {
        assert(r2[h1].0 == name);
        assert(exists|j: int| 0 <= j < r2.len() && r2[j].0 == name);
        let c = choose|j: int| 0 <= j < r2.len() && r2[j].0 == name;
        assert(c == h1);
    }
}

/// Interning a batch of one name is one interning step.
pub proof fn lemma_intern_many_singleton(entries: Seq<(Seq<u8>, nat)>, name: Seq<u8>)
    ensures
        spec_intern_many(entries, seq![name]).0 == spec_intern_one(entries, name).0,
        spec_intern_many(entries, seq![name]).1 == seq![spec_intern_one(entries, name).1],
{
    let names = seq![name];
    assert(names.first() == name);
    assert(names.drop_first() =~= Seq::<Seq<u8>>::empty());
    let (e1, h) = spec_intern_one(entries, name);
    assert(spec_intern_many(e1, names.drop_first()).0 == e1);
    assert(seq![h] + Seq::<int>::empty() =~= seq![h]);
}

/// After one interning step the interned name's count is one higher.
pub proof fn lemma_rc_after_intern(entries: Seq<(Seq<u8>, nat)>, name: Seq<u8>)
    requires
        wf_entries(entries),
    ensures
        ({
            let (e1, h1) = spec_intern_one(entries, name);
            &&& 0 <= h1 < e1.len()
            &&& e1[h1].0 == name
            &&& e1[h1].1 == rc_of(entries, name) + 1
            &&& rc_of(e1, name) == rc_of(entries, name) + 1
        }),
{
    lemma_intern_one_wf(entries, name);
    let (e1, h1) = spec_intern_one(entries, name);
    if exists|j: int| 0 <= j < entries.len() && entries[j].0 == name {
        let j = choose|j: int| 0 <= j < entries.len() && entries[j].0 == name;
        assert(h1 == j);
        assert(e1[h1].1 == entries[j].1 + 1);
    } else {
        assert(rc_of(entries, name) == 0);
        assert(e1[h1].1 == 1);
    }
    assert(rc_of(e1, name) == e1[h1].1) by {
        assert(e1[h1].0 == name);
        assert(exists|j: int| 0 <= j < e1.len() && e1[j].0 == name);
        let c = choose|j: int| 0 <= j < e1.len() && e1[j].0 == name;
        assert(c == h1);
    }
}

/// Byte-vector equality.
pub fn vecs_eq(a: &Vec<u8>, b: &Vec<u8>) -> (r: bool)
    ensures
        r == (a@ == b@),
{
    if a.len() != b.len() {
        proof {
            assert(a@ != b@);
        }
        return false;
    }
    let n = a.len();
    let mut i: usize = 0;
    while i < n
        invariant
            i <= n,
            n == a@.len() && n == b@.len(),
            forall|t: int| 0 <= t < i ==> a@[t] == b@[t],
        decreases n - i,
    {
        if a[i] != b[i] {
            return false;
        }
        i = i + 1;
    }
    proof {
        assert(a@ =~= b@);
    }
    true
}

/// Interning one name preserves well-formedness.
pub proof fn lemma_intern_one_wf(entries: Seq<(Seq<u8>, nat)>, name: Seq<u8>)
    requires
        wf_entries(entries),
    ensures
        wf_entries(spec_intern_one(entries, name).0),
        0 <= spec_intern_one(entries, name).1 < spec_intern_one(entries, name).0.len(),
        spec_intern_one(entries, name).0[spec_intern_one(entries, name).1].0 == name,
        spec_intern_one(entries, name).0.len() >= entries.len(),
{
}

/// Releasing one handle preserves well-formedness.
pub proof fn lemma_release_one_wf(entries: Seq<(Seq<u8>, nat)>, id: int)
    requires
        wf_entries(entries),
    ensures
        wf_entries(spec_release_one(entries, id)),
{
}

/// Peeling the last name off a non-empty batch: interning the batch is
/// interning the front and then the last name.
pub proof fn lemma_intern_many_snoc(entries: Seq<(Seq<u8>, nat)>, names: Seq<Seq<u8>>)
    requires
        names.len() > 0,
    ensures
        spec_intern_many(entries, names).0 == spec_intern_one(
            spec_intern_many(entries, names.drop_last()).0,
            names.last(),
        ).0,
        spec_intern_many(entries, names).1 == spec_intern_many(
            entries,
            names.drop_last(),
        ).1.push(
            spec_intern_one(spec_intern_many(entries, names.drop_last()).0, names.last()).1,
        ),
    decreases names.len(),
{
    if names.len() == 1 {
        assert(names.drop_last() =~= Seq::<Seq<u8>>::empty());
        assert(names.drop_first() =~= Seq::<Seq<u8>>::empty());
        assert(names.first() == names.last());
        assert(spec_intern_many(entries, names.drop_last()).0 == entries);
        let (e1, h) = spec_intern_one(entries, names.first());
        assert(spec_intern_many(e1, names.drop_first()).0 == e1);
        assert(seq![h] + Seq::<int>::empty() =~= Seq::<int>::empty().push(h));
    } else {
        let (e1, h) = spec_intern_one(entries, names.first());
        lemma_intern_many_snoc(e1, names.drop_first());
        assert(names.drop_first().drop_last() =~= names.drop_last().drop_first());
        assert(names.drop_first().last() == names.last());
        assert(names.drop_last().first() == names.first());
        assert(names.drop_last().len() > 0);
        let front = names.drop_last();
        assert(spec_intern_many(entries, front).0 == spec_intern_many(
            e1,
            front.drop_first(),
        ).0);
        assert(spec_intern_many(entries, front).1 == seq![h] + spec_intern_many(
            e1,
            front.drop_first(),
        ).1);
        let tail_ids = spec_intern_many(e1, names.drop_first()).1;
        assert(spec_intern_many(entries, names).1 == seq![h] + tail_ids);
        assert(seq![h] + spec_intern_many(e1, names.drop_first().drop_last()).1.push(
            spec_intern_one(spec_intern_many(e1, names.drop_first().drop_last()).0, names.last()).1,
        ) =~= (seq![h] + spec_intern_many(e1, names.drop_first().drop_last()).1).push(
            spec_intern_one(spec_intern_many(e1, names.drop_first().drop_last()).0, names.last()).1,
        ));
    }
}

} // verus!
