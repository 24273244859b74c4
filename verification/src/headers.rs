//! An ordered collection of HTTP header occurrences, together with the
//! specification-level operations the transformation phases are described by:
//! reading the first occurrence of a name, deleting every occurrence of a
//! name, setting a name to a single value, and appending one occurrence.

use vstd::prelude::*;

verus! {

/// The mathematical value of one header occurrence: `(name, value)`.
pub type HeaderView = (Seq<char>, Seq<char>);

/// One header occurrence: a name and a value.
pub struct Header {
    pub name: String,
    pub value: String,
}

impl View for Header {
    type V = HeaderView;

    open spec fn view(&self) -> HeaderView {
        (self.name@, self.value@)
    }
}

impl DeepView for Header {
    type V = HeaderView;

    open spec fn deep_view(&self) -> HeaderView {
        self@
    }
}

/// Whether some occurrence of `name` is present.
pub open spec fn has_name(h: Seq<HeaderView>, name: Seq<char>) -> bool {
    exists|i: int| 0 <= i < h.len() && h[i].0 == name
}

/// The value of the first occurrence of `name`, if any.
pub open spec fn first_value(h: Seq<HeaderView>, name: Seq<char>) -> Option<Seq<char>>
    decreases h.len(),
{
    if h.len() == 0 {
        None
    } else if h[0].0 == name {
        Some(h[0].1)
    } else {
        first_value(h.drop_first(), name)
    }
}

/// The values of all occurrences of `name`, in order.
pub open spec fn values_of(h: Seq<HeaderView>, name: Seq<char>) -> Seq<Seq<char>>
    decreases h.len(),
{
    if h.len() == 0 {
        Seq::empty()
    } else {
        let prev = values_of(h.drop_last(), name);
        if h.last().0 == name {
            prev.push(h.last().1)
        } else {
            prev
        }
    }
}

/// How many occurrences of `name` are present.
pub open spec fn count_name(h: Seq<HeaderView>, name: Seq<char>) -> nat {
    values_of(h, name).len()
}

/// The collection with every occurrence of `name` deleted; the relative
/// order of the remaining occurrences is kept.
pub open spec fn drop_name(h: Seq<HeaderView>, name: Seq<char>) -> Seq<HeaderView>
    decreases h.len(),
{
    if h.len() == 0 {
        Seq::empty()
    } else {
        let prev = drop_name(h.drop_last(), name);
        if h.last().0 == name {
            prev
        } else {
            prev.push(h.last())
        }
    }
}

/// Setting a name: every prior occurrence of `name` is deleted, and when a
/// value is given, one occurrence carrying it is appended at the end.
/// Setting to "no value" is deletion.
pub open spec fn set_name(
    h: Seq<HeaderView>,
    name: Seq<char>,
    value: Option<Seq<char>>,
) -> Seq<HeaderView> {
    match value {
        None => drop_name(h, name),
        Some(v) => drop_name(h, name).push((name, v)),
    }
}

/// An occurrence of `name` is present exactly when reading its first value
/// finds one.
pub proof fn lemma_first_value_some_iff_has_name(h: Seq<HeaderView>, name: Seq<char>)
    ensures
        first_value(h, name) is Some <==> has_name(h, name),
    decreases h.len(),
{
    if h.len() == 0 {
    } else if h[0].0 == name {
        assert(has_name(h, name));
    } else {
        lemma_first_value_some_iff_has_name(h.drop_first(), name);
        if has_name(h, name) {
            let i = choose|i: int| 0 <= i < h.len() && h[i].0 == name;
            assert(h.drop_first()[i - 1] == h[i]);
            assert(has_name(h.drop_first(), name));
        }
        if has_name(h.drop_first(), name) {
            let j = choose|j: int| 0 <= j < h.drop_first().len() && h.drop_first()[j].0 == name;
            assert(h[j + 1] == h.drop_first()[j]);
            assert(has_name(h, name));
        }
    }
}

/// Deleting a name that has no occurrence leaves the collection unchanged.
/// (In the remove phase such an entry is still counted: the counter reflects
/// rule evaluations, not mutations.)
pub proof fn lemma_drop_name_absent(h: Seq<HeaderView>, name: Seq<char>)
    requires
        !has_name(h, name),
    ensures
        drop_name(h, name) == h,
    decreases h.len(),
{
    if h.len() == 0 {
        assert(drop_name(h, name) =~= h);
    } else {
        assert(forall|i: int|
            0 <= i < h.drop_last().len() ==> h.drop_last()[i] == h[i]);
        lemma_drop_name_absent(h.drop_last(), name);
        assert(h.last() == h[h.len() - 1]);
        assert(h.last().0 != name);
        assert(drop_name(h, name) =~= h);
    }
}

/// After deleting a name, no occurrence of it remains.
pub proof fn lemma_drop_name_removes(h: Seq<HeaderView>, name: Seq<char>)
    ensures
        !has_name(drop_name(h, name), name),
    decreases h.len(),
{
    if h.len() == 0 {
    } else {
        lemma_drop_name_removes(h.drop_last(), name);
        let prev = drop_name(h.drop_last(), name);
        if h.last().0 != name {
            if has_name(prev.push(h.last()), name) {
                let i = choose|i: int|
                    0 <= i < prev.push(h.last()).len() && prev.push(h.last())[i].0 == name;
                if i < prev.len() {
                    assert(prev[i].0 == name);
                    assert(has_name(prev, name));
                } else {
                    assert(prev.push(h.last())[i] == h.last());
                }
                assert(false);
            }
        }
    }
}

/// Deleting a name introduces no occurrence of any name.
pub proof fn lemma_drop_name_names(h: Seq<HeaderView>, name: Seq<char>, other: Seq<char>)
    ensures
        has_name(drop_name(h, name), other) ==> has_name(h, other),
    decreases h.len(),
{
    if h.len() == 0 {
    } else {
        lemma_drop_name_names(h.drop_last(), name, other);
        let prev = drop_name(h.drop_last(), name);
        assert(forall|i: int|
            0 <= i < h.drop_last().len() ==> h.drop_last()[i] == h[i]);
        if h.last().0 == name {
            if has_name(prev, other) {
                assert(has_name(h.drop_last(), other));
            }
        } else {
            if has_name(prev.push(h.last()), other) {
                let i = choose|i: int|
                    0 <= i < prev.push(h.last()).len() && prev.push(h.last())[i].0 == other;
                if i < prev.len() {
                    assert(prev[i].0 == other);
                    assert(has_name(prev, other));
                    assert(has_name(h.drop_last(), other));
                } else {
                    assert(prev.push(h.last())[i] == h.last());
                    assert(h[h.len() - 1].0 == other);
                    assert(has_name(h, other));
                }
            }
        }
    }
}

/// Appending an occurrence of one name leaves every other name's values
/// unchanged.
pub proof fn lemma_values_push_other(
    h: Seq<HeaderView>,
    name: Seq<char>,
    value: Seq<char>,
    other: Seq<char>,
)
    requires
        other != name,
    ensures
        values_of(h.push((name, value)), other) == values_of(h, other),
{
    assert(h.push((name, value)).drop_last() =~= h);
    assert(h.push((name, value)).last() == (name, value));
}

/// Appending an occurrence of a name appends exactly its value to that
/// name's values: with N occurrences before, there are N + 1 after.
pub proof fn lemma_values_push_same(h: Seq<HeaderView>, name: Seq<char>, value: Seq<char>)
    ensures
        values_of(h.push((name, value)), name) == values_of(h, name).push(value),
        count_name(h.push((name, value)), name) == count_name(h, name) + 1,
{
    assert(h.push((name, value)).drop_last() =~= h);
    assert(h.push((name, value)).last() == (name, value));
}

/// Reading the first value of a name right after an occurrence of it was
/// appended to a collection free of that name finds the appended value.
pub proof fn lemma_first_value_push_absent(h: Seq<HeaderView>, name: Seq<char>, value: Seq<char>)
    requires
        !has_name(h, name),
    ensures
        first_value(h.push((name, value)), name) == Some(value),
    decreases h.len(),
{
    if h.len() == 0 {
        assert(h.push((name, value))[0] == (name, value));
    } else {
        assert(h[0] == h.push((name, value))[0]);
        if h[0].0 == name {
            assert(has_name(h, name));
        } else {
            assert(forall|i: int|
                0 <= i < h.drop_first().len() ==> h.drop_first()[i] == h[i + 1]);
            if has_name(h.drop_first(), name) {
                let j = choose|j: int|
                    0 <= j < h.drop_first().len() && h.drop_first()[j].0 == name;
                assert(h[j + 1].0 == name);
                assert(has_name(h, name));
            }
            lemma_first_value_push_absent(h.drop_first(), name, value);
            assert(h.push((name, value)).drop_first() =~= h.drop_first().push((name, value)));
        }
    }
}

/// After setting a name, reading the first value of that name yields exactly
/// the value that was set (`None` after a deletion).
pub proof fn lemma_first_value_set_name(
    h: Seq<HeaderView>,
    name: Seq<char>,
    value: Option<Seq<char>>,
)
    ensures
        first_value(set_name(h, name, value), name) == value,
{
    lemma_drop_name_removes(h, name);
    match value {
        None => {
            lemma_first_value_some_iff_has_name(drop_name(h, name), name);
        },
        Some(v) => {
            lemma_first_value_push_absent(drop_name(h, name), name, v);
        },
    }
}

/// A name is present exactly when it has at least one occurrence.
pub proof fn lemma_has_name_iff_count_positive(h: Seq<HeaderView>, name: Seq<char>)
    ensures
        has_name(h, name) <==> count_name(h, name) > 0,
    decreases h.len(),
{
    if h.len() == 0 {
    } else {
        lemma_has_name_iff_count_positive(h.drop_last(), name);
        assert(forall|i: int|
            0 <= i < h.drop_last().len() ==> h.drop_last()[i] == h[i]);
        if h.last().0 == name {
            assert(h[h.len() - 1].0 == name);
            assert(has_name(h, name));
        } else {
            if has_name(h, name) {
                let i = choose|i: int| 0 <= i < h.len() && h[i].0 == name;
                assert(i < h.len() - 1);
                assert(has_name(h.drop_last(), name));
            }
            if has_name(h.drop_last(), name) {
                assert(has_name(h, name));
            }
        }
    }
}

/// An ordered collection of header occurrences. Duplicate names are allowed
/// and their relative order is meaningful.
pub struct Headers {
    entries: Vec<Header>,
}

impl View for Headers {
    type V = Seq<HeaderView>;

    closed spec fn view(&self) -> Seq<HeaderView> {
        self.entries.deep_view()
    }
}

impl Headers {
    /// An empty collection.
    pub fn new() -> (r: Headers)
        ensures
            r@ == Seq::<HeaderView>::empty(),
    {
        let r = Headers { entries: Vec::new() };
        proof {
            assert(r@ =~= Seq::<HeaderView>::empty());
        }
        r
    }

    /// How many occurrences the collection holds in all.
    pub fn len(&self) -> (n: usize)
        ensures
            n == self@.len(),
    {
        self.entries.len()
    }

    /// The name of the occurrence at position `i`.
    pub fn name_at(&self, i: usize) -> (r: &String)
        requires
            i < self@.len(),
        ensures
            r@ == self@[i as int].0,
    {
        &self.entries[i].name
    }

    /// The value of the occurrence at position `i`.
    pub fn value_at(&self, i: usize) -> (r: &String)
        requires
            i < self@.len(),
        ensures
            r@ == self@[i as int].1,
    {
        &self.entries[i].value
    }

    /// The value of the first occurrence of `name`, if any.
    pub fn get(&self, name: &String) -> (r: Option<String>)
        ensures
            r.deep_view() == first_value(self@, name@),
    {
        let n = self.entries.len();
        let mut i: usize = 0;
        proof {
            assert(self@.skip(0) =~= self@);
        }
        while i < n
            invariant
                i <= n,
                n == self@.len(),
                n == self.entries.len(),
                first_value(self@, name@) == first_value(self@.skip(i as int), name@),
            decreases n - i,
        {
            if self.entries[i].name == *name {
                proof {
                    assert(self@.skip(i as int)[0] == self@[i as int]);
                }
                return Some(self.entries[i].value.clone());
            }
            proof {
                assert(self@.skip(i as int).drop_first() =~= self@.skip(i as int + 1));
                assert(self@.skip(i as int)[0] == self@[i as int]);
            }
            i += 1;
        }
        proof {
            assert(self@.skip(n as int) =~= Seq::<HeaderView>::empty());
        }
        None
    }

    /// Sets `name`: deletes every occurrence, then appends one occurrence
    /// with the given value if there is one. Setting to `None` is deletion.
    pub fn set(&mut self, name: &String, value: Option<&String>)
        ensures
            final(self)@ == set_name(
                old(self)@,
                name@,
                match value {
                    None => None,
                    Some(v) => Some(v@),
                },
            ),
    {
        let ghost orig = self@;
        let n = self.entries.len();
        let mut kept: Vec<Header> = Vec::new();
        let mut i: usize = 0;
        proof {
            assert(orig.take(0) =~= Seq::<HeaderView>::empty());
            assert(kept.deep_view() =~= Seq::<HeaderView>::empty());
        }
        while i < n
            invariant
                i <= n,
                n == orig.len(),
                self@ == orig,
                n == self.entries.len(),
                kept.deep_view() == drop_name(orig.take(i as int), name@),
            decreases n - i,
        {
            proof {
                assert(orig.take(i as int + 1).drop_last() =~= orig.take(i as int));
                assert(orig.take(i as int + 1).last() == orig[i as int]);
            }
            if !(self.entries[i].name == *name) {
                let h = Header {
                    name: self.entries[i].name.clone(),
                    value: self.entries[i].value.clone(),
                };
                kept.push(h);
                proof {
                    assert(kept.deep_view() =~= drop_name(orig.take(i as int + 1), name@));
                }
            }
            i += 1;
        }
        proof {
            assert(orig.take(n as int) =~= orig);
        }
        self.entries = kept;
        if let Some(v) = value {
            let h = Header { name: name.clone(), value: v.clone() };
            self.entries.push(h);
            proof {
                assert(self@ =~= drop_name(orig, name@).push((name@, v@)));
            }
        }
    }

    /// Appends one occurrence of `name` with `value` at the end, keeping
    /// every existing occurrence.
    pub fn add(&mut self, name: &String, value: &String)
        ensures
            final(self)@ == old(self)@.push((name@, value@)),
    {
        let h = Header { name: name.clone(), value: value.clone() };
        self.entries.push(h);
        proof {
            assert(self@ =~= old(self)@.push((name@, value@)));
        }
    }

    /// The values of all occurrences of `name`, in order.
    pub fn get_all(&self, name: &String) -> (r: Vec<String>)
        ensures
            r.deep_view() == values_of(self@, name@),
    {
        let n = self.entries.len();
        let mut out: Vec<String> = Vec::new();
        let mut i: usize = 0;
        proof {
            assert(self@.take(0) =~= Seq::<HeaderView>::empty());
            assert(out.deep_view() =~= Seq::<Seq<char>>::empty());
        }
        while i < n
            invariant
                i <= n,
                n == self@.len(),
                n == self.entries.len(),
                out.deep_view() == values_of(self@.take(i as int), name@),
            decreases n - i,
        {
            proof {
                assert(self@.take(i as int + 1).drop_last() =~= self@.take(i as int));
                assert(self@.take(i as int + 1).last() == self@[i as int]);
            }
            if self.entries[i].name == *name {
                out.push(self.entries[i].value.clone());
                proof {
                    assert(out.deep_view() =~= values_of(self@.take(i as int + 1), name@));
                }
            }
            i += 1;
        }
        proof {
            assert(self@.take(n as int) =~= self@);
        }
        out
    }
}

} // verus!
