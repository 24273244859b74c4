//! The transformation engine: five ordered phases of header edits
//! (remove, rename, replace, add, append), all reading and writing the same
//! collection, so edits compound across phases in declaration order.

use vstd::prelude::*;

use crate::headers::HeaderView;
use crate::headers::Headers;
use crate::headers::drop_name;
use crate::headers::first_value;
use crate::headers::has_name;
use crate::headers::lemma_drop_name_absent;
use crate::headers::lemma_drop_name_names;
use crate::headers::lemma_first_value_set_name;
use crate::headers::lemma_first_value_some_iff_has_name;
use crate::headers::lemma_has_name_iff_count_positive;
use crate::headers::lemma_values_push_other;
use crate::headers::set_name;
use crate::headers::values_of;
use crate::rules::Config;
use crate::rules::KeyValuePair;
use crate::rules::RuleSetView;

verus! {

/// The collection after the remove phase: each listed name is deleted
/// unconditionally, in order.
pub open spec fn remove_phase(h: Seq<HeaderView>, names: Seq<Seq<char>>) -> Seq<HeaderView>
    decreases names.len(),
{
    if names.len() == 0 {
        h
    } else {
        drop_name(remove_phase(h, names.drop_last()), names.last())
    }
}

/// One rename step: the first value of `from` is read, every occurrence of
/// `from` is deleted, and `to` is set to that value — so when `from` was
/// absent, `to` is deleted too.
pub open spec fn rename_one(h: Seq<HeaderView>, from: Seq<char>, to: Seq<char>) -> Seq<
    HeaderView,
> {
    set_name(drop_name(h, from), to, first_value(h, from))
}

/// The collection after the rename phase: each pair applied in order, every
/// step seeing the previous step's result.
pub open spec fn rename_phase(
    h: Seq<HeaderView>,
    pairs: Seq<(Seq<char>, Seq<char>)>,
) -> Seq<HeaderView>
    decreases pairs.len(),
{
    if pairs.len() == 0 {
        h
    } else {
        rename_one(rename_phase(h, pairs.drop_last()), pairs.last().0, pairs.last().1)
    }
}

/// The replace phase: a pair is applied only when its name is currently
/// present; the result carries the collection and how many entries applied.
pub open spec fn replace_phase(
    h: Seq<HeaderView>,
    pairs: Seq<(Seq<char>, Seq<char>)>,
) -> (Seq<HeaderView>, nat)
    decreases pairs.len(),
{
    if pairs.len() == 0 {
        (h, 0)
    } else {
        let prev = replace_phase(h, pairs.drop_last());
        if has_name(prev.0, pairs.last().0) {
            (set_name(prev.0, pairs.last().0, Some(pairs.last().1)), prev.1 + 1)
        } else {
            prev
        }
    }
}

/// The add phase: a pair is applied only when its name is currently absent;
/// the result carries the collection and how many entries applied.
pub open spec fn add_phase(
    h: Seq<HeaderView>,
    pairs: Seq<(Seq<char>, Seq<char>)>,
) -> (Seq<HeaderView>, nat)
    decreases pairs.len(),
{
    if pairs.len() == 0 {
        (h, 0)
    } else {
        let prev = add_phase(h, pairs.drop_last());
        if !has_name(prev.0, pairs.last().0) {
            (set_name(prev.0, pairs.last().0, Some(pairs.last().1)), prev.1 + 1)
        } else {
            prev
        }
    }
}

/// The append phase: each pair adds one further occurrence at the end,
/// keeping every existing occurrence.
pub open spec fn append_phase(
    h: Seq<HeaderView>,
    pairs: Seq<(Seq<char>, Seq<char>)>,
) -> Seq<HeaderView>
    decreases pairs.len(),
{
    if pairs.len() == 0 {
        h
    } else {
        append_phase(h, pairs.drop_last()).push(pairs.last())
    }
}

/// The collection after all five phases, in their fixed order.
pub open spec fn transform(rules: RuleSetView, h: Seq<HeaderView>) -> Seq<HeaderView> {
    let h1 = remove_phase(h, rules.remove);
    let h2 = rename_phase(h1, rules.rename);
    let h3 = replace_phase(h2, rules.replace).0;
    let h4 = add_phase(h3, rules.add).0;
    append_phase(h4, rules.append)
}

/// How many replace entries apply during a full transformation.
pub open spec fn replaced_count(rules: RuleSetView, h: Seq<HeaderView>) -> nat {
    replace_phase(
        rename_phase(remove_phase(h, rules.remove), rules.rename),
        rules.replace,
    ).1
}

/// How many add entries apply during a full transformation.
pub open spec fn added_count(rules: RuleSetView, h: Seq<HeaderView>) -> nat {
    add_phase(
        replace_phase(rename_phase(remove_phase(h, rules.remove), rules.rename), rules.replace).0,
        rules.add,
    ).1
}

/// How many edits each phase performed during one invocation. The remove,
/// rename and append counts equal their list lengths (those phases count
/// rule evaluations); the replace and add counts reflect actual mutations.
pub struct PhaseCounts {
    pub removed: usize,
    pub renamed: usize,
    pub replaced: usize,
    pub added: usize,
    pub appended: usize,
}

/// The remove phase: deletes every occurrence of each listed name,
/// unconditionally, and reports one edit per entry whether or not the name
/// was present.
pub fn apply_remove(headers: &mut Headers, names: &Vec<String>) -> (n: usize)
    ensures
        final(headers)@ == remove_phase(old(headers)@, names.deep_view()),
        n == names.deep_view().len(),
{
    let ghost all = names.deep_view();
    let total = names.len();
    let mut i: usize = 0;
    proof {
        assert(all.take(0) =~= Seq::<Seq<char>>::empty());
    }
    while i < total
        invariant
            i <= total,
            total == all.len(),
            all == names.deep_view(),
            total == names@.len(),
            headers@ == remove_phase(old(headers)@, all.take(i as int)),
        decreases total - i,
    {
        proof {
            assert(all.take(i as int + 1).drop_last() =~= all.take(i as int));
            assert(all.take(i as int + 1).last() == all[i as int]);
        }
        headers.set(&names[i], None);
        i += 1;
    }
    proof {
        assert(all.take(total as int) =~= all);
    }
    total
}

/// The rename phase: for each `(from, to)` pair reads the current first
/// value of `from`, deletes `from`, and sets `to` to that value; reports one
/// edit per entry unconditionally.
pub fn apply_rename(headers: &mut Headers, pairs: &Vec<KeyValuePair>) -> (n: usize)
    ensures
        final(headers)@ == rename_phase(old(headers)@, pairs.deep_view()),
        n == pairs.deep_view().len(),
{
    let ghost all = pairs.deep_view();
    let total = pairs.len();
    let mut i: usize = 0;
    proof {
        assert(all.take(0) =~= Seq::<(Seq<char>, Seq<char>)>::empty());
    }
    while i < total
        invariant
            i <= total,
            total == all.len(),
            all == pairs.deep_view(),
            total == pairs@.len(),
            headers@ == rename_phase(old(headers)@, all.take(i as int)),
        decreases total - i,
    {
        proof {
            assert(all.take(i as int + 1).drop_last() =~= all.take(i as int));
            assert(all.take(i as int + 1).last() == all[i as int]);
        }
        let value = headers.get(&pairs[i].0);
        headers.set(&pairs[i].0, None);
        headers.set(&pairs[i].1, value.as_ref());
        i += 1;
    }
    proof {
        assert(all.take(total as int) =~= all);
    }
    total
}

/// The replace phase: for each `(name, value)` pair, only when `name` is
/// currently present, overwrites it with `value`; reports only the entries
/// that actually applied.
pub fn apply_replace(headers: &mut Headers, pairs: &Vec<KeyValuePair>) -> (n: usize)
    ensures
        final(headers)@ == replace_phase(old(headers)@, pairs.deep_view()).0,
        n == replace_phase(old(headers)@, pairs.deep_view()).1,
{
    let ghost all = pairs.deep_view();
    let total = pairs.len();
    let mut applied: usize = 0;
    let mut i: usize = 0;
    proof {
        assert(all.take(0) =~= Seq::<(Seq<char>, Seq<char>)>::empty());
    }
    while i < total
        invariant
            i <= total,
            applied <= i,
            total == all.len(),
            all == pairs.deep_view(),
            total == pairs@.len(),
            headers@ == replace_phase(old(headers)@, all.take(i as int)).0,
            applied == replace_phase(old(headers)@, all.take(i as int)).1,
        decreases total - i,
    {
        proof {
            assert(all.take(i as int + 1).drop_last() =~= all.take(i as int));
            assert(all.take(i as int + 1).last() == all[i as int]);
            lemma_first_value_some_iff_has_name(headers@, all[i as int].0);
        }
        let current = headers.get(&pairs[i].0);
        if current.is_some() {
            headers.set(&pairs[i].0, Some(&pairs[i].1));
            applied += 1;
        }
        i += 1;
    }
    proof {
        assert(all.take(total as int) =~= all);
    }
    applied
}

/// The add phase: for each `(name, value)` pair, only when `name` is
/// currently absent, sets it to `value`; reports only the entries that
/// actually applied.
pub fn apply_add(headers: &mut Headers, pairs: &Vec<KeyValuePair>) -> (n: usize)
    ensures
        final(headers)@ == add_phase(old(headers)@, pairs.deep_view()).0,
        n == add_phase(old(headers)@, pairs.deep_view()).1,
{
    let ghost all = pairs.deep_view();
    let total = pairs.len();
    let mut applied: usize = 0;
    let mut i: usize = 0;
    proof {
        assert(all.take(0) =~= Seq::<(Seq<char>, Seq<char>)>::empty());
    }
    while i < total
        invariant
            i <= total,
            applied <= i,
            total == all.len(),
            all == pairs.deep_view(),
            total == pairs@.len(),
            headers@ == add_phase(old(headers)@, all.take(i as int)).0,
            applied == add_phase(old(headers)@, all.take(i as int)).1,
        decreases total - i,
    {
        proof {
            assert(all.take(i as int + 1).drop_last() =~= all.take(i as int));
            assert(all.take(i as int + 1).last() == all[i as int]);
            lemma_first_value_some_iff_has_name(headers@, all[i as int].0);
        }
        let current = headers.get(&pairs[i].0);
        if current.is_none() {
            headers.set(&pairs[i].0, Some(&pairs[i].1));
            applied += 1;
        }
        i += 1;
    }
    proof {
        assert(all.take(total as int) =~= all);
    }
    applied
}

/// The append phase: each `(name, value)` pair adds one further occurrence,
/// keeping existing ones; reports one edit per entry unconditionally.
pub fn apply_append(headers: &mut Headers, pairs: &Vec<KeyValuePair>) -> (n: usize)
    ensures
        final(headers)@ == append_phase(old(headers)@, pairs.deep_view()),
        n == pairs.deep_view().len(),
{
    let ghost all = pairs.deep_view();
    let total = pairs.len();
    let mut i: usize = 0;
    proof {
        assert(all.take(0) =~= Seq::<(Seq<char>, Seq<char>)>::empty());
    }
    while i < total
        invariant
            i <= total,
            total == all.len(),
            all == pairs.deep_view(),
            total == pairs@.len(),
            headers@ == append_phase(old(headers)@, all.take(i as int)),
        decreases total - i,
    {
        proof {
            assert(all.take(i as int + 1).drop_last() =~= all.take(i as int));
            assert(all.take(i as int + 1).last() == all[i as int]);
        }
        headers.add(&pairs[i].0, &pairs[i].1);
        i += 1;
    }
    proof {
        assert(all.take(total as int) =~= all);
    }
    total
}

/// The characters an absent or undecodable property value degrades to: a
/// missing property and a non-UTF-8 one both read as the empty string.
pub open spec fn prop_string(raw: Option<Seq<u8>>) -> Seq<char> {
    match raw {
        None => Seq::empty(),
        Some(b) => match utf8_decoding(b) {
            Some(s) => s,
            None => Seq::empty(),
        },
    }
}

pub uninterp spec fn utf8_decoding(bytes: Seq<u8>) -> Option<Seq<char>>;

/// Relies on `String::from_utf8`: it succeeds exactly on valid UTF-8 input,
/// the decoded characters are a function of the input bytes alone, and empty
/// input decodes to the empty string.
#[verifier::external_body]
fn string_from_utf8(bytes: Vec<u8>) -> (r: Option<String>)
    ensures
        r.deep_view() == utf8_decoding(bytes@),
        bytes@.len() == 0 ==> r.deep_view() == Some(Seq::<char>::empty()),
{
    match String::from_utf8(bytes) {
        Ok(s) => Some(s),
        Err(_) => None,
    }
}

/// One invocation context: an immutable rule-set snapshot applied to one
/// response's headers.
pub struct ResponseTransformerContext {
    pub config: Config,
}

impl ResponseTransformerContext {
    /// A context holding the given rule-set snapshot.
    pub fn new(config: Config) -> (c: ResponseTransformerContext)
        ensures
            c.config == config,
    {
        ResponseTransformerContext { config }
    }

    /// Decodes a host-supplied request property into a dimension tag: an
    /// absent property or one that is not valid UTF-8 degrades to the empty
    /// string rather than an error.
    pub fn get_prop(&self, raw: Option<Vec<u8>>) -> (r: String)
        ensures
            r@ == prop_string(
                match raw {
                    None => None,
                    Some(b) => Some(b@),
                },
            ),
    {
        match raw {
            None => String::new(),
            Some(bytes) => match string_from_utf8(bytes) {
                Some(s) => s,
                None => String::new(),
            },
        }
    }

    /// Runs the five phases against `headers` in their fixed order and
    /// reports how many edits each phase performed: one per remove, rename
    /// and append entry unconditionally, and one per replace or add entry
    /// that actually mutated the collection.
    pub fn on_response_headers(&self, headers: &mut Headers) -> (c: PhaseCounts)
        ensures
            final(headers)@ == transform(self.config@, old(headers)@),
            c.removed == self.config@.remove.len(),
            c.renamed == self.config@.rename.len(),
            c.replaced == replaced_count(self.config@, old(headers)@),
            c.added == added_count(self.config@, old(headers)@),
            c.appended == self.config@.append.len(),
    {
        let removed = apply_remove(headers, &self.config.remove.headers);
        let renamed = apply_rename(headers, &self.config.rename.headers);
        let replaced = apply_replace(headers, &self.config.replace.headers);
        let added = apply_add(headers, &self.config.add.headers);
        let appended = apply_append(headers, &self.config.append.headers);
        PhaseCounts { removed, renamed, replaced, added, appended }
    }
}

/// Applying the five phases is deterministic: an identical rule set on an
/// identical initial collection yields an identical resulting collection and
/// identical edit counts.
pub proof fn lemma_transform_deterministic(
    r1: RuleSetView,
    r2: RuleSetView,
    h1: Seq<HeaderView>,
    h2: Seq<HeaderView>,
)
    requires
        r1 == r2,
        h1 == h2,
    ensures
        transform(r1, h1) == transform(r2, h2),
        replaced_count(r1, h1) == replaced_count(r2, h2),
        added_count(r1, h1) == added_count(r2, h2),
{
}

/// The replace phase never creates a header: every name present afterwards
/// was already present before the phase ran.
pub proof fn lemma_replace_phase_creates_nothing(
    h: Seq<HeaderView>,
    pairs: Seq<(Seq<char>, Seq<char>)>,
    name: Seq<char>,
)
    ensures
        has_name(replace_phase(h, pairs).0, name) ==> has_name(h, name),
    decreases pairs.len(),
{
    if pairs.len() == 0 {
    } else {
        lemma_replace_phase_creates_nothing(h, pairs.drop_last(), name);
        lemma_replace_phase_creates_nothing(h, pairs.drop_last(), pairs.last().0);
        let prev = replace_phase(h, pairs.drop_last()).0;
        let p = pairs.last();
        if has_name(prev, p.0) {
            let cur = drop_name(prev, p.0).push((p.0, p.1));
            if has_name(cur, name) {
                let i = choose|i: int| 0 <= i < cur.len() && cur[i].0 == name;
                if i < drop_name(prev, p.0).len() {
                    assert(drop_name(prev, p.0)[i].0 == name);
                    assert(has_name(drop_name(prev, p.0), name));
                    lemma_drop_name_names(prev, p.0, name);
                } else {
                    assert(cur[i] == (p.0, p.1));
                }
            }
        }
    }
}

/// The add phase never overwrites: a name already present before the phase
/// keeps exactly its prior occurrences and values.
pub proof fn lemma_add_phase_preserves_existing(
    h: Seq<HeaderView>,
    pairs: Seq<(Seq<char>, Seq<char>)>,
    name: Seq<char>,
)
    requires
        has_name(h, name),
    ensures
        values_of(add_phase(h, pairs).0, name) == values_of(h, name),
        has_name(add_phase(h, pairs).0, name),
    decreases pairs.len(),
{
    if pairs.len() == 0 {
    } else {
        lemma_add_phase_preserves_existing(h, pairs.drop_last(), name);
        let prev = add_phase(h, pairs.drop_last()).0;
        let p = pairs.last();
        if !has_name(prev, p.0) {
            lemma_drop_name_absent(prev, p.0);
            assert(name != p.0);
            lemma_values_push_other(prev, p.0, p.1, name);
            lemma_has_name_iff_count_positive(prev, name);
            lemma_has_name_iff_count_positive(prev.push((p.0, p.1)), name);
        }
    }
}

/// A rename writes the source name's current first value into the target;
/// in particular, of two renames onto the same target the second wins: the
/// target ends with the value the second source had at that point.
pub proof fn lemma_rename_sets_target(h: Seq<HeaderView>, from: Seq<char>, to: Seq<char>)
    ensures
        first_value(rename_one(h, from, to), to) == first_value(h, from),
{
    lemma_first_value_set_name(drop_name(h, from), to, first_value(h, from));
}

/// Two renames onto the same target name: the second one wins.
pub proof fn lemma_second_rename_wins(
    h: Seq<HeaderView>,
    from1: Seq<char>,
    from2: Seq<char>,
    to: Seq<char>,
)
    ensures
        first_value(rename_one(rename_one(h, from1, to), from2, to), to) == first_value(
            rename_one(h, from1, to),
            from2,
        ),
{
    lemma_rename_sets_target(rename_one(h, from1, to), from2, to);
}

} // verus!
