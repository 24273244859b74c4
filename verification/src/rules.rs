//! The declarative rule set: five ordered lists of header edits, one per
//! phase. It is immutable once built; each invocation context holds its own
//! snapshot, so a configuration reload never changes an in-flight invocation.

use vstd::prelude::*;

verus! {

/// One `(name, value)` rule entry; for the rename phase the fields read as
/// `(from, to)`.
pub struct KeyValuePair(pub String, pub String);

impl DeepView for KeyValuePair {
    type V = (Seq<char>, Seq<char>);

    open spec fn deep_view(&self) -> (Seq<char>, Seq<char>) {
        (self.0@, self.1@)
    }
}

/// The ordered list of header names one phase deletes.
pub struct NameList {
    pub headers: Vec<String>,
}

/// The ordered list of `(name, value)` entries one phase applies.
pub struct PairList {
    pub headers: Vec<KeyValuePair>,
}

/// The whole rule set, one section per phase, each processed in its declared
/// order.
pub struct Config {
    pub remove: NameList,
    pub rename: PairList,
    pub replace: PairList,
    pub add: PairList,
    pub append: PairList,
}

/// The mathematical value of a rule set.
pub struct RuleSetView {
    pub remove: Seq<Seq<char>>,
    pub rename: Seq<(Seq<char>, Seq<char>)>,
    pub replace: Seq<(Seq<char>, Seq<char>)>,
    pub add: Seq<(Seq<char>, Seq<char>)>,
    pub append: Seq<(Seq<char>, Seq<char>)>,
}

impl View for Config {
    type V = RuleSetView;

    open spec fn view(&self) -> RuleSetView {
        RuleSetView {
            remove: self.remove.headers.deep_view(),
            rename: self.rename.headers.deep_view(),
            replace: self.replace.headers.deep_view(),
            add: self.add.headers.deep_view(),
            append: self.append.headers.deep_view(),
        }
    }
}

impl Default for Config {
    /// The empty rule set: every phase is a no-op.
    fn default() -> (c: Config)
        ensures
            c@.remove.len() == 0,
            c@.rename.len() == 0,
            c@.replace.len() == 0,
            c@.add.len() == 0,
            c@.append.len() == 0,
    {
        Config {
            remove: NameList { headers: Vec::new() },
            rename: PairList { headers: Vec::new() },
            replace: PairList { headers: Vec::new() },
            add: PairList { headers: Vec::new() },
            append: PairList { headers: Vec::new() },
        }
    }
}

} // verus!
