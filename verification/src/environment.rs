//! Environment variables of a process.

use vstd::prelude::*;

use crate::text;

verus! {

broadcast use vstd::string::group_string_axioms;

/// Environment variables, each name once, in ascending order of the names.
#[derive(Debug, PartialEq, Eq)]
pub struct Environment {
    entries: Vec<(String, String)>,
}

/// Names and values, as texts.
pub open spec fn entry_texts(entries: Seq<(String, String)>) -> Seq<(Seq<char>, Seq<char>)> {
    Seq::new(entries.len(), |i: int| (entries[i].0@, entries[i].1@))
}

/// Whether the names ascend strictly.
pub open spec fn ascending(entries: Seq<(Seq<char>, Seq<char>)>) -> bool {
    forall|i: int, j: int|
        0 <= i < j < entries.len() ==> text::text_less(entries[i].0, entries[j].0)
}

/// The value of a variable.
pub open spec fn env_value(entries: Seq<(Seq<char>, Seq<char>)>, key: Seq<char>) -> Option<
    Seq<char>,
>
    decreases entries.len(),
{
    if entries.len() == 0 {
        None
    } else if entries[0].0 == key {
        Some(entries[0].1)
    } else {
        env_value(entries.drop_first(), key)
    }
}

/// The variables with one of them set.
pub open spec fn env_set(
    entries: Seq<(Seq<char>, Seq<char>)>,
    key: Seq<char>,
    value: Seq<char>,
) -> Seq<(Seq<char>, Seq<char>)>
    decreases entries.len(),
{
    if entries.len() == 0 {
        seq![(key, value)]
    } else if entries[0].0 == key {
        seq![(key, value)] + entries.drop_first()
    } else if text::text_less(key, entries[0].0) {
        seq![(key, value)] + entries
    } else {
        seq![entries[0]] + env_set(entries.drop_first(), key, value)
    }
}

/// Setting a variable keeps the order and the other variables, and gives the
/// variable its value.
pub proof fn env_set_law(
    entries: Seq<(Seq<char>, Seq<char>)>,
    key: Seq<char>,
    value: Seq<char>,
    other: Seq<char>,
)
    requires
        ascending(entries),
    ensures
        ascending(env_set(entries, key, value)),
        env_value(env_set(entries, key, value), key) == Some(value),
        other != key ==> env_value(env_set(entries, key, value), other) == env_value(
            entries,
            other,
        ),
    decreases entries.len(),
{
    let result = env_set(entries, key, value);
    reveal_with_fuel(env_value, 2);
    if entries.len() == 0 {
        assert(result.drop_first() =~= Seq::empty());
    } else if entries[0].0 == key {
        assert(result.drop_first() =~= entries.drop_first());
    } else if text::text_less(key, entries[0].0) {
        assert(result.drop_first() =~= entries);
        assert forall|j: int| 1 <= j < result.len() implies text::text_less(
            result[0].0,
            #[trigger] result[j].0,
        ) by {
            assert(result[j] == entries[j - 1]);
            if j > 1 {
                text::text_less_transitive(key, entries[0].0, entries[j - 1].0);
            }
        }
        assert forall|i: int, j: int| 0 <= i < j < result.len() implies text::text_less(
            result[i].0,
            result[j].0,
        ) by {
            if i > 0 {
                assert(result[i] == entries[i - 1]);
                assert(result[j] == entries[j - 1]);
            }
        }
    } else {
        let rest = entries.drop_first();
        assert forall|i: int, j: int| 0 <= i < j < rest.len() implies text::text_less(
            rest[i].0,
            rest[j].0,
        ) by {
            assert(rest[i] == entries[i + 1]);
            assert(rest[j] == entries[j + 1]);
        }
        env_set_law(rest, key, value, other);
        let tail = env_set(rest, key, value);
        assert(result.drop_first() =~= tail);
        text::text_less_total(key, entries[0].0);
        env_set_keys(rest, key, value);
        assert forall|i: int, j: int| 0 <= i < j < result.len() implies text::text_less(
            result[i].0,
            result[j].0,
        ) by {
            assert(result[j] == tail[j - 1]);
            if i > 0 {
                assert(result[i] == tail[i - 1]);
            } else if tail[j - 1].0 != key {
                let k = choose|k: int| 0 <= k < rest.len() && rest[k].0 == tail[j - 1].0;
                assert(rest[k] == entries[k + 1]);
            }
        }
    }
}

proof fn env_set_keys(entries: Seq<(Seq<char>, Seq<char>)>, key: Seq<char>, value: Seq<char>)
    ensures
        forall|j: int|
            0 <= j < env_set(entries, key, value).len() ==> {
                let name = (#[trigger] env_set(entries, key, value)[j]).0;
                name == key || exists|k: int| 0 <= k < entries.len() && entries[k].0 == name
            },
    decreases entries.len(),
{
    let result = env_set(entries, key, value);
    if entries.len() > 0 {
        let rest = entries.drop_first();
        env_set_keys(rest, key, value);
        assert forall|j: int| 0 <= j < result.len() implies {
            let name = (#[trigger] result[j]).0;
            name == key || exists|k: int| 0 <= k < entries.len() && entries[k].0 == name
        } by {
            if entries[0].0 == key {
                if j > 0 {
                    assert(result[j] == entries[j]);
                }
            } else if text::text_less(key, entries[0].0) {
                if j > 0 {
                    assert(result[j] == entries[j - 1]);
                }
            } else if j == 0 {
                assert(result[0] == entries[0]);
            } else {
                assert(result[j] == env_set(rest, key, value)[j - 1]);
                if result[j].0 != key {
                    let k = choose|k: int| 0 <= k < rest.len() && rest[k].0 == result[j].0;
                    assert(entries[k + 1].0 == result[j].0);
                }
            }
        }
    }
}

impl View for Environment {
    type V = Seq<(Seq<char>, Seq<char>)>;

    closed spec fn view(&self) -> Seq<(Seq<char>, Seq<char>)> {
        entry_texts(self.entries@)
    }
}

impl Environment {
    /// The names ascend strictly, so no name occurs twice.
    pub open spec fn well_formed(self) -> bool {
        ascending(self@)
    }

    /// No variables.
    pub fn new() -> (r: Environment)
        ensures
            r@ == Seq::<(Seq<char>, Seq<char>)>::empty(),
            r.well_formed(),
    {
        let r = Environment { entries: Vec::new() };
        proof {
            assert(r@ =~= Seq::empty());
        }
        r
    }

    /// The number of variables.
    pub fn len(&self) -> (r: usize)
        ensures
            r == self@.len(),
    {
        self.entries.len()
    }

    /// The name at a position.
    pub fn key(&self, index: usize) -> (r: &str)
        requires
            index < self@.len(),
        ensures
            r@ == self@[index as int].0,
    {
        self.entries[index].0.as_str()
    }

    /// The value at a position.
    pub fn value(&self, index: usize) -> (r: &str)
        requires
            index < self@.len(),
        ensures
            r@ == self@[index as int].1,
    {
        self.entries[index].1.as_str()
    }

    /// Sets a variable, in place of an earlier value.
    pub fn insert(&mut self, key: &str, value: &str)
        requires
            old(self).well_formed(),
        ensures
            final(self)@ == env_set(old(self)@, key@, value@),
            final(self).well_formed(),
    {
        let ghost before = self@;
        let mut i: usize = 0;
        proof {
            assert(before.skip(0) =~= before);
            assert(before.take(0) + env_set(before, key@, value@) =~= env_set(
                before,
                key@,
                value@,
            ));
        }
        while i < self.entries.len() && text::precedes(self.entries[i].0.as_str(), key)
            invariant
                i <= self.entries.len(),
                before == self@,
                self@.len() == self.entries.len(),
                env_set(before, key@, value@) == before.take(i as int) + env_set(
                    before.skip(i as int),
                    key@,
                    value@,
                ),
            decreases self.entries.len() - i,
        {
            proof {
                let rest = before.skip(i as int);
                text::text_less_irreflexive(key@);
                if text::text_less(key@, rest[0].0) {
                    text::text_less_transitive(key@, rest[0].0, key@);
                }
                assert(rest.drop_first() =~= before.skip(i + 1));
                assert(before.take(i + 1) =~= before.take(i as int) + seq![rest[0]]);
                assert(before.take(i as int) + (seq![rest[0]] + env_set(
                    rest.drop_first(),
                    key@,
                    value@,
                )) =~= before.take(i + 1) + env_set(before.skip(i + 1), key@, value@));
            }
            i = i + 1;
        }
        let ghost rest = before.skip(i as int);
        if i < self.entries.len() && text::same_text(self.entries[i].0.as_str(), key) {
            self.entries.set(i, (text::owned(key), text::owned(value)));
            proof {
                assert(rest.len() > 0 && rest[0].0 == key@);
                assert(self@ =~= before.take(i as int) + (seq![(key@, value@)]
                    + rest.drop_first()));
            }
        } else {
            self.entries.insert(i, (text::owned(key), text::owned(value)));
            proof {
                if rest.len() > 0 {
                    text::text_less_total(key@, rest[0].0);
                    assert(seq![(key@, value@)] + rest =~= env_set(rest, key@, value@));
                }
                assert(self@ =~= before.take(i as int) + env_set(rest, key@, value@));
            }
        }
        proof {
            env_set_law(before, key@, value@, key@);
        }
    }

    /// A copy of the variables.
    pub fn copy(&self) -> (r: Environment)
        ensures
            r@ == self@,
    {
        let mut entries: Vec<(String, String)> = Vec::new();
        let mut i: usize = 0;
        while i < self.entries.len()
            invariant
                i <= self.entries.len(),
                entries@ == self.entries@.take(i as int),
            decreases self.entries.len() - i,
        {
            proof {
                assert(self.entries@.take(i + 1) =~= self.entries@.take(i as int).push(
                    self.entries@[i as int],
                ));
            }
            entries.push((self.entries[i].0.clone(), self.entries[i].1.clone()));
            i = i + 1;
        }
        proof {
            assert(self.entries@.take(self.entries@.len() as int) =~= self.entries@);
        }
        Environment { entries }
    }

    /// Whether both hold the same variables with the same values.
    pub fn same(&self, other: &Environment) -> (r: bool)
        ensures
            r == (self@ == other@),
    {
        if self.entries.len() != other.entries.len() {
            proof {
                assert(self@.len() != other@.len());
            }
            return false;
        }
        let mut i: usize = 0;
        while i < self.entries.len()
            invariant
                self.entries.len() == other.entries.len(),
                i <= self.entries.len(),
                forall|k: int| 0 <= k < i ==> self@[k] == other@[k],
            decreases self.entries.len() - i,
        {
            if self.entries[i].0 != other.entries[i].0 || self.entries[i].1
                != other.entries[i].1 {
                proof {
                    assert(self@[i as int] != other@[i as int]);
                }
                return false;
            }
            i = i + 1;
        }
        proof {
            assert(self@ =~= other@);
        }
        true
    }
}

} // verus!
