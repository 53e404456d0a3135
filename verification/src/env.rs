//! The environment variables of a worker: a map from names to values that is
//! walked in the order of the names.

use vstd::prelude::*;

use crate::text::{comes_before, lemma_precedes_total, lemma_precedes_transitive, pairs, precedes,
    same_text};

verus! {

/// What `list` gives for `key`, where a later pair overrides an earlier one.
pub open spec fn value_of(list: Seq<(Seq<char>, Seq<char>)>, key: Seq<char>) -> Option<Seq<char>>
    decreases list.len(),
{
    if list.len() == 0 {
        None
    } else if list.last().0 == key {
        Some(list.last().1)
    } else {
        value_of(list.drop_last(), key)
    }
}

/// The names of `list` are in strictly increasing order.
pub open spec fn ordered(list: Seq<(Seq<char>, Seq<char>)>) -> bool {
    forall|i: int, j: int|
        0 <= i < j < list.len() ==> precedes(#[trigger] list[i].0, #[trigger] list[j].0)
}

/// A map from names to values, walked in the order of the names.
///
/// The view is the sequence of (name, value) pairs in that order.
#[derive(Debug, Clone)]
pub struct Env {
    entries: Vec<(String, String)>,
}

impl View for Env {
    type V = Seq<(Seq<char>, Seq<char>)>;

    closed spec fn view(&self) -> Seq<(Seq<char>, Seq<char>)> {
        pairs(self.entries@)
    }
}

/// In an ordered list a pair is found under its name, wherever it stands.
pub proof fn lemma_value_at(list: Seq<(Seq<char>, Seq<char>)>, i: int)
    requires
        ordered(list),
        0 <= i < list.len(),
    ensures
        value_of(list, list[i].0) == Some(list[i].1),
    decreases list.len(),
{
    let last = list.len() - 1;
    if i < last {
        assert(precedes(list[i].0, list[last].0));
        lemma_precedes_total(list[i].0, list[last].0);
        let rest = list.drop_last();
        assert forall|a: int, b: int| 0 <= a < b < rest.len() implies precedes(
            #[trigger] rest[a].0,
            #[trigger] rest[b].0,
        ) by {
            assert(rest[a] == list[a] && rest[b] == list[b]);
        }
        lemma_value_at(rest, i);
    }
}

/// A name that no pair carries has no value.
pub proof fn lemma_no_value(list: Seq<(Seq<char>, Seq<char>)>, key: Seq<char>)
    requires
        forall|i: int| 0 <= i < list.len() ==> (#[trigger] list[i]).0 != key,
    ensures
        value_of(list, key) is None,
    decreases list.len(),
{
    if list.len() > 0 {
        let rest = list.drop_last();
        assert forall|i: int| 0 <= i < rest.len() implies (#[trigger] rest[i]).0 != key by {
            assert(rest[i] == list[i]);
        }
        lemma_no_value(rest, key);
    }
}

/// A name that has a value is carried by some pair with that value.
pub proof fn lemma_value_is_there(list: Seq<(Seq<char>, Seq<char>)>, key: Seq<char>) -> (i: int)
    requires
        value_of(list, key) is Some,
    ensures
        0 <= i < list.len(),
        list[i].0 == key,
        list[i].1 == value_of(list, key)->0,
    decreases list.len(),
{
    if list.last().0 == key {
        list.len() - 1
    } else {
        lemma_value_is_there(list.drop_last(), key)
    }
}

/// An ordered list is determined by what it gives for each name.
pub proof fn law_order_is_canonical(
    a: Seq<(Seq<char>, Seq<char>)>,
    b: Seq<(Seq<char>, Seq<char>)>,
)
    requires
        ordered(a),
        ordered(b),
        forall|key: Seq<char>| #[trigger] value_of(a, key) == value_of(b, key),
    ensures
        a == b,
    decreases a.len(),
{
    if a.len() == 0 {
        if b.len() > 0 {
            lemma_value_at(b, 0);
            assert(value_of(a, b[0].0) is None);
        }
        assert(a =~= b);
    } else {
        let m = a.len() - 1;
        lemma_value_at(a, m);
        assert(value_of(b, a[m].0) == Some(a[m].1));
        let j = lemma_value_is_there(b, a[m].0);
        let n = b.len() - 1;
        if j < n {
            lemma_value_at(b, n);
            assert(value_of(a, b[n].0) == Some(b[n].1));
            let i = lemma_value_is_there(a, b[n].0);
            lemma_precedes_total(a[m].0, b[n].0);
            if i < m {
                assert(precedes(a[i].0, a[m].0));
                assert(precedes(b[j].0, b[n].0));
            }
            assert(precedes(b[j].0, b[n].0));
            assert(false);
        }
        let x = a.drop_last();
        let y = b.drop_last();
        lemma_ordered_front(a);
        lemma_ordered_front(b);
        assert forall|key: Seq<char>| #[trigger] value_of(x, key) == value_of(y, key) by {
            assert(value_of(a, key) == value_of(b, key));
            if key == a[m].0 {
                lemma_last_is_new(a);
                lemma_last_is_new(b);
            }
        }
        law_order_is_canonical(x, y);
        assert(a =~= x.push(a[m]));
        assert(b =~= y.push(b[n]));
    }
}

proof fn lemma_ordered_front(list: Seq<(Seq<char>, Seq<char>)>)
    requires
        ordered(list),
        list.len() > 0,
    ensures
        ordered(list.drop_last()),
{
    let rest = list.drop_last();
    assert forall|a: int, b: int| 0 <= a < b < rest.len() implies precedes(
        #[trigger] rest[a].0,
        #[trigger] rest[b].0,
    ) by {
        assert(rest[a] == list[a] && rest[b] == list[b]);
    }
}

proof fn lemma_last_is_new(list: Seq<(Seq<char>, Seq<char>)>)
    requires
        ordered(list),
        list.len() > 0,
    ensures
        value_of(list.drop_last(), list.last().0) is None,
{
    let rest = list.drop_last();
    assert forall|i: int| 0 <= i < rest.len() implies (#[trigger] rest[i]).0 != list.last().0 by {
        assert(rest[i] == list[i]);
        assert(precedes(list[i].0, list[list.len() - 1].0));
        lemma_precedes_total(list[i].0, list[i].0);
    }
    lemma_no_value(rest, list.last().0);
}

/// Putting a pair where its name belongs keeps the order and changes only
/// what is given for that name.
proof fn lemma_put(
    list: Seq<(Seq<char>, Seq<char>)>,
    at: int,
    key: Seq<char>,
    value: Seq<char>,
    taken: bool,
    now: Seq<(Seq<char>, Seq<char>)>,
)
    requires
        ordered(list),
        0 <= at <= list.len(),
        forall|j: int| 0 <= j < at ==> precedes((#[trigger] list[j]).0, key),
        taken == (at < list.len() && list[at].0 == key),
        at < list.len() ==> !precedes(list[at].0, key),
        now == list.take(at).push((key, value)) + list.skip(at + if taken { 1int } else { 0int }),
    ensures
        ordered(now),
        forall|other: Seq<char>| #[trigger]
            value_of(now, other) == if other == key { Some(value) } else { value_of(list, other) },
{
    let skipped: int = if taken { at + 1 } else { at };
    assert forall|j: int| skipped <= j < list.len() implies precedes(
        key,
        (#[trigger] list[j]).0,
    ) by {
        lemma_precedes_total(list[at].0, key);
        if j > at {
            assert(precedes(list[at].0, list[j].0));
            if !taken {
                lemma_precedes_transitive(key, list[at].0, list[j].0);
            }
        }
    }
    assert forall|i: int| 0 <= i < now.len() implies #[trigger] now[i] == if i < at {
        list[i]
    } else if i == at {
        (key, value)
    } else {
        list[i - at - 1 + skipped]
    } by {}
    assert forall|i: int, j: int| 0 <= i < j < now.len() implies precedes(
        #[trigger] now[i].0,
        #[trigger] now[j].0,
    ) by {
        if i < at && j > at {
            assert(precedes(list[i].0, list[j - at - 1 + skipped].0));
        }
    }
    assert(ordered(now));
    assert forall|other: Seq<char>| #[trigger] value_of(now, other) == if other == key {
        Some(value)
    } else {
        value_of(list, other)
    } by {
        if other == key {
            lemma_value_at(now, at);
            assert(now[at] == (key, value));
        } else if value_of(list, other) is Some {
            let i = lemma_value_is_there(list, other);
            let j = if i < at { i } else { i - skipped + at + 1 };
            assert(now[j] == list[i]);
            lemma_value_at(now, j);
        } else if value_of(now, other) is Some {
            let j = lemma_value_is_there(now, other);
            let i = if j < at { j } else { j - at - 1 + skipped };
            assert(now[j] == list[i]);
            lemma_value_at(list, i);
        }
    }
}

impl Env {
    /// The names are in strictly increasing order, so none occurs twice.
    pub open spec fn wf(&self) -> bool {
        ordered(self@)
    }

    /// An environment without variables.
    pub fn new() -> (env: Self)
        ensures
            env.wf(),
            env@ == Seq::<(Seq<char>, Seq<char>)>::empty(),
    {
        let env = Env { entries: Vec::new() };
        proof {
            assert(env@ =~= Seq::<(Seq<char>, Seq<char>)>::empty());
        }
        env
    }

    /// The value of `key`.
    pub fn get(&self, key: &str) -> (value: Option<&str>)
        requires
            self.wf(),
        ensures
            match value {
                Some(v) => value_of(self@, key@) == Some(v@),
                None => value_of(self@, key@) is None,
            },
    {
        for i in 0..self.entries.len()
            invariant
                self.wf(),
                forall|j: int| 0 <= j < i ==> (#[trigger] self@[j]).0 != key@,
        {
            proof {
                assert(self@[i as int] == (self.entries@[i as int].0@, self.entries@[i as int].1@));
            }
            if same_text(self.entries[i].0.as_str(), key) {
                proof {
                    lemma_value_at(self@, i as int);
                }
                return Some(self.entries[i].1.as_str());
            }
        }
        proof {
            lemma_no_value(self@, key@);
        }
        None
    }

    /// Sets `key` to `value`; an earlier value is forgotten.
    pub fn insert(&mut self, key: String, value: String)
        requires
            old(self).wf(),
        ensures
            final(self).wf(),
            forall|other: Seq<char>| #[trigger]
                value_of(final(self)@, other) == if other == key@ {
                    Some(value@)
                } else {
                    value_of(old(self)@, other)
                },
    {
        let mut at: usize = 0;
        while at < self.entries.len() && comes_before(
            self.entries[at].0.as_str(),
            key.as_str(),
        )
            invariant
                *self == *old(self),
                self.wf(),
                at <= self.entries@.len(),
                self@.len() == self.entries@.len(),
                forall|j: int| 0 <= j < at ==> precedes((#[trigger] self@[j]).0, key@),
            decreases self.entries@.len() - at,
        {
            proof {
                assert(self@[at as int].0 == self.entries@[at as int].0@);
            }
            at = at + 1;
        }
        let ghost before = self@;
        let taken = at < self.entries.len() && same_text(
            self.entries[at].0.as_str(),
            key.as_str(),
        );
        if taken {
            let replaced = self.entries.remove(at);
        }
        self.entries.insert(at, (key, value));
        proof {
            assert(before =~= pairs(old(self).entries@));
            let k = at as int;
            assert(self@ =~= before.take(k).push((key@, value@)) + before.skip(
                k + if taken { 1int } else { 0int },
            ));
            lemma_put(before, k, key@, value@, taken, self@);
        }
    }

    /// The variables in the order of their names.
    pub fn to_pairs(&self) -> (list: Vec<(String, String)>)
        ensures
            pairs(list@) == self@,
    {
        let mut list: Vec<(String, String)> = Vec::new();
        for i in 0..self.entries.len()
            invariant
                pairs(list@) == self@.take(i as int),
                self@ == pairs(self.entries@),
        {
            let ghost before = list@;
            list.push((self.entries[i].0.clone(), self.entries[i].1.clone()));
            proof {
                assert(pairs(list@) =~= pairs(before).push(self@[i as int]));
                assert(self@.take(i + 1) =~= self@.take(i as int).push(self@[i as int]));
            }
        }
        proof {
            assert(self@.take(self.entries@.len() as int) =~= self@);
        }
        list
    }

    /// Collects `list`, in which a later pair overrides an earlier one of the same name.
    pub fn from_pairs(list: Vec<(String, String)>) -> (env: Self)
        ensures
            env.wf(),
            forall|key: Seq<char>| #[trigger]
                value_of(env@, key) == value_of(pairs(list@), key),
    {
        let mut env = Env::new();
        proof {
            assert(pairs(list@).take(0) =~= Seq::<(Seq<char>, Seq<char>)>::empty());
        }
        for i in 0..list.len()
            invariant
                env.wf(),
                forall|key: Seq<char>| #[trigger]
                    value_of(env@, key) == value_of(pairs(list@).take(i as int), key),
        {
            env.insert(list[i].0.clone(), list[i].1.clone());
            proof {
                let all = pairs(list@);
                assert(all.take(i + 1).drop_last() =~= all.take(i as int));
                assert(all.take(i + 1).last() == (list@[i as int].0@, list@[i as int].1@));
            }
        }
        proof {
            assert(pairs(list@).take(list@.len() as int) =~= pairs(list@));
        }
        env
    }
}

/// A variable has the value that it was set to last, and setting one leaves all
/// others as they are.
pub proof fn law_variables_keep_their_values(
    env: &mut Env,
    key: String,
    value: String,
    name: &str,
    found: Option<&str>,
    before: Option<&str>,
)
    requires
        old(env).wf(),
        call_ensures(Env::insert, (env, key, value), ()),
        call_ensures(Env::get, (final(env), name), found),
        call_ensures(Env::get, (old(env), name), before),
    ensures
        name@ == key@ ==> found is Some && found->0@ == value@,
        name@ != key@ ==> (found is Some <==> before is Some),
        name@ != key@ && found is Some ==> found->0@ == before->0@,
{
}

/// Of several values for one name, the last one counts; a name that no pair
/// carries has no value.
pub proof fn law_last_value_counts(
    list: Vec<(String, String)>,
    env: Env,
    name: &str,
    found: Option<&str>,
    i: int,
)
    requires
        call_ensures(Env::from_pairs, (list,), env),
        call_ensures(Env::get, (&env, name), found),
        -1 <= i < list@.len(),
        i >= 0 ==> list@[i].0@ == name@,
        forall|j: int| i < j < list@.len() ==> (#[trigger] list@[j]).0@ != name@,
    ensures
        found is Some <==> i >= 0,
        found is Some ==> found->0@ == list@[i].1@,
{
    lemma_last_value(pairs(list@), name@, i);
}

/// What is given for a name is what the last pair that carries it gives.
pub proof fn lemma_last_value(list: Seq<(Seq<char>, Seq<char>)>, key: Seq<char>, i: int)
    requires
        -1 <= i < list.len(),
        i >= 0 ==> list[i].0 == key,
        forall|j: int| i < j < list.len() ==> (#[trigger] list[j]).0 != key,
    ensures
        value_of(list, key) == if i >= 0 { Some(list[i].1) } else { None },
    decreases list.len(),
{
    let last = list.len() - 1;
    if last > i {
        assert(list[last].0 != key);
        let rest = list.drop_last();
        assert forall|j: int| i < j < rest.len() implies (#[trigger] rest[j]).0 != key by {
            assert(rest[j] == list[j]);
        }
        lemma_last_value(rest, key, i);
    }
}

/// The variables are listed once each, in the order of their names, and with
/// their values.
pub proof fn law_variables_are_listed_in_order(
    env: Env,
    list: Vec<(String, String)>,
    name: &str,
    found: Option<&str>,
)
    requires
        env.wf(),
        call_ensures(Env::to_pairs, (&env,), list),
        call_ensures(Env::get, (&env, name), found),
    ensures
        forall|i: int, j: int|
            0 <= i < j < list@.len() ==> precedes(
                (#[trigger] list@[i]).0@,
                (#[trigger] list@[j]).0@,
            ),
        found is Some <==> exists|i: int|
            0 <= i < list@.len() && (#[trigger] list@[i]).0@ == name@,
        forall|i: int|
            0 <= i < list@.len() && (#[trigger] list@[i]).0@ == name@ ==> found is Some
                && list@[i].1@ == found->0@,
{
    let all = pairs(list@);
    assert forall|i: int, j: int| 0 <= i < j < list@.len() implies precedes(
        (#[trigger] list@[i]).0@,
        (#[trigger] list@[j]).0@,
    ) by {
        assert(precedes(all[i].0, all[j].0));
    }
    assert forall|i: int| 0 <= i < list@.len() && (#[trigger] list@[i]).0@ == name@ implies found
        is Some && list@[i].1@ == found->0@ by {
        lemma_value_at(all, i);
        assert(all[i] == (list@[i].0@, list@[i].1@));
    }
    if found is Some {
        let i = lemma_value_is_there(all, name@);
        assert(list@[i].0@ == name@);
    }
}

} // verus!
