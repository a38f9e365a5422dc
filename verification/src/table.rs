//! Tables of named values: a list of names and values in which each name stands
//! at most once.
use vstd::prelude::*;

use crate::ast::const_views;
use crate::logic::LogicVec;
use crate::text::str_eq;

verus! {

/// The value of a name.
pub open spec fn lookup<V>(s: Seq<(Seq<char>, V)>, name: Seq<char>) -> Option<V>
    decreases s.len(),
{
    if s.len() == 0 {
        None
    } else if s[0].0 == name {
        Some(s[0].1)
    } else {
        lookup(s.drop_first(), name)
    }
}

/// The table with a name given a value: in the place of the old one, or at the
/// end.
pub open spec fn put<V>(s: Seq<(Seq<char>, V)>, name: Seq<char>, v: V) -> Seq<(Seq<char>, V)>
    decreases s.len(),
{
    if s.len() == 0 {
        seq![(name, v)]
    } else if s[0].0 == name {
        seq![(name, v)] + s.drop_first()
    } else {
        seq![s[0]] + put(s.drop_first(), name, v)
    }
}

/// The table with a name given a value unless it has one.
pub open spec fn put_new<V>(s: Seq<(Seq<char>, V)>, name: Seq<char>, v: V) -> Seq<(Seq<char>, V)> {
    if lookup(s, name) is Some {
        s
    } else {
        s.push((name, v))
    }
}

/// The table without a name.
pub open spec fn removed<V>(s: Seq<(Seq<char>, V)>, name: Seq<char>) -> Seq<(Seq<char>, V)>
    decreases s.len(),
{
    if s.len() == 0 {
        s
    } else if s[0].0 == name {
        s.drop_first()
    } else {
        seq![s[0]] + removed(s.drop_first(), name)
    }
}

/// Whether each name stands once.
pub open spec fn distinct<V>(s: Seq<(Seq<char>, V)>) -> bool {
    forall|i: int, j: int|
        0 <= i < s.len() && 0 <= j < s.len() && i != j ==> (#[trigger] s[i]).0 != (#[trigger] s[j]).0
}

proof fn lemma_lookup_from<V>(s: Seq<(Seq<char>, V)>, name: Seq<char>, i: int)
    requires
        0 <= i <= s.len(),
        forall|j: int| 0 <= j < i ==> (#[trigger] s[j]).0 != name,
    ensures
        lookup(s, name) == lookup(s.skip(i), name),
    decreases i,
{
    if i == 0 {
        assert(s.skip(0) =~= s);
    } else {
        lemma_lookup_from(s, name, i - 1);
        assert(s.skip(i - 1)[0] == s[i - 1]);
        assert(s.skip(i - 1).drop_first() =~= s.skip(i));
    }
}

/// A value given is the value read, and no other name is touched.
pub proof fn put_then_lookup<V>(s: Seq<(Seq<char>, V)>, name: Seq<char>, v: V, other: Seq<char>)
    ensures
        lookup(put(s, name, v), other) == (if other == name {
            Some(v)
        } else {
            lookup(s, other)
        }),
    decreases s.len(),
{
    let t = put(s, name, v);
    if s.len() == 0 {
        assert(t.drop_first() =~= Seq::<(Seq<char>, V)>::empty());
        assert(lookup(t.drop_first(), other) is None);
    } else if s[0].0 == name {
        assert(t.drop_first() =~= s.drop_first());
    } else {
        put_then_lookup(s.drop_first(), name, v, other);
        assert(t.drop_first() =~= put(s.drop_first(), name, v));
    }
}

/// A name taken out is gone where it stood once, and no other name is touched.
pub proof fn removed_then_lookup<V>(s: Seq<(Seq<char>, V)>, name: Seq<char>, other: Seq<char>)
    ensures
        other != name ==> lookup(removed(s, name), other) == lookup(s, other),
        distinct(s) ==> lookup(removed(s, name), name) is None,
    decreases s.len(),
{
    let t = removed(s, name);
    if s.len() > 0 {
        let rest = s.drop_first();
        assert(distinct(s) ==> distinct(rest)) by {
            assert forall|i: int, j: int|
                distinct(s) && 0 <= i < rest.len() && 0 <= j < rest.len() && i != j implies (
            #[trigger] rest[i]).0 != (#[trigger] rest[j]).0 by {
                assert(s[i + 1].0 != s[j + 1].0);
            }
        }
        removed_then_lookup(rest, name, other);
        if s[0].0 == name {
            if distinct(s) {
                assert forall|j: int| 0 <= j < rest.len() implies (#[trigger] rest[j]).0 != name by {
                    assert(s[j + 1].0 != s[0].0);
                }
                lemma_lookup_from(rest, name, rest.len() as int);
                assert(rest.skip(rest.len() as int) =~= Seq::empty());
            }
        } else {
            assert(t.drop_first() =~= removed(rest, name));
            assert(t[0] == s[0]);
        }
    }
}

proof fn lemma_put_names<V>(s: Seq<(Seq<char>, V)>, name: Seq<char>, v: V)
    ensures
        forall|i: int|
            0 <= i < put(s, name, v).len() ==> (#[trigger] put(s, name, v)[i]).0 == name || exists|
                j: int,
            |
                0 <= j < s.len() && (#[trigger] s[j]).0 == put(s, name, v)[i].0,
    decreases s.len(),
{
    let t = put(s, name, v);
    if s.len() > 0 && s[0].0 != name {
        lemma_put_names(s.drop_first(), name, v);
        let u = put(s.drop_first(), name, v);
        assert forall|i: int| 0 <= i < t.len() implies (#[trigger] t[i]).0 == name || exists|j: int|
            0 <= j < s.len() && (#[trigger] s[j]).0 == t[i].0 by {
            if i == 0 {
                assert(s[0].0 == t[0].0);
            } else {
                assert(t[i] == u[i - 1]);
                if u[i - 1].0 != name {
                    let j = choose|j: int|
                        0 <= j < s.drop_first().len() && (#[trigger] s.drop_first()[j]).0 == u[i
                            - 1].0;
                    assert(s[j + 1].0 == t[i].0);
                }
            }
        }
    } else if s.len() > 0 {
        assert forall|i: int| 0 <= i < t.len() implies (#[trigger] t[i]).0 == name || exists|j: int|
            0 <= j < s.len() && (#[trigger] s[j]).0 == t[i].0 by {
            if i > 0 {
                assert(s[i].0 == t[i].0);
            }
        }
    }
}

/// Giving a name a value keeps the names distinct.
pub proof fn put_keeps_distinct<V>(s: Seq<(Seq<char>, V)>, name: Seq<char>, v: V)
    requires
        distinct(s),
    ensures
        distinct(put(s, name, v)),
    decreases s.len(),
{
    let t = put(s, name, v);
    if s.len() > 0 {
        let rest = s.drop_first();
        assert(distinct(rest)) by {
            assert forall|i: int, j: int|
                0 <= i < rest.len() && 0 <= j < rest.len() && i != j implies (#[trigger] rest[i]).0
                != (#[trigger] rest[j]).0 by {
                assert(s[i + 1].0 != s[j + 1].0);
            }
        }
        if s[0].0 == name {
            assert forall|i: int, j: int|
                0 <= i < t.len() && 0 <= j < t.len() && i != j implies (#[trigger] t[i]).0 != (
            #[trigger] t[j]).0 by {
                assert(t[i].0 == s[i].0);
                assert(t[j].0 == s[j].0);
            }
        } else {
            put_keeps_distinct(rest, name, v);
            lemma_put_names(rest, name, v);
            let u = put(rest, name, v);
            assert forall|i: int, j: int|
                0 <= i < t.len() && 0 <= j < t.len() && i != j implies (#[trigger] t[i]).0 != (
            #[trigger] t[j]).0 by {
                if i > 0 && j > 0 {
                    assert(t[i] == u[i - 1]);
                    assert(t[j] == u[j - 1]);
                } else {
                    let k = if i == 0 {
                        j
                    } else {
                        i
                    };
                    assert(t[k] == u[k - 1]);
                    if u[k - 1].0 != name {
                        let m = choose|m: int|
                            0 <= m < rest.len() && (#[trigger] rest[m]).0 == u[k - 1].0;
                        assert(s[m + 1].0 != s[0].0);
                    }
                }
            }
        }
    }
}

/// A table of named values.
#[derive(Debug)]
pub struct Table<V> {
    pub entries: Vec<(String, V)>,
}

/// The names and values of a table.
pub open spec fn entries_view<V>(s: Seq<(String, V)>) -> Seq<(Seq<char>, V)> {
    s.map_values(|e: (String, V)| (e.0@, e.1))
}

impl<V> View for Table<V> {
    type V = Seq<(Seq<char>, V)>;

    open spec fn view(&self) -> Seq<(Seq<char>, V)> {
        entries_view(self.entries@)
    }
}

impl<V: Copy> Table<V> {
    /// The empty table.
    pub fn new() -> (r: Table<V>)
        ensures
            r@ == Seq::<(Seq<char>, V)>::empty(),
    {
        let r = Table { entries: Vec::new() };
        assert(r@ =~= Seq::<(Seq<char>, V)>::empty());
        r
    }

    /// Where a name stands; the length of the table where it does not.
    fn position(&self, name: &str) -> (r: usize)
        ensures
            r <= self@.len(),
            self@.len() == self.entries@.len(),
            r < self@.len() ==> self@[r as int].0 == name@,
            forall|j: int| 0 <= j < r ==> (#[trigger] self@[j]).0 != name@,
    {
        let mut i: usize = 0;
        while i < self.entries.len()
            invariant
                i <= self.entries@.len(),
                self@.len() == self.entries@.len(),
                forall|j: int| 0 <= j < i ==> (#[trigger] self@[j]).0 != name@,
            decreases self.entries@.len() - i,
        {
            assert(self@[i as int].0 == self.entries@[i as int].0@);
            if str_eq(self.entries[i].0.as_str(), name) {
                return i;
            }
            i = i + 1;
        }
        i
    }

    /// The value of a name.
    pub fn get(&self, name: &str) -> (r: Option<V>)
        ensures
            r == lookup(self@, name@),
    {
        let i: usize = self.position(name);
        proof {
            lemma_lookup_from(self@, name@, i as int);
            if i < self@.len() {
                assert(self@.skip(i as int)[0] == self@[i as int]);
                assert(self@[i as int] == (self.entries@[i as int].0@, self.entries@[i as int].1));
            }
        }
        if i < self.entries.len() {
            Some(self.entries[i].1)
        } else {
            None
        }
    }

    /// Whether a name has a value.
    pub fn has(&self, name: &str) -> (r: bool)
        ensures
            r == (lookup(self@, name@) is Some),
    {
        self.get(name).is_some()
    }

    /// Give a name a value.
    pub fn insert(&mut self, name: String, v: V)
        ensures
            final(self)@ == put(old(self)@, name@, v),
    {
        let i: usize = self.position(name.as_str());
        let ghost before = self@;
        proof {
            lemma_put_at(before, name@, v, i as int);
        }
        if i < self.entries.len() {
            self.entries.set(i, (name, v));
            assert(self@ =~= before.update(i as int, (name@, v)));
        } else {
            self.entries.push((name, v));
            assert(self@ =~= before.push((name@, v)));
        }
    }

    /// Give a name a value unless it has one.
    pub fn insert_new(&mut self, name: &String, v: V)
        ensures
            final(self)@ == put_new(old(self)@, name@, v),
    {
        if !self.has(name.as_str()) {
            let ghost before = self@;
            self.entries.push((name.clone(), v));
            assert(self@ =~= before.push((name@, v)));
        }
    }

    /// Take a name out.
    pub fn remove(&mut self, name: &str)
        ensures
            final(self)@ == removed(old(self)@, name@),
    {
        let i: usize = self.position(name);
        let ghost before = self@;
        proof {
            lemma_removed_at(before, name@, i as int);
        }
        if i < self.entries.len() {
            self.entries.remove(i);
            assert(self@ =~= before.remove(i as int));
        }
    }

    /// A copy of the table.
    pub fn copy(&self) -> (r: Table<V>)
        ensures
            r@ == self@,
    {
        let mut out: Vec<(String, V)> = Vec::new();
        let mut i: usize = 0;
        while i < self.entries.len()
            invariant
                i <= self.entries@.len(),
                entries_view(out@) == self@.take(i as int),
                self@.len() == self.entries@.len(),
            decreases self.entries@.len() - i,
        {
            let ghost before = out@;
            out.push((self.entries[i].0.clone(), self.entries[i].1));
            i = i + 1;
            assert(entries_view(out@) =~= entries_view(before).push(self@[i as int - 1]));
            assert(self@.take(i as int) =~= self@.take(i as int - 1).push(self@[i as int - 1]));
        }
        assert(self@.take(i as int) =~= self@);
        Table { entries: out }
    }
}

proof fn lemma_put_at<V>(s: Seq<(Seq<char>, V)>, name: Seq<char>, v: V, i: int)
    requires
        0 <= i <= s.len(),
        i < s.len() ==> s[i].0 == name,
        forall|j: int| 0 <= j < i ==> (#[trigger] s[j]).0 != name,
    ensures
        put(s, name, v) == (if i < s.len() {
            s.update(i, (name, v))
        } else {
            s.push((name, v))
        }),
    decreases s.len(),
{
    if s.len() == 0 {
        assert(put(s, name, v) =~= s.push((name, v)));
    } else if i == 0 {
        assert(put(s, name, v) =~= s.update(0, (name, v)));
    } else {
        let rest = s.drop_first();
        assert forall|j: int| 0 <= j < i - 1 implies (#[trigger] rest[j]).0 != name by {
            assert(rest[j] == s[j + 1]);
        }
        lemma_put_at(rest, name, v, i - 1);
        assert(s[0].0 != name);
        if i < s.len() {
            assert(put(s, name, v) =~= s.update(i, (name, v)));
        } else {
            assert(put(s, name, v) =~= s.push((name, v)));
        }
    }
}

proof fn lemma_removed_at<V>(s: Seq<(Seq<char>, V)>, name: Seq<char>, i: int)
    requires
        0 <= i <= s.len(),
        i < s.len() ==> s[i].0 == name,
        forall|j: int| 0 <= j < i ==> (#[trigger] s[j]).0 != name,
    ensures
        removed(s, name) == (if i < s.len() {
            s.remove(i)
        } else {
            s
        }),
    decreases s.len(),
{
    if s.len() > 0 {
        if i == 0 {
            assert(removed(s, name) =~= s.remove(0));
        } else {
            let rest = s.drop_first();
            assert forall|j: int| 0 <= j < i - 1 implies (#[trigger] rest[j]).0 != name by {
                assert(rest[j] == s[j + 1]);
            }
            lemma_removed_at(rest, name, i - 1);
            assert(s[0].0 != name);
            if i < s.len() {
                assert(removed(s, name) =~= s.remove(i));
            } else {
                assert(removed(s, name) =~= s);
            }
        }
    }
}

// ---- constants ------------------------------------------------------------------

/// The value of a named constant: the first with the name.
pub fn get_const<'a>(consts: &'a Vec<(String, LogicVec)>, name: &str) -> (r: Option<&'a LogicVec>)
    ensures
        match r {
            Some(v) => lookup(const_views(consts@), name@) == Some(v@),
            None => lookup(const_views(consts@), name@) is None,
        },
{
    let ghost all = const_views(consts@);
    let mut i: usize = 0;
    assert(all.skip(0) =~= all);
    while i < consts.len()
        invariant
            i <= consts@.len(),
            all == const_views(consts@),
            lookup(all, name@) == lookup(all.skip(i as int), name@),
        decreases consts@.len() - i,
    {
        let ghost rest = all.skip(i as int);
        assert(rest[0] == (consts@[i as int].0@, consts@[i as int].1@));
        assert(rest.drop_first() =~= all.skip(i as int + 1));
        if str_eq(consts[i].0.as_str(), name) {
            return Some(&consts[i].1);
        }
        i = i + 1;
    }
    None
}

/// Give a named constant a value unless it has one.
pub fn add_const(consts: &mut Vec<(String, LogicVec)>, name: &String, v: &LogicVec)
    ensures
        const_views(final(consts)@) == put_new(
            const_views(old(consts)@),
            name@,
            v@,
        ),
{
    if get_const(consts, name.as_str()).is_none() {
        let ghost before = consts@;
        consts.push((name.clone(), v.clone()));
        assert(const_views(consts@) =~= const_views(before).push(
            (name@, v@),
        ));
    }
}

/// Give a named constant a value.
pub fn set_const(consts: &mut Vec<(String, LogicVec)>, name: &String, v: LogicVec)
    ensures
        const_views(final(consts)@) == put(const_views(old(consts)@), name@, v@),
{
    let ghost all = const_views(consts@);
    let mut i: usize = 0;
    while i < consts.len() && !str_eq(consts[i].0.as_str(), name.as_str())
        invariant
            i <= consts@.len(),
            all == const_views(consts@),
            forall|j: int| 0 <= j < i ==> (#[trigger] all[j]).0 != name@,
        decreases consts@.len() - i,
    {
        assert(all[i as int].0 == consts@[i as int].0@);
        i = i + 1;
    }
    proof {
        lemma_put_at(all, name@, v@, i as int);
    }
    if i < consts.len() {
        consts.set(i, (name.clone(), v));
        assert(const_views(consts@) =~= all.update(i as int, (name@, v@)));
    } else {
        consts.push((name.clone(), v));
        assert(const_views(consts@) =~= all.push((name@, v@)));
    }
}

} // verus!
