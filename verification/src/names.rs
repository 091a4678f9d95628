//! Things kept under names, in name order.

use crate::text;
use crate::text::Text;
use vstd::prelude::*;

verus! {

/// Names ascend, and no name occurs twice.
pub open spec fn ascending<T>(s: Seq<(Text, T)>) -> bool {
    forall|i: int, j: int|
        0 <= i < j < s.len() ==> text::text_le((#[trigger] s[i]).0, (#[trigger] s[j]).0) && s[i].0
            != s[j].0
}

/// What is kept under `name`.
pub open spec fn find<T>(s: Seq<(Text, T)>, name: Text) -> Option<T>
    decreases s.len(),
{
    if s.len() == 0 {
        None
    } else if s[0].0 == name {
        Some(s[0].1)
    } else {
        find(s.drop_first(), name)
    }
}

/// `s` with `value` under `name`, in place of what was there.
pub open spec fn put<T>(s: Seq<(Text, T)>, name: Text, value: T) -> Seq<(Text, T)>
    decreases s.len(),
{
    if s.len() == 0 {
        seq![(name, value)]
    } else if s[0].0 == name {
        seq![(name, value)] + s.drop_first()
    } else if text::text_le(name, s[0].0) {
        seq![(name, value)] + s
    } else {
        seq![s[0]] + put(s.drop_first(), name, value)
    }
}

/// `s` without what is kept under `name`.
pub open spec fn without<T>(s: Seq<(Text, T)>, name: Text) -> Seq<(Text, T)>
    decreases s.len(),
{
    if s.len() == 0 {
        s
    } else if s[0].0 == name {
        s.drop_first()
    } else {
        seq![s[0]] + without(s.drop_first(), name)
    }
}

/// The names of those that `wanted` picks, in order.
pub open spec fn names_where<T>(s: Seq<(Text, T)>, wanted: spec_fn((Text, T)) -> bool) -> Seq<
    Text,
>
    decreases s.len(),
{
    if s.len() == 0 {
        seq![]
    } else {
        let front = names_where(s.drop_last(), wanted);
        if wanted(s.last()) {
            front.push(s.last().0)
        } else {
            front
        }
    }
}

proof fn lemma_find<T>(s: Seq<(Text, T)>, name: Text, i: int)
    requires
        0 <= i < s.len(),
        s[i].0 == name,
        ascending(s),
    ensures
        find(s, name) == Some(s[i].1),
    decreases s.len(),
{
    if i > 0 {
        assert(s[0].0 != s[i].0);
        assert(s.drop_first()[i - 1] == s[i]);
        lemma_ascending_rest(s);
        lemma_find(s.drop_first(), name, i - 1);
    }
}

/// What stands under a name is found under it.
pub proof fn lemma_find_at<T>(s: Seq<(Text, T)>, i: int)
    requires
        0 <= i < s.len(),
        ascending(s),
    ensures
        find(s, s[i].0) == Some(s[i].1),
{
    lemma_find(s, s[i].0, i);
}

proof fn lemma_find_none<T>(s: Seq<(Text, T)>, name: Text)
    requires
        forall|i: int| 0 <= i < s.len() ==> (#[trigger] s[i]).0 != name,
    ensures
        find(s, name) is None,
    decreases s.len(),
{
    if s.len() > 0 {
        assert(s[0].0 != name);
        assert forall|i: int| 0 <= i < s.drop_first().len() implies (
        #[trigger] s.drop_first()[i]).0 != name by {
            assert(s.drop_first()[i] == s[i + 1]);
        }
        lemma_find_none(s.drop_first(), name);
    }
}

/// What is found stands somewhere.
pub proof fn lemma_found<T>(s: Seq<(Text, T)>, name: Text) -> (i: int)
    requires
        find(s, name) is Some,
    ensures
        0 <= i < s.len(),
        s[i] == (name, find(s, name)->0),
    decreases s.len(),
{
    if s[0].0 == name {
        0
    } else {
        lemma_found(s.drop_first(), name) + 1
    }
}

proof fn lemma_ascending_rest<T>(s: Seq<(Text, T)>)
    requires
        ascending(s),
        s.len() > 0,
    ensures
        ascending(s.drop_first()),
{
    let r = s.drop_first();
    assert forall|i: int, j: int| 0 <= i < j < r.len() implies text::text_le(
        (#[trigger] r[i]).0,
        (#[trigger] r[j]).0,
    ) && r[i].0 != r[j].0 by {
        assert(r[i] == s[i + 1] && r[j] == s[j + 1]);
    }
}

/// Where `put` puts: at the first name that does not come before.
proof fn lemma_put<T>(s: Seq<(Text, T)>, name: Text, value: T, p: int)
    requires
        ascending(s),
        0 <= p <= s.len(),
        forall|i: int| 0 <= i < p ==> !text::text_le(name, (#[trigger] s[i]).0),
        p < s.len() ==> text::text_le(name, s[p].0),
    ensures
        put(s, name, value) == (if p < s.len() && s[p].0 == name {
            s.update(p, (name, value))
        } else {
            s.insert(p, (name, value))
        }),
    decreases s.len(),
{
    text::lemma_text_order_total();
    let le = text::text_order();
    if s.len() == 0 {
        assert(s.insert(0, (name, value)) =~= seq![(name, value)]);
    } else if p == 0 {
        if s[0].0 == name {
            assert(s.update(0, (name, value)) =~= seq![(name, value)] + s.drop_first());
        } else {
            assert(s.insert(0, (name, value)) =~= seq![(name, value)] + s);
        }
    } else {
        assert(!text::text_le(name, s[0].0));
        assert(le(name, name));
        let r = s.drop_first();
        lemma_ascending_rest(s);
        assert forall|i: int| 0 <= i < p - 1 implies !text::text_le(name, (#[trigger] r[i]).0) by {
            assert(r[i] == s[i + 1]);
        }
        if p < s.len() {
            assert(r[p - 1] == s[p]);
        }
        lemma_put(r, name, value, p - 1);
        if p < s.len() && s[p].0 == name {
            assert(s.update(p, (name, value)) =~= seq![s[0]] + r.update(p - 1, (name, value)));
        } else {
            assert(s.insert(p, (name, value)) =~= seq![s[0]] + r.insert(p - 1, (name, value)));
        }
    }
}

proof fn lemma_without<T>(s: Seq<(Text, T)>, name: Text, p: int)
    requires
        0 <= p < s.len(),
        s[p].0 == name,
        ascending(s),
    ensures
        without(s, name) == s.remove(p),
    decreases s.len(),
{
    if p == 0 {
        assert(s.remove(0) =~= s.drop_first());
    } else {
        assert(s[0].0 != s[p].0);
        lemma_ascending_rest(s);
        assert(s.drop_first()[p - 1] == s[p]);
        lemma_without(s.drop_first(), name, p - 1);
        assert(s.remove(p) =~= seq![s[0]] + s.drop_first().remove(p - 1));
    }
}

proof fn lemma_without_none<T>(s: Seq<(Text, T)>, name: Text)
    requires
        find(s, name) is None,
    ensures
        without(s, name) == s,
    decreases s.len(),
{
    if s.len() > 0 {
        lemma_without_none(s.drop_first(), name);
        assert(s =~= seq![s[0]] + s.drop_first());
    }
}

/// Putting keeps the names in order.
pub proof fn lemma_put_ascending<T>(s: Seq<(Text, T)>, name: Text, value: T)
    requires
        ascending(s),
    ensures
        ascending(put(s, name, value)),
    decreases s.len(),
{
    text::lemma_text_order_total();
    let le = text::text_order();
    if s.len() > 0 && s[0].0 != name && !text::text_le(name, s[0].0) {
        let r = put(s.drop_first(), name, value);
        lemma_ascending_rest(s);
        lemma_put_ascending(s.drop_first(), name, value);
        lemma_put_names(s.drop_first(), name, value);
        let t = seq![s[0]] + r;
        assert forall|i: int, j: int| 0 <= i < j < t.len() implies text::text_le(
            (#[trigger] t[i]).0,
            (#[trigger] t[j]).0,
        ) && t[i].0 != t[j].0 by {
            assert(t[j] == r[j - 1]);
            if i == 0 {
                if r[j - 1].0 == name {
                    assert(!le(name, s[0].0));
                    assert(le(s[0].0, name));
                } else {
                    let k = choose|k: int|
                        0 <= k < s.drop_first().len() && s.drop_first()[k].0 == r[j - 1].0;
                    assert(s.drop_first()[k] == s[k + 1]);
                }
            } else {
                assert(t[i] == r[i - 1]);
            }
        }
    } else if s.len() > 0 {
        let t = put(s, name, value);
        assert forall|i: int, j: int| 0 <= i < j < t.len() implies text::text_le(
            (#[trigger] t[i]).0,
            (#[trigger] t[j]).0,
        ) && t[i].0 != t[j].0 by {
            if s[0].0 == name {
                assert(t[j] == s[j]);
                if i > 0 {
                    assert(t[i] == s[i]);
                } else {
                    assert(s[0].0 == name);
                }
            } else {
                assert(t[j] == s[j - 1]);
                if i > 0 {
                    assert(t[i] == s[i - 1]);
                } else if j > 1 {
                    assert(le(name, s[0].0) && le(s[0].0, s[j - 1].0));
                    if name == s[j - 1].0 {
                        assert(le(s[j - 1].0, s[0].0));
                    }
                }
            }
        }
    }
}

/// Every name after `put` is the one that was put, or was there before.
proof fn lemma_put_names<T>(s: Seq<(Text, T)>, name: Text, value: T)
    ensures
        forall|i: int|
            0 <= i < put(s, name, value).len() && (#[trigger] put(s, name, value)[i]).0 != name
                ==> exists|k: int| 0 <= k < s.len() && s[k].0 == put(s, name, value)[i].0,
    decreases s.len(),
{
    let t = put(s, name, value);
    assert forall|i: int| 0 <= i < t.len() && (#[trigger] t[i]).0 != name implies exists|k: int|
        0 <= k < s.len() && s[k].0 == t[i].0 by {
        if s.len() > 0 {
            if s[0].0 == name {
                assert(t[i] == s[i]);
            } else if text::text_le(name, s[0].0) {
                assert(t[i] == s[i - 1]);
            } else {
                let r = put(s.drop_first(), name, value);
                lemma_put_names(s.drop_first(), name, value);
                if i == 0 {
                    assert(s[0].0 == t[0].0);
                } else {
                    assert(t[i] == r[i - 1]);
                    let k = choose|k: int|
                        0 <= k < s.drop_first().len() && s.drop_first()[k].0 == r[i - 1].0;
                    assert(s[k + 1].0 == t[i].0);
                }
            }
        }
    }
}

/// What was put is found, and nothing else has changed.
pub proof fn lemma_put_find<T>(s: Seq<(Text, T)>, name: Text, value: T, other: Text)
    ensures
        find(put(s, name, value), name) == Some(value),
        other != name ==> find(put(s, name, value), other) == find(s, other),
    decreases s.len(),
{
    if s.len() > 0 {
        let t = put(s, name, value);
        if s[0].0 == name {
            assert(t.drop_first() =~= s.drop_first());
        } else if text::text_le(name, s[0].0) {
            assert(t.drop_first() =~= s);
        } else {
            lemma_put_find(s.drop_first(), name, value, other);
            assert(t.drop_first() =~= put(s.drop_first(), name, value));
        }
    } else {
        let t = put(s, name, value);
        assert(t.drop_first() =~= Seq::<(Text, T)>::empty());
        reveal_with_fuel(find, 2);
    }
}

/// What was taken out is not found any more, and everything else still is.
pub proof fn lemma_without_find<T>(s: Seq<(Text, T)>, name: Text, other: Text)
    requires
        ascending(s),
    ensures
        find(without(s, name), name) is None,
        other != name ==> find(without(s, name), other) == find(s, other),
    decreases s.len(),
{
    if s.len() > 0 {
        let rest = s.drop_first();
        assert forall|i: int, j: int| 0 <= i < j < rest.len() implies text::text_le(
            (#[trigger] rest[i]).0,
            (#[trigger] rest[j]).0,
        ) && rest[i].0 != rest[j].0 by {
            assert(rest[i] == s[i + 1] && rest[j] == s[j + 1]);
        }
        if s[0].0 == name {
            if find(rest, name) is Some {
                let i = lemma_found(rest, name);
                assert(s[i + 1].0 == name);
            }
        } else {
            lemma_without_find(rest, name, other);
            let t = without(s, name);
            assert(t.drop_first() =~= without(rest, name));
            assert(t[0] == s[0]);
        }
    }
}

/// Taking something out and putting it back changes nothing.
pub proof fn lemma_put_back<T>(s: Seq<(Text, T)>, name: Text)
    requires
        ascending(s),
        find(s, name) is Some,
    ensures
        put(without(s, name), name, find(s, name)->0) == s,
    decreases s.len(),
{
    text::lemma_text_order_total();
    let le = text::text_order();
    let v = find(s, name)->0;
    if s[0].0 == name {
        let w = s.drop_first();
        if w.len() > 0 {
            assert(w[0] == s[1]);
        }
        assert(s =~= seq![(name, v)] + w);
    } else {
        lemma_ascending_rest(s);
        lemma_put_back(s.drop_first(), name);
        let i = lemma_found(s, name);
        assert(le(s[0].0, s[i].0));
        let w = without(s, name);
        assert(w.drop_first() =~= without(s.drop_first(), name));
        assert(!text::text_le(name, s[0].0)) by {
            if le(name, s[0].0) {
                assert(name == s[0].0);
            }
        }
        assert(s =~= seq![s[0]] + s.drop_first());
    }
}

/// What is put under a name replaces what was there, whether or not that was
/// taken out before.
pub proof fn lemma_put_without<T>(s: Seq<(Text, T)>, name: Text)
    requires
        ascending(s),
    ensures
        forall|v: T| #[trigger] put(without(s, name), name, v) == put(s, name, v),
    decreases s.len(),
{
    assert forall|v: T| #[trigger] put(without(s, name), name, v) == put(s, name, v) by {
        text::lemma_text_order_total();
        let le = text::text_order();
        if s.len() > 0 {
            let w = without(s, name);
            if s[0].0 == name {
                let rest = s.drop_first();
                if rest.len() > 0 {
                    assert(rest[0] == s[1]);
                }
                assert(put(w, name, v) =~= seq![(name, v)] + rest);
            } else {
                lemma_ascending_rest(s);
                lemma_put_without(s.drop_first(), name);
                let rest = without(s.drop_first(), name);
                assert(w.drop_first() =~= rest);
                if text::text_le(name, s[0].0) {
                    if find(s.drop_first(), name) is Some {
                        let i = lemma_found(s.drop_first(), name);
                        assert(s.drop_first()[i] == s[i + 1]);
                        assert(le(s[0].0, name) && le(name, s[0].0));
                    }
                    lemma_without_none(s.drop_first(), name);
                    assert(w =~= s);
                } else {
                    assert(put(rest, name, v) == put(s.drop_first(), name, v));
                }
            }
        }
    }
}

/// Things kept under names. The view lists them in name order.
pub struct NameMap<V: View> {
    entries: Vec<(String, V)>,
}

/// The entries of a vector, in order.
pub open spec fn entries_of<V: View>(v: Seq<(String, V)>) -> Seq<(Text, V::V)> {
    Seq::new(v.len(), |i: int| (v[i].0@, v[i].1@))
}

impl<V: View> View for NameMap<V> {
    type V = Seq<(Text, V::V)>;

    closed spec fn view(&self) -> Seq<(Text, V::V)> {
        entries_of(self.entries@)
    }
}

impl<V: View> NameMap<V> {
    #[verifier::type_invariant]
    spec fn wf(self) -> bool {
        ascending(entries_of(self.entries@))
    }

    pub fn new() -> (r: Self)
        ensures
            r@ == Seq::<(Text, V::V)>::empty(),
    {
        let none: Vec<(String, V)> = Vec::new();
        assert(entries_of(none@) =~= Seq::<(Text, V::V)>::empty());
        NameMap { entries: none }
    }

    pub fn len(&self) -> (r: usize)
        ensures
            r == self@.len(),
    {
        self.entries.len()
    }

    /// The name at a place.
    pub fn name_at(&self, i: usize) -> (r: &String)
        requires
            i < self@.len(),
        ensures
            r@ == self@[i as int].0,
    {
        &self.entries[i].0
    }

    /// What is kept at a place.
    pub fn value_at(&self, i: usize) -> (r: &V)
        requires
            i < self@.len(),
        ensures
            r@ == self@[i as int].1,
    {
        &self.entries[i].1
    }

    /// Where a name stands.
    pub fn index_of(&self, name: &str) -> (r: Option<usize>)
        ensures
            match r {
                Some(i) => i < self@.len() && self@[i as int].0 == name@ && find(self@, name@)
                    == Some(self@[i as int].1),
                None => find(self@, name@) is None,
            },
    {
        proof {
            use_type_invariant(self);
        }
        let mut i: usize = 0;
        while i < self.entries.len()
            invariant
                i <= self.entries@.len(),
                ascending(self@),
                forall|j: int| 0 <= j < i ==> (#[trigger] self@[j]).0 != name@,
            decreases self.entries.len() - i,
        {
            if text::same_text(self.entries[i].0.as_str(), name) {
                proof {
                    lemma_find(self@, name@, i as int);
                }
                return Some(i);
            }
            assert(self@[i as int].0 != name@);
            i += 1;
        }
        proof {
            lemma_find_none(self@, name@);
        }
        None
    }

    /// What is kept under a name.
    pub fn get(&self, name: &str) -> (r: Option<&V>)
        ensures
            match r {
                Some(v) => find(self@, name@) == Some(v@),
                None => find(self@, name@) is None,
            },
    {
        match self.index_of(name) {
            Some(i) => Some(&self.entries[i].1),
            None => None,
        }
    }

    /// Keeps `value` under `name`, in place of what was there.
    pub fn insert(&mut self, name: String, value: V)
        ensures
            final(self)@ == put(old(self)@, name@, value@),
    {
        proof {
            use_type_invariant(&*self);
        }
        let mut list: Vec<(String, V)> = Vec::new();
        assert(entries_of(list@) =~= Seq::<(Text, V::V)>::empty());
        core::mem::swap(&mut list, &mut self.entries);
        let ghost before = entries_of(list@);
        let mut p: usize = 0;
        while p < list.len() && !text::text_at_most(name.as_str(), list[p].0.as_str())
            invariant
                p <= list@.len(),
                before == entries_of(list@),
                forall|j: int| 0 <= j < p ==> !text::text_le(name@, (#[trigger] before[j]).0),
            decreases list.len() - p,
        {
            assert(!text::text_le(name@, before[p as int].0));
            p += 1;
        }
        proof {
            lemma_put(before, name@, value@, p as int);
            lemma_put_ascending(before, name@, value@);
        }
        let ghost entry = (name@, value@);
        if p < list.len() && text::same_text(list[p].0.as_str(), name.as_str()) {
            list.set(p, (name, value));
            assert(entries_of(list@) =~= before.update(p as int, entry));
        } else {
            list.insert(p, (name, value));
            assert(entries_of(list@) =~= before.insert(p as int, entry));
        }
        self.entries = list;
    }

    /// Takes out what is kept under `name`.
    pub fn remove(&mut self, name: &str) -> (r: Option<V>)
        ensures
            ascending(old(self)@),
            final(self)@ == without(old(self)@, name@),
            match r {
                Some(v) => find(old(self)@, name@) == Some(v@),
                None => find(old(self)@, name@) is None && final(self)@ == old(self)@,
            },
    {
        proof {
            use_type_invariant(&*self);
        }
        match self.index_of(name) {
            None => {
                proof {
                    lemma_without_none(self@, name@);
                }
                None
            },
            Some(i) => {
                let mut list: Vec<(String, V)> = Vec::new();
                assert(entries_of(list@) =~= Seq::<(Text, V::V)>::empty());
                let ghost before = self@;
                core::mem::swap(&mut list, &mut self.entries);
                let (_, value) = list.remove(i);
                proof {
                    lemma_without(before, name@, i as int);
                    let after = entries_of(list@);
                    assert(after =~= before.remove(i as int));
                    assert forall|a: int, b: int| 0 <= a < b < after.len() implies text::text_le(
                        (#[trigger] after[a]).0,
                        (#[trigger] after[b]).0,
                    ) && after[a].0 != after[b].0 by {
                        let x = if a < i { a } else { a + 1 };
                        let y = if b < i { b } else { b + 1 };
                        assert(after[a] == before[x] && after[b] == before[y]);
                    }
                }
                self.entries = list;
                Some(value)
            },
        }
    }
}

} // verus!
