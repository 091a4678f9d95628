//! Named resource locks. One physical device is controlled by at most one
//! task at any moment. No preemption: contention answers "busy" and the
//! caller decides (requeue / reject) -- that policy lives outside the kernel.

use crate::text;
use crate::text::Text;
use vstd::prelude::*;

verus! {

/// The locks: each held resource with the task that holds it.
pub struct ResourceLocks {
    held: Vec<(String, u64)>,
}

/// No resource occurs twice.
spec fn distinct(held: Seq<(String, u64)>) -> bool {
    forall|i: int, j: int|
        0 <= i < j < held.len() ==> (#[trigger] held[i]).0@ != (#[trigger] held[j]).0@
}

spec fn holds(held: Seq<(String, u64)>, name: Text) -> bool {
    exists|i: int| 0 <= i < held.len() && (#[trigger] held[i]).0@ == name
}

spec fn holder(held: Seq<(String, u64)>, name: Text) -> u64 {
    held[choose|i: int| 0 <= i < held.len() && (#[trigger] held[i]).0@ == name].1
}

impl View for ResourceLocks {
    type V = Map<Text, u64>;

    closed spec fn view(&self) -> Map<Text, u64> {
        Map::new(|n: Text| holds(self.held@, n), |n: Text| holder(self.held@, n))
    }
}

/// `task` may take `name`: nobody else holds it.
pub open spec fn available(locks: Map<Text, u64>, task: u64, name: Text) -> bool {
    locks.contains_key(name) ==> locks[name] == task
}

/// The first of `names` that another task holds.
pub open spec fn first_busy(locks: Map<Text, u64>, task: u64, names: Seq<Text>) -> Option<Text>
    decreases names.len(),
{
    if names.len() == 0 {
        None
    } else if !available(locks, task, names[0]) {
        Some(names[0])
    } else {
        first_busy(locks, task, names.drop_first())
    }
}

/// `locks` with every one of `names` held by `task`.
pub open spec fn with_all(locks: Map<Text, u64>, task: u64, names: Seq<Text>) -> Map<Text, u64> {
    Map::new(
        |n: Text| names.contains(n) || locks.contains_key(n),
        |n: Text|
            if names.contains(n) {
                task
            } else {
                locks[n]
            },
    )
}

/// `locks` without those of `task`.
pub open spec fn without_task(locks: Map<Text, u64>, task: u64) -> Map<Text, u64> {
    Map::new(|n: Text| locks.contains_key(n) && locks[n] != task, |n: Text| locks[n])
}

impl Default for ResourceLocks {
    fn default() -> (r: Self)
        ensures
            r@ == Map::<Text, u64>::empty(),
    {
        let r = ResourceLocks { held: Vec::new() };
        assert(r@ =~= Map::<Text, u64>::empty());
        r
    }
}

impl ResourceLocks {
    #[verifier::type_invariant]
    spec fn wf(self) -> bool {
        distinct(self.held@)
    }

    /// The place of `name` among the held resources.
    fn position(&self, name: &str) -> (r: Option<usize>)
        ensures
            r matches Some(i) ==> i < self.held@.len() && self.held@[i as int].0@ == name@
                && self@.contains_key(name@) && self@[name@] == self.held@[i as int].1,
            r is None ==> !self@.contains_key(name@),
    {
        proof {
            use_type_invariant(self);
        }
        let mut i: usize = 0;
        while i < self.held.len()
            invariant
                i <= self.held@.len(),
                distinct(self.held@),
                forall|j: int| 0 <= j < i ==> (#[trigger] self.held@[j]).0@ != name@,
            decreases self.held.len() - i,
        {
            if text::same_text(self.held[i].0.as_str(), name) {
                assert(holds(self.held@, name@));
                return Some(i);
            }
            i += 1;
        }
        None
    }

    /// Makes `task` the holder of `name`.
    fn take(&mut self, name: &str, task: u64)
        ensures
            final(self)@ == old(self)@.insert(name@, task),
    {
        proof {
            use_type_invariant(&*self);
        }
        let ghost before = self@;
        let ghost old_held = self.held@;
        let at = self.position(name);
        let mut held: Vec<(String, u64)> = Vec::new();
        core::mem::swap(&mut held, &mut self.held);
        match at {
            Some(i) => {
                held.set(i, (name.to_string(), task));
            },
            None => {
                held.push((name.to_string(), task));
            },
        }
        let ghost new_held = held@;
        proof {
            assert(distinct(new_held)) by {
                assert forall|i: int, j: int| 0 <= i < j < new_held.len() implies (
                #[trigger] new_held[i]).0@ != (#[trigger] new_held[j]).0@ by {
                    if at is None {
                        assert(!holds(old_held, name@));
                        if j == old_held.len() {
                            assert(old_held[i].0@ != name@);
                        } else {
                            assert(old_held[i].0@ != old_held[j].0@);
                        }
                    } else {
                        assert(old_held[i].0@ != old_held[j].0@);
                    }
                }
            }
        }
        self.held = held;
        proof {
            let after = self@;
            let place = if at is Some {
                at->0 as int
            } else {
                old_held.len() as int
            };
            assert(new_held[place].0@ == name@ && new_held[place].1 == task);
            assert(holds(new_held, name@));
            assert forall|n: Text| n != name@ implies (#[trigger] holds(new_held, n) <==> holds(
                old_held,
                n,
            )) by {
                if holds(old_held, n) {
                    let i = choose|i: int|
                        0 <= i < old_held.len() && (#[trigger] old_held[i]).0@ == n;
                    assert(new_held[i].0@ == n);
                }
                if holds(new_held, n) {
                    let i = choose|i: int|
                        0 <= i < new_held.len() && (#[trigger] new_held[i]).0@ == n;
                    assert(old_held[i].0@ == n);
                }
            }
            assert forall|n: Text| n != name@ && holds(old_held, n) implies #[trigger] holder(
                new_held,
                n,
            ) == holder(old_held, n) by {
                let i = choose|i: int| 0 <= i < old_held.len() && (#[trigger] old_held[i]).0@ == n;
                assert(holds(new_held, n));
                let k = choose|i: int| 0 <= i < new_held.len() && (#[trigger] new_held[i]).0@ == n;
                assert(new_held[i].0@ == n);
                assert(i == k);
            }
            assert(after =~= before.insert(name@, task));
        }
    }

    /// Tries to acquire every resource for `task`. All-or-nothing: on any
    /// conflict nothing is taken and the busy resource name is returned.
    pub fn acquire_all(&mut self, task: u64, resources: &[String]) -> (r: Result<(), String>)
        ensures
            match first_busy(old(self)@, task, text::texts(resources@)) {
                Some(busy) => r matches Err(name) && name@ == busy && final(self)@ == old(self)@,
                None => r is Ok && final(self)@ == with_all(
                    old(self)@,
                    task,
                    text::texts(resources@),
                ),
            },
    {
        let ghost names = text::texts(resources@);
        let ghost before = self@;
        let mut i: usize = 0;
        assert(names.skip(0) =~= names);
        while i < resources.len()
            invariant
                i <= resources@.len(),
                names == text::texts(resources@),
                self@ == before,
                *self == *old(self),
                first_busy(before, task, names) == first_busy(before, task, names.skip(i as int)),
            decreases resources.len() - i,
        {
            proof {
                assert(names.skip(i as int)[0] == names[i as int]);
                assert(names.skip(i as int).drop_first() =~= names.skip(i + 1));
            }
            match self.position(resources[i].as_str()) {
                Some(p) => {
                    if self.held[p].1 != task {
                        return Err(resources[i].clone());
                    }
                },
                None => {},
            }
            i += 1;
        }
        let mut k: usize = 0;
        assert(self@ =~= with_all(before, task, names.take(0)));
        while k < resources.len()
            invariant
                k <= resources@.len(),
                names == text::texts(resources@),
                self@ == with_all(before, task, names.take(k as int)),
            decreases resources.len() - k,
        {
            self.take(resources[k].as_str(), task);
            proof {
                let done = names.take(k as int);
                let next = names.take(k + 1);
                assert(next =~= done.push(names[k as int]));
                assert(forall|n: Text|
                    #[trigger] next.contains(n) <==> done.contains(n) || n == names[k as int]) by {
                    assert forall|n: Text| #[trigger] next.contains(n) implies done.contains(n) || n
                        == names[k as int] by {
                        let i = choose|i: int| 0 <= i < next.len() && next[i] == n;
                        if i < k {
                            assert(done[i] == n);
                        }
                    }
                    assert forall|n: Text|
                        done.contains(n) || n == names[k as int] implies #[trigger] next.contains(
                        n,
                    ) by {
                        if done.contains(n) {
                            let i = choose|i: int| 0 <= i < done.len() && done[i] == n;
                            assert(next[i] == n);
                        } else {
                            assert(next[k as int] == n);
                        }
                    }
                }
                assert(self@ =~= with_all(before, task, next));
            }
            k += 1;
        }
        assert(names.take(k as int) =~= names);
        Ok(())
    }

    /// Gives back everything `task` holds.
    pub fn release_task(&mut self, task: u64)
        ensures
            final(self)@ == without_task(old(self)@, task),
    {
        proof {
            use_type_invariant(&*self);
        }
        let ghost before = self@;
        let ghost old_held = self.held@;
        let mut held: Vec<(String, u64)> = Vec::new();
        core::mem::swap(&mut held, &mut self.held);
        let mut kept: Vec<(String, u64)> = Vec::new();
        let ghost mut source: Seq<int> = Seq::empty();
        let mut i: usize = 0;
        while i < held.len()
            invariant
                held@ == old_held,
                distinct(old_held),
                i <= held@.len(),
                source.len() == kept@.len(),
                forall|k: int|
                    #![trigger kept@[k]]
                    #![trigger source[k]]
                    0 <= k < kept@.len() ==> 0 <= source[k] < i && kept@[k].0@
                        == old_held[source[k]].0@ && kept@[k].1 == old_held[source[k]].1
                        && kept@[k].1 != task,
                forall|k: int, l: int|
                    0 <= k < l < source.len() ==> #[trigger] source[k] < #[trigger] source[l],
                forall|j: int|
                    0 <= j < i && (#[trigger] old_held[j]).1 != task ==> source.contains(j),
            decreases held.len() - i,
        {
            if held[i].1 != task {
                let ghost was = source;
                kept.push((held[i].0.clone(), held[i].1));
                proof {
                    source = source.push(i as int);
                    assert forall|j: int|
                        0 <= j < i + 1 && (#[trigger] old_held[j]).1 != task implies source.contains(
                        j,
                    ) by {
                        if j == i {
                            assert(source[was.len() as int] == j);
                        } else {
                            let k = choose|k: int| 0 <= k < was.len() && was[k] == j;
                            assert(source[k] == j);
                        }
                    }
                }
            }
            i += 1;
        }
        proof {
            assert(distinct(kept@)) by {
                assert forall|k: int, l: int| 0 <= k < l < kept@.len() implies (
                #[trigger] kept@[k]).0@ != (#[trigger] kept@[l]).0@ by {
                    assert(source[k] < source[l]);
                    assert(old_held[source[k]].0@ != old_held[source[l]].0@);
                }
            }
        }
        let ghost new_held = kept@;
        self.held = kept;
        proof {
            let want = without_task(before, task);
            assert forall|n: Text| #[trigger] holds(new_held, n) <==> holds(old_held, n)
                && holder(old_held, n) != task by {
                if holds(new_held, n) {
                    let k = choose|k: int| 0 <= k < new_held.len() && (#[trigger] new_held[k]).0@ == n;
                    assert(old_held[source[k]].0@ == n);
                    let j = choose|j: int| 0 <= j < old_held.len() && (#[trigger] old_held[j]).0@ == n;
                    assert(j == source[k]);
                }
                if holds(old_held, n) && holder(old_held, n) != task {
                    let j = choose|j: int| 0 <= j < old_held.len() && (#[trigger] old_held[j]).0@ == n;
                    assert(source.contains(j));
                    let k = choose|k: int| 0 <= k < source.len() && source[k] == j;
                    assert(new_held[k].0@ == n);
                }
            }
            assert forall|n: Text| #[trigger] holds(new_held, n) implies holder(new_held, n)
                == holder(old_held, n) by {
                let k = choose|k: int| 0 <= k < new_held.len() && (#[trigger] new_held[k]).0@ == n;
                assert(old_held[source[k]].0@ == n);
                let j = choose|j: int| 0 <= j < old_held.len() && (#[trigger] old_held[j]).0@ == n;
                assert(j == source[k]);
            }
            assert(self@ =~= want);
        }
    }
}

/// What a task is granted is its own, and nobody else gets it until the task
/// is released: any other task that asks for one of these resources, whatever
/// else it asks for, is told that a resource is busy.
pub proof fn law_granted_resources_are_exclusive(
    locks: Map<Text, u64>,
    task: u64,
    names: Seq<Text>,
    other: u64,
    wanted: Seq<Text>,
    shared: Text,
)
    requires
        first_busy(locks, task, names) is None,
        other != task,
        names.contains(shared),
        wanted.contains(shared),
    ensures
        with_all(locks, task, names)[shared] == task,
        first_busy(with_all(locks, task, names), other, wanted) is Some,
    decreases wanted.len(),
{
    let granted = with_all(locks, task, names);
    if available(granted, other, wanted[0]) {
        let i = choose|i: int| 0 <= i < wanted.len() && wanted[i] == shared;
        assert(i > 0);
        assert(wanted.drop_first()[i - 1] == shared);
        law_granted_resources_are_exclusive(
            locks,
            task,
            names,
            other,
            wanted.drop_first(),
            shared,
        );
    }
}

/// A task may ask again for what it already holds.
pub proof fn law_reacquiring_succeeds(locks: Map<Text, u64>, task: u64, names: Seq<Text>)
    requires
        first_busy(locks, task, names) is None,
    ensures
        first_busy(with_all(locks, task, names), task, names) is None,
        with_all(with_all(locks, task, names), task, names) == with_all(locks, task, names),
{
    lemma_all_available(with_all(locks, task, names), task, names, names);
    assert(with_all(with_all(locks, task, names), task, names) =~= with_all(locks, task, names));
}

proof fn lemma_all_available(
    locks: Map<Text, u64>,
    task: u64,
    names: Seq<Text>,
    rest: Seq<Text>,
)
    requires
        forall|n: Text| names.contains(n) ==> locks.contains_key(n) && locks[n] == task,
        forall|i: int| 0 <= i < rest.len() ==> names.contains(#[trigger] rest[i]),
    ensures
        first_busy(locks, task, rest) is None,
    decreases rest.len(),
{
    if rest.len() > 0 {
        assert(names.contains(rest[0]));
        assert forall|i: int| 0 <= i < rest.drop_first().len() implies names.contains(
            #[trigger] rest.drop_first()[i],
        ) by {
            assert(rest.drop_first()[i] == rest[i + 1]);
        }
        lemma_all_available(locks, task, names, rest.drop_first());
    }
}

/// Releasing a task frees exactly what it held: every resource another task
/// holds stays held, and what the task held can be had by anyone.
pub proof fn law_release_affects_only_the_task(
    locks: Map<Text, u64>,
    task: u64,
    other: u64,
    name: Text,
)
    ensures
        locks.contains_key(name) && locks[name] == task ==> available(
            without_task(locks, task),
            other,
            name,
        ),
        locks.contains_key(name) && locks[name] != task ==> without_task(locks, task).contains_key(
            name,
        ) && without_task(locks, task)[name] == locks[name],
{
}

/// A task that held nothing leaves no trace once it has been granted
/// resources that were free and has been released.
pub proof fn law_release_undoes_acquire(locks: Map<Text, u64>, task: u64, names: Seq<Text>)
    requires
        first_busy(locks, task, names) is None,
        forall|n: Text| locks.contains_key(n) ==> locks[n] != task,
    ensures
        without_task(with_all(locks, task, names), task) == locks,
{
    assert forall|n: Text| names.contains(n) implies !locks.contains_key(n) by {
        lemma_available_member(locks, task, names, n);
    }
    assert(without_task(with_all(locks, task, names), task) =~= locks);
}

proof fn lemma_available_member(locks: Map<Text, u64>, task: u64, names: Seq<Text>, n: Text)
    requires
        first_busy(locks, task, names) is None,
        names.contains(n),
    ensures
        available(locks, task, n),
    decreases names.len(),
{
    if names[0] != n {
        let i = choose|i: int| 0 <= i < names.len() && names[i] == n;
        assert(names.drop_first()[i - 1] == n);
        lemma_available_member(locks, task, names.drop_first(), n);
    }
}

/// The resource that is named as busy is the first of those asked for that another task
/// holds; and where none is named, no other task holds any of them.
pub proof fn law_the_first_busy_resource_is_named(
    locks: Map<Text, u64>,
    task: u64,
    names: Seq<Text>,
)
    ensures
        match first_busy(locks, task, names) {
            Some(busy) => exists|i: int|
                0 <= i < names.len() && #[trigger] names[i] == busy && locks.contains_key(busy)
                    && locks[busy] != task && forall|j: int|
                    0 <= j < i ==> !(locks.contains_key(#[trigger] names[j]) && locks[names[j]]
                        != task),
            None => forall|j: int|
                0 <= j < names.len() ==> !(locks.contains_key(#[trigger] names[j])
                    && locks[names[j]] != task),
        },
    decreases names.len(),
{
    if names.len() > 0 {
        let rest = names.drop_first();
        if available(locks, task, names[0]) {
            law_the_first_busy_resource_is_named(locks, task, rest);
            match first_busy(locks, task, names) {
                Some(busy) => {
                    let i = choose|i: int|
                        0 <= i < rest.len() && #[trigger] rest[i] == busy && locks.contains_key(
                            busy,
                        ) && locks[busy] != task && forall|j: int|
                            0 <= j < i ==> !(locks.contains_key(#[trigger] rest[j])
                                && locks[rest[j]] != task);
                    assert(names[i + 1] == busy);
                    assert forall|j: int| 0 <= j < i + 1 implies !(locks.contains_key(
                        #[trigger] names[j],
                    ) && locks[names[j]] != task) by {
                        if j > 0 {
                            assert(rest[j - 1] == names[j]);
                        }
                    }
                },
                None => {
                    assert forall|j: int| 0 <= j < names.len() implies !(locks.contains_key(
                        #[trigger] names[j],
                    ) && locks[names[j]] != task) by {
                        if j > 0 {
                            assert(rest[j - 1] == names[j]);
                        }
                    }
                },
            }
        } else {
            assert(names[0] == first_busy(locks, task, names)->0);
        }
    }
}

/// What a task takes it holds, and nothing else changes hands.
pub proof fn law_taking_changes_nothing_else(
    locks: Map<Text, u64>,
    task: u64,
    names: Seq<Text>,
    name: Text,
)
    ensures
        names.contains(name) ==> with_all(locks, task, names).contains_key(name) && with_all(
            locks,
            task,
            names,
        )[name] == task,
        !names.contains(name) ==> with_all(locks, task, names).contains_key(name)
            == locks.contains_key(name) && (locks.contains_key(name) ==> with_all(
            locks,
            task,
            names,
        )[name] == locks[name]),
{
}

} // verus!
