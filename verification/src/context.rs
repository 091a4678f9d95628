//! Bounded conversation context. Hard byte budget: pushing past the cap
//! silently drops the oldest entries. The kernel never grows unbounded.

use crate::text;
use crate::text::Text;
use vstd::prelude::*;
use vstd::utf8;

verus! {

#[derive(Debug)]
pub struct ContextEntry {
    /// "user" | "assistant" | "system"
    pub role: String,
    pub content: String,
}

/// An entry as the contracts see it.
pub struct EntryModel {
    pub role: Text,
    pub content: Text,
}

impl View for ContextEntry {
    type V = EntryModel;

    open spec fn view(&self) -> EntryModel {
        EntryModel { role: self.role@, content: self.content@ }
    }
}

impl Clone for ContextEntry {
    fn clone(&self) -> (r: Self)
        ensures
            r@ == self@,
    {
        ContextEntry { role: self.role.clone(), content: self.content.clone() }
    }
}

/// The entries of a vector, in order.
pub open spec fn entries(v: Seq<ContextEntry>) -> Seq<EntryModel> {
    Seq::new(v.len(), |i: int| v[i]@)
}

/// A copy of the entries.
pub fn copy_entries(list: &[ContextEntry]) -> (r: Vec<ContextEntry>)
    ensures
        entries(r@) == entries(list@),
{
    let mut out: Vec<ContextEntry> = Vec::new();
    let mut i: usize = 0;
    while i < list.len()
        invariant
            i <= list@.len(),
            out@.len() == i,
            forall|j: int| 0 <= j < i ==> (#[trigger] out@[j])@ == list@[j]@,
        decreases list.len() - i,
    {
        out.push(list[i].clone());
        i += 1;
    }
    assert(entries(out@) =~= entries(list@));
    out
}

/// What an entry costs of the budget, in bytes.
pub open spec fn cost(e: EntryModel) -> nat {
    text::byte_len(e.role) + text::byte_len(e.content)
}

pub open spec fn total_cost(s: Seq<EntryModel>) -> nat
    decreases s.len(),
{
    if s.len() == 0 {
        0
    } else {
        total_cost(s.drop_last()) + cost(s.last())
    }
}

/// As much of `t` from the front, in whole characters, as `room` bytes hold.
pub open spec fn fitted(t: Text, room: nat) -> Text
    decreases t.len(),
{
    if text::byte_len(t) <= room || t.len() == 0 {
        t
    } else {
        fitted(t.drop_last(), room)
    }
}

/// The newest entries of `s` that stay within the budget together.
pub open spec fn within(s: Seq<EntryModel>, max_bytes: nat) -> Seq<EntryModel>
    decreases s.len(),
{
    if total_cost(s) <= max_bytes || s.len() == 0 {
        s
    } else {
        within(s.drop_first(), max_bytes)
    }
}

/// The entry that is kept of a turn: content that blows the budget by itself
/// is cut off.
pub open spec fn kept_entry(role: Text, content: Text, max_bytes: nat) -> EntryModel {
    let room = if text::byte_len(role) < max_bytes {
        (max_bytes - text::byte_len(role)) as nat
    } else {
        0
    };
    EntryModel { role, content: fitted(content, room) }
}

/// The context after a turn.
pub open spec fn pushed(
    s: Seq<EntryModel>,
    max_bytes: nat,
    role: Text,
    content: Text,
) -> Seq<EntryModel> {
    within(s.push(kept_entry(role, content, max_bytes)), max_bytes)
}

pub struct Context {
    entries: Vec<ContextEntry>,
    max_bytes: usize,
    cur_bytes: usize,
}

impl View for Context {
    type V = Seq<EntryModel>;

    closed spec fn view(&self) -> Seq<EntryModel> {
        entries(self.entries@)
    }
}

proof fn lemma_total_cost_first(s: Seq<EntryModel>)
    requires
        s.len() > 0,
    ensures
        total_cost(s) == cost(s[0]) + total_cost(s.drop_first()),
    decreases s.len(),
{
    if s.len() == 1 {
        assert(s.drop_last() =~= Seq::<EntryModel>::empty());
        assert(s.drop_first() =~= Seq::<EntryModel>::empty());
        reveal_with_fuel(total_cost, 2);
    } else {
        lemma_total_cost_first(s.drop_last());
        assert(s.drop_first().drop_last() =~= s.drop_last().drop_first());
    }
}

/// Cutting off keeps exactly the leading characters that fit.
proof fn lemma_fitted(t: Text, room: nat, n: int)
    requires
        0 <= n <= t.len(),
        text::byte_len(t.take(n)) <= room,
        n < t.len() ==> text::byte_len(t.take(n + 1)) > room,
    ensures
        fitted(t, room) == t.take(n),
    decreases t.len(),
{
    assert(t.take(t.len() as int) =~= t);
    if n < t.len() {
        text::lemma_byte_len_grows(t, n + 1, t.len() as int);
        let d = t.drop_last();
        assert(d.take(n) =~= t.take(n));
        if n < d.len() {
            assert(d.take(n + 1) =~= t.take(n + 1));
        }
        lemma_fitted(d, room, n);
    }
}

/// Dropping from the front makes room for an entry that fits by itself.
proof fn lemma_within_push(s: Seq<EntryModel>, e: EntryModel, max_bytes: nat)
    requires
        cost(e) <= max_bytes,
    ensures
        within(s.push(e), max_bytes) == within(s, (max_bytes - cost(e)) as nat).push(e),
    decreases s.len(),
{
    let p = s.push(e);
    assert(p.drop_last() =~= s);
    if total_cost(p) > max_bytes {
        if s.len() > 0 {
            lemma_within_push(s.drop_first(), e, max_bytes);
            assert(p.drop_first() =~= s.drop_first().push(e));
        } else {
            assert(total_cost(s) == 0);
        }
    }
}

/// With a newest entry that does not fit at all, nothing is left.
proof fn lemma_within_oversized(s: Seq<EntryModel>, max_bytes: nat)
    requires
        s.len() > 0,
        cost(s.last()) > max_bytes,
    ensures
        within(s, max_bytes) == Seq::<EntryModel>::empty(),
    decreases s.len(),
{
    if s.len() > 1 {
        assert(s.drop_first().last() == s.last());
        lemma_within_oversized(s.drop_first(), max_bytes);
    } else {
        assert(s.drop_first() =~= Seq::<EntryModel>::empty());
        reveal_with_fuel(within, 2);
    }
}

/// As much of `content` from the front, in whole characters, as `room` bytes hold.
fn fit<'a>(content: &'a str, room: usize) -> (r: &'a str)
    ensures
        r@ == fitted(content@, room as nat),
{
    let len: usize = content.as_bytes().len();
    let ghost bytes = utf8::encode_utf8(content@);
    proof {
        utf8::encode_utf8_valid_utf8(content@);
        utf8::is_char_boundary_start_end_of_seq(bytes);
    }
    let mut end: usize = if room < len {
        room
    } else {
        len
    };
    while end > 0 && !content.is_char_boundary(end)
        invariant
            bytes == utf8::encode_utf8(content@),
            len == bytes.len(),
            end <= room,
            end <= len,
            utf8::is_char_boundary(bytes, 0),
            forall|i: int| end < i <= room && i <= len ==> !utf8::is_char_boundary(bytes, i),
        decreases end,
    {
        end -= 1;
    }
    let (front, back) = text::split_text(content, end);
    proof {
        let n = front@.len() as int;
        assert(content@.take(n) =~= front@);
        if n < content@.len() {
            text::lemma_byte_len_grows(content@, n, n + 1);
            text::lemma_byte_len_grows(content@, n + 1, content@.len() as int);
            assert(content@.take(content@.len() as int) =~= content@);
            text::lemma_prefix_is_boundary(content@, n + 1);
        }
        lemma_fitted(content@, room as nat, n);
    }
    front
}

impl Context {
    #[verifier::type_invariant]
    spec fn wf(self) -> bool {
        &&& self.cur_bytes == total_cost(entries(self.entries@))
        &&& self.cur_bytes <= self.max_bytes
    }

    /// The byte budget.
    pub closed spec fn budget(&self) -> nat {
        self.max_bytes as nat
    }

    pub fn new(max_bytes: usize) -> (r: Self)
        ensures
            r@ == Seq::<EntryModel>::empty(),
            r.budget() == max_bytes,
    {
        let none: Vec<ContextEntry> = Vec::new();
        assert(entries(none@) =~= Seq::<EntryModel>::empty());
        Context { entries: none, max_bytes, cur_bytes: 0 }
    }

    /// Adds a turn. A single oversized entry is truncated rather than allowed
    /// to blow the budget, and the oldest entries make room for it.
    pub fn push(&mut self, role: &str, content: &str)
        ensures
            final(self)@ == pushed(old(self)@, old(self).budget(), role@, content@),
            final(self).budget() == old(self).budget(),
    {
        proof {
            use_type_invariant(&*self);
        }
        let ghost before = self@;
        let max: usize = self.max_bytes;
        let role_len: usize = role.as_bytes().len();
        let room: usize = if role_len < max {
            max - role_len
        } else {
            0
        };
        let kept = fit(content, room);
        let ghost e = kept_entry(role@, content@, max as nat);
        let mut taken = Context::new(max);
        core::mem::swap(&mut taken, self);
        let Context { entries: mut list, max_bytes: _, cur_bytes: mut cur } = taken;
        if role_len > max {
            proof {
                lemma_within_oversized(before.push(e), max as nat);
            }
            return ;
        }
        proof {
            lemma_fitted_within(content@, room as nat);
        }
        let size: usize = role_len + kept.as_bytes().len();
        let spare: usize = max - size;
        proof {
            lemma_within_push(before, e, max as nat);
        }
        while cur > spare
            invariant
                cur == total_cost(entries(list@)),
                within(before, spare as nat) == within(entries(list@), spare as nat),
            decreases list@.len(),
        {
            let ghost all = entries(list@);
            proof {
                if all.len() > 0 {
                    lemma_total_cost_first(all);
                }
            }
            let oldest = list.remove(0);
            assert(entries(list@) =~= all.drop_first());
            cur = cur - (oldest.role.as_str().as_bytes().len() + oldest.content.as_str().as_bytes().len());
        }
        list.push(ContextEntry { role: role.to_string(), content: kept.to_string() });
        proof {
            let all = entries(list@);
            assert(all =~= within(before, spare as nat).push(e));
            assert(all.drop_last() =~= within(before, spare as nat));
        }
        *self = Context { entries: list, max_bytes: max, cur_bytes: cur + size };
    }

    /// The entries, oldest first.
    pub fn entries(&self) -> (r: &[ContextEntry])
        ensures
            entries(r@) == self@,
    {
        self.entries.as_slice()
    }

    /// How many bytes the entries take. Never more than the budget.
    pub fn byte_len(&self) -> (r: usize)
        ensures
            r == total_cost(self@),
            r <= self.budget(),
    {
        proof {
            use_type_invariant(self);
        }
        self.cur_bytes
    }
}

proof fn lemma_fitted_within(t: Text, room: nat)
    ensures
        text::byte_len(fitted(t, room)) <= room,
    decreases t.len(),
{
    if text::byte_len(t) > room && t.len() > 0 {
        lemma_fitted_within(t.drop_last(), room);
    }
}

proof fn lemma_within_budget(s: Seq<EntryModel>, max_bytes: nat)
    ensures
        total_cost(within(s, max_bytes)) <= max_bytes,
        within(s, max_bytes).is_suffix_of(s),
    decreases s.len(),
{
    if total_cost(s) > max_bytes && s.len() > 0 {
        lemma_within_budget(s.drop_first(), max_bytes);
        let w = within(s, max_bytes);
        let d = s.drop_first();
        assert(w =~= d.subrange(d.len() - w.len(), d.len() as int));
        assert(w =~= s.subrange(s.len() - w.len(), s.len() as int));
    } else {
        assert(s =~= s.subrange(0, s.len() as int));
    }
}

/// The memory budget holds after every turn, whatever is said: what is kept
/// costs no more than the budget, and it is the newest part of the
/// conversation.
pub proof fn law_context_stays_within_budget(
    s: Seq<EntryModel>,
    max_bytes: nat,
    role: Text,
    content: Text,
)
    ensures
        total_cost(pushed(s, max_bytes, role, content)) <= max_bytes,
        pushed(s, max_bytes, role, content).is_suffix_of(
            s.push(kept_entry(role, content, max_bytes)),
        ),
{
    lemma_within_budget(s.push(kept_entry(role, content, max_bytes)), max_bytes);
}

/// The turn that was just said is kept, unless the budget cannot even hold its
/// role, and it is kept whole where it fits the budget by itself.
pub proof fn law_newest_turn_is_kept(
    s: Seq<EntryModel>,
    max_bytes: nat,
    role: Text,
    content: Text,
)
    requires
        text::byte_len(role) <= max_bytes,
    ensures
        pushed(s, max_bytes, role, content).len() > 0,
        pushed(s, max_bytes, role, content).last() == kept_entry(role, content, max_bytes),
        text::byte_len(role) + text::byte_len(content) <= max_bytes ==> kept_entry(
            role,
            content,
            max_bytes,
        ).content == content,
{
    let e = kept_entry(role, content, max_bytes);
    let room = (max_bytes - text::byte_len(role)) as nat;
    lemma_fitted_within(content, room);
    lemma_within_push(s, e, max_bytes);
}

/// Nothing is forgotten while there is room.
pub proof fn law_nothing_dropped_while_it_fits(
    s: Seq<EntryModel>,
    max_bytes: nat,
    role: Text,
    content: Text,
)
    requires
        total_cost(s) + text::byte_len(role) + text::byte_len(content) <= max_bytes,
    ensures
        pushed(s, max_bytes, role, content) == s.push(EntryModel { role, content }),
{
    let e = kept_entry(role, content, max_bytes);
    assert(s.push(e).drop_last() =~= s);
}

/// What entries cost together is what they cost one by one: the bytes of the roles and of
/// what was said.
pub proof fn law_costs_add_up(a: Seq<EntryModel>, b: Seq<EntryModel>)
    ensures
        total_cost(a + b) == total_cost(a) + total_cost(b),
        a.len() == 0 ==> total_cost(a) == 0,
        a.len() == 1 ==> total_cost(a) == text::byte_len(a[0].role) + text::byte_len(a[0].content),
    decreases b.len(),
{
    if a.len() == 1 {
        assert(a.drop_last() =~= Seq::<EntryModel>::empty());
        reveal_with_fuel(total_cost, 2);
    }
    if b.len() == 0 {
        assert(a + b =~= a);
    } else {
        assert((a + b).drop_last() =~= a + b.drop_last());
        law_costs_add_up(a, b.drop_last());
    }
}

/// Only as much is forgotten as has to be, and the oldest first: what is kept is the end
/// of the conversation, and with one entry more it would not fit.
pub proof fn law_no_more_is_forgotten_than_has_to_be(
    s: Seq<EntryModel>,
    max_bytes: nat,
    role: Text,
    content: Text,
)
    ensures
        ({
            let all = s.push(kept_entry(role, content, max_bytes));
            let kept = pushed(s, max_bytes, role, content);
            &&& kept.is_suffix_of(all)
            &&& kept.len() < all.len() ==> total_cost(all.skip(all.len() - kept.len() - 1))
                > max_bytes
        }),
{
    let all = s.push(kept_entry(role, content, max_bytes));
    lemma_within_budget(all, max_bytes);
    lemma_one_more(all, max_bytes);
}

proof fn lemma_one_more(s: Seq<EntryModel>, max_bytes: nat)
    ensures
        within(s, max_bytes).len() <= s.len(),
        within(s, max_bytes).len() < s.len() ==> total_cost(
            s.skip(s.len() - within(s, max_bytes).len() - 1),
        ) > max_bytes,
    decreases s.len(),
{
    if total_cost(s) > max_bytes && s.len() > 0 {
        let rest = s.drop_first();
        lemma_one_more(rest, max_bytes);
        let n = within(s, max_bytes).len();
        if n == rest.len() {
            assert(s.skip(0) =~= s);
        } else {
            assert(s.skip(s.len() - n - 1) =~= rest.skip(rest.len() - n - 1));
        }
    }
}

/// What is kept of a turn is its beginning, in whole characters: all of it where that
/// fits, and else as much as fits, so that with one character more it would not.
pub proof fn law_turns_are_cut_at_the_end(role: Text, content: Text, max_bytes: nat)
    ensures
        ({
            let kept = kept_entry(role, content, max_bytes);
            let room = max_bytes - text::byte_len(role);
            &&& kept.role == role
            &&& kept.content.is_prefix_of(content)
            &&& text::byte_len(content) <= room ==> kept.content == content
            &&& room >= 0 ==> text::byte_len(kept.content) <= room
            &&& kept.content.len() < content.len() ==> text::byte_len(
                content.take(kept.content.len() as int + 1),
            ) > room
        }),
{
    let room = if text::byte_len(role) < max_bytes {
        (max_bytes - text::byte_len(role)) as nat
    } else {
        0
    };
    lemma_fitted_within(content, room);
    lemma_cut(content, room);
}

proof fn lemma_cut(t: Text, room: nat)
    ensures
        fitted(t, room).is_prefix_of(t),
        fitted(t, room).len() < t.len() ==> text::byte_len(
            t.take(fitted(t, room).len() as int + 1),
        ) > room,
    decreases t.len(),
{
    let f = fitted(t, room);
    if text::byte_len(t) <= room || t.len() == 0 {
        assert(t =~= t.take(t.len() as int));
    } else {
        let front = t.drop_last();
        lemma_cut(front, room);
        assert(f =~= front.take(f.len() as int));
        assert(f =~= t.take(f.len() as int));
        if f.len() == front.len() {
            assert(t.take(t.len() as int) =~= t);
        } else {
            assert(t.take(f.len() as int + 1) =~= front.take(f.len() as int + 1));
        }
    }
}

} // verus!
