//! Text helpers shared by the rest of the library: equality, the byte-wise
//! order of strings, sorting, and decimal numerals.

use vstd::prelude::*;
use vstd::relations;
use vstd::seq_lib;
use vstd::utf8;

verus! {

/// A text as the contracts see it: its characters.
pub type Text = Seq<char>;

/// The texts of a vector of strings, in order.
pub open spec fn texts(v: Seq<String>) -> Seq<Text> {
    Seq::new(v.len(), |i: int| v[i]@)
}

/// The text of an optional string.
pub open spec fn opt_text(o: Option<String>) -> Option<Text> {
    match o {
        Some(s) => Some(s@),
        None => None,
    }
}

/// The views of a result that is text either way.
pub open spec fn text_result(r: Result<String, String>) -> Result<Text, Text> {
    match r {
        Ok(t) => Ok(t@),
        Err(e) => Err(e@),
    }
}

/// The length of a text in bytes, as UTF-8.
pub open spec fn byte_len(t: Text) -> nat {
    utf8::encode_utf8(t).len()
}

/// Lexicographic order on byte sequences.
pub open spec fn bytes_le(a: Seq<u8>, b: Seq<u8>) -> bool
    decreases a.len(),
{
    if a.len() == 0 {
        true
    } else if b.len() == 0 {
        false
    } else if a[0] != b[0] {
        a[0] < b[0]
    } else {
        bytes_le(a.drop_first(), b.drop_first())
    }
}

/// The order of strings: lexicographic by the bytes of their UTF-8 form.
pub open spec fn text_le(a: Text, b: Text) -> bool {
    bytes_le(utf8::encode_utf8(a), utf8::encode_utf8(b))
}

/// `text_le` as a value, for the relations that take an order.
pub open spec fn text_order() -> spec_fn(Text, Text) -> bool {
    |a: Text, b: Text| text_le(a, b)
}

/// `s` is in ascending order.
pub open spec fn sorted(s: Seq<Text>) -> bool {
    relations::sorted_by(s, text_order())
}

proof fn lemma_bytes_le_reflexive(a: Seq<u8>)
    ensures
        bytes_le(a, a),
    decreases a.len(),
{
    if a.len() > 0 {
        lemma_bytes_le_reflexive(a.drop_first());
    }
}

proof fn lemma_bytes_le_antisymmetric(a: Seq<u8>, b: Seq<u8>)
    requires
        bytes_le(a, b),
        bytes_le(b, a),
    ensures
        a == b,
    decreases a.len(),
{
    if a.len() > 0 {
        lemma_bytes_le_antisymmetric(a.drop_first(), b.drop_first());
        assert(a =~= seq![a[0]] + a.drop_first());
        assert(b =~= seq![b[0]] + b.drop_first());
    } else {
        assert(a =~= b);
    }
}

proof fn lemma_bytes_le_transitive(a: Seq<u8>, b: Seq<u8>, c: Seq<u8>)
    requires
        bytes_le(a, b),
        bytes_le(b, c),
    ensures
        bytes_le(a, c),
    decreases a.len(),
{
    if a.len() > 0 && a[0] == b[0] && b[0] == c[0] {
        lemma_bytes_le_transitive(a.drop_first(), b.drop_first(), c.drop_first());
    }
}

proof fn lemma_bytes_le_total(a: Seq<u8>, b: Seq<u8>)
    ensures
        bytes_le(a, b) || bytes_le(b, a),
    decreases a.len(),
{
    if a.len() > 0 && b.len() > 0 && a[0] == b[0] {
        lemma_bytes_le_total(a.drop_first(), b.drop_first());
    }
}

/// Texts with the same UTF-8 bytes are the same text.
pub proof fn lemma_same_bytes(a: Text, b: Text)
    requires
        utf8::encode_utf8(a) == utf8::encode_utf8(b),
    ensures
        a == b,
{
    utf8::encode_utf8_decode_utf8(a);
    utf8::encode_utf8_decode_utf8(b);
}

/// `text_le` is a total order.
pub proof fn lemma_text_order_total()
    ensures
        relations::total_ordering(text_order()),
{
    let r = text_order();
    assert forall|x: Text| #[trigger] r(x, x) by {
        lemma_bytes_le_reflexive(utf8::encode_utf8(x));
    }
    assert forall|x: Text, y: Text| #[trigger] r(x, y) && #[trigger] r(y, x) implies x == y by {
        lemma_bytes_le_antisymmetric(utf8::encode_utf8(x), utf8::encode_utf8(y));
        lemma_same_bytes(x, y);
    }
    assert forall|x: Text, y: Text, z: Text| #[trigger] r(x, y) && #[trigger] r(y, z) implies r(
        x,
        z,
    ) by {
        lemma_bytes_le_transitive(
            utf8::encode_utf8(x),
            utf8::encode_utf8(y),
            utf8::encode_utf8(z),
        );
    }
    assert forall|x: Text, y: Text| #[trigger] r(x, y) || #[trigger] r(y, x) by {
        lemma_bytes_le_total(utf8::encode_utf8(x), utf8::encode_utf8(y));
    }
}

/// The sorted arrangement of a collection of texts is unique: it depends on
/// which texts there are and how often, not on the order they came in.
pub proof fn lemma_sorted_arrangement_unique(a: Seq<Text>, b: Seq<Text>)
    requires
        sorted(a),
        sorted(b),
        a.to_multiset() == b.to_multiset(),
    ensures
        a == b,
{
    lemma_text_order_total();
    seq_lib::lemma_sorted_unique(a, b, text_order());
}

/// The texts of `s` in ascending order.
pub open spec fn arranged(s: Seq<Text>) -> Seq<Text> {
    s.sort_by(text_order())
}

/// What arranging does: it sorts, and it keeps which texts there are.
pub proof fn lemma_arranged(s: Seq<Text>)
    ensures
        sorted(arranged(s)),
        arranged(s).to_multiset() == s.to_multiset(),
{
    lemma_text_order_total();
    s.lemma_sort_by_ensures(text_order());
}

/// `a` and `b` are the same text.
pub fn same_text(a: &str, b: &str) -> (r: bool)
    ensures
        r == (a@ == b@),
{
    let x = a.as_bytes();
    let y = b.as_bytes();
    if x.len() != y.len() {
        return false;
    }
    let mut i: usize = 0;
    while i < x.len()
        invariant
            x@ == utf8::encode_utf8(a@),
            y@ == utf8::encode_utf8(b@),
            x@.len() == y@.len(),
            i <= x@.len(),
            forall|j: int| 0 <= j < i ==> x@[j] == y@[j],
        decreases x.len() - i,
    {
        if x[i] != y[i] {
            return false;
        }
        i += 1;
    }
    proof {
        assert(x@ =~= y@);
        lemma_same_bytes(a@, b@);
    }
    true
}

/// `a` comes no later than `b` in string order.
pub fn text_at_most(a: &str, b: &str) -> (r: bool)
    ensures
        r == text_le(a@, b@),
{
    let x = a.as_bytes();
    let y = b.as_bytes();
    let mut i: usize = 0;
    proof {
        assert(x@.skip(0) =~= x@);
        assert(y@.skip(0) =~= y@);
    }
    while i < x.len() && i < y.len() && x[i] == y[i]
        invariant
            x@ == utf8::encode_utf8(a@),
            y@ == utf8::encode_utf8(b@),
            i <= x@.len(),
            i <= y@.len(),
            bytes_le(x@, y@) == bytes_le(x@.skip(i as int), y@.skip(i as int)),
        decreases x.len() - i,
    {
        proof {
            assert(x@.skip(i as int).drop_first() =~= x@.skip(i + 1));
            assert(y@.skip(i as int).drop_first() =~= y@.skip(i + 1));
        }
        i += 1;
    }
    if i >= x.len() {
        true
    } else if i >= y.len() {
        false
    } else {
        x[i] < y[i]
    }
}

/// `list` holds `wanted`.
pub fn has_text(list: &[String], wanted: &str) -> (r: bool)
    ensures
        r == texts(list@).contains(wanted@),
{
    let mut i: usize = 0;
    while i < list.len()
        invariant
            i <= list@.len(),
            forall|j: int| 0 <= j < i ==> list@[j]@ != wanted@,
        decreases list.len() - i,
    {
        if same_text(list[i].as_str(), wanted) {
            assert(texts(list@)[i as int] == wanted@);
            return true;
        }
        i += 1;
    }
    assert(!texts(list@).contains(wanted@));
    false
}

/// A copy of `list`.
pub fn copy_texts(list: &[String]) -> (r: Vec<String>)
    ensures
        texts(r@) == texts(list@),
{
    let mut out: Vec<String> = Vec::new();
    let mut i: usize = 0;
    while i < list.len()
        invariant
            i <= list@.len(),
            out@.len() == i,
            forall|j: int| 0 <= j < i ==> out@[j]@ == list@[j]@,
        decreases list.len() - i,
    {
        out.push(list[i].clone());
        i += 1;
    }
    assert(texts(out@) =~= texts(list@));
    out
}

/// Inserting `t` into the sorted `s` at the first place where everything
/// before comes no later and everything after comes no earlier keeps it sorted.
proof fn lemma_insert_keeps_sorted(s: Seq<Text>, p: int, t: Text)
    requires
        sorted(s),
        0 <= p <= s.len(),
        forall|i: int| 0 <= i < p ==> text_le(#[trigger] s[i], t),
        p < s.len() ==> text_le(t, s[p]),
    ensures
        sorted(s.insert(p, t)),
{
    let r = s.insert(p, t);
    let le = text_order();
    lemma_text_order_total();
    assert forall|i: int, j: int| 0 <= i < j < r.len() implies #[trigger] le(r[i], r[j]) by {
        if i == p {
            assert(r[j] == s[j - 1]);
            if j - 1 > p {
                assert(le(s[p], s[j - 1]));
                assert(le(t, s[p]));
            }
        } else if j == p {
            assert(r[i] == s[i]);
        } else {
            let a = if i < p { i } else { i - 1 };
            let b = if j < p { j } else { j - 1 };
            assert(r[i] == s[a] && r[j] == s[b]);
            assert(le(s[a], s[b]));
        }
    }
}

/// The strings of `list` in ascending order.
pub fn sort_texts(list: &[String]) -> (r: Vec<String>)
    ensures
        texts(r@) == arranged(texts(list@)),
{
    let mut out: Vec<String> = Vec::new();
    let mut i: usize = 0;
    proof {
        assert(texts(list@).take(0) =~= texts(out@));
    }
    while i < list.len()
        invariant
            i <= list@.len(),
            sorted(texts(out@)),
            texts(out@).to_multiset() == texts(list@).take(i as int).to_multiset(),
        decreases list.len() - i,
    {
        let item = list[i].clone();
        let mut p: usize = out.len();
        while p > 0 && !text_at_most(out[p - 1].as_str(), item.as_str())
            invariant
                p <= out@.len(),
                sorted(texts(out@)),
                forall|j: int| p <= j < out@.len() ==> !text_le(#[trigger] texts(out@)[j], item@),
            decreases p,
        {
            p -= 1;
        }
        let ghost before = texts(out@);
        proof {
            lemma_text_order_total();
            let le = text_order();
            assert forall|j: int| 0 <= j < p implies text_le(#[trigger] before[j], item@) by {
                if j < p - 1 {
                    assert(le(before[j], before[p - 1]));
                }
                assert(le(before[p - 1], item@));
            }
            if p < before.len() {
                assert(!le(before[p as int], item@));
                assert(le(item@, before[p as int]));
            }
            lemma_insert_keeps_sorted(before, p as int, item@);
        }
        out.insert(p, item);
        proof {
            assert(texts(out@) =~= before.insert(p as int, item@));
            let all = texts(list@);
            assert(all.take(i + 1) =~= all.take(i as int).push(all[i as int]));
            broadcast use seq_lib::group_to_multiset_ensures;

        }
        i += 1;
    }
    proof {
        assert(texts(list@).take(i as int) =~= texts(list@));
        lemma_arranged(texts(list@));
        lemma_sorted_arrangement_unique(texts(out@), arranged(texts(list@)));
    }
    out
}

/// The bytes of two texts in a row are the bytes of the one followed by the
/// bytes of the other.
pub proof fn lemma_encode_concat(a: Text, b: Text)
    ensures
        utf8::encode_utf8(a + b) == utf8::encode_utf8(a) + utf8::encode_utf8(b),
    decreases a.len(),
{
    if a.len() == 0 {
        assert(a + b =~= b);
        assert(utf8::encode_utf8(a) + utf8::encode_utf8(b) =~= utf8::encode_utf8(b));
    } else {
        lemma_encode_concat(a.drop_first(), b);
        assert((a + b).drop_first() =~= a.drop_first() + b);
        assert(utf8::encode_utf8(a + b) =~= utf8::encode_utf8(a) + utf8::encode_utf8(b));
    }
}

/// Every character takes at least one byte.
pub proof fn lemma_byte_len_grows(t: Text, m: int, n: int)
    requires
        0 <= m <= n <= t.len(),
    ensures
        byte_len(t.take(m)) + (n - m) <= byte_len(t.take(n)),
    decreases n - m,
{
    if m < n {
        lemma_byte_len_grows(t, m, n - 1);
        assert(t.take(n) =~= t.take(n - 1) + seq![t[n - 1]]);
        lemma_encode_concat(t.take(n - 1), seq![t[n - 1]]);
        assert(seq![t[n - 1]].drop_first() =~= Seq::<char>::empty());
        reveal_with_fuel(utf8::encode_utf8, 2);
    }
}

/// The end of each leading part of a text is a character boundary.
pub proof fn lemma_prefix_is_boundary(t: Text, n: int)
    requires
        0 <= n <= t.len(),
    ensures
        utf8::is_char_boundary(utf8::encode_utf8(t), byte_len(t.take(n)) as int),
    decreases n,
{
    let bytes = utf8::encode_utf8(t);
    utf8::encode_utf8_valid_utf8(t);
    if n == 0 {
        assert(t.take(0) =~= Seq::<char>::empty());
    } else {
        lemma_byte_len_grows(t, 0, n);
        lemma_byte_len_grows(t, n, t.len() as int);
        assert(t.take(t.len() as int) =~= t);
        lemma_prefix_is_boundary(t.drop_first(), n - 1);
        utf8::encode_utf8_first_scalar(t);
        utf8::encode_utf8_valid_utf8(t.drop_first());
        assert(t.take(n).drop_first() =~= t.drop_first().take(n - 1));
        assert(utf8::pop_first_scalar(bytes) =~= utf8::encode_utf8(t.drop_first()));
    }
}

/// Splits a text at a character boundary.
pub fn split_text(s: &str, at: usize) -> (r: (&str, &str))
    requires
        utf8::is_char_boundary(utf8::encode_utf8(s@), at as int),
    ensures
        r.0@ + r.1@ == s@,
        byte_len(r.0@) == at,
{
    let (front, back) = s.split_at(at);
    proof {
        let bytes = utf8::encode_utf8(s@);
        utf8::encode_utf8_valid_utf8(s@);
        lemma_boundary_in_range(bytes, at as int);
        assert(bytes.subrange(0, at as int) + bytes.subrange(at as int, bytes.len() as int)
            =~= bytes);
        lemma_encode_concat(front@, back@);
        lemma_same_bytes(front@ + back@, s@);
    }
    (front, back)
}

proof fn lemma_boundary_in_range(bytes: Seq<u8>, at: int)
    requires
        utf8::valid_utf8(bytes),
        utf8::is_char_boundary(bytes, at),
    ensures
        0 <= at <= bytes.len(),
{
}

proof fn lemma_same_char(c: char, d: char)
    requires
        c as u32 == d as u32,
    ensures
        c == d,
{
}

proof fn lemma_ascii_scalar(c: char, b: u8)
    requires
        b < 0x80,
    ensures
        utf8::encode_scalar(c as u32).len() > 0,
        utf8::encode_scalar(c as u32)[0] == b <==> c as u32 == b as u32,
        c as u32 == b as u32 ==> utf8::encode_scalar(c as u32) == seq![b],
{
    let n = c as u32;
    assert(n <= 0x7F ==> (n & 0x7F) as u8 == n) by (bit_vector);
    assert(0xC0u8 | ((n >> 6) & 0x1F) as u8 >= 0xC0u8) by (bit_vector);
    assert(0xE0u8 | ((n >> 12) & 0x0F) as u8 >= 0xE0u8) by (bit_vector);
    assert(0xF0u8 | ((n >> 18) & 0x7) as u8 >= 0xF0u8) by (bit_vector);
    if n == b as u32 {
        assert(utf8::encode_scalar(n) =~= seq![b]);
    }
}

/// The bytes of a character that is no ASCII character are no ASCII bytes.
pub proof fn lemma_wide_scalar(c: char)
    requires
        c as u32 >= 0x80,
    ensures
        forall|i: int|
            0 <= i < utf8::encode_scalar(c as u32).len() ==> #[trigger] utf8::encode_scalar(
                c as u32,
            )[i] >= 0x80,
{
    let n = c as u32;
    assert(0xC0u8 | ((n >> 6) & 0x1F) as u8 >= 0x80u8) by (bit_vector);
    assert(0xE0u8 | ((n >> 12) & 0x0F) as u8 >= 0x80u8) by (bit_vector);
    assert(0xF0u8 | ((n >> 18) & 0x7) as u8 >= 0x80u8) by (bit_vector);
    assert(0x80u8 | (n & 0x3F) as u8 >= 0x80u8) by (bit_vector);
    assert(0x80u8 | ((n >> 6) & 0x3F) as u8 >= 0x80u8) by (bit_vector);
    assert(0x80u8 | ((n >> 12) & 0x3F) as u8 >= 0x80u8) by (bit_vector);
}

/// An ASCII character that is in a text is among its bytes.
proof fn lemma_ascii_in_bytes(t: Text, c: char, b: u8)
    requires
        b < 0x80,
        c as u32 == b as u32,
        t.contains(c),
    ensures
        utf8::encode_utf8(t).contains(b),
{
    let k = choose|k: int| 0 <= k < t.len() && t[k] == c;
    let front = t.take(k);
    let rest = t.skip(k);
    assert(t =~= front + rest);
    lemma_encode_concat(front, rest);
    lemma_ascii_scalar(c, b);
    let i = utf8::encode_utf8(front).len() as int;
    assert(utf8::encode_utf8(rest)[0] == b);
    assert(utf8::encode_utf8(t)[i] == b);
}

/// Splits a text before an ASCII character at a byte position.
fn split_at_ascii<'a>(s: &'a str, at: usize, c: char, b: u8) -> (r: (&'a str, &'a str))
    requires
        b < 0x80,
        c as u32 == b as u32,
        at < utf8::encode_utf8(s@).len(),
        utf8::encode_utf8(s@)[at as int] == b,
    ensures
        r.0@ + r.1@ == s@,
        byte_len(r.0@) == at,
        r.1@.len() > 0,
        r.1@[0] == c,
{
    proof {
        let bytes = utf8::encode_utf8(s@);
        utf8::encode_utf8_valid_utf8(s@);
        utf8::is_char_boundary_iff_not_is_continuation_byte(bytes, at as int);
    }
    let (front, back) = split_text(s, at);
    proof {
        lemma_encode_concat(front@, back@);
        assert(utf8::encode_utf8(back@)[0] == b);
        assert(back@.len() > 0);
        lemma_ascii_scalar(back@[0], b);
        assert(utf8::encode_utf8(back@)[0] == utf8::encode_scalar(back@[0] as u32)[0]);
        lemma_same_char(back@[0], c);
    }
    (front, back)
}

/// Splits a text before the first occurrence of an ASCII character.
pub fn split_first<'a>(s: &'a str, c: char, b: u8) -> (r: Option<(&'a str, &'a str)>)
    requires
        b < 0x80,
        c as u32 == b as u32,
    ensures
        r is None ==> !s@.contains(c),
        r matches Some((front, back)) ==> front@ + back@ == s@ && !front@.contains(c)
            && back@.len() > 0 && back@[0] == c,
{
    let bytes = s.as_bytes();
    let mut i: usize = 0;
    while i < bytes.len()
        invariant
            b < 0x80,
            c as u32 == b as u32,
            bytes@ == utf8::encode_utf8(s@),
            i <= bytes@.len(),
            forall|j: int| 0 <= j < i ==> bytes@[j] != b,
        decreases bytes.len() - i,
    {
        if bytes[i] == b {
            let (front, back) = split_at_ascii(s, i, c, b);
            proof {
                lemma_encode_concat(front@, back@);
                if front@.contains(c) {
                    lemma_ascii_in_bytes(front@, c, b);
                    let k = choose|k: int|
                        0 <= k < utf8::encode_utf8(front@).len() && utf8::encode_utf8(front@)[k]
                            == b;
                    assert(bytes@[k] == b);
                }
            }
            return Some((front, back));
        }
        i += 1;
    }
    proof {
        if s@.contains(c) {
            lemma_ascii_in_bytes(s@, c, b);
        }
    }
    None
}

/// Splits a text before the last occurrence of an ASCII character.
pub fn split_last<'a>(s: &'a str, c: char, b: u8) -> (r: Option<(&'a str, &'a str)>)
    requires
        b < 0x80,
        c as u32 == b as u32,
    ensures
        r is None ==> !s@.contains(c),
        r matches Some((front, back)) ==> front@ + back@ == s@ && back@.len() > 0 && back@[0] == c
            && !back@.drop_first().contains(c),
{
    let bytes = s.as_bytes();
    let mut i: usize = bytes.len();
    while i > 0
        invariant
            b < 0x80,
            c as u32 == b as u32,
            bytes@ == utf8::encode_utf8(s@),
            i <= bytes@.len(),
            forall|j: int| i <= j < bytes@.len() ==> bytes@[j] != b,
        decreases i,
    {
        i -= 1;
        if bytes[i] == b {
            let (front, back) = split_at_ascii(s, i, c, b);
            proof {
                lemma_encode_concat(front@, back@);
                let rest = back@.drop_first();
                if rest.contains(c) {
                    lemma_ascii_in_bytes(rest, c, b);
                    lemma_ascii_scalar(c, b);
                    let tail = utf8::encode_utf8(rest);
                    let k = choose|k: int| 0 <= k < tail.len() && tail[k] == b;
                    assert(utf8::encode_utf8(back@)[k + 1] == b);
                    assert(bytes@[i + 1 + k] == b);
                }
            }
            return Some((front, back));
        }
    }
    proof {
        if s@.contains(c) {
            lemma_ascii_in_bytes(s@, c, b);
        }
    }
    None
}

/// Calls `std::str::from_utf8`: the text that the bytes encode, where they are
/// valid UTF-8.
#[verifier::external_body]
pub(crate) fn utf8_text<'a>(bytes: &'a [u8]) -> (r: Option<&'a str>)
    ensures
        r is Some <==> utf8::valid_utf8(bytes@),
        r matches Some(s) ==> s@ == utf8::decode_utf8(bytes@),
{
    std::str::from_utf8(bytes).ok()
}

/// The text that bytes stand for when what is not UTF-8 in them is replaced.
pub uninterp spec fn utf8_lossy(bytes: Seq<u8>) -> Seq<char>;

/// Calls `String::from_utf8_lossy`: a function of the bytes, and the text they
/// encode where they are valid UTF-8.
#[verifier::external_body]
pub(crate) fn lossy_text(bytes: &[u8]) -> (r: String)
    ensures
        r@ == utf8_lossy(bytes@),
        utf8::valid_utf8(bytes@) ==> r@ == utf8::decode_utf8(bytes@),
{
    String::from_utf8_lossy(bytes).into_owned()
}

/// Whether a character has Unicode's property White_Space.
pub open spec fn white_space(c: char) -> bool {
    let n = c as u32;
    ||| 0x9 <= n <= 0xd
    ||| n == 0x20
    ||| n == 0x85
    ||| n == 0xa0
    ||| n == 0x1680
    ||| 0x2000 <= n <= 0x200a
    ||| 0x2028 <= n <= 0x2029
    ||| n == 0x202f
    ||| n == 0x205f
    ||| n == 0x3000
}

/// `char::is_whitespace` tells whether a character has the property White_Space.
pub assume_specification[ char::is_whitespace ](c: char) -> (r: bool)
    ensures
        r == white_space(c),
;

/// `t` without the white space at its two ends.
pub open spec fn trimmed(t: Text) -> Text
    decreases t.len(),
{
    if t.len() == 0 {
        t
    } else if white_space(t[0]) {
        trimmed(t.drop_first())
    } else if white_space(t.last()) {
        trimmed(t.drop_last())
    } else {
        t
    }
}

/// `s` without the white space at its two ends.
pub fn trim<'a>(s: &'a str) -> (r: &'a str)
    ensures
        r@ == trimmed(s@),
{
    let mut start: usize = 0;
    let mut end: usize = s.unicode_len();
    assert(s@.subrange(0, end as int) =~= s@);
    while start < end && s.get_char(start).is_whitespace()
        invariant
            start <= end <= s@.len(),
            trimmed(s@) == trimmed(s@.subrange(start as int, end as int)),
        decreases end - start,
    {
        let ghost part = s@.subrange(start as int, end as int);
        assert(part.drop_first() =~= s@.subrange(start + 1, end as int));
        start += 1;
    }
    while start < end && s.get_char(end - 1).is_whitespace()
        invariant
            start <= end <= s@.len(),
            start < end ==> !white_space(s@[start as int]),
            trimmed(s@) == trimmed(s@.subrange(start as int, end as int)),
        decreases end - start,
    {
        let ghost part = s@.subrange(start as int, end as int);
        assert(part.drop_last() =~= s@.subrange(start as int, end - 1));
        end -= 1;
    }
    s.substring_char(start, end)
}

/// The numeral of a digit below ten.
pub open spec fn digit(d: nat) -> char {
    (48 + d) as char
}

/// `n` in decimal notation, without leading zeros.
pub open spec fn decimal_text(n: nat) -> Text
    decreases n,
{
    if n < 10 {
        seq![digit(n)]
    } else {
        decimal_text(n / 10).push(digit(n % 10))
    }
}

/// `std`'s `String::push` appends the character.
pub assume_specification[ String::push ](s: &mut String, c: char)
    ensures
        final(s)@ == old(s)@.push(c),
;

/// `n` in decimal notation.
pub fn decimal(n: u64) -> (r: String)
    ensures
        r@ == decimal_text(n as nat),
    decreases n,
{
    let d: u64 = n % 10;
    let c = if d == 0 {
        '0'
    } else if d == 1 {
        '1'
    } else if d == 2 {
        '2'
    } else if d == 3 {
        '3'
    } else if d == 4 {
        '4'
    } else if d == 5 {
        '5'
    } else if d == 6 {
        '6'
    } else if d == 7 {
        '7'
    } else if d == 8 {
        '8'
    } else {
        '9'
    };
    let mut s = if n < 10 {
        String::new()
    } else {
        decimal(n / 10)
    };
    s.push(c);
    s
}

/// The number that a row of decimal numerals stands for.
pub open spec fn number_in(t: Text) -> int
    decreases t.len(),
{
    if t.len() == 0 {
        0
    } else {
        10 * number_in(t.drop_last()) + (t.last() as int - '0' as int)
    }
}

/// A number that was written is read back: its text is made of the ten numerals, has no
/// leading zero but for zero itself, and stands for that number. So different numbers
/// have different texts.
pub proof fn law_numbers_read_back(n: nat, m: nat)
    ensures
        number_in(decimal_text(n)) == n,
        decimal_text(n).len() > 0,
        forall|i: int|
            0 <= i < decimal_text(n).len() ==> '0' <= #[trigger] decimal_text(n)[i] <= '9',
        decimal_text(n).len() > 1 ==> decimal_text(n)[0] != '0',
        decimal_text(n) == decimal_text(m) ==> n == m,
{
    lemma_decimal(n);
    lemma_decimal(m);
}

proof fn lemma_decimal(n: nat)
    ensures
        number_in(decimal_text(n)) == n,
        decimal_text(n).len() > 0,
        forall|i: int|
            0 <= i < decimal_text(n).len() ==> '0' <= #[trigger] decimal_text(n)[i] <= '9',
        n > 0 ==> decimal_text(n)[0] != '0',
        n < 10 ==> decimal_text(n).len() == 1,
    decreases n,
{
    let t = decimal_text(n);
    if n < 10 {
        assert(t.drop_last() =~= Seq::<char>::empty());
        reveal_with_fuel(number_in, 2);
    } else {
        lemma_decimal(n / 10);
        assert(t.drop_last() =~= decimal_text(n / 10));
        assert(t[0] == decimal_text(n / 10)[0]);
        assert forall|i: int| 0 <= i < t.len() implies '0' <= #[trigger] t[i] <= '9' by {
            if i < t.len() - 1 {
                assert(t[i] == decimal_text(n / 10)[i]);
            }
        }
    }
}

/// Trimming takes white space from the two ends and nothing else: what is left is a
/// part of the text, all before it and behind it is white space, and it neither starts
/// nor ends with any.
pub proof fn law_trimming_takes_only_white_space(t: Text)
    ensures
        exists|a: int, b: int| #[trigger]
            trims(t, a, b) && trimmed(t) == t.subrange(a, b),
    decreases t.len(),
{
    if t.len() == 0 {
        assert(t.subrange(0, 0) =~= t);
        assert(trims(t, 0, 0));
    } else if white_space(t[0]) {
        let rest = t.drop_first();
        law_trimming_takes_only_white_space(rest);
        let (a, b) = choose|a: int, b: int| #[trigger]
            trims(rest, a, b) && trimmed(rest) == rest.subrange(a, b);
        assert forall|i: int| 0 <= i < a + 1 || b + 1 <= i < t.len() implies white_space(
            #[trigger] t[i],
        ) by {
            if i > 0 {
                assert(t[i] == rest[i - 1]);
            }
        }
        assert(rest.subrange(a, b) =~= t.subrange(a + 1, b + 1));
        assert(trims(t, a + 1, b + 1));
    } else if white_space(t.last()) {
        let rest = t.drop_last();
        law_trimming_takes_only_white_space(rest);
        let (a, b) = choose|a: int, b: int| #[trigger]
            trims(rest, a, b) && trimmed(rest) == rest.subrange(a, b);
        assert forall|i: int| 0 <= i < a || b <= i < t.len() implies white_space(
            #[trigger] t[i],
        ) by {
            if i < rest.len() {
                assert(t[i] == rest[i]);
            }
        }
        assert(rest.subrange(a, b) =~= t.subrange(a, b));
        assert(trims(t, a, b));
    } else {
        assert(t.subrange(0, t.len() as int) =~= t);
        assert(trims(t, 0, t.len() as int));
    }
}

/// The part from `a` to `b` is what is left of a text without the white space around.
pub open spec fn trims(t: Text, a: int, b: int) -> bool {
    &&& 0 <= a <= b <= t.len()
    &&& forall|i: int| 0 <= i < a || b <= i < t.len() ==> white_space(#[trigger] t[i])
    &&& a < b ==> !white_space(t[a]) && !white_space(t[b - 1])
}

/// What is left without the white space around is the only part of its kind.
pub proof fn law_trimming_is_exact(t: Text, a: int, b: int)
    requires
        trims(t, a, b),
    ensures
        trimmed(t) == t.subrange(a, b),
{
    law_trimming_takes_only_white_space(t);
    let (x, y) = choose|x: int, y: int| #[trigger]
        trims(t, x, y) && trimmed(t) == t.subrange(x, y);
    if a < b && x < y {
        assert(x <= a) by {
            if a < x {
                assert(white_space(t[a]));
            }
        }
        assert(a <= x) by {
            if x < a {
                assert(white_space(t[x]));
            }
        }
        assert(y == b) by {
            if b < y {
                assert(white_space(t[y - 1]));
            }
            if y < b {
                assert(white_space(t[b - 1]));
            }
        }
    } else if a < b {
        assert(white_space(t[a])) by {
            if a < x {
                assert(white_space(t[a]));
            }
        }
    } else if x < y {
        assert(white_space(t[x])) by {
            if x < a {
                assert(white_space(t[x]));
            }
        }
    } else {
        assert(t.subrange(a, b) =~= t.subrange(x, y));
    }
}

/// Texts are ordered as in a dictionary, byte by byte: where two agree up to some place,
/// the smaller byte there comes first, and a text comes before all that it begins.
pub proof fn law_texts_are_ordered_byte_by_byte(
    p: Seq<u8>,
    a: u8,
    x: Seq<u8>,
    b: u8,
    y: Seq<u8>,
)
    ensures
        a < b ==> bytes_le(p + (seq![a] + x), p + (seq![b] + y)) && !bytes_le(
            p + (seq![b] + y),
            p + (seq![a] + x),
        ),
        bytes_le(p, p + x),
        x.len() > 0 ==> !bytes_le(p + x, p),
    decreases p.len(),
{
    if p.len() == 0 {
        assert(p + (seq![a] + x) =~= seq![a] + x);
        assert(p + (seq![b] + y) =~= seq![b] + y);
        assert(p + x =~= x);
    } else {
        law_texts_are_ordered_byte_by_byte(p.drop_first(), a, x, b, y);
        assert((p + (seq![a] + x)).drop_first() =~= p.drop_first() + (seq![a] + x));
        assert((p + (seq![b] + y)).drop_first() =~= p.drop_first() + (seq![b] + y));
        assert((p + x).drop_first() =~= p.drop_first() + x);
    }
}

} // verus!
