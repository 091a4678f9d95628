//! Strict records: JSON documents that may hold the fields they are meant to
//! hold, each at most once, and nothing else. A record is an object with named
//! fields, or an array that gives the leading fields by position.

use crate::json;
use crate::json::Json;
use crate::names;
use crate::text;
use crate::text::Text;
use vstd::prelude::*;
use vstd::utf8;

verus! {

/// Where a pass over a document stands: how deep it is nested, whether it is
/// inside a string, whether the next character of that string is escaped, how
/// many commas separated members of the outermost object or array, and how
/// many separated members at any depth.
pub struct Scan {
    pub depth: nat,
    pub in_string: bool,
    pub escape: bool,
    pub commas: nat,
    pub all_commas: nat,
}

pub open spec fn scan_byte(s: Scan, b: u8) -> Scan {
    if s.in_string {
        if s.escape {
            Scan { escape: false, ..s }
        } else if b == 0x5c {
            Scan { escape: true, ..s }
        } else if b == 0x22 {
            Scan { in_string: false, ..s }
        } else {
            s
        }
    } else if b == 0x22 {
        Scan { in_string: true, ..s }
    } else if b == 0x7b || b == 0x5b {
        Scan { depth: s.depth + 1, ..s }
    } else if b == 0x7d || b == 0x5d {
        Scan { depth: if s.depth > 0 { (s.depth - 1) as nat } else { 0 }, ..s }
    } else if b == 0x2c {
        Scan {
            commas: s.commas + if s.depth == 1 {
                1nat
            } else {
                0
            },
            all_commas: s.all_commas + 1,
            ..s
        }
    } else {
        s
    }
}

pub open spec fn scan(bytes: Seq<u8>) -> Scan
    decreases bytes.len(),
{
    if bytes.len() == 0 {
        Scan { depth: 0, in_string: false, escape: false, commas: 0, all_commas: 0 }
    } else {
        scan_byte(scan(bytes.drop_last()), bytes.last())
    }
}

/// How many commas of a document stand directly inside its outermost brackets.
pub open spec fn outer_commas(document: Text) -> nat {
    scan(utf8::encode_utf8(document)).commas
}

/// How many commas of a document stand outside strings, at any depth.
pub open spec fn all_commas(document: Text) -> nat {
    scan(utf8::encode_utf8(document)).all_commas
}

/// How many commas all of `values` hold outside strings, taken together.
pub open spec fn commas_in(values: Seq<Text>) -> nat
    decreases values.len(),
{
    if values.len() == 0 {
        0
    } else {
        commas_in(values.drop_last()) + all_commas(values.last())
    }
}

/// The value that `members` has for `key`.
pub open spec fn lookup(members: Seq<(Text, Text)>, key: Text) -> Option<Text>
    decreases members.len(),
{
    if members.len() == 0 {
        None
    } else if members[0].0 == key {
        Some(members[0].1)
    } else {
        lookup(members.drop_first(), key)
    }
}

/// Every member has one of `names`.
pub open spec fn only_names(members: Seq<(Text, Text)>, names: Seq<Text>) -> bool {
    forall|i: int| 0 <= i < members.len() ==> names.contains(#[trigger] members[i].0)
}

/// No key of the object that `document` is occurs twice: it holds as many
/// distinct members as its commas separate.
pub open spec fn no_repeats(document: Text, members: Seq<(Text, Text)>) -> bool {
    members.len() == 0 || outer_commas(document) + 1 == members.len()
}

/// The fields of the record that `document` is, in the order of `names`, each
/// in compact form where it is given. `None` where the document is no record
/// of these fields.
pub open spec fn record(document: Text, names: Seq<Text>) -> Option<Seq<Option<Text>>> {
    match json::json_members(document) {
        Some(members) => if only_names(members, names) && no_repeats(document, members) {
            Some(Seq::new(names.len(), |i: int| lookup(members, names[i])))
        } else {
            None
        },
        None => match json::json_elements(document) {
            Some(elements) => if elements.len() <= names.len() {
                Some(
                    Seq::new(
                        names.len(),
                        |i: int|
                            if i < elements.len() {
                                Some(elements[i])
                            } else {
                                None
                            },
                    ),
                )
            } else {
                None
            },
            None => None,
        },
    }
}

/// The views of a vector of optional strings.
pub open spec fn opt_texts(v: Seq<Option<String>>) -> Seq<Option<Text>> {
    Seq::new(v.len(), |i: int| text::opt_text(v[i]))
}

/// The views of a slice of string slices.
pub open spec fn names_of(v: Seq<&str>) -> Seq<Text> {
    Seq::new(v.len(), |i: int| v[i]@)
}

/// Counts the commas outside strings: those directly inside the outermost
/// brackets, and those at any depth.
fn count_commas(document: &str) -> (r: (usize, usize))
    ensures
        r.0 == outer_commas(document@),
        r.1 == all_commas(document@),
{
    let bytes = document.as_bytes();
    let mut depth: usize = 0;
    let mut in_string: bool = false;
    let mut escape: bool = false;
    let mut outer: usize = 0;
    let mut all: usize = 0;
    let mut i: usize = 0;
    assert(bytes@.take(0) =~= Seq::<u8>::empty());
    while i < bytes.len()
        invariant
            bytes@ == utf8::encode_utf8(document@),
            i <= bytes@.len(),
            depth <= i,
            outer <= i,
            all <= i,
            scan(bytes@.take(i as int)) == (Scan {
                depth: depth as nat,
                in_string,
                escape,
                commas: outer as nat,
                all_commas: all as nat,
            }),
        decreases bytes.len() - i,
    {
        let b: u8 = bytes[i];
        proof {
            let next = bytes@.take(i + 1);
            assert(next.drop_last() =~= bytes@.take(i as int));
            assert(next.last() == b);
        }
        if in_string {
            if escape {
                escape = false;
            } else if b == 0x5c {
                escape = true;
            } else if b == 0x22 {
                in_string = false;
            }
        } else if b == 0x22 {
            in_string = true;
        } else if b == 0x7b || b == 0x5b {
            depth += 1;
        } else if b == 0x7d || b == 0x5d {
            if depth > 0 {
                depth -= 1;
            }
        } else if b == 0x2c {
            if depth == 1 {
                outer += 1;
            }
            all += 1;
        }
        i += 1;
    }
    assert(bytes@.take(i as int) =~= bytes@);
    (outer, all)
}

/// The value that `members` has for `key`.
pub fn find_member(members: &[(String, String)], key: &str) -> (r: Option<String>)
    ensures
        text::opt_text(r) == lookup(json::pairs(members@), key@),
{
    let ghost all = json::pairs(members@);
    let mut i: usize = 0;
    assert(all.skip(0) =~= all);
    while i < members.len()
        invariant
            i <= members@.len(),
            all == json::pairs(members@),
            lookup(all, key@) == lookup(all.skip(i as int), key@),
        decreases members.len() - i,
    {
        if text::same_text(members[i].0.as_str(), key) {
            assert(all.skip(i as int)[0] == all[i as int]);
            return Some(members[i].1.clone());
        }
        assert(all.skip(i as int)[0] == all[i as int]);
        assert(all.skip(i as int).drop_first() =~= all.skip(i + 1));
        i += 1;
    }
    None
}

fn is_name(names: &[&str], key: &str) -> (r: bool)
    ensures
        r == names_of(names@).contains(key@),
{
    let mut i: usize = 0;
    while i < names.len()
        invariant
            i <= names@.len(),
            forall|j: int| 0 <= j < i ==> names@[j]@ != key@,
        decreases names.len() - i,
    {
        if text::same_text(names[i], key) {
            assert(names_of(names@)[i as int] == key@);
            return true;
        }
        i += 1;
    }
    false
}

/// Reads a strict record. `None` where `document` is no record of `names`.
pub fn read_record(document: &str, names: &[&str]) -> (r: Option<Vec<Option<String>>>)
    ensures
        r is Some <==> record(document@, names_of(names@)) is Some,
        r matches Some(v) ==> Some(opt_texts(v@)) == record(document@, names_of(names@)),
{
    let ghost keys = names_of(names@);
    match json::read_members(document) {
        Some(members) => {
            let ghost all = json::pairs(members@);
            if members.len() > 0 {
                let (commas, _) = count_commas(document);
                if commas != members.len() - 1 {
                    return None;
                }
            }
            let mut i: usize = 0;
            while i < members.len()
                invariant
                    i <= members@.len(),
                    keys == names_of(names@),
                    all == json::pairs(members@),
                    json::json_members(document@) == Some(all),
                    forall|j: int| 0 <= j < i ==> keys.contains(#[trigger] all[j].0),
                decreases members.len() - i,
            {
                if !is_name(names, members[i].0.as_str()) {
                    assert(!keys.contains(all[i as int].0));
                    return None;
                }
                i += 1;
            }
            assert(only_names(all, keys));
            let mut out: Vec<Option<String>> = Vec::new();
            let mut k: usize = 0;
            while k < names.len()
                invariant
                    k <= names@.len(),
                    keys == names_of(names@),
                    all == json::pairs(members@),
                    out@.len() == k,
                    forall|j: int|
                        0 <= j < k ==> text::opt_text(#[trigger] out@[j]) == lookup(all, keys[j]),
                decreases names.len() - k,
            {
                out.push(find_member(members.as_slice(), names[k]));
                k += 1;
            }
            assert(opt_texts(out@) =~= Seq::new(keys.len(), |i: int| lookup(all, keys[i])));
            Some(out)
        },
        None => match json::read_elements(document) {
            Some(elements) => {
                if elements.len() > names.len() {
                    return None;
                }
                let ghost all = text::texts(elements@);
                let mut out: Vec<Option<String>> = Vec::new();
                let mut k: usize = 0;
                while k < names.len()
                    invariant
                        k <= names@.len(),
                        all == text::texts(elements@),
                        out@.len() == k,
                        forall|j: int|
                            0 <= j < k ==> text::opt_text(#[trigger] out@[j]) == (if j < all.len() {
                                Some(all[j])
                            } else {
                                None
                            }),
                    decreases names.len() - k,
                {
                    if k < elements.len() {
                        out.push(Some(elements[k].clone()));
                    } else {
                        out.push(None);
                    }
                    k += 1;
                }
                assert(opt_texts(out@) =~= Seq::new(
                    keys.len(),
                    |i: int|
                        if i < all.len() {
                            Some(all[i])
                        } else {
                            None
                        },
                ));
                Some(out)
            },
            None => None,
        },
    }
}

/// The values of the record that `document` is: those of its members, or its
/// elements.
pub open spec fn record_values(document: Text) -> Seq<Text> {
    match json::json_members(document) {
        Some(members) => Seq::new(members.len(), |i: int| members[i].1),
        None => match json::json_elements(document) {
            Some(elements) => elements,
            None => seq![],
        },
    }
}

/// No key occurs twice at any depth: the document has as many commas as its
/// values and the places between them.
pub open spec fn repeats_nowhere(document: Text) -> bool {
    let values = record_values(document);
    values.len() == 0 || all_commas(document) == commas_in(values) + (values.len() - 1)
}

fn balanced(document: &str, values: &[String]) -> (r: bool)
    ensures
        r == (values@.len() == 0 || all_commas(document@) == commas_in(text::texts(values@)) + (
        values@.len() - 1)),
{
    if values.len() == 0 {
        return true;
    }
    let (_, total) = count_commas(document);
    let ghost all = text::texts(values@);
    if total < values.len() - 1 {
        return false;
    }
    let mut left: usize = total - (values.len() - 1);
    let mut i: usize = 0;
    assert(all.take(0) =~= Seq::<Text>::empty());
    while i < values.len()
        invariant
            i <= values@.len(),
            values@.len() > 0,
            all == text::texts(values@),
            total == all_commas(document@),
            total == left + commas_in(all.take(i as int)) + (values@.len() - 1),
        decreases values.len() - i,
    {
        let (_, here) = count_commas(values[i].as_str());
        proof {
            let next = all.take(i + 1);
            assert(next.drop_last() =~= all.take(i as int));
            lemma_commas_in_grow(all, i + 1);
        }
        if here > left {
            return false;
        }
        left = left - here;
        i += 1;
    }
    assert(all.take(i as int) =~= all);
    left == 0
}

proof fn lemma_commas_in_grow(values: Seq<Text>, n: int)
    requires
        0 <= n <= values.len(),
    ensures
        commas_in(values.take(n)) <= commas_in(values),
    decreases values.len() - n,
{
    if n < values.len() {
        lemma_commas_in_grow(values, n + 1);
        assert(values.take(n + 1).drop_last() =~= values.take(n));
    } else {
        assert(values.take(n) =~= values);
    }
}

/// No key of the record occurs twice at any depth.
pub fn has_no_repeats(document: &str) -> (r: bool)
    ensures
        r == repeats_nowhere(document@),
{
    match json::read_members(document) {
        Some(members) => {
            let mut values: Vec<String> = Vec::new();
            let mut i: usize = 0;
            while i < members.len()
                invariant
                    i <= members@.len(),
                    values@.len() == i,
                    forall|j: int| 0 <= j < i ==> (#[trigger] values@[j])@ == members@[j].1@,
                decreases members.len() - i,
            {
                values.push(members[i].1.clone());
                i += 1;
            }
            assert(text::texts(values@) =~= record_values(document@));
            balanced(document, values.as_slice())
        },
        None => match json::read_elements(document) {
            Some(elements) => balanced(document, elements.as_slice()),
            None => true,
        },
    }
}

/// The member `key` of the object that `document` is.
pub open spec fn member(document: Text, key: Text) -> Option<Text> {
    match json::json_members(document) {
        Some(members) => lookup(members, key),
        None => None,
    }
}

impl Json {
    /// The member `key` of an object.
    pub fn get(&self, key: &str) -> (r: Option<Json>)
        ensures
            r is Some <==> member(self@, key@) is Some,
            r matches Some(j) ==> Some(j@) == member(self@, key@),
    {
        match json::read_members(self.text.as_str()) {
            Some(members) => match find_member(members.as_slice(), key) {
                Some(text) => Some(Json { text }),
                None => None,
            },
            None => None,
        }
    }

    /// The elements of an array.
    pub fn elements(&self) -> (r: Option<Vec<String>>)
        ensures
            r is Some <==> json::json_elements(self@) is Some,
            r matches Some(v) ==> Some(text::texts(v@)) == json::json_elements(self@),
    {
        json::read_elements(self.text.as_str())
    }
}

/// An optional string field: absent or null stands for no value, a string for
/// its characters, and anything else is refused.
pub open spec fn string_field(field: Option<Text>) -> Option<Option<Text>> {
    match field {
        None => Some(None),
        Some(t) => if t == "null"@ {
            Some(None)
        } else {
            match json::json_string(t) {
                Some(s) => Some(Some(s)),
                None => None,
            }
        },
    }
}

/// Reads an optional string field; the outer `None` is a refusal.
pub fn read_string_field(field: &Option<String>) -> (r: Option<Option<String>>)
    ensures
        r is Some <==> string_field(text::opt_text(*field)) is Some,
        r matches Some(v) ==> Some(text::opt_text(v)) == string_field(text::opt_text(*field)),
{
    match field {
        None => Some(None),
        Some(t) => {
            if text::same_text(t.as_str(), "null") {
                Some(None)
            } else {
                match json::read_string(t.as_str()) {
                    Some(s) => Some(Some(s)),
                    None => None,
                }
            }
        },
    }
}

/// A field of any shape: null where it is absent.
pub open spec fn value_field(field: Option<Text>) -> Text {
    match field {
        Some(t) => t,
        None => "null"@,
    }
}

/// Reads a field of any shape.
pub fn read_value_field(field: &Option<String>) -> (r: Json)
    ensures
        r@ == value_field(text::opt_text(*field)),
{
    match field {
        Some(t) => Json { text: t.clone() },
        None => Json::null(),
    }
}

/// Where a pass that stood at `s` stands after some more bytes.
spec fn scan_on(s: Scan, bytes: Seq<u8>) -> Scan
    decreases bytes.len(),
{
    if bytes.len() == 0 {
        s
    } else {
        scan_byte(scan_on(s, bytes.drop_last()), bytes.last())
    }
}

proof fn lemma_scan_on(a: Seq<u8>, b: Seq<u8>)
    ensures
        scan(a + b) == scan_on(scan(a), b),
    decreases b.len(),
{
    if b.len() == 0 {
        assert(a + b =~= a);
    } else {
        assert((a + b).drop_last() =~= a + b.drop_last());
        lemma_scan_on(a, b.drop_last());
    }
}

proof fn lemma_scan_joined(s: Scan, a: Seq<u8>, b: Seq<u8>)
    ensures
        scan_on(s, a + b) == scan_on(scan_on(s, a), b),
    decreases b.len(),
{
    if b.len() == 0 {
        assert(a + b =~= a);
    } else {
        assert((a + b).drop_last() =~= a + b.drop_last());
        lemma_scan_joined(s, a, b.drop_last());
    }
}

/// Where a pass that stood at `s` stands after some more text.
spec fn scan_text(s: Scan, t: Text) -> Scan {
    scan_on(s, utf8::encode_utf8(t))
}

proof fn lemma_scan_texts(s: Scan, a: Text, b: Text)
    ensures
        scan_text(s, a + b) == scan_text(scan_text(s, a), b),
{
    text::lemma_encode_concat(a, b);
    lemma_scan_joined(s, utf8::encode_utf8(a), utf8::encode_utf8(b));
}

/// One ASCII character is one byte of the pass.
proof fn lemma_scan_ascii(s: Scan, c: char)
    requires
        c as u32 <= 0x7f,
    ensures
        scan_text(s, seq![c]) == scan_byte(s, c as u8),
{
    let t = seq![c];
    assert('\0' <= c && c <= '\u{7f}');
    assert(utf8::is_ascii_chars(t));
    utf8::is_ascii_chars_encode_utf8(t);
    let bytes = utf8::encode_utf8(t);
    assert(t[0] as u8 == bytes[0]);
    assert(bytes.drop_last() =~= Seq::<u8>::empty());
    reveal_with_fuel(scan_on, 2);
}

/// Bytes that are no ASCII characters change nothing inside a string.
proof fn lemma_scan_wide(s: Scan, bytes: Seq<u8>)
    requires
        s.in_string,
        !s.escape,
        forall|i: int| 0 <= i < bytes.len() ==> #[trigger] bytes[i] >= 0x80,
    ensures
        scan_on(s, bytes) == s,
    decreases bytes.len(),
{
    if bytes.len() > 0 {
        let front = bytes.drop_last();
        assert forall|i: int| 0 <= i < front.len() implies #[trigger] front[i] >= 0x80 by {
            assert(front[i] == bytes[i]);
        }
        lemma_scan_wide(s, front);
        assert(bytes.last() >= 0x80);
    }
}

/// A character of a string changes nothing as it stands there.
proof fn lemma_scan_escaped(s: Scan, c: char)
    requires
        s.in_string,
        !s.escape,
    ensures
        scan_text(s, json::escaped(c)) == s,
{
    let e = json::escaped(c);
    let n = c as u32;
    if e.len() == 1 {
        assert(e =~= seq![c]);
        if n >= 0x80 {
            text::lemma_wide_scalar(c);
            assert(seq![c].drop_first() =~= Seq::<char>::empty());
            reveal_with_fuel(utf8::encode_utf8, 2);
            assert(utf8::encode_utf8(seq![c]) =~= utf8::encode_scalar(n));
            lemma_scan_wide(s, utf8::encode_utf8(seq![c]));
        } else {
            lemma_scan_ascii(s, c);
        }
    } else {
        let open = Scan { escape: true, ..s };
        let two = seq![e[0], e[1]];
        assert(two =~= seq![e[0]] + seq![e[1]]);
        lemma_scan_texts(s, seq![e[0]], seq![e[1]]);
        lemma_scan_ascii(s, e[0]);
        assert(scan_text(s, seq![e[0]]) == open);
        assert(e[1] as u32 <= 0x7f);
        lemma_scan_ascii(open, e[1]);
        assert(scan_text(s, two) == s);
        if e.len() == 2 {
            assert(e =~= two);
        } else {
            let four = two + seq![e[2]] + seq![e[3]];
            let five = four + seq![e[4]];
            assert(e =~= five + seq![e[5]]);
            lemma_scan_texts(s, two, seq![e[2]]);
            lemma_scan_ascii(s, e[2]);
            lemma_scan_texts(s, two + seq![e[2]], seq![e[3]]);
            lemma_scan_ascii(s, e[3]);
            lemma_scan_texts(s, four, seq![e[4]]);
            lemma_scan_ascii(s, e[4]);
            lemma_scan_texts(s, five, seq![e[5]]);
            lemma_scan_ascii(s, e[5]);
        }
    }
}

proof fn lemma_scan_escaped_text(s: Scan, t: Text)
    requires
        s.in_string,
        !s.escape,
    ensures
        scan_text(s, json::escaped_text(t)) == s,
    decreases t.len(),
{
    if t.len() > 0 {
        lemma_scan_escaped(s, t[0]);
        lemma_scan_escaped_text(s, t.drop_first());
        lemma_scan_texts(s, json::escaped(t[0]), json::escaped_text(t.drop_first()));
    }
}

/// A string as a whole changes nothing.
proof fn lemma_scan_quoted(s: Scan, t: Text)
    requires
        !s.in_string,
        !s.escape,
    ensures
        scan_text(s, json::quoted(t)) == s,
{
    let inside = Scan { in_string: true, ..s };
    lemma_scan_ascii(s, '"');
    lemma_scan_ascii(inside, '"');
    lemma_scan_escaped_text(inside, t);
    lemma_scan_texts(s, seq!['"'], json::escaped_text(t));
    lemma_scan_texts(s, seq!['"'] + json::escaped_text(t), seq!['"']);
}

/// A word changes nothing.
proof fn lemma_scan_word(s: Scan, t: Text)
    requires
        !s.in_string,
        forall|i: int| 0 <= i < t.len() ==> 'a' <= #[trigger] t[i] <= 'z',
    ensures
        scan_text(s, t) == s,
    decreases t.len(),
{
    if t.len() > 0 {
        let front = t.drop_last();
        let c = t.last();
        assert forall|i: int| 0 <= i < front.len() implies 'a' <= #[trigger] front[i] <= 'z' by {
            assert(front[i] == t[i]);
        }
        lemma_scan_word(s, front);
        assert(t =~= front + seq![c]);
        assert('a' <= t[t.len() - 1] <= 'z');
        lemma_scan_texts(s, front, seq![c]);
        lemma_scan_ascii(s, c);
    }
}

/// A plain value changes nothing.
proof fn lemma_scan_plain(s: Scan, v: Text)
    requires
        !s.in_string,
        !s.escape,
        json::plain_value(v),
    ensures
        scan_text(s, v) == s,
{
    if json::is_quoted(v) {
        let t = choose|t: Text| v == #[trigger] json::quoted(t);
        lemma_scan_quoted(s, t);
    } else {
        reveal_strlit("true");
        reveal_strlit("false");
        reveal_strlit("null");
        lemma_scan_word(s, v);
    }
}

/// The members of a plain object are separated by one comma less than there are.
proof fn lemma_scan_members(s: Scan, members: Seq<(Text, Text)>)
    requires
        s.depth == 1,
        !s.in_string,
        !s.escape,
        json::plain(members),
        members.len() > 0,
    ensures
        scan_text(s, json::joined(json::member_texts(members))) == (Scan {
            commas: (s.commas + members.len() - 1) as nat,
            all_commas: (s.all_commas + members.len() - 1) as nat,
            ..s
        }),
    decreases members.len(),
{
    let parts = json::member_texts(members);
    let front = members.drop_last();
    let (key, value) = members.last();
    let last = json::member_text(key, value);
    assert(parts.last() == last);
    assert(json::plain_value(members[members.len() - 1].1));
    if members.len() == 1 {
        lemma_scan_member(s, key, value);
    } else {
        assert(parts.drop_last() =~= json::member_texts(front));
        assert forall|i: int| 0 <= i < front.len() implies json::plain_value(
            (#[trigger] front[i]).1,
        ) by {
            assert(front[i] == members[i]);
        }
        lemma_scan_members(s, front);
        let before = json::joined(json::member_texts(front));
        let mid = scan_text(s, before);
        lemma_scan_texts(s, before, seq![',']);
        lemma_scan_ascii(mid, ',');
        let after = scan_text(s, before + seq![',']);
        lemma_scan_texts(s, before + seq![','], last);
        lemma_scan_member(after, key, value);
    }
}

proof fn lemma_scan_member(s: Scan, key: Text, value: Text)
    requires
        !s.in_string,
        !s.escape,
        json::plain_value(value),
    ensures
        scan_text(s, json::member_text(key, value)) == s,
{
    lemma_scan_quoted(s, key);
    lemma_scan_ascii(s, ':');
    lemma_scan_plain(s, value);
    lemma_scan_texts(s, json::quoted(key), seq![':']);
    lemma_scan_texts(s, json::quoted(key) + seq![':'], value);
}

proof fn lemma_plain_commas(members: Seq<(Text, Text)>)
    requires
        json::plain(members),
        members.len() > 0,
    ensures
        outer_commas(json::object_text(members)) + 1 == members.len(),
{
    let start = scan(Seq::<u8>::empty());
    let open = Scan { depth: 1, ..start };
    let inner = json::joined(json::member_texts(members));
    let document = json::object_text(members);
    lemma_scan_on(Seq::<u8>::empty(), utf8::encode_utf8(document));
    assert(Seq::<u8>::empty() + utf8::encode_utf8(document) =~= utf8::encode_utf8(document));
    lemma_scan_ascii(start, '{');
    lemma_scan_texts(start, seq!['{'], inner);
    lemma_scan_members(open, members);
    lemma_scan_texts(start, seq!['{'] + inner, seq!['}']);
    lemma_scan_ascii(scan_text(open, inner), '}');
}

/// A plain object that was written is read back as a record: every field has the value
/// that was written for it, where all keys are names of fields and none was written
/// twice.
pub proof fn law_records_read_back(members: Seq<(Text, Text)>, names: Seq<Text>)
    requires
        json::plain(members),
        only_names(json::keyed(members), names),
        json::keyed(members).len() == members.len(),
    ensures
        record(json::object_text(members), names) == Some(
            Seq::new(names.len(), |i: int| lookup(json::keyed(members), names[i])),
        ),
{
    json::law_objects_read_back(members);
    if members.len() > 0 {
        lemma_plain_commas(members);
    }
}

/// No key occurs twice.
pub open spec fn distinct_keys(members: Seq<(Text, Text)>) -> bool {
    forall|i: int, j: int|
        0 <= i < j < members.len() ==> (#[trigger] members[i]).0 != (#[trigger] members[j]).0
}

proof fn lemma_lookup_is_find(members: Seq<(Text, Text)>, key: Text)
    ensures
        lookup(members, key) == names::find(members, key),
    decreases members.len(),
{
    if members.len() > 0 && members[0].0 != key {
        lemma_lookup_is_find(members.drop_first(), key);
    }
}

/// A key that occurs once is looked up where it occurs.
pub proof fn lemma_lookup_at(members: Seq<(Text, Text)>, i: int)
    requires
        distinct_keys(members),
        0 <= i < members.len(),
    ensures
        lookup(members, members[i].0) == Some(members[i].1),
    decreases members.len(),
{
    if i > 0 {
        let rest = members.drop_first();
        assert forall|a: int, b: int| 0 <= a < b < rest.len() implies (#[trigger] rest[a]).0 != (
        #[trigger] rest[b]).0 by {
            assert(rest[a] == members[a + 1] && rest[b] == members[b + 1]);
        }
        lemma_lookup_at(rest, i - 1);
        assert(rest[i - 1] == members[i]);
        assert(members[0].0 != members[i].0);
    }
}

/// A key that occurs nowhere is not found.
pub proof fn lemma_lookup_none(members: Seq<(Text, Text)>, key: Text)
    requires
        forall|i: int| 0 <= i < members.len() ==> (#[trigger] members[i]).0 != key,
    ensures
        lookup(members, key) is None,
    decreases members.len(),
{
    if members.len() > 0 {
        let rest = members.drop_first();
        assert forall|i: int| 0 <= i < rest.len() implies (#[trigger] rest[i]).0 != key by {
            assert(rest[i] == members[i + 1]);
        }
        assert(members[0].0 != key);
        lemma_lookup_none(rest, key);
    }
}

proof fn lemma_put_new(s: Seq<(Text, Text)>, key: Text, value: Text)
    requires
        names::find(s, key) is None,
    ensures
        names::put(s, key, value).len() == s.len() + 1,
    decreases s.len(),
{
    if s.len() > 0 {
        lemma_put_new(s.drop_first(), key, value);
    }
}

proof fn lemma_put_within(s: Seq<(Text, Text)>, key: Text, value: Text, wanted: Seq<Text>)
    requires
        only_names(s, wanted),
        wanted.contains(key),
    ensures
        only_names(names::put(s, key, value), wanted),
    decreases s.len(),
{
    let t = names::put(s, key, value);
    if s.len() > 0 {
        let rest = s.drop_first();
        assert forall|i: int| 0 <= i < rest.len() implies wanted.contains(
            #[trigger] rest[i].0,
        ) by {
            assert(rest[i] == s[i + 1]);
        }
        lemma_put_within(rest, key, value, wanted);
        assert(wanted.contains(s[0].0));
        assert forall|i: int| 0 <= i < t.len() implies wanted.contains(#[trigger] t[i].0) by {
            if s[0].0 == key {
                assert(t =~= seq![(key, value)] + rest);
            } else if text::text_le(key, s[0].0) {
                assert(t =~= seq![(key, value)] + s);
                if i > 0 {
                    assert(t[i] == s[i - 1]);
                }
            } else {
                let u = names::put(rest, key, value);
                assert(t =~= seq![s[0]] + u);
                if i > 0 {
                    assert(t[i] == u[i - 1]);
                }
            }
        }
    }
}

/// A key is looked up in what goes before the last member, and else in that.
proof fn lemma_lookup_last(members: Seq<(Text, Text)>, key: Text)
    requires
        members.len() > 0,
    ensures
        lookup(members, key) == match lookup(members.drop_last(), key) {
            Some(v) => Some(v),
            None => if members.last().0 == key {
                Some(members.last().1)
            } else {
                None
            },
        },
    decreases members.len(),
{
    if members.len() > 1 && members[0].0 != key {
        lemma_lookup_last(members.drop_first(), key);
        assert(members.drop_first().drop_last() =~= members.drop_last().drop_first());
    } else if members.len() == 1 {
        assert(members.drop_first() =~= Seq::<(Text, Text)>::empty());
        assert(lookup(members.drop_first(), key) is None);
    }
}

/// Members that are put in key order are all there, each once, with their values.
proof fn lemma_keyed(members: Seq<(Text, Text)>, key: Text, wanted: Seq<Text>)
    requires
        distinct_keys(members),
        only_names(members, wanted),
    ensures
        json::keyed(members).len() == members.len(),
        lookup(json::keyed(members), key) == lookup(members, key),
        only_names(json::keyed(members), wanted),
    decreases members.len(),
{
    lemma_lookup_is_find(json::keyed(members), key);
    if members.len() > 0 {
        let front = members.drop_last();
        let (last, value) = members.last();
        let n = members.len() - 1;
        assert forall|a: int, b: int| 0 <= a < b < front.len() implies (#[trigger] front[a]).0 != (
        #[trigger] front[b]).0 by {
            assert(front[a] == members[a] && front[b] == members[b]);
        }
        assert forall|i: int| 0 <= i < front.len() implies wanted.contains(
            #[trigger] front[i].0,
        ) by {
            assert(front[i] == members[i]);
        }
        lemma_keyed(front, key, wanted);
        lemma_keyed(front, last, wanted);
        lemma_lookup_is_find(json::keyed(front), key);
        lemma_lookup_is_find(json::keyed(front), last);
        assert forall|i: int| 0 <= i < front.len() implies (#[trigger] front[i]).0 != last by {
            assert(front[i] == members[i]);
            assert(members[i].0 != members[n].0);
        }
        lemma_lookup_none(front, last);
        lemma_put_new(json::keyed(front), last, value);
        names::lemma_put_find(json::keyed(front), last, value, key);
        assert(wanted.contains(members[n].0));
        lemma_put_within(json::keyed(front), last, value, wanted);
        lemma_lookup_last(members, key);
    }
}

/// Every key of a list of members.
spec fn keys_of(members: Seq<(Text, Text)>) -> Seq<Text> {
    Seq::new(members.len(), |i: int| members[i].0)
}

/// What was written under a key is read back under that key, and nothing under any
/// other.
pub proof fn law_members_read_back(members: Seq<(Text, Text)>, key: Text)
    requires
        json::plain(members),
        distinct_keys(members),
    ensures
        member(json::object_text(members), key) == lookup(members, key),
        forall|i: int|
            0 <= i < members.len() ==> member(
                json::object_text(members),
                (#[trigger] members[i]).0,
            ) == Some(members[i].1),
        json::json_members(json::object_text(members)) is Some,
        json::json_members(json::object_text(members))->0.len() == members.len(),
{
    let wanted = keys_of(members);
    json::law_objects_read_back(members);
    assert forall|i: int| 0 <= i < members.len() implies wanted.contains(
        #[trigger] members[i].0,
    ) by {
        assert(wanted[i] == members[i].0);
    }
    lemma_keyed(members, key, wanted);
    assert forall|i: int| 0 <= i < members.len() implies member(
        json::object_text(members),
        (#[trigger] members[i]).0,
    ) == Some(members[i].1) by {
        lemma_keyed(members, members[i].0, wanted);
        lemma_lookup_at(members, i);
    }
}

/// The string that a document has under a key.
pub open spec fn text_member(document: Text, key: Text) -> Option<Text> {
    match member(document, key) {
        Some(v) => json::json_string(v),
        None => None,
    }
}

/// Two texts under two keys are read back.
pub proof fn lemma_two_texts(a: Text, x: Text, b: Text, y: Text)
    requires
        a != b,
    ensures
        text_member(json::object_text(seq![(a, json::quoted(x)), (b, json::quoted(y))]), a) == Some(
            x,
        ),
        text_member(json::object_text(seq![(a, json::quoted(x)), (b, json::quoted(y))]), b) == Some(
            y,
        ),
        json::json_members(
            json::object_text(seq![(a, json::quoted(x)), (b, json::quoted(y))]),
        ) is Some,
        json::json_members(
            json::object_text(seq![(a, json::quoted(x)), (b, json::quoted(y))]),
        )->0.len() == 2,
{
    let members = seq![(a, json::quoted(x)), (b, json::quoted(y))];
    json::law_strings_read_back(x);
    json::law_strings_read_back(y);
    law_members_read_back(members, a);
    assert(members[0].0 == a && members[1].0 == b);
    assert(member(json::object_text(members), members[0].0) == Some(members[0].1));
    assert(member(json::object_text(members), members[1].0) == Some(members[1].1));
}

/// One text under a key is read back.
pub proof fn lemma_one_text(a: Text, x: Text)
    ensures
        text_member(json::object_text(seq![(a, json::quoted(x))]), a) == Some(x),
        json::json_members(json::object_text(seq![(a, json::quoted(x))])) is Some,
        json::json_members(json::object_text(seq![(a, json::quoted(x))]))->0.len() == 1,
{
    let members = seq![(a, json::quoted(x))];
    json::law_strings_read_back(x);
    law_members_read_back(members, a);
    assert(member(json::object_text(members), members[0].0) == Some(members[0].1));
}

/// Fields that were written are read back: in whatever order they were written, each
/// field of the record is what was written under its name, and is not there where
/// nothing was.
pub proof fn law_fields_read_back(members: Seq<(Text, Text)>, names: Seq<Text>)
    requires
        json::plain(members),
        distinct_keys(members),
        only_names(members, names),
    ensures
        record(json::object_text(members), names) is Some,
        record(json::object_text(members), names)->0.len() == names.len(),
        forall|i: int|
            0 <= i < names.len() ==> (#[trigger] record(json::object_text(members), names)->0[i])
                == lookup(members, names[i]),
{
    lemma_keyed(members, seq![], names);
    law_records_read_back(members, names);
    assert forall|i: int| 0 <= i < names.len() implies (#[trigger] record(
        json::object_text(members),
        names,
    )->0[i]) == lookup(members, names[i]) by {
        lemma_keyed(members, names[i], names);
    }
}

proof fn lemma_scan_list(s: Scan, items: Seq<Text>)
    requires
        !s.in_string,
        !s.escape,
        forall|i: int| 0 <= i < items.len() ==> json::plain_value(#[trigger] items[i]),
        items.len() > 0,
    ensures
        scan_text(s, json::joined(items)) == (Scan {
            commas: s.commas + if s.depth == 1 {
                (items.len() - 1) as nat
            } else {
                0
            },
            all_commas: s.all_commas + (items.len() - 1) as nat,
            ..s
        }),
    decreases items.len(),
{
    if items.len() == 1 {
        assert(json::plain_value(items[0]));
        lemma_scan_plain(s, items[0]);
    } else {
        let front = items.drop_last();
        let n = items.len() - 1;
        assert forall|i: int| 0 <= i < front.len() implies json::plain_value(
            #[trigger] front[i],
        ) by {
            assert(front[i] == items[i]);
        }
        lemma_scan_list(s, front);
        assert(json::plain_value(items[n]));
        let one = scan_text(s, json::joined(front));
        lemma_scan_texts(s, json::joined(front), seq![',']);
        lemma_scan_ascii(one, ',');
        let two = scan_text(s, json::joined(front) + seq![',']);
        lemma_scan_texts(s, json::joined(front) + seq![','], items.last());
        lemma_scan_plain(two, items[n]);
    }
}

/// What stands nested in a value does not count: an object whose only member is a list has
/// no comma of its own, however long the list is, and its commas are those of the list.
pub proof fn law_what_is_nested_does_not_count(key: Text, items: Seq<Text>)
    requires
        forall|i: int| 0 <= i < items.len() ==> json::plain_value(#[trigger] items[i]),
        items.len() > 0,
    ensures
        outer_commas(json::object_text(seq![(key, json::array_text(items))])) == 0,
        all_commas(json::object_text(seq![(key, json::array_text(items))])) == items.len() - 1,
        outer_commas(json::array_text(items)) == items.len() - 1,
{
    let none = Scan { depth: 0, in_string: false, escape: false, commas: 0, all_commas: 0 };
    let inner = json::array_text(items);
    let whole = json::object_text(seq![(key, inner)]);
    let head = seq!['{'] + json::quoted(key) + seq![':'];
    json::law_objects_are_written_in_a_row(seq![], key, inner);
    assert(whole =~= head + (seq!['['] + json::joined(items) + seq![']']) + seq!['}']);
    let empty = Seq::<u8>::empty();
    assert(empty + utf8::encode_utf8(whole) =~= utf8::encode_utf8(whole));
    assert(empty + utf8::encode_utf8(inner) =~= utf8::encode_utf8(inner));
    lemma_scan_on(empty, utf8::encode_utf8(whole));
    lemma_scan_on(empty, utf8::encode_utf8(inner));
    assert(scan(empty) == none);
    lemma_scan_ascii(none, '{');
    let a = scan_text(none, seq!['{']);
    lemma_scan_quoted(a, key);
    lemma_scan_texts(none, seq!['{'], json::quoted(key));
    lemma_scan_ascii(a, ':');
    lemma_scan_texts(none, seq!['{'] + json::quoted(key), seq![':']);
    assert(scan_text(none, head) == a);
    lemma_scan_nested(a, items);
    lemma_scan_texts(none, head, inner);
    let b = scan_text(none, head + inner);
    lemma_scan_texts(none, head + inner, seq!['}']);
    lemma_scan_ascii(b, '}');
    lemma_scan_nested(none, items);
}

proof fn lemma_scan_nested(s: Scan, items: Seq<Text>)
    requires
        !s.in_string,
        !s.escape,
        forall|i: int| 0 <= i < items.len() ==> json::plain_value(#[trigger] items[i]),
        items.len() > 0,
    ensures
        scan_text(s, json::array_text(items)) == (Scan {
            commas: s.commas + if s.depth == 0 {
                (items.len() - 1) as nat
            } else {
                0
            },
            all_commas: s.all_commas + (items.len() - 1) as nat,
            ..s
        }),
{
    lemma_scan_ascii(s, '[');
    let a = scan_text(s, seq!['[']);
    lemma_scan_list(a, items);
    lemma_scan_texts(s, seq!['['], json::joined(items));
    let b = scan_text(s, seq!['['] + json::joined(items));
    lemma_scan_texts(s, seq!['['] + json::joined(items), seq![']']);
    lemma_scan_ascii(b, ']');
}

} // verus!
