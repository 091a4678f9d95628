//! JSON documents as text. Values travel through the kernel in their compact
//! form; `serde_json` reads them, and the few objects and arrays that the
//! kernel itself writes are put together from the forms of their parts.

use crate::names;
use crate::text;
use crate::text::Text;
use vstd::prelude::*;

verus! {

/// A JSON value in compact form.
#[derive(Debug)]
pub struct Json {
    pub text: String,
}

impl View for Json {
    type V = Text;

    open spec fn view(&self) -> Text {
        self.text@
    }
}

impl Clone for Json {
    fn clone(&self) -> (r: Self)
        ensures
            r@ == self@,
    {
        Json { text: self.text.clone() }
    }
}

/// The lower-case hexadecimal numeral of `d`, for `d` below sixteen.
pub open spec fn hex_digit(d: int) -> char {
    if d < 10 {
        (48 + d) as char
    } else {
        (87 + d) as char
    }
}

/// How one character stands inside a JSON string.
pub open spec fn escaped(c: char) -> Text {
    let n = c as u32;
    if c == '"' || c == '\\' {
        seq!['\\', c]
    } else if n == 8 {
        seq!['\\', 'b']
    } else if n == 9 {
        seq!['\\', 't']
    } else if n == 10 {
        seq!['\\', 'n']
    } else if n == 12 {
        seq!['\\', 'f']
    } else if n == 13 {
        seq!['\\', 'r']
    } else if n < 32 {
        seq!['\\', 'u', '0', '0', hex_digit(n as int / 16), hex_digit(n as int % 16)]
    } else {
        seq![c]
    }
}

/// The inside of the JSON string that stands for `t`.
pub open spec fn escaped_text(t: Text) -> Text
    decreases t.len(),
{
    if t.len() == 0 {
        seq![]
    } else {
        escaped(t[0]) + escaped_text(t.drop_first())
    }
}

/// `t` as a JSON string.
pub open spec fn quoted(t: Text) -> Text {
    seq!['"'] + escaped_text(t) + seq!['"']
}

/// `parts`, separated by commas.
pub open spec fn joined(parts: Seq<Text>) -> Text
    decreases parts.len(),
{
    if parts.len() == 0 {
        seq![]
    } else if parts.len() == 1 {
        parts[0]
    } else {
        joined(parts.drop_last()) + seq![','] + parts.last()
    }
}

/// A member of an object, as it stands between the braces.
pub open spec fn member_text(key: Text, value: Text) -> Text {
    quoted(key) + seq![':'] + value
}

/// The members of an object, as they stand between the braces.
pub open spec fn member_texts(members: Seq<(Text, Text)>) -> Seq<Text> {
    Seq::new(members.len(), |i: int| member_text(members[i].0, members[i].1))
}

/// The object with `members`, whose values are given in compact form.
pub open spec fn object_text(members: Seq<(Text, Text)>) -> Text {
    seq!['{'] + joined(member_texts(members)) + seq!['}']
}

/// The array of `items`, given in compact form.
pub open spec fn array_text(items: Seq<Text>) -> Text {
    seq!['['] + joined(items) + seq![']']
}

/// The JSON strings of `list`.
pub open spec fn quoted_all(list: Seq<Text>) -> Seq<Text> {
    Seq::new(list.len(), |i: int| quoted(list[i]))
}

pub open spec fn opt_quoted(t: Option<Text>) -> Text {
    match t {
        Some(s) => quoted(s),
        None => "null"@,
    }
}

/// The document is a string as the kernel writes it.
pub open spec fn is_quoted(document: Text) -> bool {
    exists|t: Text| document == #[trigger] quoted(t)
}

/// What `serde_json` reads from a document that is a string but not as the kernel
/// writes it. `None` where it is no string.
pub uninterp spec fn foreign_string(document: Seq<char>) -> Option<Seq<char>>;

/// The characters of the string that a document is; `None` for any other text.
#[verifier::opaque]
pub open spec fn json_string(document: Text) -> Option<Text> {
    if is_quoted(document) {
        Some(choose|t: Text| document == #[trigger] quoted(t))
    } else {
        foreign_string(document)
    }
}

/// A value that holds no other: a string, a truth value or null.
pub open spec fn plain_value(v: Text) -> bool {
    is_quoted(v) || v == "true"@ || v == "false"@ || v == "null"@
}

/// Members whose values hold no other.
pub open spec fn plain(members: Seq<(Text, Text)>) -> bool {
    forall|i: int| 0 <= i < members.len() ==> plain_value((#[trigger] members[i]).1)
}

/// The document is an object of plain members as the kernel writes it.
pub open spec fn is_plain_object(document: Text) -> bool {
    exists|members: Seq<(Text, Text)>| #[trigger]
        plain(members) && document == object_text(members)
}

/// The members in key order, the last one where a key occurs more than once.
pub open spec fn keyed(members: Seq<(Text, Text)>) -> Seq<(Text, Text)>
    decreases members.len(),
{
    if members.len() == 0 {
        seq![]
    } else {
        let last = members.last();
        names::put(keyed(members.drop_last()), last.0, last.1)
    }
}

/// The value that `serde_json` reads from a document, in compact form. `None`
/// where the text is no JSON document.
pub uninterp spec fn json_compact(document: Seq<char>) -> Option<Seq<char>>;

/// What `serde_json` reads from a document that is an object but not a plain one as
/// the kernel writes it. `None` where it is no object.
pub uninterp spec fn foreign_members(document: Seq<char>) -> Option<Seq<(Seq<char>, Seq<char>)>>;

/// The members of the object that a document is: in key order, each value in compact
/// form, the last one where a key occurs more than once. `None` for any other text.
#[verifier::opaque]
pub open spec fn json_members(document: Text) -> Option<Seq<(Text, Text)>> {
    if is_plain_object(document) {
        Some(
            keyed(
                choose|members: Seq<(Text, Text)>| #[trigger]
                    plain(members) && document == object_text(members),
            ),
        )
    } else {
        foreign_members(document)
    }
}

/// What `serde_json` reads from a document that is an array: its elements in
/// compact form. `None` for any other text.
pub uninterp spec fn json_elements(document: Seq<char>) -> Option<Seq<Seq<char>>>;

/// The pairs of a vector of string pairs.
pub open spec fn pairs(v: Seq<(String, String)>) -> Seq<(Text, Text)> {
    Seq::new(v.len(), |i: int| (v[i].0@, v[i].1@))
}

/// Calls `serde_json`'s `Display` of `Value` on a string value. The result is
/// the string between quotation marks, with the quotation mark, the backslash
/// and the control characters below 32 escaped.
#[verifier::external_body]
pub(crate) fn quote(s: &str) -> (r: String)
    ensures
        r@ == quoted(s@),
{
    serde_json::Value::from(s).to_string()
}

/// What is wrong with text that is no document.
pub uninterp spec fn json_problem(document: Seq<char>) -> Seq<char>;

/// Calls `serde_json::from_str`: whether the text is a document, and how the error
/// is worded, are functions of the text.
#[verifier::external_body]
pub(crate) fn check_document(document: &str) -> (r: Result<(), String>)
    ensures
        r is Ok <==> json_compact(document@) is Some,
        r matches Err(e) ==> e@ == json_problem(document@),
{
    serde_json::from_str::<serde_json::Value>(document).map(|_| ()).map_err(|e| e.to_string())
}

/// Calls `serde_json::from_str` and `Display` of `Value`: the value that the
/// document is, in compact form.
#[verifier::external_body]
pub(crate) fn read_value(document: &str) -> (r: Option<String>)
    ensures
        text::opt_text(r) == json_compact(document@),
{
    let value: serde_json::Value = serde_json::from_str(document).ok()?;
    Some(value.to_string())
}

/// Calls `serde_json::from_str` and `Value::as_str`: the string that the
/// document is, if it is one. What `quote` wrote is read back, and of any other text
/// the result is a function.
#[verifier::external_body]
pub(crate) fn read_string(document: &str) -> (r: Option<String>)
    ensures
        text::opt_text(r) == json_string(document@),
        !is_quoted(document@) ==> text::opt_text(r) == foreign_string(document@),
{
    let value: serde_json::Value = serde_json::from_str(document).ok()?;
    value.as_str().map(str::to_string)
}

/// Calls `serde_json::from_str` and `Value::as_object`: the members of the
/// object that the document is, if it is one, with their values in compact form. Of
/// an object whose keys are strings as `quote` writes them, and whose values are such
/// strings, truth values or null, without white space, they are those keys and values,
/// in key order, the last one where a key occurs more than once. Of any other text the
/// result is a function.
#[verifier::external_body]
pub(crate) fn read_members(document: &str) -> (r: Option<Vec<(String, String)>>)
    ensures
        r is Some <==> json_members(document@) is Some,
        r matches Some(v) ==> Some(pairs(v@)) == json_members(document@),
        !is_plain_object(document@) ==> (match r {
            Some(v) => foreign_members(document@) == Some(pairs(v@)),
            None => foreign_members(document@) is None,
        }),
{
    let value: serde_json::Value = serde_json::from_str(document).ok()?;
    let members = value.as_object()?;
    Some(members.iter().map(|(k, v)| (k.clone(), v.to_string())).collect())
}

/// Calls `serde_json::from_str` and `Value::as_array`: the elements of the
/// array that the document is, if it is one, in compact form.
#[verifier::external_body]
pub(crate) fn read_elements(document: &str) -> (r: Option<Vec<String>>)
    ensures
        r is Some <==> json_elements(document@) is Some,
        r matches Some(v) ==> Some(text::texts(v@)) == json_elements(document@),
{
    let value: serde_json::Value = serde_json::from_str(document).ok()?;
    let elements = value.as_array()?;
    Some(elements.iter().map(|v| v.to_string()).collect())
}

/// Writes an object member by member. The members are the view.
pub struct ObjectWriter {
    out: String,
    members: Ghost<Seq<(Text, Text)>>,
    empty: bool,
}

impl View for ObjectWriter {
    type V = Seq<(Text, Text)>;

    closed spec fn view(&self) -> Seq<(Text, Text)> {
        self.members@
    }
}

impl ObjectWriter {
    #[verifier::type_invariant]
    spec fn wf(self) -> bool {
        &&& self.empty == (self.members@.len() == 0)
        &&& self.out@ == seq!['{'] + joined(member_texts(self.members@))
    }

    pub fn new() -> (r: Self)
        ensures
            r@ == Seq::<(Text, Text)>::empty(),
    {
        let mut out = String::new();
        out.push('{');
        let ghost none = Seq::<(Text, Text)>::empty();
        proof {
            assert(out@ =~= seq!['{'] + joined(member_texts(none)));
        }
        ObjectWriter { out, members: Ghost(none), empty: true }
    }

    /// Adds a member whose value is already in compact form.
    pub fn raw(self, key: &str, value: &str) -> (r: Self)
        ensures
            r@ == self@.push((key@, value@)),
    {
        proof {
            use_type_invariant(&self);
        }
        let ObjectWriter { mut out, members, empty } = self;
        let ghost before = out@;
        if !empty {
            out.push(',');
        }
        let k = quote(key);
        out.append(k.as_str());
        out.push(':');
        out.append(value);
        let ghost after = members@.push((key@, value@));
        proof {
            let old_parts = member_texts(members@);
            let parts = member_texts(after);
            assert(parts.drop_last() =~= old_parts);
            assert(parts.last() == member_text(key@, value@));
            if empty {
                assert(out@ =~= seq!['{'] + joined(parts));
            } else {
                assert(out@ =~= before + seq![','] + member_text(key@, value@));
                assert(out@ =~= seq!['{'] + joined(parts));
            }
        }
        ObjectWriter { out, members: Ghost(after), empty: false }
    }

    /// Adds a member whose value is a string.
    pub fn string(self, key: &str, value: &str) -> (r: Self)
        ensures
            r@ == self@.push((key@, quoted(value@))),
    {
        let v = quote(value);
        self.raw(key, v.as_str())
    }

    /// Adds a member whose value is a string, or null where there is none.
    pub fn opt_string(self, key: &str, value: &Option<String>) -> (r: Self)
        ensures
            r@ == self@.push((key@, opt_quoted(text::opt_text(*value)))),
    {
        match value {
            Some(s) => self.string(key, s.as_str()),
            None => self.raw(key, "null"),
        }
    }

    /// The object.
    pub fn close(self) -> (r: Json)
        ensures
            r@ == object_text(self@),
    {
        proof {
            use_type_invariant(&self);
        }
        let ObjectWriter { mut out, members, empty } = self;
        out.push('}');
        assert(out@ =~= object_text(members@));
        Json { text: out }
    }
}

/// The array of `items`, given in compact form.
pub fn array(items: &[String]) -> (r: Json)
    ensures
        r@ == array_text(text::texts(items@)),
{
    let mut out = String::new();
    out.push('[');
    let mut i: usize = 0;
    let ghost all = text::texts(items@);
    assert(out@ =~= seq!['['] + joined(all.take(0)));
    while i < items.len()
        invariant
            i <= items@.len(),
            all == text::texts(items@),
            out@ == seq!['['] + joined(all.take(i as int)),
        decreases items.len() - i,
    {
        if i > 0 {
            out.push(',');
        }
        out.append(items[i].as_str());
        proof {
            let parts = all.take(i + 1);
            assert(parts.drop_last() =~= all.take(i as int));
            assert(out@ =~= seq!['['] + joined(parts));
        }
        i += 1;
    }
    out.push(']');
    proof {
        assert(all.take(i as int) =~= all);
        assert(out@ =~= array_text(all));
    }
    Json { text: out }
}

/// The array of the strings of `list`.
pub fn string_array(list: &[String]) -> (r: Json)
    ensures
        r@ == array_text(quoted_all(text::texts(list@))),
{
    let mut items: Vec<String> = Vec::new();
    let mut i: usize = 0;
    while i < list.len()
        invariant
            i <= list@.len(),
            items@.len() == i,
            forall|j: int| 0 <= j < i ==> items@[j]@ == quoted(list@[j]@),
        decreases list.len() - i,
    {
        items.push(quote(list[i].as_str()));
        i += 1;
    }
    assert(text::texts(items@) =~= quoted_all(text::texts(list@)));
    array(items.as_slice())
}

impl Json {
    /// The null value.
    pub fn null() -> (r: Self)
        ensures
            r@ == "null"@,
    {
        Json { text: "null".to_string() }
    }

    /// A string value.
    pub fn string(s: &str) -> (r: Self)
        ensures
            r@ == quoted(s@),
            json_string(r@) == Some(s@),
    {
        proof {
            law_strings_read_back(s@);
        }
        Json { text: quote(s) }
    }

    /// Reads a document. `None` where the text is none.
    pub fn parse(document: &str) -> (r: Option<Self>)
        ensures
            r is Some <==> json_compact(document@) is Some,
            r matches Some(j) ==> Some(j@) == json_compact(document@),
    {
        match read_value(document) {
            Some(text) => Some(Json { text }),
            None => None,
        }
    }

    /// The empty object.
    pub fn empty_object() -> (r: Self)
        ensures
            r@ == object_text(seq![]),
    {
        ObjectWriter::new().close()
    }

    pub fn is_null(&self) -> (r: bool)
        ensures
            r == (self@ == "null"@),
    {
        text::same_text(self.text.as_str(), "null")
    }

    /// The characters of a string value.
    pub fn as_str(&self) -> (r: Option<String>)
        ensures
            text::opt_text(r) == json_string(self@),
    {
        read_string(self.text.as_str())
    }
}

/// A text that starts with `p` continues in one way.
pub proof fn lemma_same_rest(p: Text, x: Text, y: Text)
    requires
        p + x == p + y,
    ensures
        x == y,
{
    assert(x =~= (p + x).skip(p.len() as int));
    assert(y =~= (p + y).skip(p.len() as int));
}

proof fn lemma_hex_digit_injective(a: int, b: int)
    requires
        0 <= a < 16,
        0 <= b < 16,
        hex_digit(a) == hex_digit(b),
    ensures
        a == b,
{
}

/// How a character stands inside a string tells where it ends and which it is.
proof fn lemma_escaped_ends(c: char, d: char, x: Text, y: Text)
    requires
        escaped(c) + x == escaped(d) + y,
    ensures
        c == d,
        x == y,
{
    let s = escaped(c) + x;
    let t = escaped(d) + y;
    assert(s[0] == escaped(c)[0]);
    assert(t[0] == escaped(d)[0]);
    if escaped(c).len() > 1 && escaped(d).len() > 1 {
        assert(s[1] == escaped(c)[1]);
        assert(t[1] == escaped(d)[1]);
        if escaped(c).len() == 6 && escaped(d).len() == 6 {
            let m = c as u32 as int;
            let n = d as u32 as int;
            assert(s[4] == escaped(c)[4] && s[5] == escaped(c)[5]);
            assert(t[4] == escaped(d)[4] && t[5] == escaped(d)[5]);
            lemma_hex_digit_injective(m / 16, n / 16);
            lemma_hex_digit_injective(m % 16, n % 16);
            assert(m == n);
        }
    }
    lemma_same_rest(escaped(c), x, y);
}

/// What stands inside a string tells where it ends and what the string is.
proof fn lemma_escaped_text_ends(a: Text, b: Text, x: Text, y: Text)
    requires
        escaped_text(a) + seq!['"'] + x == escaped_text(b) + seq!['"'] + y,
    ensures
        a == b,
        x == y,
    decreases a.len(),
{
    let s = escaped_text(a) + seq!['"'] + x;
    let t = escaped_text(b) + seq!['"'] + y;
    if a.len() == 0 || b.len() == 0 {
        if a.len() > 0 {
            assert(s[0] == escaped(a[0])[0]);
            assert(t[0] == '"');
        }
        if b.len() > 0 {
            assert(t[0] == escaped(b[0])[0]);
            assert(s[0] == '"');
        }
        assert(a =~= b);
        lemma_same_rest(escaped_text(a) + seq!['"'], x, y);
    } else {
        let ra = escaped_text(a.drop_first()) + seq!['"'] + x;
        let rb = escaped_text(b.drop_first()) + seq!['"'] + y;
        assert(s =~= escaped(a[0]) + ra);
        assert(t =~= escaped(b[0]) + rb);
        lemma_escaped_ends(a[0], b[0], ra, rb);
        lemma_escaped_text_ends(a.drop_first(), b.drop_first(), x, y);
        assert(a =~= seq![a[0]] + a.drop_first());
        assert(b =~= seq![b[0]] + b.drop_first());
    }
}

/// A JSON string tells where it ends and what it stands for.
pub proof fn lemma_quoted_ends(a: Text, b: Text, x: Text, y: Text)
    requires
        quoted(a) + x == quoted(b) + y,
    ensures
        a == b,
        x == y,
{
    let ra = escaped_text(a) + seq!['"'] + x;
    let rb = escaped_text(b) + seq!['"'] + y;
    assert(quoted(a) + x =~= seq!['"'] + ra);
    assert(quoted(b) + y =~= seq!['"'] + rb);
    lemma_same_rest(seq!['"'], ra, rb);
    lemma_escaped_text_ends(a, b, x, y);
}

/// Joining, seen from the front.
pub proof fn lemma_joined_first(parts: Seq<Text>)
    requires
        parts.len() > 1,
    ensures
        joined(parts) == parts[0] + seq![','] + joined(parts.drop_first()),
    decreases parts.len(),
{
    let front = parts.drop_last();
    if parts.len() == 2 {
        assert(parts.drop_first() =~= seq![parts[1]]);
        assert(front =~= seq![parts[0]]);
        assert(joined(front) == parts[0]);
        assert(joined(parts.drop_first()) == parts[1]);
    } else {
        lemma_joined_first(front);
        assert(parts.drop_first().drop_last() =~= front.drop_first());
        assert(joined(parts) =~= parts[0] + seq![','] + joined(parts.drop_first()));
    }
}

/// What stands between the brackets of an array of strings tells where it ends
/// and which strings they are.
proof fn lemma_string_list_ends(a: Seq<Text>, b: Seq<Text>, x: Text, y: Text)
    requires
        joined(quoted_all(a)) + seq![']'] + x == joined(quoted_all(b)) + seq![']'] + y,
    ensures
        a == b,
        x == y,
    decreases a.len(),
{
    let s = joined(quoted_all(a)) + seq![']'] + x;
    let t = joined(quoted_all(b)) + seq![']'] + y;
    if a.len() == 0 || b.len() == 0 {
        if a.len() > 0 {
            lemma_list_front(a);
            assert(s[0] == '"');
            assert(t[0] == ']');
        }
        if b.len() > 0 {
            lemma_list_front(b);
            assert(t[0] == '"');
            assert(s[0] == ']');
        }
        assert(a =~= b);
        lemma_same_rest(joined(quoted_all(a)) + seq![']'], x, y);
    } else {
        lemma_list_front(a);
        lemma_list_front(b);
        let ra = list_rest(a) + seq![']'] + x;
        let rb = list_rest(b) + seq![']'] + y;
        assert(s =~= quoted(a[0]) + ra);
        assert(t =~= quoted(b[0]) + rb);
        lemma_quoted_ends(a[0], b[0], ra, rb);
        if a.len() == 1 || b.len() == 1 {
            assert(ra[0] == if a.len() == 1 { ']' } else { ',' });
            assert(rb[0] == if b.len() == 1 { ']' } else { ',' });
            assert(a =~= b);
            lemma_same_rest(seq![']'], x, y);
        } else {
            let sa = joined(quoted_all(a.drop_first())) + seq![']'] + x;
            let sb = joined(quoted_all(b.drop_first())) + seq![']'] + y;
            assert(ra =~= seq![','] + sa);
            assert(rb =~= seq![','] + sb);
            lemma_same_rest(seq![','], sa, sb);
            lemma_string_list_ends(a.drop_first(), b.drop_first(), x, y);
            assert(a =~= seq![a[0]] + a.drop_first());
            assert(b =~= seq![b[0]] + b.drop_first());
        }
    }
}

/// What follows the first string of a list.
spec fn list_rest(a: Seq<Text>) -> Text {
    if a.len() <= 1 {
        seq![]
    } else {
        seq![','] + joined(quoted_all(a.drop_first()))
    }
}

proof fn lemma_list_front(a: Seq<Text>)
    requires
        a.len() > 0,
    ensures
        joined(quoted_all(a)) == quoted(a[0]) + list_rest(a),
        joined(quoted_all(a)).len() > 0,
        joined(quoted_all(a))[0] == '"',
{
    let q = quoted_all(a);
    if a.len() > 1 {
        lemma_joined_first(q);
        assert(q.drop_first() =~= quoted_all(a.drop_first()));
        assert(joined(q) =~= quoted(a[0]) + list_rest(a));
    } else {
        assert(joined(q) =~= quoted(a[0]) + list_rest(a));
    }
}

/// An array of strings tells where it ends and which strings it holds.
pub proof fn lemma_string_array_ends(a: Seq<Text>, b: Seq<Text>, x: Text, y: Text)
    requires
        array_text(quoted_all(a)) + x == array_text(quoted_all(b)) + y,
    ensures
        a == b,
        x == y,
{
    let ra = joined(quoted_all(a)) + seq![']'] + x;
    let rb = joined(quoted_all(b)) + seq![']'] + y;
    assert(array_text(quoted_all(a)) + x =~= seq!['['] + ra);
    assert(array_text(quoted_all(b)) + y =~= seq!['['] + rb);
    lemma_same_rest(seq!['['], ra, rb);
    lemma_string_list_ends(a, b, x, y);
}

/// What follows the value of the first member of an object, up to its end.
pub open spec fn after_first_value(members: Seq<(Text, Text)>) -> Text {
    if members.len() <= 1 {
        seq!['}']
    } else {
        seq![','] + joined(member_texts(members.drop_first())) + seq!['}']
    }
}

/// Objects that agree, and whose first members have the same key, agree from
/// the first value on.
pub proof fn lemma_first_member(a: Seq<(Text, Text)>, b: Seq<(Text, Text)>)
    requires
        a.len() > 0,
        b.len() > 0,
        a[0].0 == b[0].0,
        joined(member_texts(a)) + seq!['}'] == joined(member_texts(b)) + seq!['}'],
    ensures
        a[0].1 + after_first_value(a) == b[0].1 + after_first_value(b),
{
    lemma_member_front(a);
    lemma_member_front(b);
    lemma_same_rest(
        quoted(a[0].0) + seq![':'],
        a[0].1 + after_first_value(a),
        b[0].1 + after_first_value(b),
    );
}

proof fn lemma_member_front(a: Seq<(Text, Text)>)
    requires
        a.len() > 0,
    ensures
        joined(member_texts(a)) + seq!['}'] == (quoted(a[0].0) + seq![':']) + (a[0].1
            + after_first_value(a)),
{
    let m = member_texts(a);
    if a.len() > 1 {
        lemma_joined_first(m);
        assert(m.drop_first() =~= member_texts(a.drop_first()));
    }
    assert(joined(m) + seq!['}'] =~= (quoted(a[0].0) + seq![':']) + (a[0].1 + after_first_value(
        a,
    )));
}

/// Objects whose first values have ended agree from the second member on.
pub proof fn lemma_next_member(a: Seq<(Text, Text)>, b: Seq<(Text, Text)>)
    requires
        a.len() > 1,
        b.len() > 1,
        after_first_value(a) == after_first_value(b),
    ensures
        joined(member_texts(a.drop_first())) + seq!['}'] == joined(member_texts(b.drop_first()))
            + seq!['}'],
{
    let ra = joined(member_texts(a.drop_first())) + seq!['}'];
    let rb = joined(member_texts(b.drop_first())) + seq!['}'];
    assert(after_first_value(a) =~= seq![','] + ra);
    assert(after_first_value(b) =~= seq![','] + rb);
    lemma_same_rest(seq![','], ra, rb);
}

/// A string that was written is read back.
pub proof fn law_strings_read_back(t: Text)
    ensures
        json_string(quoted(t)) == Some(t),
{
    reveal(json_string);
    let u = choose|u: Text| quoted(t) == #[trigger] quoted(u);
    lemma_quoted_ends(t, u, seq![], seq![]);
}

/// Plain values that are followed by the end of a member tell where they end.
proof fn lemma_plain_ends(a: Text, b: Text, x: Text, y: Text)
    requires
        plain_value(a),
        plain_value(b),
        a + x == b + y,
    ensures
        a == b,
        x == y,
{
    reveal_strlit("true");
    reveal_strlit("false");
    reveal_strlit("null");
    assert((a + x)[0] == (b + y)[0]);
    if is_quoted(a) && is_quoted(b) {
        let t = choose|t: Text| a == #[trigger] quoted(t);
        let u = choose|u: Text| b == #[trigger] quoted(u);
        lemma_quoted_ends(t, u, x, y);
    } else {
        assert(a[0] == (a + x)[0]);
        assert(b[0] == (b + y)[0]);
        assert(is_quoted(a) ==> a[0] == '"');
        assert(is_quoted(b) ==> b[0] == '"');
        lemma_same_rest(a, x, y);
    }
}

/// What stands between the braces of a plain object tells which members they are.
proof fn lemma_plain_members_end(a: Seq<(Text, Text)>, b: Seq<(Text, Text)>)
    requires
        plain(a),
        plain(b),
        joined(member_texts(a)) + seq!['}'] == joined(member_texts(b)) + seq!['}'],
    ensures
        a == b,
    decreases a.len(),
{
    let s = joined(member_texts(a)) + seq!['}'];
    if a.len() > 0 {
        lemma_member_front(a);
        assert(s[0] == '"');
    } else {
        assert(s[0] == '}');
    }
    if b.len() > 0 {
        lemma_member_front(b);
        assert(s[0] == '"');
    } else {
        assert(s[0] == '}');
    }
    if a.len() > 0 {
        let ra = seq![':'] + (a[0].1 + after_first_value(a));
        let rb = seq![':'] + (b[0].1 + after_first_value(b));
        assert(s =~= quoted(a[0].0) + ra);
        assert(s =~= quoted(b[0].0) + rb);
        lemma_quoted_ends(a[0].0, b[0].0, ra, rb);
        lemma_first_member(a, b);
        lemma_plain_ends(a[0].1, b[0].1, after_first_value(a), after_first_value(b));
        assert(after_first_value(a)[0] == if a.len() == 1 { '}' } else { ',' });
        assert(after_first_value(b)[0] == if b.len() == 1 { '}' } else { ',' });
        if a.len() > 1 {
            lemma_next_member(a, b);
            assert forall|i: int| 0 <= i < a.drop_first().len() implies plain_value(
                (#[trigger] a.drop_first()[i]).1,
            ) by {
                assert(a.drop_first()[i] == a[i + 1]);
            }
            assert forall|i: int| 0 <= i < b.drop_first().len() implies plain_value(
                (#[trigger] b.drop_first()[i]).1,
            ) by {
                assert(b.drop_first()[i] == b[i + 1]);
            }
            lemma_plain_members_end(a.drop_first(), b.drop_first());
            assert(a =~= seq![a[0]] + a.drop_first());
            assert(b =~= seq![b[0]] + b.drop_first());
        } else {
            assert(a =~= b);
        }
    } else {
        assert(a =~= b);
    }
}

/// A plain object that was written is read back: its members in key order, the last
/// one where a key was written more than once.
pub proof fn law_objects_read_back(members: Seq<(Text, Text)>)
    requires
        plain(members),
    ensures
        json_members(object_text(members)) == Some(keyed(members)),
{
    reveal(json_members);
    let document = object_text(members);
    let other = choose|other: Seq<(Text, Text)>| #[trigger]
        plain(other) && document == object_text(other);
    let ra = joined(member_texts(members)) + seq!['}'];
    let rb = joined(member_texts(other)) + seq!['}'];
    assert(document =~= seq!['{'] + ra);
    assert(object_text(other) =~= seq!['{'] + rb);
    lemma_same_rest(seq!['{'], ra, rb);
    lemma_plain_members_end(members, other);
}

/// How characters stand inside a string: a quotation mark and a backslash behind a
/// backslash, control characters by their letters or in hexadecimal, and all others as
/// they are.
pub proof fn law_only_what_has_to_be_is_escaped(c: char)
    ensures
        c as u32 >= 32 && c != '"' && c != '\\' ==> escaped(c) == seq![c],
        c == '"' || c == '\\' ==> escaped(c) == seq!['\\', c],
        escaped('\n') == seq!['\\', 'n'],
        escaped('\t') == seq!['\\', 't'],
        escaped('\r') == seq!['\\', 'r'],
        escaped('\u{8}') == seq!['\\', 'b'],
        escaped('\u{c}') == seq!['\\', 'f'],
        (c as u32) < 32 && c != '\n' && c != '\t' && c != '\r' && c != '\u{8}' && c != '\u{c}'
            ==> escaped(c).len() == 6 && escaped(c).take(4) == seq!['\\', 'u', '0', '0']
            && 16 * hex_place(escaped(c)[4]) + hex_place(escaped(c)[5]) == c as int,
{
    if (c as u32) < 32 {
        assert(escaped(c).len() == 6 ==> escaped(c).take(4) =~= seq!['\\', 'u', '0', '0']);
    }
}

/// What a hexadecimal numeral stands for, in lower case.
pub open spec fn hex_place(c: char) -> int {
    if '0' <= c <= '9' {
        c as int - '0' as int
    } else if 'a' <= c <= 'f' {
        c as int - 'a' as int + 10
    } else {
        -1
    }
}

/// Text in a row stands in a row inside a string.
pub proof fn law_strings_are_written_in_a_row(a: Text, b: Text)
    ensures
        escaped_text(a + b) == escaped_text(a) + escaped_text(b),
        a.len() == 1 ==> escaped_text(a) == escaped(a[0]),
        quoted(a) == seq!['"'] + escaped_text(a) + seq!['"'],
    decreases a.len(),
{
    if a.len() == 0 {
        assert(a + b =~= b);
        assert(escaped_text(a) + escaped_text(b) =~= escaped_text(b));
    } else {
        assert((a + b).drop_first() =~= a.drop_first() + b);
        law_strings_are_written_in_a_row(a.drop_first(), b);
        assert(escaped_text(a + b) =~= escaped_text(a) + escaped_text(b));
        if a.len() == 1 {
            assert(a.drop_first() =~= Seq::<char>::empty());
            assert(escaped_text(a) =~= escaped(a[0]));
        }
    }
}

/// The items of a list are written in their order, with commas between, and the members
/// of an object likewise, each with its key and its value.
pub proof fn law_lists_are_written_in_a_row(a: Seq<Text>, b: Seq<Text>)
    ensures
        a.len() > 0 && b.len() > 0 ==> joined(a + b) == joined(a) + seq![','] + joined(b),
        a.len() == 1 ==> joined(a) == a[0],
        a.len() == 0 ==> joined(a) == Seq::<char>::empty(),
        array_text(a) == seq!['['] + joined(a) + seq![']'],
    decreases b.len(),
{
    if a.len() > 0 && b.len() > 0 {
        let front = b.drop_last();
        assert((a + b).drop_last() =~= a + front);
        if front.len() == 0 {
            assert(a + front =~= a);
        } else {
            law_lists_are_written_in_a_row(a, front);
        }
        assert(joined(a + b) =~= joined(a) + seq![','] + joined(b));
    }
}

/// The members of an object are written in their order.
pub proof fn law_objects_are_written_in_a_row(members: Seq<(Text, Text)>, key: Text, value: Text)
    ensures
        object_text(seq![(key, value)]) == seq!['{'] + quoted(key) + seq![':'] + value + seq!['}'],
        members.len() > 0 ==> object_text(members.push((key, value))) == object_text(
            members,
        ).drop_last() + seq![','] + quoted(key) + seq![':'] + value + seq!['}'],
        object_text(seq![]) == seq!['{', '}'],
{
    let none = Seq::<(Text, Text)>::empty();
    assert(member_texts(none).len() == 0);
    assert(object_text(none) =~= seq!['{', '}']);
    let one = seq![(key, value)];
    assert(member_texts(one) =~= seq![member_text(key, value)]);
    assert(object_text(one) =~= seq!['{'] + quoted(key) + seq![':'] + value + seq!['}']);
    if members.len() > 0 {
        let all = members.push((key, value));
        assert(member_texts(all).drop_last() =~= member_texts(members));
        assert(member_texts(all).last() == member_text(key, value));
        assert(object_text(members).drop_last() =~= seq!['{'] + joined(member_texts(members)));
        assert(object_text(all) =~= object_text(members).drop_last() + seq![','] + quoted(key)
            + seq![':'] + value + seq!['}']);
    }
}

} // verus!
