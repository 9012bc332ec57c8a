//! JSON documents as plain data: reading them from text, which is left to
//! `serde_json`, and writing string literals.

use vstd::prelude::*;
use vstd::std_specs::iter::IteratorSpec;
use vstd::string::{StrSliceExecFns, StringExecFns};

verus! {

/// A parsed JSON document. Numbers keep only their kind: no configuration
/// document of the engine reads a number.
#[derive(Debug)]
pub enum JsonValue {
    Null,
    Bool(bool),
    Number,
    String(String),
    Array(Vec<JsonValue>),
    /// The members of an object, in the order in which the parser hands
    /// them out.
    Object(Vec<(String, JsonValue)>),
}

/// The mathematical content of a [`JsonValue`].
pub enum JsonDoc {
    Null,
    Bool(bool),
    Number,
    String(Seq<char>),
    Array(Seq<JsonDoc>),
    Object(Seq<(Seq<char>, JsonDoc)>),
}

impl View for JsonValue {
    type V = JsonDoc;

    open spec fn view(&self) -> JsonDoc
        decreases self,
    {
        match self {
            JsonValue::Null => JsonDoc::Null,
            JsonValue::Bool(b) => JsonDoc::Bool(*b),
            JsonValue::Number => JsonDoc::Number,
            JsonValue::String(s) => JsonDoc::String(s@),
            JsonValue::Array(items) => JsonDoc::Array(
                Seq::new(
                    items@.len(),
                    |i: int|
                        if 0 <= i < items@.len() {
                            items@[i]@
                        } else {
                            JsonDoc::Null
                        },
                ),
            ),
            JsonValue::Object(members) => JsonDoc::Object(
                Seq::new(
                    members@.len(),
                    |i: int|
                        (
                            members@[i].0@,
                            if 0 <= i < members@.len() {
                                members@[i].1@
                            } else {
                                JsonDoc::Null
                            },
                        ),
                ),
            ),
        }
    }
}

/// The contents of a list of values.
pub open spec fn item_views(items: Seq<JsonValue>) -> Seq<JsonDoc> {
    Seq::new(items.len(), |i: int| items[i]@)
}

/// The contents of a list of members.
pub open spec fn member_views(members: Seq<(String, JsonValue)>) -> Seq<(Seq<char>, JsonDoc)> {
    Seq::new(members.len(), |i: int| (members[i].0@, members[i].1@))
}

/// The content of an array is the contents of its items.
pub proof fn lemma_array_view(items: Vec<JsonValue>)
    ensures
        JsonValue::Array(items)@ == JsonDoc::Array(item_views(items@)),
{
    assert(JsonValue::Array(items)@->Array_0 =~= item_views(items@));
}

/// The content of an object is the contents of its members.
pub proof fn lemma_object_view(members: Vec<(String, JsonValue)>)
    ensures
        JsonValue::Object(members)@ == JsonDoc::Object(member_views(members@)),
{
    let whole = JsonValue::Object(members);
    assert(whole@ is Object);
    let docs = whole@->Object_0;
    assert(docs.len() == members@.len());
    assert forall|i: int| 0 <= i < docs.len() implies docs[i] == member_views(members@)[i] by {
        assert(docs[i].0 == members@[i].0@);
        assert(docs[i].1 == members@[i].1@);
    }
    assert(docs =~= member_views(members@));
}

/// `serde_json::Error`, which is only ever tested for being there.
#[verifier::external_type_specification]
#[verifier::external_body]
pub struct ExJsonError(serde_json::Error);

/// `serde_json::Value`, which is only ever moved into a [`JsonValue`].
#[verifier::external_type_specification]
#[verifier::external_body]
pub struct ExJsonTree(serde_json::Value);

/// The document that `serde_json::from_str` reads from `text` as a
/// `serde_json::Value`, or `None` where it rejects the text. Nothing more
/// is said of it: which text is well formed, and what it holds, is
/// `serde_json`'s to decide.
pub uninterp spec fn json_document(text: Seq<char>) -> Option<JsonDoc>;

/// Moves a `serde_json::Value` into a [`JsonValue`], variant by variant:
/// strings, array items and object members are handed over as they are, in
/// the order of the value's own iterators, and a number leaves its digits
/// behind. Nothing is claimed of the result here; [`parse_text`] names it.
#[verifier::external_body]
fn from_tree(tree: serde_json::Value) -> JsonValue {
    match tree {
        serde_json::Value::Null => JsonValue::Null,
        serde_json::Value::Bool(b) => JsonValue::Bool(b),
        serde_json::Value::Number(_) => JsonValue::Number,
        serde_json::Value::String(s) => JsonValue::String(s),
        serde_json::Value::Array(items) => JsonValue::Array(
            items.into_iter().map(from_tree).collect(),
        ),
        serde_json::Value::Object(members) => JsonValue::Object(
            members.into_iter().map(|(k, v)| (k, from_tree(v))).collect(),
        ),
    }
}

/// Calls `serde_json::from_str` at type `serde_json::Value`. The contract
/// claims that the outcome depends on the text alone: its content is the
/// document named [`json_document`], and there is an error exactly where
/// that is `None`.
#[verifier::external_body]
fn parse_text(text: &str) -> (parsed: Result<JsonValue, serde_json::Error>)
    ensures
        parsed matches Ok(doc) ==> json_document(text@) == Some(doc@),
        parsed is Err ==> json_document(text@) is None,
{
    serde_json::from_str::<serde_json::Value>(text).map(from_tree)
}

/// Reads a JSON document from `text`.
pub fn parse(text: &str) -> (doc: Option<JsonValue>)
    ensures
        doc is Some == json_document(text@) is Some,
        doc matches Some(d) ==> d@ == json_document(text@)->0,
{
    match parse_text(text) {
        Ok(doc) => Some(doc),
        Err(_) => None,
    }
}

/// Whether `i` is the last position in `members` whose name is `name`.
pub open spec fn last_named(members: Seq<(Seq<char>, JsonDoc)>, name: Seq<char>, i: int) -> bool {
    &&& 0 <= i < members.len()
    &&& members[i].0 == name
    &&& forall|j: int| i < j < members.len() ==> (#[trigger] members[j]).0 != name
}

/// The value of the member called `name`. Where several members share the
/// name the last one counts, as in JSON text.
pub open spec fn member(members: Seq<(Seq<char>, JsonDoc)>, name: Seq<char>) -> Option<JsonDoc> {
    if exists|i: int| last_named(members, name, i) {
        Some(members[choose|i: int| last_named(members, name, i)].1)
    } else {
        None
    }
}

/// The text of a string document.
pub open spec fn text_of(doc: JsonDoc) -> Option<Seq<char>> {
    match doc {
        JsonDoc::String(s) => Some(s),
        _ => None,
    }
}

/// The text of the member called `name`, if there is one and it is a string.
pub open spec fn string_member(members: Seq<(Seq<char>, JsonDoc)>, name: Seq<char>) -> Option<
    Seq<char>,
> {
    match member(members, name) {
        Some(doc) => text_of(doc),
        None => None,
    }
}

/// The member that [`member`] picks is the one at the last position with
/// that name.
pub proof fn lemma_member_at(members: Seq<(Seq<char>, JsonDoc)>, name: Seq<char>, i: int)
    requires
        last_named(members, name, i),
    ensures
        member(members, name) == Some(members[i].1),
{
    let c = choose|c: int| last_named(members, name, c);
    if c < i {
        assert(members[i].0 != name);
    }
    if i < c {
        assert(members[c].0 != name);
    }
}

/// How [`member`] grows with the list: the newest member wins its name, and
/// every other name is looked up in what came before.
pub proof fn lemma_member_step(members: Seq<(Seq<char>, JsonDoc)>, n: int, name: Seq<char>)
    requires
        0 <= n < members.len(),
    ensures
        member(members.take(n + 1), name) == if members[n].0 == name {
            Some(members[n].1)
        } else {
            member(members.take(n), name)
        },
{
    let longer = members.take(n + 1);
    let shorter = members.take(n);
    if members[n].0 == name {
        assert(last_named(longer, name, n));
        lemma_member_at(longer, name, n);
    } else if exists|i: int| last_named(shorter, name, i) {
        let i = choose|i: int| last_named(shorter, name, i);
        assert forall|j: int| i < j < longer.len() implies (#[trigger] longer[j]).0 != name by {
            if j < n {
                assert(shorter[j].0 != name);
            }
        }
        assert(last_named(longer, name, i));
        lemma_member_at(longer, name, i);
        lemma_member_at(shorter, name, i);
    } else {
        assert forall|i: int| !last_named(longer, name, i) by {
            if last_named(longer, name, i) {
                assert(i < n);
                assert forall|j: int| i < j < shorter.len() implies (#[trigger] shorter[j]).0
                    != name by {
                    assert(longer[j].0 != name);
                }
                assert(last_named(shorter, name, i));
            }
        }
    }
}

/// Looks a member of an object up by name.
pub fn find_member<'a>(members: &'a Vec<(String, JsonValue)>, name: &str) -> (found: Option<
    &'a JsonValue,
>)
    ensures
        found is Some == member(member_views(members@), name@) is Some,
        found matches Some(v) ==> v@ == member(member_views(members@), name@)->0,
{
    let ghost docs = member_views(members@);
    let wanted = name.to_owned();
    let mut i: usize = members.len();
    while i > 0
        invariant
            wanted@ == name@,
            docs == member_views(members@),
            i <= members@.len(),
            forall|j: int| i <= j < docs.len() ==> (#[trigger] docs[j]).0 != name@,
        decreases i,
    {
        i -= 1;
        if members[i].0 == wanted {
            proof {
                lemma_member_at(docs, name@, i as int);
            }
            return Some(&members[i].1);
        }
    }
    assert(forall|c: int| !last_named(docs, name@, c));
    None
}

/// Looks a string member of an object up by name.
pub fn find_string<'a>(members: &'a Vec<(String, JsonValue)>, name: &str) -> (found: Option<
    &'a String,
>)
    ensures
        found is Some == string_member(member_views(members@), name@) is Some,
        found matches Some(s) ==> s@ == string_member(member_views(members@), name@)->0,
{
    match find_member(members, name) {
        Some(JsonValue::String(s)) => Some(s),
        _ => None,
    }
}

/// The lower-case hexadecimal digit of `n`.
pub open spec fn hex_digit(n: int) -> char {
    "0123456789abcdef"@[n]
}

/// How one character stands inside a JSON string literal: the quotation
/// mark, the reverse solidus and the control characters are escaped, every
/// other character stands for itself.
pub open spec fn escaped(c: char) -> Seq<char> {
    if c == '"' {
        seq!['\\', '"']
    } else if c == '\\' {
        seq!['\\', '\\']
    } else if c == '\u{8}' {
        seq!['\\', 'b']
    } else if c == '\t' {
        seq!['\\', 't']
    } else if c == '\n' {
        seq!['\\', 'n']
    } else if c == '\u{c}' {
        seq!['\\', 'f']
    } else if c == '\r' {
        seq!['\\', 'r']
    } else if (c as u32) < 0x20 {
        seq!['\\', 'u', '0', '0', hex_digit(c as int / 16), hex_digit(c as int % 16)]
    } else {
        seq![c]
    }
}

/// The characters of `text`, each escaped.
pub open spec fn escaped_text(text: Seq<char>) -> Seq<char>
    decreases text.len(),
{
    if text.len() == 0 {
        Seq::empty()
    } else {
        escaped_text(text.drop_last()) + escaped(text.last())
    }
}

/// The JSON string literal of `text`: its escaped characters between
/// quotation marks.
pub open spec fn json_string(text: Seq<char>) -> Seq<char> {
    seq!['"'] + escaped_text(text) + seq!['"']
}

/// Escaping goes character by character, so it distributes over
/// concatenation.
pub proof fn lemma_escaped_concat(a: Seq<char>, b: Seq<char>)
    ensures
        escaped_text(a + b) == escaped_text(a) + escaped_text(b),
    decreases b.len(),
{
    if b.len() == 0 {
        assert(a + b =~= a);
        assert(escaped_text(a) + escaped_text(b) =~= escaped_text(a));
    } else {
        assert((a + b).drop_last() =~= a + b.drop_last());
        assert((a + b).last() == b.last());
        lemma_escaped_concat(a, b.drop_last());
        assert(escaped_text(a + b) =~= escaped_text(a) + escaped_text(b));
    }
}

/// The escaped text of a single character is that character's escape.
pub proof fn lemma_escaped_single(c: char)
    ensures
        escaped_text(seq![c]) == escaped(c),
{
    assert(seq![c].drop_last() =~= Seq::<char>::empty());
    assert(escaped_text(seq![c].drop_last()) =~= Seq::<char>::empty());
    assert(escaped_text(seq![c]) =~= escaped(c));
}

/// Text without a character that needs an escape is written as it is.
pub proof fn lemma_escaped_plain(text: Seq<char>)
    requires
        forall|i: int| 0 <= i < text.len() ==> escaped(#[trigger] text[i]) == seq![text[i]],
    ensures
        escaped_text(text) == text,
    decreases text.len(),
{
    if text.len() > 0 {
        lemma_escaped_plain(text.drop_last());
        assert(escaped_text(text) =~= text);
    }
}

/// The digit of `n` as text.
fn hex_text(n: u32) -> (digit: &'static str)
    requires
        n < 16,
    ensures
        digit@ == seq![hex_digit(n as int)],
{
    proof {
        reveal_strlit("0123456789abcdef");
        reveal_strlit("0");
        reveal_strlit("1");
        reveal_strlit("2");
        reveal_strlit("3");
        reveal_strlit("4");
        reveal_strlit("5");
        reveal_strlit("6");
        reveal_strlit("7");
        reveal_strlit("8");
        reveal_strlit("9");
        reveal_strlit("a");
        reveal_strlit("b");
        reveal_strlit("c");
        reveal_strlit("d");
        reveal_strlit("e");
        reveal_strlit("f");
    }
    let digit = match n {
        0 => "0",
        1 => "1",
        2 => "2",
        3 => "3",
        4 => "4",
        5 => "5",
        6 => "6",
        7 => "7",
        8 => "8",
        9 => "9",
        10 => "a",
        11 => "b",
        12 => "c",
        13 => "d",
        14 => "e",
        _ => "f",
    };
    assert(digit@ =~= seq![hex_digit(n as int)]);
    digit
}

/// The escape of `c`, or `None` where `c` stands for itself.
fn escape(c: char) -> (sequence: Option<String>)
    ensures
        sequence matches Some(s) ==> s@ == escaped(c),
        sequence is None ==> escaped(c) == seq![c],
{
    let short = match c {
        '"' => Some("\\\""),
        '\\' => Some("\\\\"),
        '\u{8}' => Some("\\b"),
        '\t' => Some("\\t"),
        '\n' => Some("\\n"),
        '\u{c}' => Some("\\f"),
        '\r' => Some("\\r"),
        _ => None,
    };
    proof {
        reveal_strlit("\\\"");
        reveal_strlit("\\\\");
        reveal_strlit("\\b");
        reveal_strlit("\\t");
        reveal_strlit("\\n");
        reveal_strlit("\\f");
        reveal_strlit("\\r");
        reveal_strlit("\\u00");
    }
    match short {
        Some(s) => {
            assert(s@ =~= escaped(c));
            Some(s.to_owned())
        },
        None => {
            let code = c as u32;
            if code < 0x20 {
                let mut sequence = "\\u00".to_owned();
                sequence.append(hex_text(code / 16));
                sequence.append(hex_text(code % 16));
                assert(sequence@ =~= escaped(c));
                Some(sequence)
            } else {
                None
            }
        },
    }
}

/// Writes `text` as a JSON string literal.
pub fn quote(text: &str) -> (literal: String)
    ensures
        literal@ == json_string(text@),
{
    let length = text.unicode_len();
    let mut literal = "\"".to_owned();
    let mut rest = text.chars();
    let mut index: usize = 0;
    let mut run_start: usize = 0;
    proof {
        reveal_strlit("\"");
        assert(text@.take(0) =~= Seq::<char>::empty());
        assert(literal@ =~= seq!['"'] + escaped_text(text@.take(0)));
    }
    loop
        invariant
            length == text@.len(),
            run_start <= index <= length,
            rest.remaining() == text@.skip(index as int),
            literal@ == seq!['"'] + escaped_text(text@.take(run_start as int)),
            forall|i: int| run_start <= i < index ==> escaped(#[trigger] text@[i]) == seq![text@[i]],
        decreases length - index,
    {
        match rest.next() {
            Some(c) => {
                if let Some(sequence) = escape(c) {
                    let run = text.substring_char(run_start, index);
                    literal.append(run);
                    literal.append(sequence.as_str());
                    proof {
                        let written = text@.take(run_start as int);
                        lemma_escaped_plain(run@);
                        lemma_escaped_concat(written, run@);
                        lemma_escaped_concat(written + run@, seq![c]);
                        lemma_escaped_single(c);
                        assert(text@.take(index + 1) =~= written + run@ + seq![c]);
                        assert(literal@ =~= seq!['"'] + escaped_text(text@.take(index + 1)));
                    }
                    run_start = index + 1;
                }
                index += 1;
            },
            None => {
                let run = text.substring_char(run_start, index);
                literal.append(run);
                literal.append("\"");
                proof {
                    reveal_strlit("\"");
                    let written = text@.take(run_start as int);
                    lemma_escaped_plain(run@);
                    lemma_escaped_concat(written, run@);
                    assert(text@ =~= written + run@);
                    assert(literal@ =~= seq!['"'] + escaped_text(written) + run@ + seq!['"']);
                }
                return literal;
            },
        }
    }
}

} // verus!
