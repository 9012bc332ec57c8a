//! The JSON forms of the engine's data: how documents are read into
//! profiles, schemas, the phonetic table and conversion results.

use vstd::prelude::*;
use vstd::string::StringExecFns;
use crate::error::EngineError;
use crate::json::{
    find_member, find_string, item_views, json_document, json_string, lemma_array_view,
    lemma_member_step, lemma_object_view, member, member_views, parse, quote, string_member,
    text_of, JsonDoc, JsonValue,
};
use crate::models::{
    profile_views, texts, ConversionResult, ConversionView, KanaEngine, Profile, ProfileView,
    Schema, SchemaEntry,
};

verus! {

/// The texts of an array of strings. Anything else is no string list.
pub open spec fn string_list_of(doc: JsonDoc) -> Option<Seq<Seq<char>>> {
    match doc {
        JsonDoc::Array(items) => if forall|i: int|
            0 <= i < items.len() ==> text_of(#[trigger] items[i]) is Some {
            Some(Seq::new(items.len(), |i: int| text_of(items[i])->0))
        } else {
            None
        },
        _ => None,
    }
}

/// The profile that an object describes: every field present and of the
/// right type. Members with other names are ignored.
pub open spec fn profile_of(doc: JsonDoc) -> Option<ProfileView> {
    match doc {
        JsonDoc::Object(members) => {
            let id = string_member(members, "id"@);
            let name_ja = string_member(members, "name_ja"@);
            let name_en = string_member(members, "name_en"@);
            let layout = match member(members, "keyboardLayout"@) {
                Some(list) => string_list_of(list),
                None => None,
            };
            let schema_id = string_member(members, "inputSchemaId"@);
            if id is Some && name_ja is Some && name_en is Some && layout is Some
                && schema_id is Some {
                Some(
                    ProfileView {
                        id: id->0,
                        name_ja: name_ja->0,
                        name_en: name_en->0,
                        keyboard_layout: layout->0,
                        input_schema_id: schema_id->0,
                    },
                )
            } else {
                None
            }
        },
        _ => None,
    }
}

/// The profiles of an array of profile objects, in order.
pub open spec fn profiles_of(doc: JsonDoc) -> Option<Seq<ProfileView>> {
    match doc {
        JsonDoc::Array(items) => if forall|i: int|
            0 <= i < items.len() ==> profile_of(#[trigger] items[i]) is Some {
            Some(Seq::new(items.len(), |i: int| profile_of(items[i])->0))
        } else {
            None
        },
        _ => None,
    }
}

/// The phonetic key of a schema entry: an object with a string member
/// `kana_key`.
pub open spec fn entry_of(doc: JsonDoc) -> Option<Seq<char>> {
    match doc {
        JsonDoc::Object(members) => string_member(members, "kana_key"@),
        _ => None,
    }
}

/// The mapping that the members of an object spell out, each value read by
/// `value_of`. One unreadable value spoils the whole mapping.
pub open spec fn mapping_of(
    members: Seq<(Seq<char>, JsonDoc)>,
    value_of: spec_fn(JsonDoc) -> Option<Seq<char>>,
) -> Option<Map<Seq<char>, Seq<char>>> {
    if forall|i: int| 0 <= i < members.len() ==> value_of((#[trigger] members[i]).1) is Some {
        Some(
            Map::new(
                |name: Seq<char>| member(members, name) is Some,
                |name: Seq<char>| value_of(member(members, name)->0)->0,
            ),
        )
    } else {
        None
    }
}

/// The phonetic table of a flat object of strings.
pub open spec fn table_of(doc: JsonDoc) -> Option<Map<Seq<char>, Seq<char>>> {
    match doc {
        JsonDoc::Object(members) => mapping_of(members, |d: JsonDoc| text_of(d)),
        _ => None,
    }
}

/// The schema of an object of schema entries.
pub open spec fn schema_of(doc: JsonDoc) -> Option<Map<Seq<char>, Seq<char>>> {
    match doc {
        JsonDoc::Object(members) => mapping_of(members, |d: JsonDoc| entry_of(d)),
        _ => None,
    }
}

/// The conversion result that an object describes.
pub open spec fn conversion_of(doc: JsonDoc) -> Option<ConversionView> {
    match doc {
        JsonDoc::Object(members) => {
            let output = string_member(members, "output"@);
            let buffer = string_member(members, "buffer"@);
            let action = string_member(members, "action"@);
            if output is Some && buffer is Some && action is Some {
                Some(ConversionView { output: output->0, buffer: buffer->0, action: action->0 })
            } else {
                None
            }
        },
        _ => None,
    }
}

/// The profile that JSON text describes.
pub open spec fn profile_in(text: Seq<char>) -> Option<ProfileView> {
    match json_document(text) {
        Some(doc) => profile_of(doc),
        None => None,
    }
}

/// The profile list that JSON text describes.
pub open spec fn profiles_in(text: Seq<char>) -> Option<Seq<ProfileView>> {
    match json_document(text) {
        Some(doc) => profiles_of(doc),
        None => None,
    }
}

/// The phonetic key of the schema entry that JSON text describes.
pub open spec fn entry_in(text: Seq<char>) -> Option<Seq<char>> {
    match json_document(text) {
        Some(doc) => entry_of(doc),
        None => None,
    }
}

/// The phonetic table that JSON text describes.
pub open spec fn table_in(text: Seq<char>) -> Option<Map<Seq<char>, Seq<char>>> {
    match json_document(text) {
        Some(doc) => table_of(doc),
        None => None,
    }
}

/// The schema that JSON text describes.
pub open spec fn schema_in(text: Seq<char>) -> Option<Map<Seq<char>, Seq<char>>> {
    match json_document(text) {
        Some(doc) => schema_of(doc),
        None => None,
    }
}

/// The conversion result that JSON text describes.
pub open spec fn conversion_in(text: Seq<char>) -> Option<ConversionView> {
    match json_document(text) {
        Some(doc) => conversion_of(doc),
        None => None,
    }
}

/// Reads an array of strings.
pub fn decode_strings(doc: &JsonValue) -> (list: Option<Vec<String>>)
    ensures
        list is Some == string_list_of(doc@) is Some,
        list matches Some(v) ==> texts(v@) == string_list_of(doc@)->0,
{
    match doc {
        JsonValue::Array(items) => {
            let ghost docs = item_views(items@);
            proof {
                lemma_array_view(*items);
            }
            let mut list: Vec<String> = Vec::new();
            let mut i: usize = 0;
            while i < items.len()
                invariant
                    doc@ == JsonDoc::Array(docs),
                    docs == item_views(items@),
                    i <= items@.len(),
                    list@.len() == i,
                    forall|j: int| 0 <= j < i ==> text_of(#[trigger] docs[j]) == Some(list@[j]@),
                decreases items@.len() - i,
            {
                match &items[i] {
                    JsonValue::String(s) => {
                        list.push(s.clone());
                    },
                    _ => {
                        assert(text_of(docs[i as int]) is None);
                        return None;
                    },
                }
                i += 1;
            }
            assert(texts(list@) =~= string_list_of(doc@)->0);
            Some(list)
        },
        _ => None,
    }
}

impl Profile {
    /// Reads a profile from its document.
    pub fn from_document(doc: &JsonValue) -> (profile: Option<Profile>)
        ensures
            profile is Some == profile_of(doc@) is Some,
            profile matches Some(p) ==> p@ == profile_of(doc@)->0,
    {
        match doc {
            JsonValue::Object(members) => {
                proof {
                    lemma_object_view(*members);
                }
                let id = find_string(members, "id");
                let name_ja = find_string(members, "name_ja");
                let name_en = find_string(members, "name_en");
                let layout = match find_member(members, "keyboardLayout") {
                    Some(list) => decode_strings(list),
                    None => None,
                };
                let schema_id = find_string(members, "inputSchemaId");
                match (id, name_ja, name_en, layout, schema_id) {
                    (Some(id), Some(name_ja), Some(name_en), Some(layout), Some(schema_id)) => {
                        Some(
                            Profile {
                                id: id.clone(),
                                name_ja: name_ja.clone(),
                                name_en: name_en.clone(),
                                keyboard_layout: layout,
                                input_schema_id: schema_id.clone(),
                            },
                        )
                    },
                    _ => None,
                }
            },
            _ => None,
        }
    }

    /// Reads a profile from JSON text.
    pub fn from_json(text: &str) -> (profile: Result<Profile, EngineError>)
        ensures
            profile is Ok == profile_in(text@) is Some,
            profile matches Ok(p) ==> p@ == profile_in(text@)->0,
            profile matches Err(e) ==> e == EngineError::ConfigurationError,
    {
        match parse(text) {
            Some(doc) => match Profile::from_document(&doc) {
                Some(profile) => Ok(profile),
                None => Err(EngineError::ConfigurationError),
            },
            None => Err(EngineError::ConfigurationError),
        }
    }
}

/// Reads the profile list from its document.
pub fn decode_profiles(doc: &JsonValue) -> (profiles: Option<Vec<Profile>>)
    ensures
        profiles is Some == profiles_of(doc@) is Some,
        profiles matches Some(v) ==> profile_views(v@) == profiles_of(doc@)->0,
{
    match doc {
        JsonValue::Array(items) => {
            let ghost docs = item_views(items@);
            proof {
                lemma_array_view(*items);
            }
            let mut profiles: Vec<Profile> = Vec::new();
            let mut i: usize = 0;
            while i < items.len()
                invariant
                    doc@ == JsonDoc::Array(docs),
                    docs == item_views(items@),
                    i <= items@.len(),
                    profiles@.len() == i,
                    forall|j: int|
                        0 <= j < i ==> profile_of(#[trigger] docs[j]) == Some(profiles@[j]@),
                decreases items@.len() - i,
            {
                match Profile::from_document(&items[i]) {
                    Some(p) => {
                        profiles.push(p);
                    },
                    None => {
                        assert(profile_of(docs[i as int]) is None);
                        return None;
                    },
                }
                i += 1;
            }
            assert(profile_views(profiles@) =~= profiles_of(doc@)->0);
            Some(profiles)
        },
        _ => None,
    }
}

/// Reads the profile list from JSON text.
pub fn profiles_from_json(text: &str) -> (profiles: Result<Vec<Profile>, EngineError>)
    ensures
        profiles is Ok == profiles_in(text@) is Some,
        profiles matches Ok(v) ==> profile_views(v@) == profiles_in(text@)->0,
        profiles matches Err(e) ==> e == EngineError::ConfigurationError,
{
    match parse(text) {
        Some(doc) => match decode_profiles(&doc) {
            Some(profiles) => Ok(profiles),
            None => Err(EngineError::ConfigurationError),
        },
        None => Err(EngineError::ConfigurationError),
    }
}

impl SchemaEntry {
    /// Reads a schema entry from its document.
    pub fn from_document(doc: &JsonValue) -> (entry: Option<SchemaEntry>)
        ensures
            entry is Some == entry_of(doc@) is Some,
            entry matches Some(e) ==> e.kana_key@ == entry_of(doc@)->0,
    {
        match doc {
            JsonValue::Object(members) => {
                proof {
                    lemma_object_view(*members);
                }
                match find_string(members, "kana_key") {
                    Some(kana_key) => Some(SchemaEntry { kana_key: kana_key.clone() }),
                    None => None,
                }
            },
            _ => None,
        }
    }

    /// Reads a schema entry from JSON text.
    pub fn from_json(text: &str) -> (entry: Result<SchemaEntry, EngineError>)
        ensures
            entry is Ok == entry_in(text@) is Some,
            entry matches Ok(e) ==> e.kana_key@ == entry_in(text@)->0,
            entry matches Err(e) ==> e == EngineError::ConfigurationError,
    {
        match parse(text) {
            Some(doc) => match SchemaEntry::from_document(&doc) {
                Some(entry) => Ok(entry),
                None => Err(EngineError::ConfigurationError),
            },
            None => Err(EngineError::ConfigurationError),
        }
    }
}

impl Schema {
    /// Reads a schema from its document.
    pub fn from_document(doc: &JsonValue) -> (schema: Option<Schema>)
        ensures
            schema is Some == schema_of(doc@) is Some,
            schema matches Some(s) ==> s@ == schema_of(doc@)->0,
    {
        match doc {
            JsonValue::Object(members) => {
                let ghost docs = member_views(members@);
                proof {
                    lemma_object_view(*members);
                }
                let mut schema = Schema::new();
                let mut i: usize = 0;
                while i < members.len()
                    invariant
                        doc@ == JsonDoc::Object(docs),
                        docs == member_views(members@),
                        i <= members@.len(),
                        forall|j: int| 0 <= j < i ==> entry_of((#[trigger] docs[j]).1) is Some,
                        schema@ =~= Map::new(
                            |name: Seq<char>| member(docs.take(i as int), name) is Some,
                            |name: Seq<char>| entry_of(member(docs.take(i as int), name)->0)->0,
                        ),
                    decreases members@.len() - i,
                {
                    match SchemaEntry::from_document(&members[i].1) {
                        Some(entry) => {
                            let ghost before = schema@;
                            let ghost kana_key = entry.kana_key@;
                            schema.insert(members[i].0.clone(), entry);
                            proof {
                                let grown = Map::new(
                                    |name: Seq<char>| member(docs.take(i + 1), name) is Some,
                                    |name: Seq<char>|
                                        entry_of(member(docs.take(i + 1), name)->0)->0,
                                );
                                assert(schema@ == before.insert(docs[i as int].0, kana_key));
                                assert forall|name: Seq<char>| #[trigger]
                                    grown.contains_key(name) == schema@.contains_key(name) by {
                                    lemma_member_step(docs, i as int, name);
                                }
                                assert forall|name: Seq<char>|
                                    grown.contains_key(name) implies #[trigger] grown[name]
                                    == schema@[name] by {
                                    lemma_member_step(docs, i as int, name);
                                }
                                assert(schema@ =~= grown);
                            }
                        },
                        None => {
                            assert(entry_of(docs[i as int].1) is None);
                            return None;
                        },
                    }
                    i += 1;
                }
                assert(docs.take(i as int) =~= docs);
                Some(schema)
            },
            _ => None,
        }
    }

    /// Reads a schema from JSON text.
    pub fn from_json(text: &str) -> (schema: Result<Schema, EngineError>)
        ensures
            schema is Ok == schema_in(text@) is Some,
            schema matches Ok(s) ==> s@ == schema_in(text@)->0,
            schema matches Err(e) ==> e == EngineError::ConfigurationError,
    {
        match parse(text) {
            Some(doc) => match Schema::from_document(&doc) {
                Some(schema) => Ok(schema),
                None => Err(EngineError::ConfigurationError),
            },
            None => Err(EngineError::ConfigurationError),
        }
    }
}

impl KanaEngine {
    /// Reads the phonetic table from its document.
    pub fn from_document(doc: &JsonValue) -> (table: Option<KanaEngine>)
        ensures
            table is Some == table_of(doc@) is Some,
            table matches Some(t) ==> t@ == table_of(doc@)->0,
    {
        match doc {
            JsonValue::Object(members) => {
                let ghost docs = member_views(members@);
                proof {
                    lemma_object_view(*members);
                }
                let mut table = KanaEngine::new();
                let mut i: usize = 0;
                while i < members.len()
                    invariant
                        doc@ == JsonDoc::Object(docs),
                        docs == member_views(members@),
                        i <= members@.len(),
                        forall|j: int| 0 <= j < i ==> text_of((#[trigger] docs[j]).1) is Some,
                        table@ =~= Map::new(
                            |name: Seq<char>| member(docs.take(i as int), name) is Some,
                            |name: Seq<char>| text_of(member(docs.take(i as int), name)->0)->0,
                        ),
                    decreases members@.len() - i,
                {
                    match &members[i].1 {
                        JsonValue::String(rendering) => {
                            let ghost before = table@;
                            table.insert(members[i].0.clone(), rendering.clone());
                            proof {
                                let grown = Map::new(
                                    |name: Seq<char>| member(docs.take(i + 1), name) is Some,
                                    |name: Seq<char>|
                                        text_of(member(docs.take(i + 1), name)->0)->0,
                                );
                                assert(table@ == before.insert(docs[i as int].0, rendering@));
                                assert forall|name: Seq<char>| #[trigger]
                                    grown.contains_key(name) == table@.contains_key(name) by {
                                    lemma_member_step(docs, i as int, name);
                                }
                                assert forall|name: Seq<char>|
                                    grown.contains_key(name) implies #[trigger] grown[name]
                                    == table@[name] by {
                                    lemma_member_step(docs, i as int, name);
                                }
                                assert(table@ =~= grown);
                            }
                        },
                        _ => {
                            assert(text_of(docs[i as int].1) is None);
                            return None;
                        },
                    }
                    i += 1;
                }
                assert(docs.take(i as int) =~= docs);
                Some(table)
            },
            _ => None,
        }
    }

    /// Reads the phonetic table from JSON text.
    pub fn from_json(text: &str) -> (table: Result<KanaEngine, EngineError>)
        ensures
            table is Ok == table_in(text@) is Some,
            table matches Ok(t) ==> t@ == table_in(text@)->0,
            table matches Err(e) ==> e == EngineError::ConfigurationError,
    {
        match parse(text) {
            Some(doc) => match KanaEngine::from_document(&doc) {
                Some(table) => Ok(table),
                None => Err(EngineError::ConfigurationError),
            },
            None => Err(EngineError::ConfigurationError),
        }
    }
}

impl ConversionResult {
    /// Reads a conversion result from its document.
    pub fn from_document(doc: &JsonValue) -> (result: Option<ConversionResult>)
        ensures
            result is Some == conversion_of(doc@) is Some,
            result matches Some(r) ==> r@ == conversion_of(doc@)->0,
    {
        match doc {
            JsonValue::Object(members) => {
                proof {
                    lemma_object_view(*members);
                }
                let output = find_string(members, "output");
                let buffer = find_string(members, "buffer");
                let action = find_string(members, "action");
                match (output, buffer, action) {
                    (Some(output), Some(buffer), Some(action)) => Some(
                        ConversionResult {
                            output: output.clone(),
                            buffer: buffer.clone(),
                            action: action.clone(),
                        },
                    ),
                    _ => None,
                }
            },
            _ => None,
        }
    }

    /// Reads a conversion result from JSON text.
    pub fn from_json(text: &str) -> (result: Result<ConversionResult, EngineError>)
        ensures
            result is Ok == conversion_in(text@) is Some,
            result matches Ok(r) ==> r@ == conversion_in(text@)->0,
            result matches Err(e) ==> e == EngineError::ConfigurationError,
    {
        match parse(text) {
            Some(doc) => match ConversionResult::from_document(&doc) {
                Some(result) => Ok(result),
                None => Err(EngineError::ConfigurationError),
            },
            None => Err(EngineError::ConfigurationError),
        }
    }
}

/// The JSON text of a conversion result: an object with the members
/// `output`, `buffer` and `action`, in that order and without white space.
pub open spec fn conversion_json(result: ConversionView) -> Seq<char> {
    "{\"output\":"@ + json_string(result.output) + ",\"buffer\":"@ + json_string(result.buffer)
        + ",\"action\":"@ + json_string(result.action) + "}"@
}

/// The literals of `items`, separated by commas.
pub open spec fn string_list_json(items: Seq<Seq<char>>) -> Seq<char>
    decreases items.len(),
{
    if items.len() == 0 {
        Seq::empty()
    } else if items.len() == 1 {
        json_string(items.last())
    } else {
        string_list_json(items.drop_last()) + ","@ + json_string(items.last())
    }
}

/// The JSON text of a profile: an object with the members `id`, `name_ja`,
/// `name_en`, `keyboardLayout` and `inputSchemaId`, in that order and
/// without white space.
pub open spec fn profile_json(profile: ProfileView) -> Seq<char> {
    "{\"id\":"@ + json_string(profile.id) + ",\"name_ja\":"@ + json_string(profile.name_ja)
        + ",\"name_en\":"@ + json_string(profile.name_en) + ",\"keyboardLayout\":["@
        + string_list_json(profile.keyboard_layout) + "],\"inputSchemaId\":"@ + json_string(
        profile.input_schema_id,
    ) + "}"@
}

/// Writes a list of strings as comma-separated JSON literals.
pub fn encode_strings(items: &Vec<String>) -> (text: String)
    ensures
        text@ == string_list_json(texts(items@)),
{
    let mut text = String::new();
    let mut i: usize = 0;
    while i < items.len()
        invariant
            i <= items@.len(),
            text@ == string_list_json(texts(items@).take(i as int)),
        decreases items@.len() - i,
    {
        proof {
            let all = texts(items@);
            assert(all.take(i + 1).drop_last() =~= all.take(i as int));
            assert(all.take(i + 1).last() == items@[i as int]@);
        }
        if i > 0 {
            text.append(",");
        }
        text.append(quote(items[i].as_str()).as_str());
        i += 1;
    }
    assert(texts(items@).take(i as int) =~= texts(items@));
    text
}

impl ConversionResult {
    /// Writes the result as JSON text.
    pub fn to_json(&self) -> (text: String)
        ensures
            text@ == conversion_json(self@),
    {
        let mut text = "{\"output\":".to_owned();
        text.append(quote(self.output.as_str()).as_str());
        text.append(",\"buffer\":");
        text.append(quote(self.buffer.as_str()).as_str());
        text.append(",\"action\":");
        text.append(quote(self.action.as_str()).as_str());
        text.append("}");
        text
    }
}

impl Profile {
    /// Writes the profile as JSON text.
    pub fn to_json(&self) -> (text: String)
        ensures
            text@ == profile_json(self@),
    {
        let mut text = "{\"id\":".to_owned();
        text.append(quote(self.id.as_str()).as_str());
        text.append(",\"name_ja\":");
        text.append(quote(self.name_ja.as_str()).as_str());
        text.append(",\"name_en\":");
        text.append(quote(self.name_en.as_str()).as_str());
        text.append(",\"keyboardLayout\":[");
        text.append(encode_strings(&self.keyboard_layout).as_str());
        text.append("],\"inputSchemaId\":");
        text.append(quote(self.input_schema_id.as_str()).as_str());
        text.append("}");
        text
    }
}

} // verus!
