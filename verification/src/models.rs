//! The data the engine works on: profiles, schemas, the phonetic table and
//! the outcome of a keystroke.

use vstd::prelude::*;
use vstd::hash_map::StringHashMap;
use vstd::string::StrSliceExecFns;

verus! {

/// An input profile: a language and layout, bound to the schema it types
/// with. Immutable once registered.
#[derive(Debug)]
pub struct Profile {
    pub id: String,
    pub name_ja: String,
    pub name_en: String,
    pub keyboard_layout: Vec<String>,
    pub input_schema_id: String,
}

/// The mathematical content of a [`Profile`].
pub struct ProfileView {
    pub id: Seq<char>,
    pub name_ja: Seq<char>,
    pub name_en: Seq<char>,
    pub keyboard_layout: Seq<Seq<char>>,
    pub input_schema_id: Seq<char>,
}

impl View for Profile {
    type V = ProfileView;

    open spec fn view(&self) -> ProfileView {
        ProfileView {
            id: self.id@,
            name_ja: self.name_ja@,
            name_en: self.name_en@,
            keyboard_layout: texts(self.keyboard_layout@),
            input_schema_id: self.input_schema_id@,
        }
    }
}

/// The character sequences of a list of strings.
pub open spec fn texts(strings: Seq<String>) -> Seq<Seq<char>> {
    strings.map_values(|s: String| s@)
}

/// The contents of a list of profiles.
pub open spec fn profile_views(profiles: Seq<Profile>) -> Seq<ProfileView> {
    profiles.map_values(|p: Profile| p@)
}

/// A copy of a list of strings.
pub fn clone_strings(strings: &Vec<String>) -> (copy: Vec<String>)
    ensures
        texts(copy@) == texts(strings@),
{
    let mut copy: Vec<String> = Vec::new();
    let mut i: usize = 0;
    while i < strings.len()
        invariant
            i <= strings@.len(),
            copy@.len() == i,
            forall|j: int| 0 <= j < i ==> copy@[j]@ == strings@[j]@,
        decreases strings@.len() - i,
    {
        copy.push(strings[i].clone());
        i += 1;
    }
    assert(texts(copy@) =~= texts(strings@));
    copy
}

impl Clone for Profile {
    fn clone(&self) -> (copy: Self)
        ensures
            copy@ == self@,
    {
        Profile {
            id: self.id.clone(),
            name_ja: self.name_ja.clone(),
            name_en: self.name_en.clone(),
            keyboard_layout: clone_strings(&self.keyboard_layout),
            input_schema_id: self.input_schema_id.clone(),
        }
    }
}

/// A copy of a list of profiles.
pub fn clone_profiles(profiles: &Vec<Profile>) -> (copy: Vec<Profile>)
    ensures
        profile_views(copy@) == profile_views(profiles@),
{
    let mut copy: Vec<Profile> = Vec::new();
    let mut i: usize = 0;
    while i < profiles.len()
        invariant
            i <= profiles@.len(),
            copy@.len() == i,
            forall|j: int| 0 <= j < i ==> copy@[j]@ == profiles@[j]@,
        decreases profiles@.len() - i,
    {
        copy.push(profiles[i].clone());
        i += 1;
    }
    assert(profile_views(copy@) =~= profile_views(profiles@));
    copy
}

/// What a key sequence of a schema stands for: the identifier of a phonetic
/// unit.
#[derive(Debug)]
pub struct SchemaEntry {
    pub kana_key: String,
}

impl Clone for SchemaEntry {
    fn clone(&self) -> (copy: Self)
        ensures
            copy.kana_key@ == self.kana_key@,
    {
        SchemaEntry { kana_key: self.kana_key.clone() }
    }
}

/// A mapping from key sequences to phonetic unit identifiers.
///
/// Beside the mapping itself the schema keeps every prefix of every key
/// sequence, so that an exact match and the question whether a candidate
/// can still grow into a match both cost time in the length of the
/// candidate, whatever the size of the schema. Key sequences are a few
/// symbols long; the prefixes of one sequence take space quadratic in its
/// length.
pub struct Schema {
    index: StringHashMap<SchemaEntry>,
    prefixes: StringHashMap<()>,
}

impl View for Schema {
    type V = Map<Seq<char>, Seq<char>>;

    closed spec fn view(&self) -> Map<Seq<char>, Seq<char>> {
        self.index@.map_values(|e: SchemaEntry| e.kana_key@)
    }
}

/// Whether some key sequence of `schema` starts with `candidate`, so that
/// the candidate may still grow into a match. A sequence starts with
/// itself.
pub open spec fn extends_to_key(schema: Map<Seq<char>, Seq<char>>, candidate: Seq<char>) -> bool {
    exists|k: Seq<char>| schema.contains_key(k) && candidate.is_prefix_of(k)
}

impl Schema {
    /// The prefixes kept are those of the key sequences, no more and no
    /// fewer.
    #[verifier::type_invariant]
    spec fn prefixes_kept(self) -> bool {
        forall|p: Seq<char>| #[trigger] self.prefixes@.contains_key(p) <==> extends_to_key(self@, p)
    }

    /// A schema without key sequences.
    pub fn new() -> (schema: Self)
        ensures
            schema@ == Map::<Seq<char>, Seq<char>>::empty(),
    {
        let schema = Schema { index: StringHashMap::new(), prefixes: StringHashMap::new() };
        assert(schema@ =~= Map::<Seq<char>, Seq<char>>::empty());
        schema
    }

    /// Maps `sequence` to `entry`, replacing an earlier entry of the same
    /// sequence.
    pub fn insert(&mut self, sequence: String, entry: SchemaEntry)
        ensures
            final(self)@ == old(self)@.insert(sequence@, entry.kana_key@),
    {
        let mut taken = Schema::new();
        std::mem::swap(self, &mut taken);
        proof {
            use_type_invariant(&taken);
        }
        let ghost before = taken;
        let Schema { mut index, mut prefixes } = taken;
        let n: usize = sequence.as_str().unicode_len();
        let mut i: usize = 0;
        while i < n
            invariant
                i <= n,
                n == sequence@.len(),
                forall|p: Seq<char>| #[trigger]
                    prefixes@.contains_key(p) <==> before.prefixes@.contains_key(p) || exists|
                        j: int,
                    |
                        0 <= j < i && p == #[trigger] sequence@.take(j),
            decreases n - i,
        {
            let prefix = sequence.as_str().substring_char(0, i);
            prefixes.insert(prefix.to_owned(), ());
            i += 1;
        }
        prefixes.insert(sequence.clone(), ());
        index.insert(sequence, entry);
        proof {
            let grown = Schema { index, prefixes };
            assert(grown@ =~= before@.insert(sequence@, entry.kana_key@));
            assert(sequence@.take(n as int) =~= sequence@);
            assert forall|p: Seq<char>| #[trigger]
                grown.prefixes@.contains_key(p) <==> extends_to_key(grown@, p) by {
                if grown.prefixes@.contains_key(p) {
                    if before.prefixes@.contains_key(p) {
                        let k = choose|k: Seq<char>| before@.contains_key(k) && p.is_prefix_of(k);
                        assert(grown@.contains_key(k) && p.is_prefix_of(k));
                    } else {
                        assert(grown@.contains_key(sequence@) && p.is_prefix_of(sequence@));
                    }
                }
                if extends_to_key(grown@, p) {
                    let k = choose|k: Seq<char>| grown@.contains_key(k) && p.is_prefix_of(k);
                    if before@.contains_key(k) {
                        assert(extends_to_key(before@, p));
                    } else {
                        assert(k == sequence@);
                        assert(p == sequence@.take(p.len() as int));
                    }
                }
            }
        }
        *self = Schema { index, prefixes };
    }

    /// The number of key sequences in the schema.
    pub fn len(&self) -> (n: usize)
        ensures
            n == self@.len(),
    {
        assert(self@.dom() =~= self.index@.dom());
        self.index.len()
    }

    /// Whether `sequence` is a key sequence of the schema.
    pub fn contains_key(&self, sequence: &str) -> (found: bool)
        ensures
            found == self@.contains_key(sequence@),
    {
        self.index.contains_key(sequence)
    }

    /// The entry of `sequence`, if the schema has it. The match is exact:
    /// sequences are plain strings, not patterns.
    pub fn get(&self, sequence: &str) -> (entry: Option<&SchemaEntry>)
        ensures
            entry is Some == self@.contains_key(sequence@),
            entry matches Some(e) ==> e.kana_key@ == self@[sequence@],
    {
        self.index.get(sequence)
    }

    /// Whether some key sequence of the schema starts with `prefix`. A
    /// sequence counts as a prefix of itself.
    pub fn has_key_with_prefix(&self, prefix: &str) -> (found: bool)
        ensures
            found == extends_to_key(self@, prefix@),
    {
        proof {
            use_type_invariant(self);
        }
        self.prefixes.contains_key(prefix)
    }
}

/// The phonetic table: from the identifier of a phonetic unit to the text
/// it is rendered as. One table serves every profile and schema.
pub struct KanaEngine {
    table: StringHashMap<String>,
}

impl View for KanaEngine {
    type V = Map<Seq<char>, Seq<char>>;

    closed spec fn view(&self) -> Map<Seq<char>, Seq<char>> {
        self.table@.map_values(|s: String| s@)
    }
}

impl KanaEngine {
    /// A table without entries.
    pub fn new() -> (table: Self)
        ensures
            table@ == Map::<Seq<char>, Seq<char>>::empty(),
    {
        let table = KanaEngine { table: StringHashMap::new() };
        assert(table@ =~= Map::<Seq<char>, Seq<char>>::empty());
        table
    }

    /// Sets the rendering of `kana_key`, replacing an earlier one.
    pub fn insert(&mut self, kana_key: String, rendering: String)
        ensures
            final(self)@ == old(self)@.insert(kana_key@, rendering@),
    {
        self.table.insert(kana_key, rendering);
        assert(self@ =~= old(self)@.insert(kana_key@, rendering@));
    }

    /// The number of phonetic units in the table.
    pub fn len(&self) -> (n: usize)
        ensures
            n == self@.len(),
    {
        assert(self@.dom() =~= self.table@.dom());
        self.table.len()
    }

    /// The rendering of `kana_key`, if the table has it.
    pub fn get(&self, kana_key: &str) -> (rendering: Option<&String>)
        ensures
            rendering is Some == self@.contains_key(kana_key@),
            rendering matches Some(text) ==> text@ == self@[kana_key@],
    {
        self.table.get(kana_key)
    }

    /// The output for `kana_key`: its rendering, or the identifier itself
    /// where the table lacks it, so that inconsistent data still makes
    /// progress.
    pub fn render(&self, kana_key: &str) -> (output: String)
        ensures
            output@ == rendered(self@, kana_key@),
    {
        match self.table.get(kana_key) {
            Some(text) => text.clone(),
            None => kana_key.to_owned(),
        }
    }
}

/// The output that `table` gives for `kana_key`: the table's entry, or the
/// identifier itself where there is none.
pub open spec fn rendered(table: Map<Seq<char>, Seq<char>>, kana_key: Seq<char>) -> Seq<char> {
    if table.contains_key(kana_key) {
        table[kana_key]
    } else {
        kana_key
    }
}

/// The outcome of one keystroke, as handed to the caller.
#[derive(Debug)]
pub struct ConversionResult {
    /// Finished text to append to the caller's stream, or empty.
    pub output: String,
    /// The composition buffer to resubmit with the next key.
    pub buffer: String,
    /// One of "commit", "composing" and "clear".
    pub action: String,
}

/// The mathematical content of a [`ConversionResult`].
pub struct ConversionView {
    pub output: Seq<char>,
    pub buffer: Seq<char>,
    pub action: Seq<char>,
}

impl View for ConversionResult {
    type V = ConversionView;

    open spec fn view(&self) -> ConversionView {
        ConversionView { output: self.output@, buffer: self.buffer@, action: self.action@ }
    }
}

/// A finished unit: the caller appends `output` and resets its buffer.
pub open spec fn commit_of(output: Seq<char>) -> ConversionView {
    ConversionView { output, buffer: Seq::empty(), action: "commit"@ }
}

/// An unfinished sequence: the caller keeps `buffer` and shows nothing yet.
pub open spec fn composing_of(buffer: Seq<char>) -> ConversionView {
    ConversionView { output: Seq::empty(), buffer, action: "composing"@ }
}

/// A dead sequence: the caller drops its buffer, and there is no output.
pub open spec fn clear_of() -> ConversionView {
    ConversionView { output: Seq::empty(), buffer: Seq::empty(), action: "clear"@ }
}

impl ConversionResult {
    /// A finished unit with its output. The buffer starts over.
    pub fn commit(output: String) -> (result: Self)
        ensures
            result@ == commit_of(output@),
    {
        ConversionResult { output, buffer: String::new(), action: "commit".to_owned() }
    }

    /// An unfinished sequence, kept in the buffer for the next key.
    pub fn composing(buffer: String) -> (result: Self)
        ensures
            result@ == composing_of(buffer@),
    {
        ConversionResult { output: String::new(), buffer, action: "composing".to_owned() }
    }

    /// A dead sequence: no output, and the buffer starts over.
    pub fn clear() -> (result: Self)
        ensures
            result@ == clear_of(),
    {
        ConversionResult {
            output: String::new(),
            buffer: String::new(),
            action: "clear".to_owned(),
        }
    }
}

impl Clone for ConversionResult {
    fn clone(&self) -> (copy: Self)
        ensures
            copy@ == self@,
    {
        ConversionResult {
            output: self.output.clone(),
            buffer: self.buffer.clone(),
            action: self.action.clone(),
        }
    }
}

} // verus!
