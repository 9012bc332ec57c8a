//! The engine state: the profile registry, the schemas loaded so far and the
//! phonetic table, with the operations that configure and query them.
//!
//! The state is an ordinary value. A host that needs one shared engine keeps
//! it behind its own lock and hands it to every call.

use vstd::prelude::*;
use vstd::hash_map::StringHashMap;
use crate::codec::{profiles_from_json, profiles_in, schema_in, table_in};
use crate::conversion::{convert_key, lemma_actions_differ, lemma_schema_key_commits, step};
use crate::error::EngineError;
use crate::models::{
    clone_profiles, commit_of, profile_views, rendered, ConversionResult, ConversionView,
    KanaEngine, Profile, ProfileView, Schema,
};

verus! {

/// What an initialized engine holds.
struct EngineState {
    profiles: Vec<Profile>,
    schemas: StringHashMap<Schema>,
    kana_engine: KanaEngine,
}

/// The mathematical content of an initialized engine.
pub struct EngineView {
    /// The registered profiles, in registration order.
    pub profiles: Seq<ProfileView>,
    /// The loaded schemas by schema id.
    pub schemas: Map<Seq<char>, Map<Seq<char>, Seq<char>>>,
    /// The phonetic table.
    pub table: Map<Seq<char>, Seq<char>>,
}

/// The engine: uninitialized at first, then holding its registry.
pub struct IMEEngine {
    state: Option<EngineState>,
}

impl View for EngineState {
    type V = EngineView;

    closed spec fn view(&self) -> EngineView {
        EngineView {
            profiles: profile_views(self.profiles@),
            schemas: self.schemas@.map_values(|s: Schema| s@),
            table: self.kana_engine@,
        }
    }
}

impl View for IMEEngine {
    type V = Option<EngineView>;

    closed spec fn view(&self) -> Option<EngineView> {
        match self.state {
            Some(state) => Some(state@),
            None => None,
        }
    }
}

/// Whether `i` is the first position in `profiles` with the id `id`.
pub open spec fn first_with_id(profiles: Seq<ProfileView>, id: Seq<char>, i: int) -> bool {
    &&& 0 <= i < profiles.len()
    &&& profiles[i].id == id
    &&& forall|j: int| 0 <= j < i ==> (#[trigger] profiles[j]).id != id
}

/// The schema id of the profile called `id`: that of the first such profile
/// in the registry.
pub open spec fn schema_id_of(profiles: Seq<ProfileView>, id: Seq<char>) -> Option<Seq<char>> {
    if exists|i: int| first_with_id(profiles, id, i) {
        Some(profiles[choose|i: int| first_with_id(profiles, id, i)].input_schema_id)
    } else {
        None
    }
}

/// What pressing `key` yields in a given engine state: the profile is
/// resolved, then its schema, then the keystroke is decided.
pub open spec fn process(
    engine: Option<EngineView>,
    key: Seq<char>,
    buffer: Seq<char>,
    profile_id: Seq<char>,
) -> Result<ConversionView, EngineError> {
    match engine {
        None => Err(EngineError::NotInitialized),
        Some(state) => match schema_id_of(state.profiles, profile_id) {
            None => Err(EngineError::ProfileNotFound),
            Some(schema_id) => if state.schemas.contains_key(schema_id) {
                Ok(step(state.schemas[schema_id], state.table, key, buffer))
            } else {
                Err(EngineError::SchemaNotLoaded)
            },
        },
    }
}

/// The state right after initialization: the given registry and table, and
/// no schema yet.
pub open spec fn fresh(profiles: Seq<ProfileView>, table: Map<Seq<char>, Seq<char>>)
    -> EngineView {
    EngineView { profiles, schemas: Map::empty(), table }
}

/// The state after `schema` was loaded under `schema_id`: whatever stood
/// there before is gone, every other schema stays.
pub open spec fn with_schema(
    state: EngineView,
    schema_id: Seq<char>,
    schema: Map<Seq<char>, Seq<char>>,
) -> EngineView {
    EngineView { schemas: state.schemas.insert(schema_id, schema), ..state }
}

impl EngineState {
    /// The schema id of the first profile called `profile_id`.
    fn find_schema_id(&self, profile_id: &str) -> (schema_id: Option<&String>)
        ensures
            schema_id is Some == schema_id_of(self@.profiles, profile_id@) is Some,
            schema_id matches Some(id) ==> id@ == schema_id_of(self@.profiles, profile_id@)->0,
    {
        let wanted = profile_id.to_owned();
        let mut i: usize = 0;
        while i < self.profiles.len()
            invariant
                wanted@ == profile_id@,
                i <= self.profiles@.len(),
                forall|j: int| 0 <= j < i ==> (#[trigger] self@.profiles[j]).id != profile_id@,
            decreases self.profiles@.len() - i,
        {
            if self.profiles[i].id == wanted {
                proof {
                    let found = i as int;
                    assert(self@.profiles[found] == self.profiles@[found]@);
                    assert(first_with_id(self@.profiles, profile_id@, found));
                    let c = choose|c: int| first_with_id(self@.profiles, profile_id@, c);
                    if c < found {
                        assert(self@.profiles[c].id != profile_id@);
                    }
                    if found < c {
                        assert(self@.profiles[found].id != profile_id@);
                    }
                }
                return Some(&self.profiles[i].input_schema_id);
            }
            assert(self@.profiles[i as int] == self.profiles@[i as int]@);
            i += 1;
        }
        assert(forall|c: int| !first_with_id(self@.profiles, profile_id@, c));
        None
    }
}

impl IMEEngine {
    /// An engine that has not been initialized.
    pub fn new() -> (engine: Self)
        ensures
            engine@ is None,
    {
        IMEEngine { state: None }
    }

    /// Whether the engine has been initialized.
    pub fn is_initialized(&self) -> (initialized: bool)
        ensures
            initialized == self@ is Some,
    {
        self.state.is_some()
    }

    /// Returns the engine to its uninitialized state.
    pub fn reset(&mut self)
        ensures
            final(self)@ is None,
    {
        self.state = None;
    }

    /// Initializes the engine with an already parsed registry and table.
    ///
    /// A second initialization without a [`reset`](Self::reset) is refused
    /// and leaves the engine as it was.
    pub fn install(&mut self, profiles: Vec<Profile>, kana_engine: KanaEngine) -> (done: Result<
        (),
        EngineError,
    >)
        ensures
            done == init_outcome(old(self)@, Some(profile_views(profiles@)), Some(kana_engine@)),
            final(self)@ == if done is Ok {
                Some(fresh(profile_views(profiles@), kana_engine@))
            } else {
                old(self)@
            },
    {
        if self.state.is_some() {
            return Err(EngineError::AlreadyInitialized);
        }
        let state = EngineState { profiles, schemas: StringHashMap::new(), kana_engine };
        assert(state@.schemas =~= Map::empty());
        self.state = Some(state);
        Ok(())
    }

    /// Initializes the engine from the JSON text of the profile list and of
    /// the phonetic table.
    ///
    /// Both documents are read before the initialization guard is consulted,
    /// so malformed text is reported as such on an initialized engine too.
    pub fn init(&mut self, profiles_json: &str, kana_engine_json: &str) -> (done: Result<
        (),
        EngineError,
    >)
        ensures
            done == init_outcome(
                old(self)@,
                profiles_in(profiles_json@),
                table_in(kana_engine_json@),
            ),
            final(self)@ == if done is Ok {
                Some(fresh(profiles_in(profiles_json@)->0, table_in(kana_engine_json@)->0))
            } else {
                old(self)@
            },
    {
        let profiles = match profiles_from_json(profiles_json) {
            Ok(profiles) => profiles,
            Err(_) => {
                return Err(EngineError::ConfigurationError);
            },
        };
        let kana_engine = match KanaEngine::from_json(kana_engine_json) {
            Ok(kana_engine) => kana_engine,
            Err(_) => {
                return Err(EngineError::ConfigurationError);
            },
        };
        self.install(profiles, kana_engine)
    }

    /// Loads an already parsed schema under `schema_id`, replacing whatever
    /// was loaded under that id before. Nothing is merged.
    pub fn install_schema(&mut self, schema: Schema, schema_id: &str) -> (done: Result<
        (),
        EngineError,
    >)
        ensures
            done == load_outcome(old(self)@, Some(schema@)),
            final(self)@ == match old(self)@ {
                Some(state) => Some(with_schema(state, schema_id@, schema@)),
                None => None,
            },
    {
        match &mut self.state {
            Some(state) => {
                let ghost before = state.schemas@;
                state.schemas.insert(schema_id.to_owned(), schema);
                assert(state.schemas@.map_values(|s: Schema| s@) =~= before.map_values(
                    |s: Schema| s@,
                ).insert(schema_id@, schema@));
                Ok(())
            },
            None => Err(EngineError::NotInitialized),
        }
    }

    /// Loads a schema from JSON text under `schema_id`.
    ///
    /// The text is read first: malformed text is a configuration error
    /// whether or not the engine is initialized. Loading into an
    /// uninitialized engine is refused.
    pub fn load_schema(&mut self, schema_json: &str, schema_id: &str) -> (done: Result<
        (),
        EngineError,
    >)
        ensures
            done == load_outcome(old(self)@, schema_in(schema_json@)),
            final(self)@ == if done is Ok {
                Some(with_schema(old(self)@->0, schema_id@, schema_in(schema_json@)->0))
            } else {
                old(self)@
            },
    {
        match Schema::from_json(schema_json) {
            Ok(schema) => self.install_schema(schema, schema_id),
            Err(_) => Err(EngineError::ConfigurationError),
        }
    }

    /// A copy of the profile list, in registration order.
    pub fn get_profiles(&self) -> (profiles: Result<Vec<Profile>, EngineError>)
        ensures
            profiles is Ok == self@ is Some,
            profiles matches Ok(list) ==> profile_views(list@) == self@->0.profiles,
            profiles matches Err(e) ==> e == EngineError::NotInitialized,
    {
        match &self.state {
            Some(state) => Ok(clone_profiles(&state.profiles)),
            None => Err(EngineError::NotInitialized),
        }
    }

    /// Processes one key press for the profile `profile_id`, with `buffer`
    /// holding the keys typed so far that have not resolved yet.
    pub fn process_key(&self, key: &str, buffer: &str, profile_id: &str) -> (outcome: Result<
        ConversionResult,
        EngineError,
    >)
        ensures
            outcome matches Ok(result) ==> process(self@, key@, buffer@, profile_id@) == Ok::<
                ConversionView,
                EngineError,
            >(result@),
            outcome matches Err(e) ==> process(self@, key@, buffer@, profile_id@) == Err::<
                ConversionView,
                EngineError,
            >(e),
    {
        let state = match &self.state {
            Some(state) => state,
            None => {
                return Err(EngineError::NotInitialized);
            },
        };
        let schema_id = match state.find_schema_id(profile_id) {
            Some(schema_id) => schema_id,
            None => {
                return Err(EngineError::ProfileNotFound);
            },
        };
        let schema = match state.schemas.get(schema_id.as_str()) {
            Some(schema) => schema,
            None => {
                return Err(EngineError::SchemaNotLoaded);
            },
        };
        Ok(convert_key(schema, &state.kana_engine, key, buffer))
    }
}

/// How an initialization ends: unreadable documents are a configuration
/// error, a second initialization is refused, anything else succeeds.
pub open spec fn init_outcome(
    engine: Option<EngineView>,
    profiles: Option<Seq<ProfileView>>,
    table: Option<Map<Seq<char>, Seq<char>>>,
) -> Result<(), EngineError> {
    if profiles is None || table is None {
        Err(EngineError::ConfigurationError)
    } else if engine is Some {
        Err(EngineError::AlreadyInitialized)
    } else {
        Ok(())
    }
}

/// How a schema load ends: an unreadable document is a configuration error,
/// an uninitialized engine refuses the load, anything else succeeds.
pub open spec fn load_outcome(
    engine: Option<EngineView>,
    schema: Option<Map<Seq<char>, Seq<char>>>,
) -> Result<(), EngineError> {
    if schema is None {
        Err(EngineError::ConfigurationError)
    } else if engine is None {
        Err(EngineError::NotInitialized)
    } else {
        Ok(())
    }
}

/// Pressing a key sequence of the profile's schema on an empty buffer
/// commits its conversion. The engine is only read, so the same call yields
/// the same outcome every time.
pub proof fn lemma_idempotent_commit(
    state: EngineView,
    profile_id: Seq<char>,
    schema_id: Seq<char>,
    sequence: Seq<char>,
)
    requires
        schema_id_of(state.profiles, profile_id) == Some(schema_id),
        state.schemas.contains_key(schema_id),
        state.schemas[schema_id].contains_key(sequence),
    ensures
        process(Some(state), sequence, Seq::empty(), profile_id) == Ok::<
            ConversionView,
            EngineError,
        >(commit_of(rendered(state.table, state.schemas[schema_id][sequence]))),
{
    lemma_schema_key_commits(state.schemas[schema_id], state.table, sequence);
}

/// Loading a schema under an id that is taken replaces the old schema
/// whole: the state is the one that loading the new schema alone gives, and
/// a key sequence that only the old schema had no longer commits.
pub proof fn lemma_reload_replaces(
    state: EngineView,
    profile_id: Seq<char>,
    schema_id: Seq<char>,
    first: Map<Seq<char>, Seq<char>>,
    second: Map<Seq<char>, Seq<char>>,
    sequence: Seq<char>,
)
    requires
        schema_id_of(state.profiles, profile_id) == Some(schema_id),
        first.contains_key(sequence),
        !second.contains_key(sequence),
    ensures
        with_schema(with_schema(state, schema_id, first), schema_id, second) == with_schema(
            state,
            schema_id,
            second,
        ),
        process(Some(with_schema(state, schema_id, first)), sequence, Seq::empty(), profile_id)
            == Ok::<ConversionView, EngineError>(commit_of(rendered(state.table, first[sequence]))),
        process(
            Some(with_schema(with_schema(state, schema_id, first), schema_id, second)),
            sequence,
            Seq::empty(),
            profile_id,
        ) matches Ok(outcome) && outcome.action != "commit"@ && outcome.output == Seq::<
            char,
        >::empty(),
{
    lemma_actions_differ();
    assert(state.schemas.insert(schema_id, first).insert(schema_id, second)
        =~= state.schemas.insert(schema_id, second));
    assert(Seq::<char>::empty() + sequence =~= sequence);
}

/// Two profiles whose schemas map their own key sequences to the same
/// phonetic key commit the same output for them.
pub proof fn lemma_profiles_share_phonemes(
    state: EngineView,
    profile_a: Seq<char>,
    schema_a: Seq<char>,
    sequence_a: Seq<char>,
    profile_b: Seq<char>,
    schema_b: Seq<char>,
    sequence_b: Seq<char>,
)
    requires
        schema_id_of(state.profiles, profile_a) == Some(schema_a),
        schema_id_of(state.profiles, profile_b) == Some(schema_b),
        state.schemas.contains_key(schema_a),
        state.schemas.contains_key(schema_b),
        state.schemas[schema_a].contains_key(sequence_a),
        state.schemas[schema_b].contains_key(sequence_b),
        state.schemas[schema_a][sequence_a] == state.schemas[schema_b][sequence_b],
    ensures
        process(Some(state), sequence_a, Seq::empty(), profile_a) matches Ok(a) && process(
            Some(state),
            sequence_b,
            Seq::empty(),
            profile_b,
        ) matches Ok(b) && a.action == "commit"@ && b == a,
{
    lemma_schema_key_commits(state.schemas[schema_a], state.table, sequence_a);
    lemma_schema_key_commits(state.schemas[schema_b], state.table, sequence_b);
}

} // verus!
