//! The key-processing state machine.
//!
//! One keystroke is decided from the schema, the phonetic table, the pressed
//! key and the buffer that the caller carried over. Nothing else is read and
//! nothing is remembered.

use vstd::prelude::*;
use vstd::string::StringExecFns;
use crate::models::{
    clear_of, commit_of, composing_of, extends_to_key, rendered, ConversionResult,
    ConversionView, KanaEngine, Schema,
};

verus! {

/// The outcome of pressing `key` with `buffer` pending.
///
/// The candidate is the buffer followed by the key. An exact match commits
/// its conversion. Failing that, a candidate that some key sequence starts
/// with goes on composing. Failing that, the key alone is tried, and a match
/// commits it while the stale buffer is dropped. Otherwise the sequence is
/// dead and everything is cleared.
pub open spec fn step(
    schema: Map<Seq<char>, Seq<char>>,
    table: Map<Seq<char>, Seq<char>>,
    key: Seq<char>,
    buffer: Seq<char>,
) -> ConversionView {
    let candidate = buffer + key;
    if schema.contains_key(candidate) {
        commit_of(rendered(table, schema[candidate]))
    } else if extends_to_key(schema, candidate) {
        composing_of(candidate)
    } else if schema.contains_key(key) {
        commit_of(rendered(table, schema[key]))
    } else {
        clear_of()
    }
}

/// Decides one keystroke against a schema and the phonetic table.
pub fn convert_key(schema: &Schema, table: &KanaEngine, key: &str, buffer: &str) -> (result:
    ConversionResult)
    ensures
        result@ == step(schema@, table@, key@, buffer@),
{
    let mut candidate = buffer.to_owned();
    candidate.append(key);
    if let Some(entry) = schema.get(candidate.as_str()) {
        return ConversionResult::commit(table.render(entry.kana_key.as_str()));
    }
    if schema.has_key_with_prefix(candidate.as_str()) {
        return ConversionResult::composing(candidate);
    }
    match schema.get(key) {
        Some(entry) => ConversionResult::commit(table.render(entry.kana_key.as_str())),
        None => ConversionResult::clear(),
    }
}

/// The three actions are three different words.
pub proof fn lemma_actions_differ()
    ensures
        "commit"@ != "composing"@,
        "commit"@ != "clear"@,
        "composing"@ != "clear"@,
{
    reveal_strlit("commit");
    reveal_strlit("composing");
    reveal_strlit("clear");
    assert("commit"@.len() == 6);
    assert("composing"@.len() == 9);
    assert("clear"@.len() == 5);
}

/// A key sequence of the schema, pressed on an empty buffer, always commits
/// its conversion: the rendering of its phonetic key.
pub proof fn lemma_schema_key_commits(
    schema: Map<Seq<char>, Seq<char>>,
    table: Map<Seq<char>, Seq<char>>,
    sequence: Seq<char>,
)
    requires
        schema.contains_key(sequence),
    ensures
        step(schema, table, sequence, Seq::empty()) == commit_of(
            rendered(table, schema[sequence]),
        ),
{
    assert(Seq::<char>::empty() + sequence =~= sequence);
}

/// While a keystroke leaves the caller composing, every key sequence that
/// starts with the pending buffer is still within reach: the buffer is
/// strictly shorter than the sequence, and pressing the sequence's next
/// symbol either commits or goes on composing towards it.
pub proof fn lemma_composing_can_continue(
    schema: Map<Seq<char>, Seq<char>>,
    table: Map<Seq<char>, Seq<char>>,
    key: Seq<char>,
    buffer: Seq<char>,
    target: Seq<char>,
)
    requires
        step(schema, table, key, buffer).action == "composing"@,
        schema.contains_key(target),
        step(schema, table, key, buffer).buffer.is_prefix_of(target),
    ensures
        ({
            let pending = step(schema, table, key, buffer).buffer;
            let next = target.subrange(pending.len() as int, pending.len() as int + 1);
            let after = step(schema, table, next, pending);
            &&& pending == buffer + key
            &&& pending.len() < target.len()
            &&& (pending + next).is_prefix_of(target)
            &&& after.action == "commit"@ || after == composing_of(pending + next)
        }),
{
    lemma_actions_differ();
    let pending = buffer + key;
    assert(step(schema, table, key, buffer) == composing_of(pending));
    assert(pending.len() < target.len()) by {
        if pending.len() == target.len() {
            assert(pending =~= target);
        }
    }
    let next = target.subrange(pending.len() as int, pending.len() as int + 1);
    assert((pending + next) =~= target.subrange(0, pending.len() as int + 1));
    assert((pending + next).is_prefix_of(target));
}

/// A keystroke that clears has reached a dead end: no key sequence of the
/// schema starts with the buffer followed by the key, and the key alone is
/// no key sequence either.
pub proof fn lemma_clear_is_dead_end(
    schema: Map<Seq<char>, Seq<char>>,
    table: Map<Seq<char>, Seq<char>>,
    key: Seq<char>,
    buffer: Seq<char>,
)
    requires
        step(schema, table, key, buffer).action == "clear"@,
    ensures
        step(schema, table, key, buffer) == clear_of(),
        forall|sequence: Seq<char>|
            schema.contains_key(sequence) ==> !(buffer + key).is_prefix_of(sequence),
        !schema.contains_key(key),
{
    lemma_actions_differ();
}

/// Where the buffer followed by the key neither matches nor starts any key
/// sequence, a key that is a key sequence by itself commits its own
/// conversion, and the stale buffer is dropped: the returned buffer is
/// empty.
pub proof fn lemma_fallback_discards_buffer(
    schema: Map<Seq<char>, Seq<char>>,
    table: Map<Seq<char>, Seq<char>>,
    key: Seq<char>,
    buffer: Seq<char>,
)
    requires
        buffer.len() > 0,
        !schema.contains_key(buffer + key),
        !extends_to_key(schema, buffer + key),
        schema.contains_key(key),
    ensures
        step(schema, table, key, buffer) == commit_of(rendered(table, schema[key])),
        step(schema, table, key, buffer).buffer == Seq::<char>::empty(),
        step(schema, table, key, buffer).buffer != buffer,
{
    assert(Seq::<char>::empty().len() != buffer.len());
}

/// Where neither the buffer followed by the key nor the key alone leads
/// anywhere, the outcome is a clear, with no output and an empty buffer.
pub proof fn lemma_dead_end_clears(
    schema: Map<Seq<char>, Seq<char>>,
    table: Map<Seq<char>, Seq<char>>,
    key: Seq<char>,
    buffer: Seq<char>,
)
    requires
        !schema.contains_key(buffer + key),
        !extends_to_key(schema, buffer + key),
        !schema.contains_key(key),
    ensures
        step(schema, table, key, buffer) == clear_of(),
        step(schema, table, key, buffer).output == Seq::<char>::empty(),
        step(schema, table, key, buffer).buffer == Seq::<char>::empty(),
{
}

/// Two schemas that map key sequences to the same phonetic key commit the
/// same output for them, however the sequences are spelled and however
/// they are split between buffer and key.
pub proof fn lemma_same_phoneme_same_output(
    schema_a: Map<Seq<char>, Seq<char>>,
    schema_b: Map<Seq<char>, Seq<char>>,
    table: Map<Seq<char>, Seq<char>>,
    key_a: Seq<char>,
    buffer_a: Seq<char>,
    key_b: Seq<char>,
    buffer_b: Seq<char>,
)
    requires
        schema_a.contains_key(buffer_a + key_a),
        schema_b.contains_key(buffer_b + key_b),
        schema_a[buffer_a + key_a] == schema_b[buffer_b + key_b],
    ensures
        step(schema_a, table, key_a, buffer_a).action == "commit"@,
        step(schema_b, table, key_b, buffer_b).action == "commit"@,
        step(schema_a, table, key_a, buffer_a).output == step(
            schema_b,
            table,
            key_b,
            buffer_b,
        ).output,
{
}

} // verus!
