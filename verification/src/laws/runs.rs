//! What a run leaves behind, what a user hands in, and what can be counted.

use vstd::prelude::*;

use vstd::string::*;

use crate::config::ModelConfig;
use crate::data::shard::Shard;
use crate::eval::artifacts::{
    field_kinds, is_compressor_outline, is_record, last_dot, path_in, path_lines, paths_in,
    record_stems, records_near, root_of, JsonKind,
};
use crate::eval::corpus::{sweep_fault, EvalConfig};
use crate::infer::{has_empty, padded_span, InferenceInput, SpanSweep};
use crate::laws::windows::windows_are_those_that_fit;
use crate::limits::represented;
use crate::order::sorted;

verus! {

/// The last dot is a dot, and none is behind it.
pub proof fn the_last_dot_is_last(name: Seq<char>)
    ensures
        -1 <= last_dot(name) < name.len(),
        last_dot(name) >= 0 ==> name[last_dot(name)] == '.',
        forall|i: int| last_dot(name) < i < name.len() ==> #[trigger] name[i] != '.',
    decreases name.len(),
{
    if name.len() > 0 && name.last() != '.' {
        let front = name.drop_last();
        the_last_dot_is_last(front);
        assert forall|i: int| last_dot(name) < i < name.len() implies #[trigger] name[i]
            != '.' by {
            if i < front.len() {
                assert(front[i] != '.');
            }
        }
    }
}

/// A record is named `model`, anything, a dot and the extension; the name without
/// both is what is offered.
pub proof fn records_are_models_with_the_extension(
    stem: Seq<char>,
    extension: Seq<char>,
    names: Seq<Seq<char>>,
    name: Seq<char>,
)
    requires
        stem.len() > 0,
        !extension.contains('.'),
    ensures
        is_record(stem + seq!['.'] + extension, extension) <==> "model"@.is_prefix_of(
            stem + seq!['.'] + extension,
        ),
        is_record(stem + seq!['.'] + extension, extension) ==> record_stems(
            names.push(stem + seq!['.'] + extension),
            extension,
        ) == record_stems(names, extension).push(stem),
        !is_record(name, extension) ==> record_stems(names.push(name), extension) == record_stems(
            names,
            extension,
        ),
        record_stems(Seq::<Seq<char>>::empty(), extension) == Seq::<Seq<char>>::empty(),
{
    let full = stem + seq!['.'] + extension;
    let n = stem.len() as int;
    the_last_dot_is_last(full);
    assert(full[n] == '.');
    let d = last_dot(full);
    if d > n {
        assert(extension[d - n - 1] == '.');
    }
    assert(d == n);
    assert(full.skip(n + 1) =~= extension);
    assert(full.take(n) =~= stem);
    assert(names.push(full).drop_last() =~= names);
    assert(names.push(name).drop_last() =~= names);
}

/// What is no name of a model with the extension is no record.
pub proof fn other_files_are_no_records(name: Seq<char>, extension: Seq<char>)
    requires
        is_record(name, extension),
    ensures
        "model"@.is_prefix_of(name),
        !extension.contains('.'),
        exists|stem: Seq<char>| stem.len() > 0 && name == #[trigger] (stem + seq!['.'] + extension),
{
    the_last_dot_is_last(name);
    let d = last_dot(name);
    let stem = name.take(d);
    assert(name =~= stem + seq!['.'] + extension);
    if extension.contains('.') {
        let i = choose|i: int| 0 <= i < extension.len() && extension[i] == '.';
        assert(name.skip(d + 1)[i] == '.');
        assert(name[d + 1 + i] == '.');
    }
}

/// A path has one slash between the directory and the name, and none without a
/// directory.
pub proof fn paths_have_one_slash(dir: Seq<char>, name: Seq<char>, c: char)
    ensures
        path_in(Seq::<char>::empty(), name) == name,
        path_in(dir.push('/'), name) == dir + seq!['/'] + name,
        c != '/' ==> path_in(dir.push(c), name) == dir.push(c) + seq!['/'] + name,
{
    reveal_strlit("/");
    assert("/"@ =~= seq!['/']);
    assert(path_in(Seq::<char>::empty(), name) =~= name);
    assert(path_in(dir.push('/'), name) =~= dir + seq!['/'] + name);
}

/// Every path of a list is that of its name, in its place.
pub proof fn paths_keep_their_place(dir: Seq<char>, names: Seq<Seq<char>>, i: int)
    requires
        0 <= i < names.len(),
    ensures
        paths_in(dir, names).len() == names.len(),
        paths_in(dir, names)[i] == path_in(dir, names[i]),
{
}

/// The records of the directory come first, then those of its checkpoints.
pub proof fn checkpoints_come_last(
    dir: Seq<char>,
    a: Seq<Seq<char>>,
    b: Seq<Seq<char>>,
    extension: Seq<char>,
)
    ensures
        ({
            let n = record_stems(a, extension);
            let near = records_near(dir, a, b, extension);
            let first = paths_in(dir, sorted(n));
            &&& near.len() == first.len() + sorted(record_stems(b, extension)).len()
            &&& near.take(first.len() as int) == first
            &&& near.skip(first.len() as int) == paths_in(
                path_in(dir, "checkpoint"@),
                sorted(record_stems(b, extension)),
            )
        }),
{
    let first = paths_in(dir, sorted(record_stems(a, extension)));
    let second = paths_in(path_in(dir, "checkpoint"@), sorted(record_stems(b, extension)));
    assert((first + second).take(first.len() as int) =~= first);
    assert((first + second).skip(first.len() as int) =~= second);
}

/// Each path stands on a line of its own.
pub proof fn paths_stand_on_their_lines(paths: Seq<Seq<char>>, path: Seq<char>)
    ensures
        path_lines(Seq::<Seq<char>>::empty()) == Seq::<char>::empty(),
        path_lines(paths.push(path)) == path_lines(paths) + "\n  "@ + path,
{
    assert(paths.push(path).drop_last() =~= paths);
}

/// Records are looked for in the directory that was named, or beside the file
/// that was.
pub proof fn records_are_looked_for_nearby<T>(path: T, parent: T)
    ensures
        root_of(true, path, Some(parent)) == path,
        root_of(false, path, Some(parent)) == parent,
        root_of(true, path, None) == path,
        root_of(false, path, None) == path,
{
}

/// A run is a compressor's where its configuration has an object named
/// `compress`; of fields of one name the last counts.
pub proof fn compressors_have_a_section(
    fields: Seq<(String, JsonKind)>,
    field: (String, JsonKind),
    kind: JsonKind,
)
    ensures
        !is_compressor_outline(kind, field_kinds(Seq::<(String, JsonKind)>::empty())),
        field.0@ == "compress"@ ==> (is_compressor_outline(kind, field_kinds(fields.push(field)))
            <==> kind == JsonKind::Object && field.1 == JsonKind::Object),
        field.0@ != "compress"@ ==> (is_compressor_outline(kind, field_kinds(fields.push(field)))
            <==> is_compressor_outline(kind, field_kinds(fields))),
        kind != JsonKind::Object ==> !is_compressor_outline(kind, field_kinds(fields)),
{
    assert(fields.push(field).drop_last() =~= fields);
}

/// Evaluation settings score everything exactly where there is a window, the
/// windows leave no gap, and there are batches.
pub proof fn settings_that_score_everything(c: EvalConfig)
    ensures
        c.fault() is None <==> 0 < c.stride <= c.seq_len && c.batch_size > 0,
{
}

/// A shard can be evaluated exactly where the settings score everything, the
/// vocabularies agree, the model sees a window, and there is one.
pub proof fn what_can_be_evaluated(c: EvalConfig, model: ModelConfig, shard: Shard)
    ensures
        sweep_fault(c, model, shard) is None <==> 0 < c.stride <= c.seq_len && c.batch_size > 0
            && shard.counts().vocab_size == model.vocab_size && c.seq_len <= model.max_seq_len
            && shard@.len() > c.seq_len,
{
    let s = c.stride as nat;
    assert(0 * s == 0) by (nonlinear_arith);
    if s > 0 {
        windows_are_those_that_fit(shard@.len(), c.seq_len as nat, s, 0);
    }
}

/// A span holds the text from where it starts, and the separator behind the text.
pub proof fn spans_hold_the_text(ids: Seq<u32>, from: nat, span_len: nat, eos: u32, i: int)
    requires
        0 <= i < span_len,
    ensures
        padded_span(ids, from, span_len, eos).len() == span_len,
        from + i < ids.len() ==> padded_span(ids, from, span_len, eos)[i] == ids[from + i],
        from + i >= ids.len() ==> padded_span(ids, from, span_len, eos)[i] == eos,
{
}

/// A span ends where it is full, or where the text does.
pub proof fn spans_end_with_the_text(s: SpanSweep)
    requires
        s.reconstructed@.len() <= s.ids@.len(),
    ensures
        s.next_end() <= s.ids@.len(),
        s.next_end() <= s.reconstructed@.len() + s.span_len,
        s.next_end() == s.ids@.len() || s.next_end() == s.reconstructed@.len() + s.span_len,
        s.done() <==> s.reconstructed@.len() == s.ids@.len(),
{
}

/// A request has an empty text where one of its texts has no character.
pub proof fn empty_texts_are_found(inputs: Seq<InferenceInput>, i: int)
    ensures
        0 <= i < inputs.len() && inputs[i].text@.len() == 0 ==> has_empty(inputs),
        has_empty(inputs) ==> exists|k: int|
            0 <= k < inputs.len() && (#[trigger] inputs[k]).text@.len() == 0,
{
}

/// A figure is represented where it is not above the largest one, as itself.
pub proof fn figures_are_represented_as_they_are(n: nat)
    ensures
        n <= usize::MAX ==> represented(n) is Some && represented(n)->Some_0 == n,
        n > usize::MAX ==> represented(n) is None,
{
}

/// What is wrong with the settings is told before what is wrong with the shard.
pub proof fn evaluation_settings_are_told_first(c: EvalConfig, model: ModelConfig, shard: Shard)
    ensures
        c.fault() is Some ==> sweep_fault(c, model, shard) == c.fault(),
{
}

} // verus!
