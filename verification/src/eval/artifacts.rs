//! The artifacts of a run: which kind of run a configuration describes, which
//! records can be loaded, and the report of an evaluation.

use vstd::prelude::*;

use vstd::string::*;

use crate::chars::{chars_of, matches_at, starts_with};
use crate::compress::config::CompressConfig;
use crate::order::{ascending, sorted, sorted_texts};
use crate::text::{append_decimal, decimal, texts};

verus! {

/// What a JSON value is.
#[derive(Debug, Clone, Copy, PartialEq, Eq, Structural)]
pub enum JsonKind {
    Null,
    Bool,
    Number,
    Text,
    Array,
    Object,
}

/// A JSON document as far as its top level: what it is and, for an object, its
/// fields.
#[derive(Debug, Clone, PartialEq, Eq)]
pub struct JsonOutline {
    pub kind: JsonKind,
    pub fields: Vec<(String, JsonKind)>,
}

/// The fields of an outline by name.
pub open spec fn field_kinds(fields: Seq<(String, JsonKind)>) -> Map<Seq<char>, JsonKind>
    decreases fields.len(),
{
    if fields.len() == 0 {
        Map::empty()
    } else {
        field_kinds(fields.drop_last()).insert(fields.last().0@, fields.last().1)
    }
}

/// What the top level of a JSON text is, and the kinds of its fields by name;
/// `None` when the text is not JSON.
pub uninterp spec fn json_outline(text: Seq<char>) -> Option<(JsonKind, Map<Seq<char>, JsonKind>)>;

/// `serde_json::from_str` into a `serde_json::Value`, as far as the top level of
/// the value: its kind and, for an object, the kind of each field. What comes
/// out depends on the text alone.
#[verifier::external_body]
fn outline_of(text: &str) -> (r: Option<JsonOutline>)
    ensures
        r is None <==> json_outline(text@) is None,
        r is Some ==> json_outline(text@) == Some((r->Some_0.kind, field_kinds(r->Some_0.fields@))),
{
    let kind = |v: &serde_json::Value| match v {
        serde_json::Value::Null => JsonKind::Null,
        serde_json::Value::Bool(_) => JsonKind::Bool,
        serde_json::Value::Number(_) => JsonKind::Number,
        serde_json::Value::String(_) => JsonKind::Text,
        serde_json::Value::Array(_) => JsonKind::Array,
        serde_json::Value::Object(_) => JsonKind::Object,
    };
    let value = serde_json::from_str::<serde_json::Value>(text).ok()?;
    let fields = value.as_object().into_iter().flatten();
    let fields = fields.map(|(name, field)| (name.clone(), kind(field))).collect();
    Some(JsonOutline { kind: kind(&value), fields })
}

/// Whether an outline is that of a compressor's configuration: an object whose
/// field `compress` is an object.
pub open spec fn is_compressor_outline(
    kind: JsonKind,
    fields: Map<Seq<char>, JsonKind>,
) -> bool {
    kind == JsonKind::Object && fields.dom().contains("compress"@) && fields["compress"@]
        == JsonKind::Object
}

/// Whether an outline is that of a compressor's configuration. Of several
/// fields of one name the last one counts.
pub fn describes_compressor(outline: &JsonOutline) -> (r: bool)
    ensures
        r == is_compressor_outline(outline.kind, field_kinds(outline.fields@)),
{
    if outline.kind != JsonKind::Object {
        return false;
    }
    let key = "compress".to_owned();
    let mut found: bool = false;
    let mut i: usize = 0;
    while i < outline.fields.len()
        invariant
            i <= outline.fields@.len(),
            key@ == "compress"@,
            ({
                let m = field_kinds(outline.fields@.take(i as int));
                found == (m.dom().contains("compress"@) && m["compress"@] == JsonKind::Object)
            }),
        decreases outline.fields@.len() - i,
    {
        proof {
            assert(outline.fields@.take(i + 1).drop_last() =~= outline.fields@.take(i as int));
        }
        if outline.fields[i].0 == key {
            found = outline.fields[i].1 == JsonKind::Object;
        }
        i = i + 1;
    }
    assert(outline.fields@.take(i as int) =~= outline.fields@);
    found
}

/// Whether a configuration is that of a compressor rather than of a language
/// model, by its text. A file that could not be read, or is not JSON, is not.
///
/// Decided by the presence of the `compress` key rather than by trying both
/// readers, whose error would name a field that is there, one level down.
pub fn is_compress_config(text: Option<&str>) -> (r: bool)
    ensures
        r == match text {
            Some(t) => match json_outline(t@) {
                Some((kind, fields)) => is_compressor_outline(kind, fields),
                None => false,
            },
            None => false,
        },
{
    match text {
        Some(t) => match outline_of(t) {
            Some(outline) => describes_compressor(&outline),
            None => false,
        },
        None => false,
    }
}

/// The position of the last dot, or -1.
pub open spec fn last_dot(name: Seq<char>) -> int
    decreases name.len(),
{
    if name.len() == 0 {
        -1
    } else if name.last() == '.' {
        name.len() - 1
    } else {
        last_dot(name.drop_last())
    }
}

/// Whether a file name is that of a loadable record: it starts with `model`, and
/// what follows its last dot is the recorder's extension.
pub open spec fn is_record(name: Seq<char>, extension: Seq<char>) -> bool {
    &&& last_dot(name) > 0
    &&& name.skip(last_dot(name) + 1) == extension
    &&& "model"@.is_prefix_of(name)
}

/// The records among the names, without their extension, in order.
pub open spec fn record_stems(names: Seq<Seq<char>>, extension: Seq<char>) -> Seq<Seq<char>>
    decreases names.len(),
{
    if names.len() == 0 {
        Seq::empty()
    } else {
        let rest = record_stems(names.drop_last(), extension);
        let name = names.last();
        if is_record(name, extension) {
            rest.push(name.take(last_dot(name)))
        } else {
            rest
        }
    }
}

proof fn last_dot_is(name: Seq<char>, i: int)
    requires
        -1 <= i < name.len(),
        i >= 0 ==> name[i] == '.',
        forall|j: int| i < j < name.len() ==> #[trigger] name[j] != '.',
    ensures
        last_dot(name) == i,
    decreases name.len(),
{
    if name.len() > 0 && i < name.len() - 1 {
        assert(name[name.len() - 1] != '.');
        last_dot_is(name.drop_last(), i);
    }
}

/// The name without its extension, when it is that of a loadable record.
fn record_stem(name: &str, extension: &str) -> (r: Option<String>)
    ensures
        r is Some <==> is_record(name@, extension@),
        r is Some ==> r->Some_0@ == name@.take(last_dot(name@)),
{
    let v = chars_of(name);
    let e = chars_of(extension);
    let mut i: usize = v.len();
    while i > 0 && v[i - 1] != '.'
        invariant
            i <= v@.len(),
            v@ == name@,
            forall|j: int| i <= j < v@.len() ==> #[trigger] v@[j] != '.',
        decreases i,
    {
        i = i - 1;
    }
    proof {
        last_dot_is(name@, i - 1);
    }
    if i < 2 {
        return None;
    }
    proof {
        let tail = v@.skip(i as int);
        assert(v@.subrange(i as int, i + tail.len()) =~= tail);
    }
    if e.len() != v.len() - i || !matches_at(&v, &e, i) {
        return None;
    }
    if !starts_with(&v, "model") {
        return None;
    }
    let mut stem = String::new();
    let mut k: usize = 0;
    while k < i - 1
        invariant
            2 <= i <= v@.len(),
            k <= i - 1,
            stem@ =~= v@.take(k as int),
        decreases i - 1 - k,
    {
        stem.push(v[k]);
        k = k + 1;
    }
    Some(stem)
}

/// The loadable records among the names of the files in a directory, named the
/// way they are asked for: without the extension, in ascending order. Optimizer
/// and scheduler state lie next to the weights and are not among them.
pub fn records_in(names: &Vec<String>, extension: &str) -> (r: Vec<String>)
    ensures
        texts(r@) == sorted(record_stems(texts(names@), extension@)),
        ascending(texts(r@)),
        texts(r@).to_multiset() == record_stems(texts(names@), extension@).to_multiset(),
{
    let mut found: Vec<String> = Vec::new();
    let mut i: usize = 0;
    assert(texts(names@).take(0) =~= Seq::<Seq<char>>::empty());
    assert(texts(found@) =~= Seq::<Seq<char>>::empty());
    while i < names.len()
        invariant
            i <= names@.len(),
            texts(found@) == record_stems(texts(names@).take(i as int), extension@),
        decreases names@.len() - i,
    {
        proof {
            let all = texts(names@);
            assert(all.take(i + 1).drop_last() =~= all.take(i as int));
            assert(all[i as int] == names@[i as int]@);
        }
        let ghost before = texts(found@);
        if let Some(stem) = record_stem(names[i].as_str(), extension) {
            let ghost s = stem@;
            found.push(stem);
            assert(texts(found@) =~= before.push(s));
        }
        i = i + 1;
    }
    assert(texts(names@).take(i as int) =~= texts(names@));
    sorted_texts(found)
}

/// Where records are looked for: in the directory that was named, or in the one
/// that holds what was named.
pub open spec fn root_of<T>(is_dir: bool, model_path: T, parent: Option<T>) -> T {
    match parent {
        Some(p) => if is_dir {
            model_path
        } else {
            p
        },
        None => model_path,
    }
}

/// Where records are looked for. `parent` is the parent of the path, if it has
/// one.
pub fn search_root<T>(is_dir: bool, model_path: T, parent: Option<T>) -> (r: T)
    ensures
        r == root_of(is_dir, model_path, parent),
{
    match parent {
        Some(p) => if is_dir {
            model_path
        } else {
            p
        },
        None => model_path,
    }
}

/// The path of a file in a directory.
pub open spec fn path_in(dir: Seq<char>, name: Seq<char>) -> Seq<char> {
    if dir.len() == 0 || dir.last() == '/' {
        dir + name
    } else {
        dir + "/"@ + name
    }
}

/// The paths of files in a directory.
pub open spec fn paths_in(dir: Seq<char>, names: Seq<Seq<char>>) -> Seq<Seq<char>> {
    names.map_values(|name: Seq<char>| path_in(dir, name))
}

/// The path of a file in a directory.
pub fn join_path(dir: &str, name: &str) -> (r: String)
    ensures
        r@ == path_in(dir@, name@),
{
    let v = chars_of(dir);
    let mut s = dir.to_owned();
    if v.len() > 0 && v[v.len() - 1] != '/' {
        s.append("/");
    }
    s.append(name);
    s
}

/// The records of a directory and of the checkpoints below it: those that lie in
/// `dir` first, then those in its `checkpoint` directory, each group in
/// ascending order and without the extension.
pub open spec fn records_near(
    dir: Seq<char>,
    in_dir: Seq<Seq<char>>,
    in_checkpoint: Seq<Seq<char>>,
    extension: Seq<char>,
) -> Seq<Seq<char>> {
    paths_in(dir, sorted(record_stems(in_dir, extension))) + paths_in(
        path_in(dir, "checkpoint"@),
        sorted(record_stems(in_checkpoint, extension)),
    )
}

fn append_paths(out: &mut Vec<String>, dir: &str, names: &Vec<String>)
    ensures
        texts(final(out)@) == texts(old(out)@) + paths_in(dir@, texts(names@)),
{
    let ghost all = paths_in(dir@, texts(names@));
    let ghost start = texts(out@);
    let mut i: usize = 0;
    assert(texts(out@) =~= start + all.take(0));
    while i < names.len()
        invariant
            i <= names@.len(),
            all == paths_in(dir@, texts(names@)),
            texts(out@) == start + all.take(i as int),
        decreases names@.len() - i,
    {
        let path = join_path(dir, names[i].as_str());
        let ghost t = path@;
        let ghost before = texts(out@);
        out.push(path);
        proof {
            assert(texts(names@)[i as int] == names@[i as int]@);
            assert(all[i as int] == t);
            assert(texts(out@) =~= before.push(t));
            assert(all.take(i + 1) =~= all.take(i as int).push(t));
            assert(texts(out@) =~= start + all.take(i + 1));
        }
        i = i + 1;
    }
    assert(all.take(i as int) =~= all);
}

/// The records of `dir` and of its `checkpoint` directory, given the names of the
/// files in each.
pub fn nearby_records(
    dir: &str,
    in_dir: &Vec<String>,
    in_checkpoint: &Vec<String>,
    extension: &str,
) -> (r: Vec<String>)
    ensures
        texts(r@) == records_near(dir@, texts(in_dir@), texts(in_checkpoint@), extension@),
{
    let mut found: Vec<String> = Vec::new();
    append_paths(&mut found, dir, &records_in(in_dir, extension));
    let checkpoint = join_path(dir, "checkpoint");
    append_paths(&mut found, checkpoint.as_str(), &records_in(in_checkpoint, extension));
    assert(texts(found@) =~= records_near(
        dir@,
        texts(in_dir@),
        texts(in_checkpoint@),
        extension@,
    ));
    found
}

/// The paths, each on a line of its own.
pub open spec fn path_lines(paths: Seq<Seq<char>>) -> Seq<char>
    decreases paths.len(),
{
    if paths.len() == 0 {
        Seq::empty()
    } else {
        path_lines(paths.drop_last()) + "\n  "@ + paths.last()
    }
}

/// What is said of a record that is not there.
pub open spec fn missing_record(
    is_dir: bool,
    model_path: Seq<char>,
    record: Seq<char>,
    extension: Seq<char>,
    found: Seq<Seq<char>>,
) -> Seq<char> {
    (if is_dir {
        model_path + " is a directory; `--model` wants the record itself, as a path without the ."@
            + extension + " extension (the recorder sets it)"@
    } else {
        "no model record at "@ + record + " (`--model` is a path *without* the ."@ + extension
            + " extension, which the recorder sets)"@
    }) + if found.len() == 0 {
        Seq::empty()
    } else {
        "\n\nrecords that do exist (pass one of these to --model):"@ + path_lines(found)
    }
}

/// What to say when the record that was asked for is not there: the file that
/// was looked for, and the records that do exist nearby. `parent` is the parent
/// of `model_path`, if it has one; `in_dir` and `in_checkpoint` are the names of
/// the files in [`search_root`] and in the `checkpoint` directory below it.
pub fn missing_record_message(
    is_dir: bool,
    model_path: &str,
    parent: Option<&str>,
    record: &str,
    extension: &str,
    in_dir: &Vec<String>,
    in_checkpoint: &Vec<String>,
) -> (r: String)
    ensures
        r@ == missing_record(
            is_dir,
            model_path@,
            record@,
            extension@,
            records_near(
                root_of(is_dir, model_path, parent)@,
                texts(in_dir@),
                texts(in_checkpoint@),
                extension@,
            ),
        ),
{
    let dir = search_root(is_dir, model_path, parent);
    let found = nearby_records(dir, in_dir, in_checkpoint, extension);
    let mut s = String::new();
    if is_dir {
        s.append(model_path);
        s.append(" is a directory; `--model` wants the record itself, as a path without the .");
        s.append(extension);
        s.append(" extension (the recorder sets it)");
    } else {
        s.append("no model record at ");
        s.append(record);
        s.append(" (`--model` is a path *without* the .");
        s.append(extension);
        s.append(" extension, which the recorder sets)");
    }
    if found.len() > 0 {
        s.append("\n\nrecords that do exist (pass one of these to --model):");
        let ghost before = s@;
        let mut i: usize = 0;
        assert(s@ =~= before + path_lines(texts(found@).take(0)));
        while i < found.len()
            invariant
                i <= found@.len(),
                s@ == before + path_lines(texts(found@).take(i as int)),
            decreases found@.len() - i,
        {
            s.append("\n  ");
            s.append(found[i].as_str());
            proof {
                let all = texts(found@);
                assert(all.take(i + 1).drop_last() =~= all.take(i as int));
                assert(all[i as int] == found@[i as int]@);
                assert(s@ =~= before + path_lines(all.take(i + 1)));
            }
            i = i + 1;
        }
        assert(texts(found@).take(i as int) =~= texts(found@));
    }
    assert(s@ =~= missing_record(is_dir, model_path@, record@, extension@, texts(found@)));
    s
}

/// Whether a loaded language model has the parameters that its configuration
/// describes. A recorder installs a record's shapes without complaint, so a
/// configuration that does not belong to the weights shows only here.
pub fn check_model_params(
    model_path: &str,
    config_path: &str,
    loaded: usize,
    expected: usize,
) -> (r: Result<(), String>)
    ensures
        r is Ok <==> loaded == expected,
        r is Err ==> r->Err_0@ == "the record at "@ + model_path@ + " holds "@ + decimal(
            loaded as nat,
        ) + " parameters but "@ + config_path@ + " describes a "@ + decimal(expected as nat)
            + "-parameter model: the config does not belong to these weights. burn's recorder installs the record's shapes without complaint, so this would otherwise be a wrong number rather than an error"@,
{
    if loaded == expected {
        return Ok(());
    }
    let mut s = "the record at ".to_owned();
    s.append(model_path);
    s.append(" holds ");
    append_decimal(&mut s, loaded);
    s.append(" parameters but ");
    s.append(config_path);
    s.append(" describes a ");
    append_decimal(&mut s, expected);
    s.append(
        "-parameter model: the config does not belong to these weights. burn's recorder installs the record's shapes without complaint, so this would otherwise be a wrong number rather than an error",
    );
    Err(s)
}

/// Whether a loaded compressor has the parameters that its configuration
/// describes.
pub fn check_compressor_params(model_path: &str, loaded: usize, expected: usize) -> (r: Result<
    (),
    String,
>)
    ensures
        r is Ok <==> loaded == expected,
        r is Err ==> r->Err_0@ == "the record at "@ + model_path@ + " holds "@ + decimal(
            loaded as nat,
        ) + " parameters but the config describes a "@ + decimal(expected as nat)
            + "-parameter compressor: the config does not belong to these weights"@,
{
    if loaded == expected {
        return Ok(());
    }
    let mut s = "the record at ".to_owned();
    s.append(model_path);
    s.append(" holds ");
    append_decimal(&mut s, loaded);
    s.append(" parameters but the config describes a ");
    append_decimal(&mut s, expected);
    s.append("-parameter compressor: the config does not belong to these weights");
    Err(s)
}

/// A section of a report: a title, and a text under it.
#[derive(Debug, Clone, PartialEq, Eq)]
pub struct Section {
    pub subject: String,
    pub body: String,
}

/// The report on a language model: its size, then the parts that were asked
/// for.
pub open spec fn model_summary(
    model_path: Seq<char>,
    params: nat,
    compute_equivalent: nat,
    corpus: Option<Section>,
    blimp: Option<Seq<char>>,
    generation: Option<Seq<char>>,
) -> Seq<char> {
    "model "@ + model_path + " ("@ + decimal(params) + " parameters, "@ + decimal(
        compute_equivalent,
    ) + " compute-equivalent)\n\n"@ + match corpus {
        Some(c) => "== corpus: "@ + c.subject@ + " ==\n"@ + c.body@ + "\n\n"@,
        None => Seq::empty(),
    } + match blimp {
        Some(b) => "== BLiMP ==\n"@ + b + "\n"@,
        None => Seq::empty(),
    } + match generation {
        Some(g) => "== generation ==\n"@ + g,
        None => Seq::empty(),
    }
}

/// Renders the report on a language model: its size, then the parts that were
/// asked for.
pub fn model_report(
    model_path: &str,
    params: usize,
    compute_equivalent: usize,
    corpus: &Option<Section>,
    blimp: Option<&str>,
    generation: Option<&str>,
) -> (r: String)
    ensures
        r@ == model_summary(
            model_path@,
            params as nat,
            compute_equivalent as nat,
            *corpus,
            match blimp {
                Some(b) => Some(b@),
                None => None,
            },
            match generation {
                Some(g) => Some(g@),
                None => None,
            },
        ),
{
    let mut s = "model ".to_owned();
    s.append(model_path);
    s.append(" (");
    append_decimal(&mut s, params);
    s.append(" parameters, ");
    append_decimal(&mut s, compute_equivalent);
    s.append(" compute-equivalent)\n\n");
    let ghost head = s@;
    if let Some(c) = corpus {
        s.append("== corpus: ");
        s.append(c.subject.as_str());
        s.append(" ==\n");
        s.append(c.body.as_str());
        s.append("\n\n");
    }
    let ghost with_corpus = s@;
    if let Some(b) = blimp {
        s.append("== BLiMP ==\n");
        s.append(b);
        s.append("\n");
    }
    let ghost with_blimp = s@;
    if let Some(g) = generation {
        s.append("== generation ==\n");
        s.append(g);
    }
    proof {
        let c = match corpus {
            Some(c) => "== corpus: "@ + c.subject@ + " ==\n"@ + c.body@ + "\n\n"@,
            None => Seq::empty(),
        };
        let b = match blimp {
            Some(b) => "== BLiMP ==\n"@ + b@ + "\n"@,
            None => Seq::empty(),
        };
        let g = match generation {
            Some(g) => "== generation ==\n"@ + g@,
            None => Seq::empty(),
        };
        assert(with_corpus =~= head + c);
        assert(with_blimp =~= with_corpus + b);
        assert(s@ =~= with_blimp + g);
    }
    s
}

/// The report on a compressor: its size and budget, then what was measured, or
/// why nothing was.
pub open spec fn compressor_summary(
    model_path: Seq<char>,
    params: nat,
    span_len: nat,
    n_slots: nat,
    table: Seq<char>,
    blimp_asked: bool,
    reconstruction: Option<Section>,
    round_trips: Option<Seq<char>>,
) -> Seq<char> {
    "compressor "@ + model_path + " ("@ + decimal(params) + " parameters, "@ + decimal(span_len)
        + " tokens -> "@ + decimal(n_slots) + " slots)\n\n"@ + table + "\n"@ + (if blimp_asked {
        "\n== BLiMP ==\nskipped: BLiMP is a language-model evaluation and this run is a compressor, which has no next-token distribution to score a minimal pair with\n"@
    } else {
        Seq::empty()
    }) + match reconstruction {
        Some(r) => "\n== reconstruction: "@ + r.subject@ + " ==\n"@ + r.body@ + "\n"@,
        None =>
            "\nno --ppl shard given, so nothing was reconstructed; pass the test shard to measure this compressor\n"@,
    } + match round_trips {
        Some(t) => "\n== round trips ==\n"@ + t,
        None => Seq::empty(),
    }
}

/// Whether a compressor can be asked for samples: it has no prompts of its own,
/// so it needs a shard.
pub fn check_round_trips(generate: bool, has_shard: bool) -> (r: Result<(), String>)
    ensures
        r is Ok <==> !generate || has_shard,
        r is Err ==> r->Err_0@
            == "--generate needs text to round-trip, and a compressor has no prompt set of its own: pass --ppl <shard> as well"@,
{
    if generate && !has_shard {
        return Err(
            "--generate needs text to round-trip, and a compressor has no prompt set of its own: pass --ppl <shard> as well".to_owned(),
        );
    }
    Ok(())
}

/// Renders the report on a compressor.
pub fn compressor_report(
    model_path: &str,
    params: usize,
    config: &CompressConfig,
    table: &str,
    blimp_asked: bool,
    reconstruction: &Option<Section>,
    round_trips: Option<&str>,
) -> (r: String)
    ensures
        r@ == compressor_summary(
            model_path@,
            params as nat,
            config.span_len as nat,
            config.n_slots as nat,
            table@,
            blimp_asked,
            *reconstruction,
            match round_trips {
                Some(t) => Some(t@),
                None => None,
            },
        ),
{
    let mut s = "compressor ".to_owned();
    s.append(model_path);
    s.append(" (");
    append_decimal(&mut s, params);
    s.append(" parameters, ");
    append_decimal(&mut s, config.span_len);
    s.append(" tokens -> ");
    append_decimal(&mut s, config.n_slots);
    s.append(" slots)\n\n");
    s.append(table);
    s.append("\n");
    let ghost head = s@;
    let ghost skipped = "\n== BLiMP ==\nskipped: BLiMP is a language-model evaluation and this run is a compressor, which has no next-token distribution to score a minimal pair with\n"@;
    if blimp_asked {
        s.append(
            "\n== BLiMP ==\nskipped: BLiMP is a language-model evaluation and this run is a compressor, which has no next-token distribution to score a minimal pair with\n",
        );
    }
    let ghost with_blimp = s@;
    match reconstruction {
        Some(r) => {
            s.append("\n== reconstruction: ");
            s.append(r.subject.as_str());
            s.append(" ==\n");
            s.append(r.body.as_str());
            s.append("\n");
        },
        None => {
            s.append(
                "\nno --ppl shard given, so nothing was reconstructed; pass the test shard to measure this compressor\n",
            );
        },
    }
    let ghost with_reconstruction = s@;
    if let Some(t) = round_trips {
        s.append("\n== round trips ==\n");
        s.append(t);
    }
    proof {
        let b = if blimp_asked {
            skipped
        } else {
            Seq::empty()
        };
        let m = match reconstruction {
            Some(r) => "\n== reconstruction: "@ + r.subject@ + " ==\n"@ + r.body@ + "\n"@,
            None =>
                "\nno --ppl shard given, so nothing was reconstructed; pass the test shard to measure this compressor\n"@,
        };
        let t = match round_trips {
            Some(t) => "\n== round trips ==\n"@ + t@,
            None => Seq::empty(),
        };
        assert(with_blimp =~= head + b);
        assert(with_reconstruction =~= with_blimp + m);
        assert(s@ =~= with_reconstruction + t);
    }
    s
}

} // verus!
