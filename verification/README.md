# quark

A toolkit around a small language model and a text compressor: model and
compressor configurations with their parameter budgets, token shards and
training windows, evaluation bookkeeping, decoding, and run management. The
library under `src/` is verified with Verus; the command line under `app/` puts
files, tensors and floating point around it.

## Layout

```
src/config.rs      the model family and its parameter arithmetic
src/model.rs       what the model is made of, layer schedules, attention masks
src/data/          articles, shards, windows, batches, the tokenizer
src/train/         training configuration, run planning, epochs
src/eval/          corpus sweeps, minimal pairs, decoding, run artifacts
src/compress/      the compressor: configuration, quantizer, evaluation
src/infer.rs       inference over text that a user provides
src/limits.rs      whether figures and counts can be represented
src/number.rs      floating-point settings, held and compared by their bits
src/text.rs, src/chars.rs, src/words.rs, src/order.rs
                   text building, UTF-8 positions, words, orders
app/               the command line
```

## Numbers

The library compares floating-point settings and never computes with them: a
`Real` holds the bits of a number and the text that shows it. Quotients,
logarithms and tensors belong to `app/`, which hands the library counts, bits
and texts.

## Outside crates

The tokenizer is the `tokenizers` crate and JSON is read by `serde_json`. Each
call into them stands in one small function whose contract is trusted and whose
documentation says what it claims.

A tokenizer from elsewhere may panic on a text or on ids. The functions that
encode or decode require that it does not; each has a companion, `try_..`, that
looks at the tokenizer's parts first and returns `None` where they are not the
plain byte-level ones.
