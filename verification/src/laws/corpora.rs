//! From a text to documents, and from documents to a shard.

use vstd::prelude::*;

use vstd::string::*;
use vstd::utf8::*;

use crate::chars::absent;
use crate::data::articles::{
    articles, is_heading, line_len, line_len_is, run_together, total_bytes, total_words,
};
use crate::data::prepare::{
    corpus_documents, document_fault, faultless_in_order, in_order, shard_fault, too_many_tokens,
};
use crate::data::shard::{all_fit, decoded, encoded, fitting, fitting_stops, misfit, separated};
use crate::data::tokenizer::{cleaned, EOS_TOKEN};
use crate::laws::texts::replacing_nothing_changes_nothing;
use crate::words::{trimmed, word_count};

verus! {

/// A line goes up to the first line break, that included, or to the end.
pub proof fn lines_end_in_a_line_break(s: Seq<char>)
    requires
        s.len() > 0,
    ensures
        1 <= line_len(s) <= s.len(),
        forall|i: int| 0 <= i < line_len(s) - 1 ==> #[trigger] s[i] != '\n',
        line_len(s) == s.len() || s[line_len(s) - 1] == '\n',
{
    line_len_is(s);
}

/// A heading is a title between single equals signs; two at the start make a
/// section heading, which is none.
pub proof fn headings_stand_between_equals_signs(line: Seq<char>)
    ensures
        is_heading(line) <==> {
            let t = trimmed(line);
            let n = t.len() as int;
            &&& n >= 2
            &&& t[0] == '=' && t[1] == ' '
            &&& t[n - 2] == ' ' && t[n - 1] == '='
            &&& !(n >= 4 && t[2] == '=' && t[3] == ' ')
        },
{
    let t = trimmed(line);
    let n = t.len() as int;
    reveal_strlit("= ");
    reveal_strlit(" =");
    reveal_strlit("= = ");
    if n >= 2 {
        let head = t.subrange(0, 2);
        let tail = t.subrange(n - 2, n);
        if t[0] == '=' && t[1] == ' ' {
            assert(head =~= "= "@);
        } else {
            assert(head[0] != "= "@[0] || head[1] != "= "@[1]);
        }
        if t[n - 2] == ' ' && t[n - 1] == '=' {
            assert(tail =~= " ="@);
        } else {
            assert(tail[0] != " ="@[0] || tail[1] != " ="@[1]);
        }
    }
    if n >= 4 {
        let four = t.subrange(0, 4);
        if t[0] == '=' && t[1] == ' ' && t[2] == '=' && t[3] == ' ' {
            assert(four =~= "= = "@);
        } else {
            assert(four[0] != "= = "@[0] || four[1] != "= = "@[1] || four[2] != "= = "@[2]
                || four[3] != "= = "@[3]);
        }
    }
}

/// Words, bytes and texts of two lists are those of the one and of the other; one
/// text counts its own.
pub proof fn document_counts_add_up(a: Seq<Seq<char>>, b: Seq<Seq<char>>, doc: Seq<char>)
    ensures
        total_words(Seq::<Seq<char>>::empty()) == 0,
        total_words(seq![doc]) == word_count(doc),
        total_words(a + b) == total_words(a) + total_words(b),
        total_bytes(Seq::<Seq<char>>::empty()) == 0,
        total_bytes(seq![doc]) == encode_utf8(doc).len(),
        total_bytes(a + b) == total_bytes(a) + total_bytes(b),
        run_together(Seq::<Seq<char>>::empty()) == Seq::<char>::empty(),
        run_together(seq![doc]) == doc,
        run_together(a + b) == run_together(a) + run_together(b),
    decreases a.len(),
{
    reveal_with_fuel(total_words, 2);
    reveal_with_fuel(total_bytes, 2);
    reveal_with_fuel(run_together, 2);
    assert(seq![doc].drop_first() =~= Seq::<Seq<char>>::empty());
    assert(run_together(seq![doc]) =~= doc);
    if a.len() == 0 {
        assert(a + b =~= b);
        assert(run_together(a) + run_together(b) =~= run_together(b));
    } else {
        document_counts_add_up(a.drop_first(), b, doc);
        assert((a + b).drop_first() =~= a.drop_first() + b);
        assert(run_together(a + b) =~= run_together(a) + run_together(b));
    }
}

/// Without splitting, a corpus is one document: the whole text. With it, its
/// articles.
pub proof fn an_unsplit_corpus_is_one_document(text: Seq<char>)
    ensures
        corpus_documents(text, false).len() == 1,
        corpus_documents(text, false)[0] == text,
        corpus_documents(text, true) == articles(text),
{
}

/// A token is stored in two bytes, the low one first.
pub proof fn tokens_are_stored_little_endian(tokens: Seq<u32>, i: int)
    requires
        0 <= i < tokens.len(),
        tokens[i] < 65536,
    ensures
        encoded(tokens).len() == 2 * tokens.len(),
        tokens[i] == encoded(tokens)[2 * i] + 256 * encoded(tokens)[2 * i + 1],
{
    assert((2 * i) % 2 == 0 && (2 * i) / 2 == i);
    assert((2 * i + 1) % 2 == 1 && (2 * i + 1) / 2 == i);
}

/// A token is read from two bytes, the low one first.
pub proof fn tokens_are_read_little_endian(bytes: Seq<u8>, i: int)
    requires
        0 <= 2 * i,
        2 * i + 1 < bytes.len(),
    ensures
        decoded(bytes).len() == bytes.len() / 2,
        decoded(bytes)[i] == bytes[2 * i] + 256 * bytes[2 * i + 1],
{
}

/// A document is followed by one separator, and documents by each other.
pub proof fn documents_are_followed_by_a_separator(
    a: Seq<Seq<u32>>,
    b: Seq<Seq<u32>>,
    doc: Seq<u32>,
    eos: u32,
)
    ensures
        separated(Seq::<Seq<u32>>::empty(), eos) == Seq::<u32>::empty(),
        separated(seq![doc], eos) == doc + seq![eos],
        separated(a + b, eos) == separated(a, eos) + separated(b, eos),
    decreases b.len(),
{
    reveal_with_fuel(separated, 2);
    assert(seq![doc].drop_last() =~= Seq::<Seq<u32>>::empty());
    assert(separated(seq![doc], eos) =~= doc + seq![eos]);
    if b.len() == 0 {
        assert(a + b =~= a);
        assert(separated(a, eos) + separated(b, eos) =~= separated(a, eos));
    } else {
        documents_are_followed_by_a_separator(a, b.drop_last(), doc, eos);
        assert((a + b).drop_last() =~= a + b.drop_last());
        assert(separated(a + b, eos) =~= separated(a, eos) + separated(b, eos));
    }
}

/// Documents can be stored exactly where every id, and the separator where there
/// is a document, is below 65536, and the tokens can be counted.
pub proof fn what_can_be_stored(ids: Seq<Seq<u32>>, vocab: usize, eos: u32)
    ensures
        shard_fault(ids, vocab, eos) is None <==> {
            &&& forall|i: int, j: int|
                0 <= i < ids.len() && 0 <= j < ids[i].len() ==> (#[trigger] ids[i][j]) < 65536
            &&& ids.len() > 0 ==> eos < 65536
            &&& separated(ids, eos).len() <= usize::MAX
        },
{
    faultless_in_order(ids, vocab, eos);
    if forall|i: int, j: int|
        0 <= i < ids.len() && 0 <= j < ids[i].len() ==> (#[trigger] ids[i][j]) < 65536 {
        assert forall|i: int| 0 <= i < ids.len() implies all_fit(#[trigger] ids[i]) by {
            assert forall|j: int| 0 <= j < ids[i].len() implies #[trigger] ids[i][j] <= 0xffff by {}
        }
    }
    if in_order(ids, eos) {
        assert forall|i: int, j: int| 0 <= i < ids.len() && 0 <= j < ids[i].len() implies (
        #[trigger] ids[i][j]) < 65536 by {
            assert(all_fit(ids[i]));
        }
    }
}

/// The first document that cannot be stored is what is reported, and of its ids
/// the first that does not fit.
pub proof fn the_first_misfit_is_reported(
    ids: Seq<Seq<u32>>,
    doc: Seq<u32>,
    rest: Seq<Seq<u32>>,
    j: int,
    vocab: usize,
    eos: u32,
)
    requires
        in_order(ids, eos),
        separated(ids, eos).len() + doc.len() + 1 <= usize::MAX,
        0 <= j < doc.len(),
        doc[j] >= 65536,
        forall|k: int| 0 <= k < j ==> #[trigger] doc[k] < 65536,
    ensures
        shard_fault(ids.push(doc) + rest, vocab, eos) == Some(misfit(doc[j], vocab)),
    decreases rest.len(),
{
    let now = ids.push(doc);
    if rest.len() == 0 {
        assert(now + rest =~= now);
        assert(now.drop_last() =~= ids);
        faultless_in_order(ids, vocab, eos);
        fitting_stops(doc);
        let n = fitting(doc) as int;
        assert(!all_fit(doc));
        if n < j {
            assert(doc[n] < 65536);
        } else if j < n {
            fitting_prefix(doc, j);
        }
        assert(document_fault(doc, separated(ids, eos).len(), vocab, eos) == Some(
            misfit(doc[j], vocab),
        ));
    } else {
        the_first_misfit_is_reported(ids, doc, rest.drop_last(), j, vocab, eos);
        assert((now + rest).drop_last() =~= now + rest.drop_last());
    }
}

proof fn fitting_prefix(tokens: Seq<u32>, i: int)
    requires
        0 <= i < fitting(tokens),
    ensures
        i < tokens.len(),
        tokens[i] <= 0xffff,
    decreases tokens.len(),
{
    if i > 0 {
        fitting_prefix(tokens.drop_first(), i - 1);
    }
}

/// A document that would make the tokens too many to count is reported as such.
pub proof fn too_many_tokens_are_reported(
    ids: Seq<Seq<u32>>,
    doc: Seq<u32>,
    vocab: usize,
    eos: u32,
)
    requires
        in_order(ids, eos),
        separated(ids, eos).len() + doc.len() + 1 > usize::MAX,
    ensures
        shard_fault(ids.push(doc), vocab, eos) == Some(too_many_tokens()),
{
    assert(ids.push(doc).drop_last() =~= ids);
    faultless_in_order(ids, vocab, eos);
}

/// A text without separators is shown as it is.
pub proof fn cleaning_changes_only_separators(text: Seq<char>)
    requires
        absent(text, EOS_TOKEN@),
    ensures
        cleaned(text) == text,
{
    reveal_strlit("<|endoftext|>");
    replacing_nothing_changes_nothing(text, EOS_TOKEN@, seq![' ']);
}

/// A separator that does not fit is reported of the first document, where its ids
/// fit.
pub proof fn a_separator_that_does_not_fit_is_reported(
    doc: Seq<u32>,
    rest: Seq<Seq<u32>>,
    vocab: usize,
    eos: u32,
)
    requires
        eos >= 65536,
        doc.len() < usize::MAX,
        forall|k: int| 0 <= k < doc.len() ==> #[trigger] doc[k] < 65536,
    ensures
        shard_fault(seq![doc] + rest, vocab, eos) == Some(misfit(eos, vocab)),
    decreases rest.len(),
{
    if rest.len() == 0 {
        assert(seq![doc] + rest =~= seq![doc]);
        assert(seq![doc].drop_last() =~= Seq::<Seq<u32>>::empty());
        reveal_with_fuel(shard_fault, 2);
        assert forall|k: int| 0 <= k < doc.len() implies #[trigger] doc[k] <= 0xffff by {}
        assert(all_fit(doc));
    } else {
        a_separator_that_does_not_fit_is_reported(doc, rest.drop_last(), vocab, eos);
        assert((seq![doc] + rest).drop_last() =~= seq![doc] + rest.drop_last());
    }
}

} // verus!
