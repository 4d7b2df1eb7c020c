//! The grammar and the entry point: split the input on `|` separators, parse
//! each piece as a type path, split each chain entry into trait and item, and
//! fold the chain into the nested output.
use vstd::prelude::*;

use crate::host::{
    error_at, error_message, parse_err_message, parse_type_path, parsed_seg_count, parsed_split,
    parsed_text, parses_as_path, path_seg_count, path_split, pop_render, render_path,
    seg_count, stream_toks, stream_trees, toks_of, toks_stream, trees_of_toks, Tok,
};
use crate::model::{build_text, expand_text, steps_view, Step};

verus! {

/// The fixed guidance carried by a malformed chain entry's error.
pub open spec fn malformed_msg() -> Seq<char> {
    "Syntax is `path::to::Trait::Item`"@
}

/// The fixed guidance carried by a malformed chain entry's error.
pub fn malformed_msg_text() -> (r: &'static str)
    ensures
        r@ == malformed_msg(),
{
    "Syntax is `path::to::Trait::Item`"
}

/// Why an invocation was rejected. A chain entry whose path cannot be split
/// into trait and item is the one failure of this crate's own grammar; every
/// other rejection comes from the host grammar's type-path parser and keeps
/// `syn`'s own diagnostic.
pub enum ExpandError {
    MalformedChainEntry(syn::Error),
    HostSyntax(syn::Error),
}

/// A token tree separates chain entries when it is a lone `|`.
pub open spec fn is_pipe(t: Tok) -> bool {
    t.punct == Some('|')
}

/// The input cut at its separators: always one chunk more than there are
/// pipes — the chunk before the first pipe (possibly empty) and one chunk
/// after each pipe.
pub open spec fn chunks_spec(s: Seq<Tok>) -> Seq<Seq<Tok>>
    decreases s.len(),
{
    if s.len() == 0 {
        seq![Seq::<Tok>::empty()]
    } else {
        let pre = chunks_spec(s.drop_last());
        if is_pipe(s.last()) {
            pre.push(Seq::<Tok>::empty())
        } else {
            pre.update(pre.len() - 1, pre.last().push(s.last()))
        }
    }
}

/// Cut the input's token trees at the `|` separators.
pub fn split_chunks(toks: Vec<Tok>) -> (r: Vec<Vec<Tok>>)
    ensures
        r@.map_values(|c: Vec<Tok>| c@) == chunks_spec(toks@),
        r@.len() >= 1,
{
    let ghost orig = toks@;
    let mut toks = toks;
    let mut done: Vec<Vec<Tok>> = Vec::new();
    let mut cur: Vec<Tok> = Vec::new();
    while toks.len() > 0
        invariant
            toks@.len() <= orig.len(),
            toks@ =~= orig.skip(orig.len() - toks@.len()),
            done@.map_values(|c: Vec<Tok>| c@).push(cur@) =~= chunks_spec(
                orig.take(orig.len() - toks@.len()),
            ),
        decreases toks@.len(),
    {
        let ghost p = orig.len() - toks@.len();
        let t = toks.remove(0);
        proof {
            assert(t == orig[p as int]);
            assert(toks@ =~= orig.skip(p + 1));
            assert(orig.take(p + 1).drop_last() =~= orig.take(p as int));
            assert(orig.take(p + 1).last() == orig[p as int]);
        }
        if t.punct == Some('|') {
            done.push(cur);
            cur = Vec::new();
            proof {
                assert(done@.map_values(|c: Vec<Tok>| c@).push(cur@) =~= chunks_spec(
                    orig.take(p + 1),
                ));
            }
        } else {
            let ghost pre = chunks_spec(orig.take(p as int));
            cur.push(t);
            proof {
                assert(done@.map_values(|c: Vec<Tok>| c@).push(cur@) =~= pre.update(
                    pre.len() - 1,
                    pre.last().push(t),
                ));
            }
        }
    }
    proof {
        assert(orig.take(orig.len() - toks@.len()) =~= orig);
    }
    done.push(cur);
    done
}

/// Split one chain entry: take the trailing segment of its path as the
/// associated item and keep the rest as the trait path. An entry whose path
/// has fewer than two segments cannot be split and is rejected with the
/// fixed guidance, anchored at the entry's span.
pub fn parse_entry(tp: syn::TypePath) -> (r: Result<Step, ExpandError>)
    ensures
        r is Ok <==> path_seg_count(tp) >= 2,
        r matches Ok(st) ==> st.texts() == path_split(tp),
        r matches Err(e) ==> (e matches ExpandError::MalformedChainEntry(err) && error_message(
            err,
        ) == malformed_msg()),
{
    let n = seg_count(&tp);
    if n < 2 {
        let msg = malformed_msg_text();
        Err(ExpandError::MalformedChainEntry(error_at(&tp, msg)))
    } else {
        let (trait_text, item_text) = pop_render(tp);
        Ok(Step { trait_text, item_text })
    }
}

/// The trees one chunk carries.
pub open spec fn chunk_trees(c: Seq<Tok>) -> Seq<proc_macro2::TokenTree> {
    trees_of_toks(c)
}

/// The input's chunks: its top-level trees, cut at the `|` separators.
pub open spec fn input_chunks(ts: proc_macro2::TokenStream) -> Seq<Seq<Tok>> {
    chunks_spec(toks_of(stream_trees(ts)))
}

/// The split texts of one chain-entry chunk.
pub open spec fn chunk_split(c: Seq<Tok>) -> (Seq<char>, Seq<char>) {
    parsed_split(chunk_trees(c))
}

/// Whether chunk `i` is in order: the source chunk must parse as a type
/// path; an entry chunk must parse and still have a segment left once its
/// trailing item is removed.
pub open spec fn good_chunk(chunks: Seq<Seq<Tok>>, i: int) -> bool {
    if i == 0 {
        parses_as_path(chunk_trees(chunks[0]))
    } else {
        parses_as_path(chunk_trees(chunks[i])) && parsed_seg_count(chunk_trees(chunks[i])) >= 2
    }
}

/// Every chunk before `i` is in order.
pub open spec fn good_before(chunks: Seq<Seq<Tok>>, i: int) -> bool {
    forall|j: int| 0 <= j < i ==> good_chunk(chunks, j)
}

/// Every chunk of the input is in order.
pub open spec fn all_chunks_good(chunks: Seq<Seq<Tok>>) -> bool {
    forall|i: int| 0 <= i < chunks.len() ==> good_chunk(chunks, i)
}

/// The split texts of the chain entries among the first `k` chunks.
pub open spec fn tail_splits_upto(chunks: Seq<Seq<Tok>>, k: int) -> Seq<(Seq<char>, Seq<char>)> {
    chunks.subrange(1, k).map_values(|c: Seq<Tok>| chunk_split(c))
}

/// The output text owed for an input whose chunks are all in order: the fold
/// of every entry's split texts, in input order, around the source chunk's
/// parsed text.
pub open spec fn output_text(chunks: Seq<Seq<Tok>>) -> Seq<char> {
    expand_text(parsed_text(chunk_trees(chunks[0])), tail_splits_upto(chunks, chunks.len() as int))
}

/// The host grammar rejected the first chunk that is not in order, and `msg`
/// is its own message for that chunk.
pub open spec fn host_rejects(chunks: Seq<Seq<Tok>>, msg: Seq<char>) -> bool {
    exists|i: int|
        0 <= i < chunks.len() && good_before(chunks, i) && !parses_as_path(
            chunk_trees(#[trigger] chunks[i]),
        ) && msg == parse_err_message(chunk_trees(chunks[i]))
}

/// The first chunk that is not in order is an entry whose path parses but
/// cannot be split into trait and item.
pub open spec fn entry_rejects(chunks: Seq<Seq<Tok>>) -> bool {
    exists|i: int|
        1 <= i < chunks.len() && good_before(chunks, i) && parses_as_path(
            chunk_trees(#[trigger] chunks[i]),
        ) && parsed_seg_count(chunk_trees(chunks[i])) < 2
}

/// An input without a separator is cut into a single chunk: itself.
pub proof fn lemma_no_pipe_single_chunk(s: Seq<Tok>)
    requires
        forall|i: int| 0 <= i < s.len() ==> !is_pipe(#[trigger] s[i]),
    ensures
        chunks_spec(s) == seq![s],
    decreases s.len(),
{
    if s.len() == 0 {
        assert(chunks_spec(s) =~~= seq![s]);
    } else {
        lemma_no_pipe_single_chunk(s.drop_last());
        assert(chunks_spec(s)[0] =~= s);
        assert(chunks_spec(s) =~~= seq![s]);
    }
}

/// The passthrough law at the entry point: an invocation of one chunk — a
/// pipe-free input — is owed the source type's own text, with no cast
/// applied.
pub proof fn lemma_entry_passthrough(chunks: Seq<Seq<Tok>>)
    requires
        chunks.len() == 1,
    ensures
        output_text(chunks) == parsed_text(chunk_trees(chunks[0])),
{
    assert(tail_splits_upto(chunks, 1) =~= Seq::<(Seq<char>, Seq<char>)>::empty());
    crate::model::lemma_passthrough(parsed_text(chunk_trees(chunks[0])));
}

/// Rewrite a projection chain `SourceType | Trait1::Item | ...` into the text
/// of the nested fully-qualified path, `<.. <SourceType as Trait1>::Item ..>`.
///
/// Cut at the `|` separators, the input's first chunk is the source type and
/// each later chunk one chain entry. The call succeeds exactly when the
/// source chunk parses as a type path and every entry chunk parses and
/// splits; the output is then the fold of the entries' split texts, in input
/// order, around the source's text — a pipe-free input passes its source
/// through unchanged. The first chunk out of order decides: a host-grammar
/// rejection keeps `syn`'s own message, an unsplittable entry carries the
/// fixed guidance, and neither yields any output.
pub fn ff(ts: proc_macro2::TokenStream) -> (r: Result<String, ExpandError>)
    ensures
        r is Ok <==> all_chunks_good(input_chunks(ts)),
        r matches Ok(out) ==> out@ == output_text(input_chunks(ts)),
        r matches Err(e) ==> ((e matches ExpandError::HostSyntax(err) && host_rejects(
            input_chunks(ts),
            error_message(err),
        )) || (e matches ExpandError::MalformedChainEntry(err) && error_message(err)
            == malformed_msg() && entry_rejects(input_chunks(ts)))),
{
    let toks = stream_toks(ts);
    let ghost all = input_chunks(ts);
    let mut chunks = split_chunks(toks);
    proof {
        assert(chunks@.map_values(|c: Vec<Tok>| c@) == all);
    }
    let ghost n = all.len();
    let first = chunks.remove(0);
    proof {
        assert(first@ == all[0]);
        assert(chunks@.map_values(|c: Vec<Tok>| c@) =~= all.subrange(1, n as int));
    }
    let first_stream = toks_stream(&first);
    let src_tp = match parse_type_path(first_stream) {
        Ok(tp) => tp,
        Err(e) => {
            proof {
                assert(stream_trees(first_stream) == chunk_trees(all[0]));
                assert(good_before(all, 0));
                assert(host_rejects(all, error_message(e)));
                assert(!good_chunk(all, 0));
            }
            return Err(ExpandError::HostSyntax(e));
        },
    };
    let source_text = render_path(&src_tp);
    let mut steps: Vec<Step> = Vec::new();
    while chunks.len() > 0
        invariant
            all == input_chunks(ts),
            n == all.len(),
            chunks@.len() < n,
            chunks@.map_values(|c: Vec<Tok>| c@) =~= all.subrange(n - chunks@.len(), n as int),
            steps_view(steps@) =~= tail_splits_upto(all, n - chunks@.len()),
            good_before(all, n - chunks@.len()),
            source_text@ == parsed_text(chunk_trees(all[0])),
        decreases chunks@.len(),
    {
        let ghost k = n - chunks@.len();
        let ghost chunks0 = chunks@;
        let c = chunks.remove(0);
        proof {
            assert(chunks0.map_values(|c: Vec<Tok>| c@)[0] == chunks0[0]@);
            assert(all.subrange(k, n as int)[0] == all[k as int]);
            assert(c@ == all[k as int]);
            assert forall|i: int| 0 <= i < chunks@.len() implies chunks@.map_values(
                |c: Vec<Tok>| c@,
            )[i] == #[trigger] all.subrange(k + 1, n as int)[i] by {
                assert(chunks@[i] == chunks0[i + 1]);
                assert(chunks@.map_values(|c: Vec<Tok>| c@)[i] == chunks@[i]@);
                assert(chunks0.map_values(|c: Vec<Tok>| c@)[i + 1] == chunks0[i + 1]@);
                assert(all.subrange(k, n as int)[i + 1] == all[k + 1 + i]);
                assert(all.subrange(k + 1, n as int)[i] == all[k + 1 + i]);
            }
            assert(chunks@.map_values(|c: Vec<Tok>| c@) =~= all.subrange(k + 1, n as int));
        }
        let c_stream = toks_stream(&c);
        proof {
            assert(stream_trees(c_stream) == chunk_trees(all[k as int]));
        }
        let tp = match parse_type_path(c_stream) {
            Ok(tp) => tp,
            Err(e) => {
                proof {
                    assert(host_rejects(all, error_message(e)));
                    assert(!good_chunk(all, k as int));
                }
                return Err(ExpandError::HostSyntax(e));
            },
        };
        let ghost steps0 = steps@;
        match parse_entry(tp) {
            Ok(st) => {
                steps.push(st);
                proof {
                    assert(st.texts() == chunk_split(all[k as int]));
                    assert(steps_view(steps0).len() == tail_splits_upto(all, k as int).len());
                    assert(steps0.len() == k - 1);
                    assert forall|i: int| 0 <= i < k implies steps_view(steps@)[i]
                        == tail_splits_upto(all, k + 1)[i] by {
                        assert(all.subrange(1, k + 1)[i] == all[1 + i]);
                        if i < k - 1 {
                            assert(steps@[i] == steps0[i]);
                            assert(steps_view(steps@)[i] == steps_view(steps0)[i]);
                            assert(steps_view(steps0)[i] == tail_splits_upto(all, k as int)[i]);
                            assert(all.subrange(1, k as int)[i] == all[1 + i]);
                        } else {
                            assert(steps@[i] == st);
                        }
                    }
                    assert(steps_view(steps@) =~= tail_splits_upto(all, k + 1));
                    assert(good_chunk(all, k as int));
                    assert(good_before(all, k + 1));
                }
            },
            Err(e) => {
                proof {
                    assert(parsed_seg_count(chunk_trees(all[k as int])) < 2);
                    assert(entry_rejects(all));
                    assert(!good_chunk(all, k as int));
                }
                return Err(e);
            },
        }
    }
    let out = build_text(&source_text, &steps);
    proof {
        assert(steps_view(steps@) == tail_splits_upto(all, n as int));
        assert(out@ == output_text(all));
        assert(all_chunks_good(all));
    }
    Ok(out)
}

} // verus!
