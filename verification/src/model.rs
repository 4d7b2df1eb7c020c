//! The shape of the rewritten expression: a source type wrapped in one
//! fully-qualified cast per chain step, and the text it renders to.
use vstd::prelude::*;

verus! {

/// The text that opens a fully-qualified cast.
pub open spec fn cast_open() -> Seq<char> {
    "< "@
}

/// The text between the receiver and the trait path of a cast.
pub open spec fn cast_as() -> Seq<char> {
    " as "@
}

/// The text that closes a cast and reaches for the associated item.
pub open spec fn cast_close() -> Seq<char> {
    " >::"@
}

/// One chain step, already reduced to rendered text: the trait path with the
/// trailing item segment removed, and that item segment itself.
pub struct Step {
    pub trait_text: String,
    pub item_text: String,
}

impl Step {
    /// The pair of texts a step carries.
    pub open spec fn texts(self) -> (Seq<char>, Seq<char>) {
        (self.trait_text@, self.item_text@)
    }
}

/// The texts of a sequence of steps, in chain order.
pub open spec fn steps_view(steps: Seq<Step>) -> Seq<(Seq<char>, Seq<char>)> {
    steps.map_values(|st: Step| st.texts())
}

/// The structure of the output: the source type alone, or a fully-qualified
/// cast of an inner expression to a trait, projected on an item.
pub enum ExprSpec {
    Base(Seq<char>),
    Cast(Box<ExprSpec>, Seq<char>, Seq<char>),
}

/// Fold the chain left to right: the first step becomes the innermost cast,
/// each later step wraps the accumulator in one more layer.
pub open spec fn build_expr(source: Seq<char>, steps: Seq<(Seq<char>, Seq<char>)>) -> ExprSpec
    decreases steps.len(),
{
    if steps.len() == 0 {
        ExprSpec::Base(source)
    } else {
        ExprSpec::Cast(
            Box::new(build_expr(source, steps.drop_last())),
            steps.last().0,
            steps.last().1,
        )
    }
}

/// The text an expression renders to.
pub open spec fn render_expr(e: ExprSpec) -> Seq<char>
    decreases e,
{
    match e {
        ExprSpec::Base(s) => s,
        ExprSpec::Cast(inner, tr, it) => cast_open() + render_expr(*inner) + cast_as() + tr
            + cast_close() + it,
    }
}

/// The rewritten text for a source type and a chain, in one step.
pub open spec fn expand_text(source: Seq<char>, steps: Seq<(Seq<char>, Seq<char>)>) -> Seq<char> {
    render_expr(build_expr(source, steps))
}

/// How many cast layers an expression has.
pub open spec fn depth(e: ExprSpec) -> nat
    decreases e,
{
    match e {
        ExprSpec::Base(_) => 0,
        ExprSpec::Cast(inner, _, _) => 1 + depth(*inner),
    }
}

/// The source text at the bottom of an expression.
pub open spec fn base_of(e: ExprSpec) -> Seq<char>
    decreases e,
{
    match e {
        ExprSpec::Base(s) => s,
        ExprSpec::Cast(inner, _, _) => base_of(*inner),
    }
}

/// The cast layers of an expression, innermost first.
pub open spec fn layers_of(e: ExprSpec) -> Seq<(Seq<char>, Seq<char>)>
    decreases e,
{
    match e {
        ExprSpec::Base(_) => Seq::empty(),
        ExprSpec::Cast(inner, tr, it) => layers_of(*inner).push((tr, it)),
    }
}

/// `part` occurs verbatim somewhere inside `hay`.
pub open spec fn has_subseq(hay: Seq<char>, part: Seq<char>) -> bool {
    exists|k: int|
        0 <= k && k + part.len() <= hay.len() && #[trigger] hay.subrange(k, k + part.len())
            == part
}

/// A text occurs inside itself.
proof fn lemma_subseq_refl(s: Seq<char>)
    ensures
        has_subseq(s, s),
{
    let k: int = 0;
    assert(s.subrange(k, k + s.len()) =~= s);
}

/// Occurrence survives surrounding text on both sides.
proof fn lemma_subseq_extend(x: Seq<char>, hay: Seq<char>, y: Seq<char>, part: Seq<char>)
    requires
        has_subseq(hay, part),
    ensures
        has_subseq(x + hay + y, part),
{
    let k = choose|k: int|
        0 <= k && k + part.len() <= hay.len() && #[trigger] hay.subrange(k, k + part.len())
            == part;
    let j = x.len() + k;
    assert((x + hay + y).subrange(j, j + part.len()) =~= hay.subrange(k, k + part.len()));
}

/// A chain of no steps leaves the source type's text unchanged: the output of
/// the fold is the source text itself, with no cast applied.
pub proof fn lemma_passthrough(source: Seq<char>)
    ensures
        build_expr(source, Seq::empty()) == ExprSpec::Base(source),
        expand_text(source, Seq::empty()) == source,
{
}

/// The fold of a chain of length `n` yields exactly `n` cast layers, nested
/// in chain order — the first step innermost, the last outermost — around the
/// source type's text.
pub proof fn lemma_nesting(source: Seq<char>, steps: Seq<(Seq<char>, Seq<char>)>)
    ensures
        depth(build_expr(source, steps)) == steps.len(),
        layers_of(build_expr(source, steps)) == steps,
        base_of(build_expr(source, steps)) == source,
    decreases steps.len(),
{
    if steps.len() == 0 {
        assert(layers_of(build_expr(source, steps)) =~= steps);
    } else {
        lemma_nesting(source, steps.drop_last());
        assert(layers_of(build_expr(source, steps)) =~= steps);
    }
}

/// Every input part reappears verbatim in the output text: the source type's
/// text and, for each step, the trait path's text and the item segment's text
/// — so whatever generic arguments they carry are passed through unmodified.
pub proof fn lemma_parts_verbatim(source: Seq<char>, steps: Seq<(Seq<char>, Seq<char>)>)
    ensures
        has_subseq(expand_text(source, steps), source),
        forall|i: int|
            0 <= i < steps.len() ==> has_subseq(expand_text(source, steps), steps[i].0)
                && has_subseq(expand_text(source, steps), steps[i].1),
    decreases steps.len(),
{
    let out = expand_text(source, steps);
    if steps.len() == 0 {
        lemma_subseq_refl(source);
    } else {
        let prev = steps.drop_last();
        let inner = expand_text(source, prev);
        let tr = steps.last().0;
        let it = steps.last().1;
        lemma_parts_verbatim(source, prev);
        let tail = cast_as() + tr + cast_close() + it;
        assert(out =~= cast_open() + inner + tail);
        lemma_subseq_extend(cast_open(), inner, tail, source);
        assert forall|i: int| 0 <= i < prev.len() implies has_subseq(out, steps[i].0)
            && has_subseq(out, steps[i].1) by {
            lemma_subseq_extend(cast_open(), inner, tail, prev[i].0);
            lemma_subseq_extend(cast_open(), inner, tail, prev[i].1);
        }
        let before_tr = cast_open() + inner + cast_as();
        assert(out =~= before_tr + tr + (cast_close() + it));
        lemma_subseq_refl(tr);
        lemma_subseq_extend(before_tr, tr, cast_close() + it, tr);
        let before_it = before_tr + tr + cast_close();
        assert(out =~= before_it + it + Seq::<char>::empty());
        lemma_subseq_refl(it);
        lemma_subseq_extend(before_it, it, Seq::<char>::empty(), it);
    }
}

/// Build the output text for a source type and its chain steps by the
/// left-to-right fold: each step wraps the accumulated text in one cast.
pub fn build_text(source: &String, steps: &Vec<Step>) -> (r: String)
    ensures
        r@ == expand_text(source@, steps_view(steps@)),
{
    let mut out: String = source.clone();
    let n = steps.len();
    for i in 0..n
        invariant
            n == steps@.len(),
            out@ == expand_text(source@, steps_view(steps@.take(i as int))),
    {
        let mut next = String::from_str("< ");
        next.append(out.as_str());
        next.append(" as ");
        next.append(steps[i].trait_text.as_str());
        next.append(" >::");
        next.append(steps[i].item_text.as_str());
        proof {
            let taken = steps_view(steps@.take(i + 1));
            assert(taken.drop_last() =~= steps_view(steps@.take(i as int)));
            assert(taken.last() == steps@[i as int].texts());
        }
        out = next;
    }
    proof {
        assert(steps@.take(n as int) =~= steps@);
    }
    out
}

} // verus!
