//! The boundary to the host compiler's token world: type-path parsing and
//! printing are delegated to `syn`/`proc-macro2`, behind trusted items whose
//! contracts speak over the opaque values' rendered text.
use vstd::prelude::*;

use quote::ToTokens;
use syn::spanned::Spanned;

verus! {

#[verifier::external_type_specification]
#[verifier::external_body]
pub struct ExTokenStream(proc_macro2::TokenStream);

#[verifier::external_type_specification]
#[verifier::external_body]
pub struct ExTokenTree(proc_macro2::TokenTree);

#[verifier::external_type_specification]
#[verifier::external_body]
pub struct ExTypePath(syn::TypePath);

#[verifier::external_type_specification]
#[verifier::external_body]
pub struct ExError(syn::Error);

/// One top-level token tree of the input, paired with its character when it
/// is a lone punctuation token (`None` for every other kind of tree), so
/// that verified code can recognise the chain separator.
pub struct Tok {
    pub tree: proc_macro2::TokenTree,
    pub punct: Option<char>,
}

/// How many segments a parsed type path holds (those of its `Path`).
pub uninterp spec fn path_seg_count(tp: syn::TypePath) -> int;

/// The text a type path prints to.
pub uninterp spec fn path_text(tp: syn::TypePath) -> Seq<char>;

/// The texts a type path splits into when its trailing segment is removed:
/// the remaining path's text and the removed segment's text.
pub uninterp spec fn path_split(tp: syn::TypePath) -> (Seq<char>, Seq<char>);

/// The message a located error carries.
pub uninterp spec fn error_message(e: syn::Error) -> Seq<char>;

/// The top-level token trees a stream holds, in order.
pub uninterp spec fn stream_trees(ts: proc_macro2::TokenStream) -> Seq<proc_macro2::TokenTree>;

/// The character a token tree holds when it is a lone punctuation token,
/// `None` for every other kind of tree.
pub uninterp spec fn tree_punct(t: proc_macro2::TokenTree) -> Option<char>;

/// Whether the host type-path grammar accepts exactly these token trees.
pub uninterp spec fn parses_as_path(trees: Seq<proc_macro2::TokenTree>) -> bool;

/// The text the path parsed from these trees prints to.
pub uninterp spec fn parsed_text(trees: Seq<proc_macro2::TokenTree>) -> Seq<char>;

/// How many segments the path parsed from these trees holds.
pub uninterp spec fn parsed_seg_count(trees: Seq<proc_macro2::TokenTree>) -> int;

/// The split texts of the path parsed from these trees: the path without its
/// trailing segment, and that segment.
pub uninterp spec fn parsed_split(trees: Seq<proc_macro2::TokenTree>) -> (Seq<char>, Seq<char>);

/// The message of the host grammar's rejection of these trees.
pub uninterp spec fn parse_err_message(trees: Seq<proc_macro2::TokenTree>) -> Seq<char>;

/// A tree as the chunking sees it: the tree and its punctuation character.
pub open spec fn tok_of(t: proc_macro2::TokenTree) -> Tok {
    Tok { tree: t, punct: tree_punct(t) }
}

/// A sequence of trees as the chunking sees them.
pub open spec fn toks_of(trees: Seq<proc_macro2::TokenTree>) -> Seq<Tok> {
    trees.map_values(|t: proc_macro2::TokenTree| tok_of(t))
}

/// The trees carried by a sequence of chunked tokens.
pub open spec fn trees_of_toks(toks: Seq<Tok>) -> Seq<proc_macro2::TokenTree> {
    toks.map_values(|t: Tok| t.tree)
}

/// Relies on `proc_macro2::TokenStream`'s `IntoIterator`: hands out the
/// stream's top-level token trees in order, each paired with its character
/// when it is a punctuation token.
#[verifier::external_body]
pub fn stream_toks(ts: proc_macro2::TokenStream) -> (r: Vec<Tok>)
    ensures
        r@ == toks_of(stream_trees(ts)),
        forall|i: int| 0 <= i < r@.len() ==> #[trigger] r@[i].punct == tree_punct(r@[i].tree),
{
    ts.into_iter().map(
        |tree| {
            let punct = match &tree {
                proc_macro2::TokenTree::Punct(p) => Some(p.as_char()),
                _ => None,
            };
            Tok { tree, punct }
        },
    ).collect()
}

/// Relies on `proc_macro2::TokenStream`'s `FromIterator`: collects token
/// trees back into a stream, in order.
#[verifier::external_body]
pub fn toks_stream(toks: &Vec<Tok>) -> (r: proc_macro2::TokenStream)
    ensures
        stream_trees(r) == trees_of_toks(toks@),
{
    toks.iter().map(|t| t.tree.clone()).collect()
}

/// Relies on `syn::parse2::<syn::TypePath>`: parses the stream with the host
/// language's own type-path grammar (generics, qualified paths and module
/// prefixes included), and rejects anything else with `syn`'s own error.
/// Whether it succeeds, and what the parsed path prints and splits to, are
/// functions of the stream's trees alone.
#[verifier::external_body]
pub fn parse_type_path(ts: proc_macro2::TokenStream) -> (r: Result<syn::TypePath, syn::Error>)
    ensures
        r is Ok <==> parses_as_path(stream_trees(ts)),
        r matches Ok(tp) ==> path_text(tp) == parsed_text(stream_trees(ts)),
        r matches Ok(tp) ==> path_seg_count(tp) == parsed_seg_count(stream_trees(ts)),
        r matches Ok(tp) ==> path_split(tp) == parsed_split(stream_trees(ts)),
        r matches Err(e) ==> error_message(e) == parse_err_message(stream_trees(ts)),
{
    syn::parse2::<syn::TypePath>(ts)
}

/// Relies on `quote::ToTokens` for `syn::TypePath`: prints the path's tokens
/// verbatim, as `syn`'s printer spells them.
#[verifier::external_body]
pub fn render_path(tp: &syn::TypePath) -> (r: String)
    ensures
        r@ == path_text(*tp),
{
    tp.to_token_stream().to_string()
}

/// Relies on `syn::punctuated::Punctuated::pop` and `pop_punct`: removes the
/// path's trailing segment together with the separator before it, and prints
/// both halves. The precondition keeps the call away from paths too short to
/// split, where `pop` would find nothing to remove.
#[verifier::external_body]
pub fn pop_render(mut tp: syn::TypePath) -> (r: (String, String))
    requires
        path_seg_count(tp) >= 2,
    ensures
        (r.0@, r.1@) == path_split(tp),
{
    let item = tp.path.segments.pop().unwrap().into_value();
    let _ = tp.path.segments.pop_punct();
    (tp.to_token_stream().to_string(), item.to_token_stream().to_string())
}

/// Relies on `syn::punctuated::Punctuated::len`.
#[verifier::external_body]
pub fn seg_count(tp: &syn::TypePath) -> (r: usize)
    ensures
        r as int == path_seg_count(*tp),
{
    tp.path.segments.len()
}

/// Relies on `syn::Error::new` and `syn::spanned::Spanned`: an error that
/// carries `msg` and points at the path's span.
#[verifier::external_body]
pub fn error_at(tp: &syn::TypePath, msg: &str) -> (r: syn::Error)
    ensures
        error_message(r) == msg@,
{
    syn::Error::new(tp.span(), msg)
}

} // verus!
