//! Checks of the pure core: the fold over already-rendered texts, and the
//! splitting of one chain entry.
use flatfish::expand::parse_entry;
use flatfish::expand::ExpandError;
use flatfish::model::build_text;
use flatfish::model::Step;

fn path(s: &str) -> syn::TypePath {
    syn::parse_str::<syn::TypePath>(s).expect("test path parses")
}

/// A comparable spelling of a token sequence: its trees with one space
/// between any two tokens, whatever the spacing of the spelling was
/// (`< <` and `<<` are the same two tokens).
fn canon(s: &str) -> String {
    fn flat(ts: proc_macro2::TokenStream, out: &mut String) {
        for tree in ts {
            match tree {
                proc_macro2::TokenTree::Group(g) => {
                    out.push_str(&format!("g{:?}(", g.delimiter()));
                    flat(g.stream(), out);
                    out.push(')');
                }
                other => {
                    out.push_str(&other.to_string());
                    out.push(' ');
                }
            }
        }
    }
    let lexed = s.parse::<proc_macro2::TokenStream>().expect("test input lexes");
    let mut out = String::new();
    flat(lexed, &mut out);
    out
}

#[test]
fn fold_of_no_steps_is_the_source_text() {
    let out = build_text(&String::from("MySource"), &Vec::new());
    assert_eq!(out, "MySource");
}

#[test]
fn fold_of_one_step_wraps_once() {
    let steps = vec![Step { trait_text: String::from("Tr"), item_text: String::from("Item") }];
    let out = build_text(&String::from("T"), &steps);
    assert_eq!(out, "< T as Tr >::Item");
}

#[test]
fn fold_of_two_steps_nests_the_first_innermost() {
    let steps = vec![
        Step { trait_text: String::from("A"), item_text: String::from("B") },
        Step { trait_text: String::from("C"), item_text: String::from("D") },
    ];
    let out = build_text(&String::from("T"), &steps);
    assert_eq!(out, "< < T as A >::B as C >::D");
}

#[test]
fn entry_of_two_segments_splits_into_trait_and_item() {
    let step = match parse_entry(path("Trait1::Item1")) {
        Ok(step) => step,
        Err(_) => panic!("expected a split"),
    };
    assert_eq!(canon(&step.trait_text), canon("Trait1"));
    assert_eq!(canon(&step.item_text), canon("Item1"));
}

#[test]
fn entry_keeps_generics_on_both_halves() {
    let step = match parse_entry(path("pkg::Outer<K>::Mid<V>")) {
        Ok(step) => step,
        Err(_) => panic!("expected a split"),
    };
    assert_eq!(canon(&step.trait_text), canon("pkg::Outer<K>"));
    assert_eq!(canon(&step.item_text), canon("Mid<V>"));
}

#[test]
fn entry_of_one_segment_is_malformed() {
    match parse_entry(path("Item")) {
        Err(ExpandError::MalformedChainEntry(e)) => {
            assert_eq!(e.to_string(), "Syntax is `path::to::Trait::Item`");
        }
        _ => panic!("expected a malformed chain entry"),
    }
}
