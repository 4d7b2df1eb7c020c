//! End-to-end checks of the rewriter: token input in, nested path text out.
use flatfish::ff;
use flatfish::ExpandError;

fn lex(s: &str) -> proc_macro2::TokenStream {
    s.parse::<proc_macro2::TokenStream>().expect("test input lexes")
}

/// A comparable spelling of a token sequence: its trees with one space
/// between any two tokens, whatever the spacing of the spelling was
/// (`< <` and `<<` are the same two tokens).
fn canon(s: &str) -> String {
    fn flat(ts: proc_macro2::TokenStream, out: &mut String) {
        for tree in ts {
            match tree {
                proc_macro2::TokenTree::Group(g) => {
                    out.push_str(&format!("g{:?}(", g.delimiter()));
                    flat(g.stream(), out);
                    out.push(')');
                }
                other => {
                    out.push_str(&other.to_string());
                    out.push(' ');
                }
            }
        }
    }
    let mut out = String::new();
    flat(lex(s), &mut out);
    out
}

fn expand(s: &str) -> String {
    let out = match ff(lex(s)) {
        Ok(out) => out,
        Err(_) => panic!("expected a successful expansion for {s}"),
    };
    canon(&out)
}

#[test]
fn two_steps_associated_type() {
    assert_eq!(
        expand("T | Trait1::Item1<u32> | Trait2<u32>::Item2"),
        canon("<<T as Trait1>::Item1<u32> as Trait2<u32>>::Item2"),
    );
}

#[test]
fn two_steps_associated_function() {
    assert_eq!(
        expand("T | Trait1::Item1<u32> | Trait2<u32>::foo"),
        canon("<<T as Trait1>::Item1<u32> as Trait2<u32>>::foo"),
    );
}

#[test]
fn two_steps_associated_const() {
    assert_eq!(
        expand("T | Trait1::Item1<u32> | Trait2<u32>::VALUE"),
        canon("<<T as Trait1>::Item1<u32> as Trait2<u32>>::VALUE"),
    );
}

#[test]
fn no_chain_passes_source_through() {
    assert_eq!(expand("SomeType"), canon("SomeType"));
}

#[test]
fn no_chain_keeps_source_generics() {
    assert_eq!(expand("Vec<Option<u8>>"), canon("Vec<Option<u8>>"));
}

#[test]
fn single_segment_entry_is_malformed() {
    match ff(lex("T | Item")) {
        Err(ExpandError::MalformedChainEntry(e)) => {
            assert_eq!(e.to_string(), "Syntax is `path::to::Trait::Item`");
        }
        _ => panic!("expected a malformed chain entry"),
    }
}

#[test]
fn later_malformed_entry_is_still_rejected() {
    match ff(lex("T | Trait1::Item1 | Item")) {
        Err(ExpandError::MalformedChainEntry(e)) => {
            assert_eq!(e.to_string(), "Syntax is `path::to::Trait::Item`");
        }
        _ => panic!("expected a malformed chain entry"),
    }
}

#[test]
fn one_step_bare_trait() {
    assert_eq!(expand("T | Trait1::Item"), canon("<T as Trait1>::Item"));
}

#[test]
fn module_qualified_trait_keeps_its_path() {
    assert_eq!(
        expand("T | path::to::Trait::Item"),
        canon("<T as path::to::Trait>::Item"),
    );
}

#[test]
fn three_steps_nest_in_chain_order() {
    assert_eq!(
        expand("T | A::B | C::D | E::F"),
        canon("<<<T as A>::B as C>::D as E>::F"),
    );
}

#[test]
fn nesting_depth_matches_chain_length() {
    for n in 0..5usize {
        let mut input = String::from("T");
        for _ in 0..n {
            input.push_str(" | Tr::It");
        }
        let out = match ff(lex(&input)) {
            Ok(out) => out,
            Err(_) => panic!("expected a successful expansion"),
        };
        assert_eq!(out.matches(" as ").count(), n);
        assert_eq!(out.matches(" >::").count(), n);
    }
}

#[test]
fn generics_survive_everywhere() {
    assert_eq!(
        expand("HashMap<K, V> | Outer<K>::Mid<V> | Inner<K, V>::Leaf<u8>"),
        canon("<<HashMap<K, V> as Outer<K>>::Mid<V> as Inner<K, V>>::Leaf<u8>"),
    );
}

#[test]
fn qualified_source_type_passes_through() {
    assert_eq!(
        expand("<T as IntoIterator>::Item | Trait1::Item"),
        canon("<<T as IntoIterator>::Item as Trait1>::Item"),
    );
}

#[test]
fn qualified_trait_entry_splits_after_the_qualifier() {
    assert_eq!(
        expand("T | <A as B>::Assoc::Item"),
        canon("<T as <A as B>::Assoc>::Item"),
    );
}

#[test]
fn first_offending_construct_decides_malformed_entry() {
    match ff(lex("T | Item | 1 + 2")) {
        Err(ExpandError::MalformedChainEntry(e)) => {
            assert_eq!(e.to_string(), "Syntax is `path::to::Trait::Item`");
        }
        _ => panic!("expected the earlier malformed entry to decide"),
    }
}

#[test]
fn first_offending_construct_decides_host_error() {
    assert!(matches!(ff(lex("T | 1 + 2 | Item")), Err(ExpandError::HostSyntax(_))));
}

#[test]
fn leading_colon_paths_are_kept() {
    assert_eq!(
        expand("::std::string::String | ::core::iter::IntoIterator::Item"),
        canon("<::std::string::String as ::core::iter::IntoIterator>::Item"),
    );
}

#[test]
fn grouped_tokens_inside_generics_pass_through() {
    assert_eq!(
        expand("Vec<(A, B)> | Trait1::Item"),
        canon("<Vec<(A, B)> as Trait1>::Item"),
    );
}

#[test]
fn empty_input_is_a_host_syntax_error() {
    assert!(matches!(ff(lex("")), Err(ExpandError::HostSyntax(_))));
}

#[test]
fn garbage_source_is_a_host_syntax_error() {
    assert!(matches!(ff(lex("1 + 2")), Err(ExpandError::HostSyntax(_))));
}

#[test]
fn dangling_pipe_is_a_host_syntax_error() {
    assert!(matches!(ff(lex("T |")), Err(ExpandError::HostSyntax(_))));
}

#[test]
fn trailing_tokens_after_source_are_rejected() {
    assert!(matches!(ff(lex("T garbage | A::B")), Err(ExpandError::HostSyntax(_))));
}
