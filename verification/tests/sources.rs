use std::str::FromStr;

use ddnet_kit::module_merge::MergeError;
use ddnet_kit::sources::{merge_sources, SourceError};
use proc_macro2::TokenStream;

fn ts(text: &str) -> TokenStream {
    TokenStream::from_str(text).unwrap()
}

fn item(text: &str) -> syn::Item {
    syn::parse_str(text).unwrap()
}

fn merge(base: &str, over: &str) -> Result<TokenStream, SourceError> {
    merge_sources(ts(base), ts(over))
}

fn merged(base: &str, over: &str) -> syn::Item {
    syn::parse2(merge(base, over).unwrap()).unwrap()
}

#[test]
fn impl_function_is_replaced_in_place() {
    let base = "struct X; mod w { struct A; impl A { fn f() -> u8 { 1 } fn g() {} } }";
    let over = "mod w { impl A { fn f() -> u8 { 2 } } }";
    assert_eq!(merged(base, over), item("mod w { struct A; impl A { fn f() -> u8 { 2 } fn g() {} } }"));
}

#[test]
fn needs_super_keeps_old_function_renamed() {
    let base = "mod w { impl A { #[cold] fn f() -> u8 { 1 } fn g() {} } }";
    let over = "mod w { impl A { #[needs_super] #[inline] fn f() -> u8 { 2 } } }";
    assert_eq!(
        merged(base, over),
        item("mod w { impl A { #[inline] fn f() -> u8 { 2 } fn g() {} #[cold] fn _super_f() -> u8 { 1 } } }")
    );
}

#[test]
fn needs_super_in_trait_impl_drops_old_function() {
    let base = "mod w { impl Tr for A { fn f() {} } }";
    let over = "mod w { impl A { #[needs_super] fn f() { g() } } }";
    assert_eq!(merged(base, over), item("mod w { impl Tr for A { fn f() { g() } } }"));
}

#[test]
fn types_are_compared_as_parsed() {
    let base = "mod w { impl Vec<u8> { fn f() {} } impl Vec<u16> { fn f() {} } }";
    let over = "mod w { impl Vec < u16 > { fn f() { x() } } }";
    assert_eq!(
        merged(base, over),
        item("mod w { impl Vec<u8> { fn f() {} } impl Vec<u16> { fn f() { x() } } }")
    );
}

#[test]
fn trait_function_is_replaced() {
    let base = "mod w { trait Ai { fn plan(&self); fn think(&self) {} } }";
    let over = "mod w { trait Ai { fn think(&self) { go() } } }";
    assert_eq!(
        merged(base, over),
        item("mod w { trait Ai { fn plan(&self); fn think(&self) { go() } } }")
    );
}

#[test]
fn uses_structs_and_enums() {
    let base = "mod w { struct S { a: u8 } enum E { A } }";
    let over = "mod w { use a::b; struct S { b: u16 } enum F { B } }";
    assert_eq!(
        merged(base, over),
        item("mod w { use a::b; struct S { b: u16 } enum E { A } enum F { B } }")
    );
}

#[test]
fn module_names_must_agree_in_sources() {
    let r = merge("mod a { struct S; }", "mod b { struct S; }");
    assert!(matches!(r, Err(SourceError::Merge(MergeError::ModNameDiffered))));
}

#[test]
fn free_function_in_override_is_unsupported() {
    let r = merge("mod m { }", "mod m { fn free() {} }");
    assert!(matches!(r, Err(SourceError::Merge(MergeError::Unsupported))));
}

#[test]
fn constant_in_base_impl_is_unsupported() {
    let r = merge("mod m { impl A { const C: u8 = 1; fn f() {} } }", "mod m { impl A { fn f() {} } }");
    assert!(matches!(r, Err(SourceError::Merge(MergeError::Unsupported))));
}

#[test]
fn empty_base_file_is_refused() {
    let r = merge("", "mod m { }");
    assert!(matches!(r, Err(SourceError::Merge(MergeError::EmptyBase))));
}

#[test]
fn bodiless_override_is_refused() {
    let r = merge("mod m { }", "mod m;");
    assert!(matches!(r, Err(SourceError::Merge(MergeError::MissingContent))));
}

#[test]
fn base_that_does_not_parse_reports_compile_error() {
    match merge("mod m { } 5", "mod m { }") {
        Err(SourceError::Parse(e)) => assert!(e.to_string().contains("compile_error")),
        other => panic!("{:?}", other),
    }
}

#[test]
fn base_item_failing_inside_its_body_leaves_no_items() {
    let r = merge("mod m { struct }", "mod m { }");
    assert!(matches!(r, Err(SourceError::Merge(MergeError::EmptyBase))));
}

#[test]
fn override_that_does_not_parse_reports_compile_error() {
    match merge("mod m { }", "mod m { struct }") {
        Err(SourceError::Parse(e)) => assert!(e.to_string().contains("compile_error")),
        other => panic!("{:?}", other),
    }
}

#[test]
fn tokens_left_unread_in_base_are_refused() {
    match merge("#![allow(dead_code)] mod m { }", "mod m { }") {
        Err(SourceError::Parse(e)) => {
            let e = e.to_string();
            assert!(e.contains("compile_error"));
            assert!(e.contains("unexpected token"));
        }
        other => panic!("{:?}", other),
    }
}

#[test]
fn base_items_are_read_until_one_fails() {
    assert_eq!(merged("mod m { struct S; } fn f()", "mod m { }"), item("mod m { struct S; }"));
}

#[test]
fn last_base_item_is_returned_when_not_a_module() {
    assert_eq!(merged("mod m { } struct Last;", "mod m { }"), item("struct Last;"));
}

#[test]
fn last_base_item_is_returned_when_override_is_not_a_module() {
    assert_eq!(merged("struct A; mod m { struct B; }", "struct C;"), item("mod m { struct B; }"));
}

#[test]
fn inner_attributes_of_a_body_stay_in_it() {
    let base = "mod m { impl S { fn f() { #![allow(unused)] let x = 1; } fn g() {} } }";
    assert_eq!(merged(base, "mod m { }"), item(base));
    assert_eq!(
        merged(base, "mod m { impl S { fn g() { #![inline] h() } } }"),
        item("mod m { impl S { fn f() { #![allow(unused)] let x = 1; } fn g() { #![inline] h() } } }")
    );
}

#[test]
fn raw_name_cannot_be_kept_under_super_name() {
    let base = "mod w { impl A { fn r#match() {} } }";
    let over = "mod w { impl A { #[needs_super] fn r#match() { x() } } }";
    assert!(matches!(merge(base, over), Err(SourceError::Unprintable)));
}

#[test]
fn raw_name_is_kept_when_not_renamed() {
    let base = "mod w { impl A { fn r#match() {} } }";
    let over = "mod w { impl A { fn r#match() { x() } } }";
    assert_eq!(merged(base, over), item("mod w { impl A { fn r#match() { x() } } }"));
}

#[test]
fn module_attributes_and_bodiless_base() {
    assert_eq!(merged("#[cfg(x)] mod m;", "mod m { }"), item("#[cfg(x)] mod m;"));
    let r = merge("mod m;", "mod m { struct S; }");
    assert!(matches!(r, Err(SourceError::Merge(MergeError::MissingContent))));
}

#[test]
fn merging_sources_twice_changes_nothing() {
    let base = "mod w { struct A; impl A { fn f() -> u8 { 1 } fn g() {} } trait Tr { fn t(&self); } }";
    let over = "mod w { impl A { fn f() -> u8 { 2 } } trait Tr { fn t(&self) { } } struct B; }";
    let once = merge(base, over).unwrap();
    let twice = merge_sources(once.clone(), ts(over)).unwrap();
    let once: syn::Item = syn::parse2(once).unwrap();
    let twice: syn::Item = syn::parse2(twice).unwrap();
    assert_eq!(twice, once);
}

#[test]
fn kept_function_with_a_raw_name_is_the_only_failure_to_print() {
    let base = "mod w { impl A { fn r#match() {} fn g() {} } }";
    let over = "mod w { impl A { #[needs_super] fn g() { x() } } }";
    assert_eq!(
        merged(base, over),
        item("mod w { impl A { fn r#match() {} fn g() { x() } fn _super_g() {} } }")
    );
}
