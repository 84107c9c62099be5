//! The calls into the `syn` parser that the source merge makes.
//!
//! Parsed values stay `syn` values: the functions here parse token streams,
//! read the names and kinds that the merge needs, take the members out of an
//! item and put them back, and print an item as tokens. What the parser makes
//! of its input is not restated here, but for one fact: a function is renamed
//! exactly where its new name parses as an identifier (`is_ident`). The
//! merge's own decisions are taken in verified code over what these
//! functions read.

use quote::ToTokens;
use vstd::prelude::*;

verus! {

#[verifier::external_type_specification]
#[verifier::external_body]
pub struct ExTokenStream(proc_macro2::TokenStream);

#[verifier::external_type_specification]
#[verifier::external_body]
pub struct ExItem(syn::Item);

#[verifier::external_type_specification]
#[verifier::external_body]
pub struct ExImplItem(syn::ImplItem);

#[verifier::external_type_specification]
#[verifier::external_body]
pub struct ExTraitItem(syn::TraitItem);

#[verifier::external_type_specification]
#[verifier::external_body]
pub struct ExImplItemFn(syn::ImplItemFn);

#[verifier::external_type_specification]
#[verifier::external_body]
pub struct ExTraitItemFn(syn::TraitItemFn);

#[verifier::external_type_specification]
#[verifier::external_body]
pub struct ExAttribute(syn::Attribute);

#[verifier::external_type_specification]
#[verifier::external_body]
pub struct ExParseBuffer<'a>(syn::parse::ParseBuffer<'a>);

/// What the merge reads of a parsed item: its kind and its name, and for an
/// impl block whether it implements a trait.
#[derive(Debug, PartialEq, Eq)]
pub enum ItemHead {
    Impl { is_trait_impl: bool },
    Use,
    Enum(String),
    Struct(String),
    Trait(String),
    Mod(String),
    /// Any other kind of item.
    Other,
}

/// `proc_macro2::TokenStream::into_iter` on a copy of `tokens`: the number
/// of token trees at its top level.
#[verifier::external_body]
pub(crate) fn token_tree_count(tokens: &proc_macro2::TokenStream) -> (n: usize) {
    tokens.clone().into_iter().count()
}

/// `syn::parse::ParseBuffer::parse::<syn::Item>`: the next item of `input`,
/// or `None` where none parses there.
#[verifier::external_body]
pub(crate) fn next_item(input: &syn::parse::ParseBuffer<'_>) -> (item: Option<syn::Item>) {
    input.parse::<syn::Item>().ok()
}

/// `syn::parse::Parser::parse2` with `item_list` as the parser: the items
/// that parse one after another from the start of `tokens` (`bound` is the
/// number of token trees in `tokens`); where tokens are left unread, the
/// parser's error as a `compile_error!` invocation.
#[verifier::external_body]
pub(crate) fn parse_items(tokens: proc_macro2::TokenStream, bound: usize) -> (r: Result<Vec<syn::Item>, proc_macro2::TokenStream>) {
    let parser = |input: syn::parse::ParseStream<'_>| Ok(item_list(input, bound));
    match syn::parse::Parser::parse2(parser, tokens) {
        Ok(items) => Ok(items),
        Err(e) => Err(e.to_compile_error()),
    }
}

/// Parses items from `input` until one fails to parse. Each item takes at
/// least one token tree, so where `bound` counts the token trees of the input
/// the parser fails before `bound + 1` items have been read.
fn item_list(input: &syn::parse::ParseBuffer<'_>, bound: usize) -> (items: Vec<syn::Item>)
    ensures
        items@.len() <= bound + 1,
{
    let mut items: Vec<syn::Item> = Vec::new();
    while items.len() <= bound
        invariant
            items@.len() <= bound + 1,
        decreases bound + 1 - items@.len(),
    {
        match next_item(input) {
            Some(item) => items.push(item),
            None => break,
        }
    }
    items
}

/// `syn::parse2::<syn::Item>`: the one item that `tokens` holds, or the
/// parser's error as a `compile_error!` invocation.
#[verifier::external_body]
pub(crate) fn parse_item(tokens: proc_macro2::TokenStream) -> (r: Result<syn::Item, proc_macro2::TokenStream>) {
    match syn::parse2::<syn::Item>(tokens) {
        Ok(item) => Ok(item),
        Err(e) => Err(e.to_compile_error()),
    }
}

/// The variant of a `syn::Item`, the name (`Ident::to_string`) of an enum,
/// struct, trait or module, and whether an impl block has a trait
/// (`trait_`).
#[verifier::external_body]
pub(crate) fn item_head(item: &syn::Item) -> (h: ItemHead) {
    match item {
        syn::Item::Impl(i) => ItemHead::Impl { is_trait_impl: i.trait_.is_some() },
        syn::Item::Use(_) => ItemHead::Use,
        syn::Item::Enum(e) => ItemHead::Enum(e.ident.to_string()),
        syn::Item::Struct(s) => ItemHead::Struct(s.ident.to_string()),
        syn::Item::Trait(t) => ItemHead::Trait(t.ident.to_string()),
        syn::Item::Mod(m) => ItemHead::Mod(m.ident.to_string()),
        _ => ItemHead::Other,
    }
}

/// `PartialEq::eq` on the `self_ty` (`syn::Type`) of two impl blocks; false
/// where either item is not an impl block.
#[verifier::external_body]
pub(crate) fn same_impl_type(a: &syn::Item, b: &syn::Item) -> (same: bool) {
    match (a, b) {
        (syn::Item::Impl(x), syn::Item::Impl(y)) => x.self_ty == y.self_ty,
        _ => false,
    }
}

/// `std::mem::take` on the `items` of a `syn::ItemImpl`: the members of an
/// impl block, taken out of it (none out of other items).
#[verifier::external_body]
pub(crate) fn take_impl_members(item: &mut syn::Item) -> (members: Vec<syn::ImplItem>) {
    match item {
        syn::Item::Impl(i) => std::mem::take(&mut i.items),
        _ => Vec::new(),
    }
}

/// Sets the `items` of a `syn::ItemImpl` to `members`.
#[verifier::external_body]
pub(crate) fn put_impl_members(item: &mut syn::Item, members: Vec<syn::ImplItem>) {
    if let syn::Item::Impl(i) = item {
        i.items = members;
    }
}

/// `std::mem::take` on the `items` of a `syn::ItemTrait`: the members of a
/// trait, taken out of it (none out of other items).
#[verifier::external_body]
pub(crate) fn take_trait_members(item: &mut syn::Item) -> (members: Vec<syn::TraitItem>) {
    match item {
        syn::Item::Trait(t) => std::mem::take(&mut t.items),
        _ => Vec::new(),
    }
}

/// Sets the `items` of a `syn::ItemTrait` to `members`.
#[verifier::external_body]
pub(crate) fn put_trait_members(item: &mut syn::Item, members: Vec<syn::TraitItem>) {
    if let syn::Item::Trait(t) = item {
        t.items = members;
    }
}

/// `std::mem::take` on the items in the `content` of a `syn::ItemMod`: the
/// items of a module with a body, taken out of it; `None` for `mod name;` and
/// for other items.
#[verifier::external_body]
pub(crate) fn take_mod_items(item: &mut syn::Item) -> (items: Option<Vec<syn::Item>>) {
    match item {
        syn::Item::Mod(syn::ItemMod { content: Some((_, items)), .. }) => Some(std::mem::take(items)),
        _ => None,
    }
}

/// Sets the items in the `content` of a `syn::ItemMod` with a body to `items`.
#[verifier::external_body]
pub(crate) fn put_mod_items(item: &mut syn::Item, items: Vec<syn::Item>) {
    if let syn::Item::Mod(syn::ItemMod { content: Some((_, body)), .. }) = item {
        *body = items;
    }
}

/// `syn::ImplItem::Fn`: a function member of an impl block as its function,
/// or any other member as it was.
#[verifier::external_body]
pub(crate) fn split_impl_member(member: syn::ImplItem) -> (r: Result<syn::ImplItemFn, syn::ImplItem>) {
    match member {
        syn::ImplItem::Fn(f) => Ok(f),
        other => Err(other),
    }
}

/// `syn::ImplItem::Fn(f)`.
#[verifier::external_body]
pub(crate) fn impl_member_of_fn(f: syn::ImplItemFn) -> (member: syn::ImplItem) {
    syn::ImplItem::Fn(f)
}

/// The name of the signature of a `syn::ImplItemFn` (`Ident::to_string`).
#[verifier::external_body]
pub(crate) fn impl_fn_name(f: &syn::ImplItemFn) -> (name: String) {
    f.sig.ident.to_string()
}

/// `std::mem::take` on the `attrs` of a `syn::ImplItemFn`: its attributes,
/// outer and inner, taken out of it.
#[verifier::external_body]
pub(crate) fn take_impl_fn_attrs(f: &mut syn::ImplItemFn) -> (attrs: Vec<syn::Attribute>) {
    std::mem::take(&mut f.attrs)
}

/// Sets the `attrs` of a `syn::ImplItemFn` to `attrs`.
#[verifier::external_body]
pub(crate) fn put_impl_fn_attrs(f: &mut syn::ImplItemFn, attrs: Vec<syn::Attribute>) {
    f.attrs = attrs;
}

/// Whether `syn::parse_str::<syn::Ident>` accepts `text`: one identifier
/// that is not a keyword.
pub uninterp spec fn is_ident(text: Seq<char>) -> bool;

/// `syn::parse_str::<syn::Ident>(name)` made the name of the signature of a
/// `syn::ImplItemFn`; true exactly where `name` parses as an identifier.
#[verifier::external_body]
pub(crate) fn rename_impl_fn(f: &mut syn::ImplItemFn, name: &str) -> (renamed: bool)
    ensures
        renamed == is_ident(name@),
{
    match syn::parse_str::<syn::Ident>(name) {
        Ok(ident) => {
            f.sig.ident = ident;
            true
        },
        Err(_) => false,
    }
}

/// `syn::TraitItem::Fn`: a function member of a trait as its function, or
/// any other member as it was.
#[verifier::external_body]
pub(crate) fn split_trait_member(member: syn::TraitItem) -> (r: Result<syn::TraitItemFn, syn::TraitItem>) {
    match member {
        syn::TraitItem::Fn(f) => Ok(f),
        other => Err(other),
    }
}

/// `syn::TraitItem::Fn(f)`.
#[verifier::external_body]
pub(crate) fn trait_member_of_fn(f: syn::TraitItemFn) -> (member: syn::TraitItem) {
    syn::TraitItem::Fn(f)
}

/// The name of the signature of a `syn::TraitItemFn` (`Ident::to_string`).
#[verifier::external_body]
pub(crate) fn trait_fn_name(f: &syn::TraitItemFn) -> (name: String) {
    f.sig.ident.to_string()
}

/// `std::mem::take` on the `attrs` of a `syn::TraitItemFn`: its attributes,
/// outer and inner, taken out of it.
#[verifier::external_body]
pub(crate) fn take_trait_fn_attrs(f: &mut syn::TraitItemFn) -> (attrs: Vec<syn::Attribute>) {
    std::mem::take(&mut f.attrs)
}

/// Sets the `attrs` of a `syn::TraitItemFn` to `attrs`.
#[verifier::external_body]
pub(crate) fn put_trait_fn_attrs(f: &mut syn::TraitItemFn, attrs: Vec<syn::Attribute>) {
    f.attrs = attrs;
}

/// `ToTokens::to_token_stream` on the `meta` of a `syn::Attribute` (what
/// stands inside `#[..]`), printed with `to_string`.
#[verifier::external_body]
pub(crate) fn attr_meta(attr: &syn::Attribute) -> (meta: String) {
    attr.meta.to_token_stream().to_string()
}

/// `Clone::clone` of a `syn::Item`.
#[verifier::external_body]
pub(crate) fn clone_item(item: &syn::Item) -> (copy: syn::Item)
    ensures
        vstd::pervasive::cloned(*item, copy),
{
    item.clone()
}

/// `Clone::clone` of a `syn::ImplItem`.
#[verifier::external_body]
pub(crate) fn clone_impl_member(member: &syn::ImplItem) -> (copy: syn::ImplItem)
    ensures
        vstd::pervasive::cloned(*member, copy),
{
    member.clone()
}

/// `Clone::clone` of a `syn::ImplItemFn`.
#[verifier::external_body]
pub(crate) fn clone_impl_fn(f: &syn::ImplItemFn) -> (copy: syn::ImplItemFn)
    ensures
        vstd::pervasive::cloned(*f, copy),
{
    f.clone()
}

/// `Clone::clone` of a `syn::TraitItem`.
#[verifier::external_body]
pub(crate) fn clone_trait_member(member: &syn::TraitItem) -> (copy: syn::TraitItem)
    ensures
        vstd::pervasive::cloned(*member, copy),
{
    member.clone()
}

/// `Clone::clone` of a `syn::TraitItemFn`.
#[verifier::external_body]
pub(crate) fn clone_trait_fn(f: &syn::TraitItemFn) -> (copy: syn::TraitItemFn)
    ensures
        vstd::pervasive::cloned(*f, copy),
{
    f.clone()
}

/// `Clone::clone` of a `syn::Attribute`.
#[verifier::external_body]
pub(crate) fn clone_attr(attr: &syn::Attribute) -> (copy: syn::Attribute)
    ensures
        vstd::pervasive::cloned(*attr, copy),
{
    attr.clone()
}

/// `ToTokens::into_token_stream`: the item printed as tokens.
#[verifier::external_body]
pub(crate) fn item_tokens(item: syn::Item) -> (tokens: proc_macro2::TokenStream) {
    item.into_token_stream()
}

} // verus!
