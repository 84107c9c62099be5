//! Merging a module override into a base module.
//!
//! A base module (the last of a list of parsed items) is patched with the
//! items of an override module of the same name:
//! - each function of an override `impl` block replaces the function of the
//!   same name in the first base `impl` block for the same type that has one;
//!   when the override function carries the attribute `needs_super` (which is
//!   dropped) and the base block is an inherent impl, the replaced function is
//!   kept under the name `_super_<name>` at the end of that block;
//! - each function of an override trait replaces the function of the same name
//!   in every base trait of the same name, each replaced function standing in
//!   for the override in the next trait of that name;
//! - each `use` item is put in front of the base items;
//! - an enum or a struct replaces the first base enum or struct of the same
//!   name, or is added at the end;
//! - any other kind of item, or of member, is not supported.
//!
//! The items are modelled by what the merge reads of them: names, attribute
//! metas, the kind of each item and member, whether an impl block implements a
//! trait, and a key for the implemented type, equal for two blocks exactly when
//! their types are equal. Every item, member and attribute also carries a
//! `node` number by which the caller finds the parsed value again.

use vstd::prelude::*;


verus! {

/// Why a merge cannot be carried out.
#[derive(Clone, Copy, Debug, PartialEq, Eq, Structural)]
pub enum MergeError {
    /// The list of base items is empty.
    EmptyBase,
    /// The override module and the base module have different names.
    ModNameDiffered,
    /// A module without a body (`mod name;`) was met where its items are needed.
    MissingContent,
    /// An item or member of a kind that the merge does not handle.
    Unsupported,
}

/// An attribute, by its meta as written.
#[derive(Clone, Debug, PartialEq, Eq)]
pub struct Attr {
    pub meta: String,
    pub node: u64,
}

/// A function in an impl block or a trait.
#[derive(Clone, Debug, PartialEq, Eq)]
pub struct FnItem {
    pub name: String,
    pub attrs: Vec<Attr>,
    pub node: u64,
}

/// A member of an impl block or of a trait.
#[derive(Clone, Debug, PartialEq, Eq)]
pub enum Member {
    Fn(FnItem),
    /// A constant, a type, a macro or any other member that is not a function.
    Other(u64),
}

/// An impl block.
#[derive(Clone, Debug, PartialEq, Eq)]
pub struct ImplBlock {
    /// Equal for two blocks exactly when their implemented types are equal.
    pub self_ty: u64,
    /// Whether the block implements a trait.
    pub is_trait_impl: bool,
    pub members: Vec<Member>,
    pub node: u64,
}

/// An enum or a struct, by its name.
#[derive(Clone, Debug, PartialEq, Eq)]
pub struct NamedItem {
    pub name: String,
    pub node: u64,
}

/// A trait definition.
#[derive(Clone, Debug, PartialEq, Eq)]
pub struct TraitBlock {
    pub name: String,
    pub members: Vec<Member>,
    pub node: u64,
}

/// An item inside a module.
#[derive(Clone, Debug, PartialEq, Eq)]
pub enum ModItem {
    Impl(ImplBlock),
    Use(u64),
    Enum(NamedItem),
    Struct(NamedItem),
    Trait(TraitBlock),
    /// Any other kind of item (a function, a constant, a nested module, ...).
    Other(u64),
}

/// A module; `content` is `None` for `mod name;`.
#[derive(Clone, Debug, PartialEq, Eq)]
pub struct Module {
    pub name: String,
    pub content: Option<Vec<ModItem>>,
    pub node: u64,
}

/// A top-level item: a module, or anything else.
#[derive(Clone, Debug, PartialEq, Eq)]
pub enum TopItem {
    Mod(Module),
    Other(u64),
}

// ---- mathematical model ------------------------------------------------------

pub struct AttrV {
    pub meta: Seq<char>,
    pub node: u64,
}

pub struct FnItemV {
    pub name: Seq<char>,
    pub attrs: Seq<AttrV>,
    pub node: u64,
}

pub enum MemberV {
    Fn(FnItemV),
    Other(u64),
}

pub struct ImplBlockV {
    pub self_ty: u64,
    pub is_trait_impl: bool,
    pub members: Seq<MemberV>,
    pub node: u64,
}

pub struct NamedItemV {
    pub name: Seq<char>,
    pub node: u64,
}

pub struct TraitBlockV {
    pub name: Seq<char>,
    pub members: Seq<MemberV>,
    pub node: u64,
}

pub enum ItemV {
    Impl(ImplBlockV),
    Use(u64),
    Enum(NamedItemV),
    Struct(NamedItemV),
    Trait(TraitBlockV),
    Other(u64),
}

pub struct ModuleV {
    pub name: Seq<char>,
    pub content: Option<Seq<ItemV>>,
    pub node: u64,
}

pub enum TopItemV {
    Mod(ModuleV),
    Other(u64),
}

impl View for Attr {
    type V = AttrV;

    open spec fn view(&self) -> AttrV {
        AttrV { meta: self.meta@, node: self.node }
    }
}

pub open spec fn attrs_view(s: Seq<Attr>) -> Seq<AttrV> {
    s.map_values(|a: Attr| a@)
}

impl View for FnItem {
    type V = FnItemV;

    open spec fn view(&self) -> FnItemV {
        FnItemV { name: self.name@, attrs: attrs_view(self.attrs@), node: self.node }
    }
}

impl View for Member {
    type V = MemberV;

    open spec fn view(&self) -> MemberV {
        match self {
            Member::Fn(f) => MemberV::Fn(f@),
            Member::Other(n) => MemberV::Other(*n),
        }
    }
}

pub open spec fn members_view(s: Seq<Member>) -> Seq<MemberV> {
    s.map_values(|m: Member| m@)
}

impl View for ImplBlock {
    type V = ImplBlockV;

    open spec fn view(&self) -> ImplBlockV {
        ImplBlockV {
            self_ty: self.self_ty,
            is_trait_impl: self.is_trait_impl,
            members: members_view(self.members@),
            node: self.node,
        }
    }
}

impl View for NamedItem {
    type V = NamedItemV;

    open spec fn view(&self) -> NamedItemV {
        NamedItemV { name: self.name@, node: self.node }
    }
}

impl View for TraitBlock {
    type V = TraitBlockV;

    open spec fn view(&self) -> TraitBlockV {
        TraitBlockV { name: self.name@, members: members_view(self.members@), node: self.node }
    }
}

impl View for ModItem {
    type V = ItemV;

    open spec fn view(&self) -> ItemV {
        match self {
            ModItem::Impl(b) => ItemV::Impl(b@),
            ModItem::Use(n) => ItemV::Use(*n),
            ModItem::Enum(e) => ItemV::Enum(e@),
            ModItem::Struct(s) => ItemV::Struct(s@),
            ModItem::Trait(t) => ItemV::Trait(t@),
            ModItem::Other(n) => ItemV::Other(*n),
        }
    }
}

pub open spec fn items_view(s: Seq<ModItem>) -> Seq<ItemV> {
    s.map_values(|i: ModItem| i@)
}

impl View for Module {
    type V = ModuleV;

    open spec fn view(&self) -> ModuleV {
        ModuleV {
            name: self.name@,
            content: match self.content {
                Some(v) => Some(items_view(v@)),
                None => None,
            },
            node: self.node,
        }
    }
}

impl View for TopItem {
    type V = TopItemV;

    open spec fn view(&self) -> TopItemV {
        match self {
            TopItem::Mod(m) => TopItemV::Mod(m@),
            TopItem::Other(n) => TopItemV::Other(*n),
        }
    }
}

pub open spec fn top_items_view(s: Seq<TopItem>) -> Seq<TopItemV> {
    s.map_values(|t: TopItem| t@)
}

// ---- what the merge does ----------------------------------------------------

/// The attribute that asks to keep the replaced function.
pub open spec fn is_needs_super(a: AttrV) -> bool {
    a.meta == "needs_super"@
}

pub open spec fn has_needs_super(attrs: Seq<AttrV>) -> bool {
    exists|k: int| 0 <= k < attrs.len() && is_needs_super(#[trigger] attrs[k])
}

/// `attrs` without the `needs_super` attributes, in their order.
pub open spec fn without_needs_super(attrs: Seq<AttrV>) -> Seq<AttrV>
    decreases attrs.len(),
{
    if attrs.len() == 0 {
        attrs
    } else {
        let rest = without_needs_super(attrs.drop_last());
        if is_needs_super(attrs.last()) {
            rest
        } else {
            rest.push(attrs.last())
        }
    }
}

proof fn lemma_without_needs_super_concat(s: Seq<AttrV>, t: Seq<AttrV>)
    ensures
        without_needs_super(s + t) == without_needs_super(s) + without_needs_super(t),
    decreases t.len(),
{
    if t.len() == 0 {
        assert(s + t =~= s);
        assert(without_needs_super(s) + without_needs_super(t) =~= without_needs_super(s));
    } else {
        lemma_without_needs_super_concat(s, t.drop_last());
        assert((s + t).drop_last() =~= s + t.drop_last());
        assert((s + t).last() == t.last());
        let w = without_needs_super(s);
        let wt = without_needs_super(t.drop_last());
        if !is_needs_super(t.last()) {
            assert(w + wt.push(t.last()) =~= (w + wt).push(t.last()));
        }
    }
}

/// Dropping the `needs_super` attributes keeps every other attribute, in
/// its order: an attribute whose meta is `needs_super` is dropped, any other
/// is kept, and a sequence is treated piece by piece. One of the attributes
/// is `needs_super` exactly where some attribute has that meta.
pub proof fn law_only_needs_super_is_dropped(s: Seq<AttrV>, t: Seq<AttrV>, a: AttrV)
    ensures
        without_needs_super(s + t) == without_needs_super(s) + without_needs_super(t),
        without_needs_super(seq![a]) == (if a.meta == "needs_super"@ { Seq::<AttrV>::empty() } else { seq![a] }),
        has_needs_super(s) <==> exists|k: int| 0 <= k < s.len() && (#[trigger] s[k]).meta == "needs_super"@,
{
    lemma_without_needs_super_concat(s, t);
    let one = seq![a];
    assert(one.drop_last() =~= Seq::<AttrV>::empty());
    assert(one.last() == a);
    assert(without_needs_super(one.drop_last()) == Seq::<AttrV>::empty());
    if a.meta != "needs_super"@ {
        assert(Seq::<AttrV>::empty().push(a) =~= one);
    }
    if has_needs_super(s) {
        let k = choose|k: int| 0 <= k < s.len() && is_needs_super(#[trigger] s[k]);
        assert(s[k].meta == "needs_super"@);
    }
    if exists|k: int| 0 <= k < s.len() && (#[trigger] s[k]).meta == "needs_super"@ {
        let k = choose|k: int| 0 <= k < s.len() && (#[trigger] s[k]).meta == "needs_super"@;
        assert(is_needs_super(s[k]));
    }
}

/// The name under which a replaced function is kept.
pub open spec fn super_name(name: Seq<char>) -> Seq<char> {
    "_super_"@ + name
}

/// Scans `ms` from position `j` for the function named `name`: the first
/// member that is not a function before it makes the scan fail.
pub open spec fn scan_members(ms: Seq<MemberV>, name: Seq<char>, j: nat) -> Result<Option<nat>, MergeError>
    decreases ms.len() - j,
{
    if j >= ms.len() {
        Ok(None)
    } else {
        match ms[j as int] {
            MemberV::Other(_) => Err(MergeError::Unsupported),
            MemberV::Fn(f) => if f.name == name {
                Ok(Some(j))
            } else {
                scan_members(ms, name, j + 1)
            },
        }
    }
}

/// Scans the impl blocks for type `ty` from item `i` on, and their members in
/// order, for the function named `name`: the item and member where it stands.
pub open spec fn scan_impls(content: Seq<ItemV>, ty: u64, name: Seq<char>, i: nat) -> Result<Option<(nat, nat)>, MergeError>
    decreases content.len() - i,
{
    if i >= content.len() {
        Ok(None)
    } else {
        match content[i as int] {
            ItemV::Impl(b) => if b.self_ty == ty {
                match scan_members(b.members, name, 0) {
                    Err(e) => Err(e),
                    Ok(Some(j)) => Ok(Some((i, j))),
                    Ok(None) => scan_impls(content, ty, name, i + 1),
                }
            } else {
                scan_impls(content, ty, name, i + 1)
            },
            _ => scan_impls(content, ty, name, i + 1),
        }
    }
}

/// Impl block `b` with its function at `j` replaced by `f`.
pub open spec fn override_in_impl(b: ImplBlockV, j: nat, f: FnItemV) -> ImplBlockV {
    let replaced = match b.members[j as int] {
        MemberV::Fn(g) => g,
        MemberV::Other(_) => f,
    };
    let placed = FnItemV { name: f.name, attrs: without_needs_super(f.attrs), node: f.node };
    let members = b.members.update(j as int, MemberV::Fn(placed));
    let members = if has_needs_super(f.attrs) && !b.is_trait_impl {
        members.push(MemberV::Fn(FnItemV { name: super_name(f.name), attrs: replaced.attrs, node: replaced.node }))
    } else {
        members
    };
    ImplBlockV { self_ty: b.self_ty, is_trait_impl: b.is_trait_impl, members, node: b.node }
}

/// The effect of override function `f` of an impl block for type `ty`.
pub open spec fn apply_impl_fn(content: Seq<ItemV>, ty: u64, f: FnItemV) -> Result<Seq<ItemV>, MergeError> {
    match scan_impls(content, ty, f.name, 0) {
        Err(e) => Err(e),
        Ok(None) => Ok(content),
        Ok(Some((i, j))) => match content[i as int] {
            ItemV::Impl(b) => Ok(content.update(i as int, ItemV::Impl(override_in_impl(b, j, f)))),
            _ => Ok(content),
        },
    }
}

/// The effect of the members `ms` of an override impl block for type `ty`.
pub open spec fn apply_impl_members(content: Seq<ItemV>, ty: u64, ms: Seq<MemberV>) -> Result<Seq<ItemV>, MergeError>
    decreases ms.len(),
{
    if ms.len() == 0 {
        Ok(content)
    } else {
        match ms[0] {
            MemberV::Other(_) => Err(MergeError::Unsupported),
            MemberV::Fn(f) => match apply_impl_fn(content, ty, f) {
                Err(e) => Err(e),
                Ok(c) => apply_impl_members(c, ty, ms.drop_first()),
            },
        }
    }
}

/// Replaces, from item `i` on, the function named `name` in every trait named
/// `trait_name`: each trait receives `carried`, and the function it held is
/// carried on to the next trait of that name.
pub open spec fn trait_pass(content: Seq<ItemV>, trait_name: Seq<char>, name: Seq<char>, carried: FnItemV, i: nat) -> Result<Seq<ItemV>, MergeError>
    decreases content.len() - i,
{
    if i >= content.len() {
        Ok(content)
    } else {
        match content[i as int] {
            ItemV::Trait(t) => if t.name == trait_name {
                match scan_members(t.members, name, 0) {
                    Err(e) => Err(e),
                    Ok(None) => trait_pass(content, trait_name, name, carried, i + 1),
                    Ok(Some(j)) => {
                        let held = match t.members[j as int] {
                            MemberV::Fn(g) => g,
                            MemberV::Other(_) => carried,
                        };
                        let t2 = TraitBlockV { name: t.name, members: t.members.update(j as int, MemberV::Fn(carried)), node: t.node };
                        trait_pass(content.update(i as int, ItemV::Trait(t2)), trait_name, name, held, i + 1)
                    },
                }
            } else {
                trait_pass(content, trait_name, name, carried, i + 1)
            },
            _ => trait_pass(content, trait_name, name, carried, i + 1),
        }
    }
}

/// The effect of the members `ms` of an override trait named `trait_name`.
pub open spec fn apply_trait_members(content: Seq<ItemV>, trait_name: Seq<char>, ms: Seq<MemberV>) -> Result<Seq<ItemV>, MergeError>
    decreases ms.len(),
{
    if ms.len() == 0 {
        Ok(content)
    } else {
        match ms[0] {
            MemberV::Other(_) => Err(MergeError::Unsupported),
            MemberV::Fn(f) => match trait_pass(content, trait_name, f.name, f, 0) {
                Err(e) => Err(e),
                Ok(c) => apply_trait_members(c, trait_name, ms.drop_first()),
            },
        }
    }
}

/// Whether `item` is a struct (`is_struct`) or an enum (otherwise) named `name`.
pub open spec fn is_named(item: ItemV, is_struct: bool, name: Seq<char>) -> bool {
    match item {
        ItemV::Struct(s) => is_struct && s.name == name,
        ItemV::Enum(e) => !is_struct && e.name == name,
        _ => false,
    }
}

/// The first position from `i` on that holds a struct or enum named `name`.
pub open spec fn find_named(content: Seq<ItemV>, is_struct: bool, name: Seq<char>, i: nat) -> Option<nat>
    decreases content.len() - i,
{
    if i >= content.len() {
        None
    } else if is_named(content[i as int], is_struct, name) {
        Some(i)
    } else {
        find_named(content, is_struct, name, i + 1)
    }
}

/// Puts `item`, a struct or an enum named `name`, in place of the first one of
/// that kind and name, or at the end.
pub open spec fn replace_or_push(content: Seq<ItemV>, is_struct: bool, name: Seq<char>, item: ItemV) -> Seq<ItemV> {
    match find_named(content, is_struct, name, 0) {
        Some(i) => content.update(i as int, item),
        None => content.push(item),
    }
}

/// The effect of one item of the override module.
pub open spec fn apply_item(content: Seq<ItemV>, item: ItemV) -> Result<Seq<ItemV>, MergeError> {
    match item {
        ItemV::Impl(b) => apply_impl_members(content, b.self_ty, b.members),
        ItemV::Use(n) => Ok(seq![ItemV::Use(n)] + content),
        ItemV::Enum(e) => Ok(replace_or_push(content, false, e.name, item)),
        ItemV::Struct(s) => Ok(replace_or_push(content, true, s.name, item)),
        ItemV::Trait(t) => apply_trait_members(content, t.name, t.members),
        ItemV::Other(_) => Err(MergeError::Unsupported),
    }
}

/// The effect of the items of the override module, in order.
pub open spec fn merge_items(content: Seq<ItemV>, items: Seq<ItemV>) -> Result<Seq<ItemV>, MergeError>
    decreases items.len(),
{
    if items.len() == 0 {
        Ok(content)
    } else {
        match apply_item(content, items[0]) {
            Err(e) => Err(e),
            Ok(c) => merge_items(c, items.drop_first()),
        }
    }
}

/// The merge into a base module without a body: it succeeds only while no
/// item needs the base items; the first item that does, or that is of a kind
/// that is not supported, decides the error.
pub open spec fn merge_into_bodiless(items: Seq<ItemV>) -> Result<(), MergeError>
    decreases items.len(),
{
    if items.len() == 0 {
        Ok(())
    } else {
        let first_member = match items[0] {
            ItemV::Impl(b) => if b.members.len() == 0 { None } else { Some(b.members[0]) },
            ItemV::Trait(t) => if t.members.len() == 0 { None } else { Some(t.members[0]) },
            _ => None,
        };
        match items[0] {
            ItemV::Impl(_) | ItemV::Trait(_) => match first_member {
                None => merge_into_bodiless(items.drop_first()),
                Some(MemberV::Other(_)) => Err(MergeError::Unsupported),
                Some(MemberV::Fn(_)) => Err(MergeError::MissingContent),
            },
            ItemV::Other(_) => Err(MergeError::Unsupported),
            _ => Err(MergeError::MissingContent),
        }
    }
}

/// What merging override `module` into the last of the `base` items gives.
/// When either is not a module, the last base item comes back unchanged.
pub open spec fn merged_module(base: Seq<TopItemV>, module: TopItemV) -> Result<TopItemV, MergeError> {
    if base.len() == 0 {
        Err(MergeError::EmptyBase)
    } else {
        match (module, base.last()) {
            (TopItemV::Mod(m), TopItemV::Mod(b)) => if m.name != b.name {
                Err(MergeError::ModNameDiffered)
            } else {
                match m.content {
                    None => Err(MergeError::MissingContent),
                    Some(items) => match b.content {
                        None => match merge_into_bodiless(items) {
                            Err(e) => Err(e),
                            Ok(_) => Ok(base.last()),
                        },
                        Some(c) => match merge_items(c, items) {
                            Err(e) => Err(e),
                            Ok(c2) => Ok(TopItemV::Mod(ModuleV { name: b.name, content: Some(c2), node: b.node })),
                        },
                    },
                }
            },
            _ => Ok(base.last()),
        }
    }
}

// ---- the merge --------------------------------------------------------------

/// Whether `a` is the `needs_super` attribute.
fn attr_is_needs_super(a: &Attr) -> (b: bool)
    ensures
        b == is_needs_super(a@),
{
    let key = String::from_str("needs_super");
    a.meta == key
}

/// Splits the attributes of an override function into whether one of them is
/// `needs_super` and the others, in their order.
fn split_needs_super(attrs: Vec<Attr>) -> (r: (bool, Vec<Attr>))
    ensures
        r.0 == has_needs_super(attrs_view(attrs@)),
        attrs_view(r.1@) == without_needs_super(attrs_view(attrs@)),
{
    let ghost all = attrs_view(attrs@);
    let mut found = false;
    let mut kept: Vec<Attr> = Vec::new();
    let mut rest = attrs;
    let mut k: usize = 0;
    let ghost n = all.len();
    assert(n == attrs.len());
    while rest.len() > 0
        invariant
            k + rest@.len() == n,
            attrs_view(rest@) == all.skip(k as int),
            found == has_needs_super(all.take(k as int)),
            attrs_view(kept@) == without_needs_super(all.take(k as int)),
            n == all.len(),
            n <= usize::MAX,
        decreases rest.len(),
    {
        let ghost old_rest = rest@;
        let a = rest.remove(0);
        let ghost av = a@;
        assert(av == all[k as int]) by {
            assert(attrs_view(old_rest)[0] == old_rest[0]@);
            assert(all.skip(k as int)[0] == all[k as int]);
        }
        assert(all.take(k as int + 1).drop_last() =~= all.take(k as int));
        assert(all.take(k as int + 1).last() == av);
        assert(attrs_view(rest@) =~= all.skip(k as int + 1)) by {
            assert(rest@ =~= old_rest.drop_first());
            assert forall|x: int| 0 <= x < rest@.len() implies attrs_view(rest@)[x] == all.skip(k as int + 1)[x] by {
                assert(attrs_view(old_rest)[x + 1] == all.skip(k as int)[x + 1]);
            }
        }
        if attr_is_needs_super(&a) {
            found = true;
            assert(has_needs_super(all.take(k as int + 1))) by {
                assert(is_needs_super(all.take(k as int + 1)[k as int]));
            }
        } else {
            let ghost before = kept@;
            kept.push(a);
            assert(attrs_view(kept@) =~= attrs_view(before).push(av));
            assert(has_needs_super(all.take(k as int + 1)) == found) by {
                if found {
                    let w = choose|w: int| 0 <= w < k && is_needs_super(#[trigger] all.take(k as int)[w]);
                    assert(is_needs_super(all.take(k as int + 1)[w]));
                }
                if has_needs_super(all.take(k as int + 1)) {
                    let w = choose|w: int| 0 <= w < k + 1 && is_needs_super(#[trigger] all.take(k as int + 1)[w]);
                    if w < k {
                        assert(is_needs_super(all.take(k as int)[w]));
                    }
                }
            }
        }
        k = k + 1;
    }
    assert(all.take(n as int) =~= all);
    (found, kept)
}

pub open spec fn index_result(r: Result<Option<usize>, MergeError>) -> Result<Option<nat>, MergeError> {
    match r {
        Ok(Some(j)) => Ok(Some(j as nat)),
        Ok(None) => Ok(None),
        Err(e) => Err(e),
    }
}

pub open spec fn slot_result(r: Result<Option<(usize, usize)>, MergeError>) -> Result<Option<(nat, nat)>, MergeError> {
    match r {
        Ok(Some((i, j))) => Ok(Some((i as nat, j as nat))),
        Ok(None) => Ok(None),
        Err(e) => Err(e),
    }
}

/// The position of the function named `name` among `ms`, scanned in order.
fn find_member(ms: &Vec<Member>, name: &String) -> (r: Result<Option<usize>, MergeError>)
    ensures
        index_result(r) == scan_members(members_view(ms@), name@, 0),
        r matches Ok(Some(j)) ==> j < ms@.len() && ms@[j as int] is Fn,
{
    let ghost mv = members_view(ms@);
    let mut j: usize = 0;
    while j < ms.len()
        invariant
            j <= ms@.len(),
            mv == members_view(ms@),
            scan_members(mv, name@, 0) == scan_members(mv, name@, j as nat),
        decreases ms@.len() - j,
    {
        assert(mv[j as int] == ms@[j as int]@);
        match &ms[j] {
            Member::Other(_) => {
                return Err(MergeError::Unsupported);
            },
            Member::Fn(f) => {
                if f.name == *name {
                    return Ok(Some(j));
                }
            },
        }
        j = j + 1;
    }
    Ok(None)
}

/// The item and member where the function named `name` of an impl block for
/// type `ty` stands.
fn find_impl_slot(content: &Vec<ModItem>, ty: u64, name: &String) -> (r: Result<Option<(usize, usize)>, MergeError>)
    ensures
        slot_result(r) == scan_impls(items_view(content@), ty, name@, 0),
        r matches Ok(Some((i, j))) ==> i < content@.len() && (content@[i as int] matches ModItem::Impl(b)
            && j < b.members@.len() && b.members@[j as int] is Fn),
{
    let ghost cv = items_view(content@);
    let mut i: usize = 0;
    while i < content.len()
        invariant
            i <= content@.len(),
            cv == items_view(content@),
            scan_impls(cv, ty, name@, 0) == scan_impls(cv, ty, name@, i as nat),
        decreases content@.len() - i,
    {
        assert(cv[i as int] == content@[i as int]@);
        match &content[i] {
            ModItem::Impl(b) => {
                if b.self_ty == ty {
                    match find_member(&b.members, name) {
                        Err(e) => {
                            return Err(e);
                        },
                        Ok(Some(j)) => {
                            return Ok(Some((i, j)));
                        },
                        Ok(None) => {},
                    }
                }
            },
            _ => {},
        }
        i = i + 1;
    }
    Ok(None)
}

/// Puts override function `f` at member `j` of the impl block at item `i`.
fn override_at(content: &mut Vec<ModItem>, i: usize, j: usize, f: FnItem)
    requires
        i < old(content)@.len(),
        old(content)@[i as int] matches ModItem::Impl(b) && j < b.members@.len() && b.members@[j as int] is Fn,
    ensures
        items_view(final(content)@) == (match items_view(old(content)@)[i as int] {
            ItemV::Impl(b) => items_view(old(content)@).update(i as int, ItemV::Impl(override_in_impl(b, j as nat, f@))),
            _ => items_view(old(content)@),
        }),
{
    let ghost before = items_view(content@);
    let item = content.remove(i);
    assert(before[i as int] == item@);
    match item {
        ModItem::Impl(b) => {
            let ImplBlock { self_ty, is_trait_impl, members, node } = b;
            let ghost bv = ImplBlockV { self_ty, is_trait_impl, members: members_view(members@), node };
            let mut members = members;
            let replaced = members.remove(j);
            assert(bv.members[j as int] == replaced@);
            let FnItem { name, attrs, node: fnode } = f;
            let ghost fv = FnItemV { name: name@, attrs: attrs_view(attrs@), node: fnode };
            let kept_name = String::from_str("_super_").concat(name.as_str());
            let (needs_super, stripped) = split_needs_super(attrs);
            let ghost mid = members@;
            members.insert(j, Member::Fn(FnItem { name, attrs: stripped, node: fnode }));
            let ghost placed = FnItemV { name: fv.name, attrs: without_needs_super(fv.attrs), node: fv.node };
            assert(members_view(members@) =~= bv.members.update(j as int, MemberV::Fn(placed))) by {
                assert(mid =~= old(content)@[i as int]->Impl_0.members@.remove(j as int));
            }
            if needs_super && !is_trait_impl {
                match replaced {
                    Member::Fn(g) => {
                        let ghost prev = members@;
                        members.push(Member::Fn(FnItem { name: kept_name, attrs: g.attrs, node: g.node }));
                        assert(members_view(members@) =~= members_view(prev).push(
                            MemberV::Fn(FnItemV { name: super_name(fv.name), attrs: g@.attrs, node: g.node }),
                        ));
                    },
                    Member::Other(_) => {},
                }
            }
            let nb = ImplBlock { self_ty, is_trait_impl, members, node };
            assert(nb@ == override_in_impl(bv, j as nat, fv));
            content.insert(i, ModItem::Impl(nb));
            assert(items_view(content@) =~= before.update(i as int, ItemV::Impl(override_in_impl(bv, j as nat, fv))));
        },
        other => {
            content.insert(i, other);
            assert(items_view(content@) =~= before);
        },
    }
}

/// Whether a step that left `after` behind with outcome `r` did what
/// `expected` says: on success the items are the expected ones, and an error
/// is the expected error.
pub open spec fn step_matches(r: Result<(), MergeError>, after: Seq<ItemV>, expected: Result<Seq<ItemV>, MergeError>) -> bool {
    match expected {
        Ok(c) => r is Ok && after == c,
        Err(e) => r == Err::<(), MergeError>(e),
    }
}

/// Applies override function `f` of an impl block for type `ty`.
fn merge_impl_fn(content: &mut Vec<ModItem>, ty: u64, f: FnItem) -> (r: Result<(), MergeError>)
    ensures
        step_matches(r, items_view(final(content)@), apply_impl_fn(items_view(old(content)@), ty, f@)),
{
    match find_impl_slot(content, ty, &f.name) {
        Err(e) => Err(e),
        Ok(None) => Ok(()),
        Ok(Some((i, j))) => {
            override_at(content, i, j, f);
            Ok(())
        },
    }
}

/// Dropping the first member drops the first element of the members' view.
proof fn lemma_members_drop_first(before: Seq<Member>, after: Seq<Member>)
    requires
        before.len() > 0,
        after == before.remove(0),
    ensures
        members_view(after) =~= members_view(before).drop_first(),
        members_view(before)[0] == before[0]@,
{
}

/// Applies the members of an override impl block for type `ty`, in order.
fn merge_impl_members(content: &mut Vec<ModItem>, ty: u64, members: Vec<Member>) -> (r: Result<(), MergeError>)
    ensures
        step_matches(r, items_view(final(content)@), apply_impl_members(items_view(old(content)@), ty, members_view(members@))),
{
    let ghost expected = apply_impl_members(items_view(content@), ty, members_view(members@));
    let mut rest = members;
    while rest.len() > 0
        invariant
            expected == apply_impl_members(items_view(old(content)@), ty, members_view(members@)),
            expected == apply_impl_members(items_view(content@), ty, members_view(rest@)),
        decreases rest.len(),
    {
        let ghost before = rest@;
        let m = rest.remove(0);
        proof {
            lemma_members_drop_first(before, rest@);
        }
        match m {
            Member::Other(_) => {
                return Err(MergeError::Unsupported);
            },
            Member::Fn(f) => {
                match merge_impl_fn(content, ty, f) {
                    Err(e) => {
                        return Err(e);
                    },
                    Ok(()) => {},
                }
            },
        }
    }
    Ok(())
}

/// Puts `carried` at member `j` of the trait at item `i` and hands back the
/// function that stood there.
fn swap_trait_fn(content: &mut Vec<ModItem>, i: usize, j: usize, carried: FnItem) -> (held: FnItem)
    requires
        i < old(content)@.len(),
        old(content)@[i as int] matches ModItem::Trait(t) && j < t.members@.len() && t.members@[j as int] is Fn,
    ensures
        match items_view(old(content)@)[i as int] {
            ItemV::Trait(t) => {
                &&& t.members[j as int] == MemberV::Fn(held@)
                &&& items_view(final(content)@) == items_view(old(content)@).update(
                    i as int,
                    ItemV::Trait(TraitBlockV { name: t.name, members: t.members.update(j as int, MemberV::Fn(carried@)), node: t.node }),
                )
            },
            _ => false,
        },
{
    let ghost before = items_view(content@);
    let item = content.remove(i);
    assert(before[i as int] == item@);
    match item {
        ModItem::Trait(t) => {
            let TraitBlock { name, members, node } = t;
            let ghost tv = TraitBlockV { name: name@, members: members_view(members@), node };
            let mut members = members;
            let m = members.remove(j);
            assert(tv.members[j as int] == m@);
            let ghost cv = carried@;
            members.insert(j, Member::Fn(carried));
            assert(members_view(members@) =~= tv.members.update(j as int, MemberV::Fn(cv)));
            content.insert(i, ModItem::Trait(TraitBlock { name, members, node }));
            assert(items_view(content@) =~= before.update(
                i as int,
                ItemV::Trait(TraitBlockV { name: tv.name, members: tv.members.update(j as int, MemberV::Fn(cv)), node: tv.node }),
            ));
            match m {
                Member::Fn(g) => g,
                Member::Other(_) => {
                    proof {
                        assert(false);
                    }
                    FnItem { name: String::new(), attrs: Vec::new(), node: 0 }
                },
            }
        },
        other => {
            proof {
                assert(false);
            }
            content.insert(i, other);
            carried
        },
    }
}

/// Applies override function `f` of a trait named `trait_name` to every base
/// trait of that name.
fn merge_trait_fn(content: &mut Vec<ModItem>, trait_name: &String, f: FnItem) -> (r: Result<(), MergeError>)
    ensures
        step_matches(r, items_view(final(content)@), trait_pass(items_view(old(content)@), trait_name@, f@.name, f@, 0)),
{
    let ghost expected = trait_pass(items_view(content@), trait_name@, f@.name, f@, 0);
    let name = f.name.clone();
    let mut carried = f;
    let mut i: usize = 0;
    while i < content.len()
        invariant
            i <= content@.len(),
            expected == trait_pass(items_view(old(content)@), trait_name@, name@, f@, 0),
            name@ == f@.name,
            expected == trait_pass(items_view(content@), trait_name@, name@, carried@, i as nat),
            content@.len() == old(content)@.len(),
        decreases content@.len() - i,
    {
        let ghost cv = items_view(content@);
        assert(cv[i as int] == content@[i as int]@);
        let hit: Option<usize> = match &content[i] {
            ModItem::Trait(t) => {
                if t.name == *trait_name {
                    match find_member(&t.members, &name) {
                        Err(e) => {
                            return Err(e);
                        },
                        Ok(o) => o,
                    }
                } else {
                    None
                }
            },
            _ => None,
        };
        match hit {
            Some(j) => {
                carried = swap_trait_fn(content, i, j, carried);
            },
            None => {},
        }
        i = i + 1;
    }
    Ok(())
}

/// Applies the members of an override trait named `trait_name`, in order.
fn merge_trait_members(content: &mut Vec<ModItem>, trait_name: &String, members: Vec<Member>) -> (r: Result<(), MergeError>)
    ensures
        step_matches(r, items_view(final(content)@), apply_trait_members(items_view(old(content)@), trait_name@, members_view(members@))),
{
    let ghost expected = apply_trait_members(items_view(content@), trait_name@, members_view(members@));
    let mut rest = members;
    while rest.len() > 0
        invariant
            expected == apply_trait_members(items_view(old(content)@), trait_name@, members_view(members@)),
            expected == apply_trait_members(items_view(content@), trait_name@, members_view(rest@)),
        decreases rest.len(),
    {
        let ghost before = rest@;
        let m = rest.remove(0);
        proof {
            lemma_members_drop_first(before, rest@);
        }
        match m {
            Member::Other(_) => {
                return Err(MergeError::Unsupported);
            },
            Member::Fn(f) => {
                match merge_trait_fn(content, trait_name, f) {
                    Err(e) => {
                        return Err(e);
                    },
                    Ok(()) => {},
                }
            },
        }
    }
    Ok(())
}

/// The first position that holds a struct (`is_struct`) or an enum named `name`.
fn find_named_item(content: &Vec<ModItem>, is_struct: bool, name: &String) -> (r: Option<usize>)
    ensures
        match r {
            Some(i) => find_named(items_view(content@), is_struct, name@, 0) == Some(i as nat) && i < content@.len(),
            None => find_named(items_view(content@), is_struct, name@, 0) is None,
        },
{
    let ghost cv = items_view(content@);
    let mut i: usize = 0;
    while i < content.len()
        invariant
            i <= content@.len(),
            cv == items_view(content@),
            find_named(cv, is_struct, name@, 0) == find_named(cv, is_struct, name@, i as nat),
        decreases content@.len() - i,
    {
        assert(cv[i as int] == content@[i as int]@);
        let hit = match &content[i] {
            ModItem::Struct(s) => is_struct && s.name == *name,
            ModItem::Enum(e) => !is_struct && e.name == *name,
            _ => false,
        };
        if hit {
            return Some(i);
        }
        i = i + 1;
    }
    None
}

/// Puts a struct (`is_struct`) or an enum in place of the first one of the
/// same kind and name, or at the end.
fn put_named(content: &mut Vec<ModItem>, is_struct: bool, named: NamedItem)
    ensures
        items_view(final(content)@) == replace_or_push(
            items_view(old(content)@),
            is_struct,
            named@.name,
            if is_struct { ItemV::Struct(named@) } else { ItemV::Enum(named@) },
        ),
{
    let ghost before = items_view(content@);
    let ghost nv = named@;
    let found = find_named_item(content, is_struct, &named.name);
    let item = if is_struct { ModItem::Struct(named) } else { ModItem::Enum(named) };
    let ghost iv = item@;
    match found {
        Some(i) => {
            let _ = content.remove(i);
            content.insert(i, item);
            assert(items_view(content@) =~= before.update(i as int, iv));
        },
        None => {
            content.push(item);
            assert(items_view(content@) =~= before.push(iv));
        },
    }
}

/// Applies one item of the override module.
fn merge_item(content: &mut Vec<ModItem>, item: ModItem) -> (r: Result<(), MergeError>)
    ensures
        step_matches(r, items_view(final(content)@), apply_item(items_view(old(content)@), item@)),
{
    match item {
        ModItem::Impl(b) => {
            merge_impl_members(content, b.self_ty, b.members)
        },
        ModItem::Use(n) => {
            let ghost before = items_view(content@);
            content.insert(0, ModItem::Use(n));
            assert(items_view(content@) =~= seq![ItemV::Use(n)] + before);
            Ok(())
        },
        ModItem::Enum(e) => {
            put_named(content, false, e);
            Ok(())
        },
        ModItem::Struct(s) => {
            put_named(content, true, s);
            Ok(())
        },
        ModItem::Trait(t) => merge_trait_members(content, &t.name, t.members),
        ModItem::Other(_) => Err(MergeError::Unsupported),
    }
}

/// Dropping the first item drops the first element of the items' view.
proof fn lemma_items_drop_first(before: Seq<ModItem>, after: Seq<ModItem>)
    requires
        before.len() > 0,
        after == before.remove(0),
    ensures
        items_view(after) =~= items_view(before).drop_first(),
        items_view(before)[0] == before[0]@,
{
}

/// Applies the items of the override module, in order.
fn merge_all(content: &mut Vec<ModItem>, items: Vec<ModItem>) -> (r: Result<(), MergeError>)
    ensures
        step_matches(r, items_view(final(content)@), merge_items(items_view(old(content)@), items_view(items@))),
{
    let ghost expected = merge_items(items_view(content@), items_view(items@));
    let mut rest = items;
    while rest.len() > 0
        invariant
            expected == merge_items(items_view(old(content)@), items_view(items@)),
            expected == merge_items(items_view(content@), items_view(rest@)),
        decreases rest.len(),
    {
        let ghost before = rest@;
        let item = rest.remove(0);
        proof {
            lemma_items_drop_first(before, rest@);
        }
        match merge_item(content, item) {
            Err(e) => {
                return Err(e);
            },
            Ok(()) => {},
        }
    }
    Ok(())
}

/// The merge into a base module without a body (see `merge_into_bodiless`).
fn check_bodiless(items: &Vec<ModItem>) -> (r: Result<(), MergeError>)
    ensures
        r == merge_into_bodiless(items_view(items@)),
{
    let ghost iv = items_view(items@);
    assert(iv.skip(0) =~= iv);
    let mut i: usize = 0;
    while i < items.len()
        invariant
            i <= items@.len(),
            iv == items_view(items@),
            merge_into_bodiless(iv) == merge_into_bodiless(iv.skip(i as int)),
        decreases items@.len() - i,
    {
        assert(iv.skip(i as int)[0] == items@[i as int]@);
        assert(iv.skip(i as int).drop_first() =~= iv.skip(i as int + 1));
        let first: Option<&Member> = match &items[i] {
            ModItem::Impl(b) => {
                if b.members.len() == 0 {
                    None
                } else {
                    assert(b@.members[0] == b.members@[0]@);
                    Some(&b.members[0])
                }
            },
            ModItem::Trait(t) => {
                if t.members.len() == 0 {
                    None
                } else {
                    assert(t@.members[0] == t.members@[0]@);
                    Some(&t.members[0])
                }
            },
            ModItem::Other(_) => {
                return Err(MergeError::Unsupported);
            },
            _ => {
                return Err(MergeError::MissingContent);
            },
        };
        match first {
            None => {},
            Some(Member::Other(_)) => {
                return Err(MergeError::Unsupported);
            },
            Some(Member::Fn(_)) => {
                return Err(MergeError::MissingContent);
            },
        }
        i = i + 1;
    }
    assert(iv.skip(i as int).len() == 0);
    Ok(())
}

pub open spec fn merge_result_view(r: Result<TopItem, MergeError>) -> Result<TopItemV, MergeError> {
    match r {
        Ok(t) => Ok(t@),
        Err(e) => Err(e),
    }
}

/// Whether override `module` can be merged into the last of the `base` items.
pub open spec fn mergeable(base: Seq<TopItemV>, module: TopItemV) -> bool {
    merged_module(base, module) is Ok
}

/// Merges override `module` into the last of the `base` items and returns
/// that item. When the override or the last base item is not a module, the
/// last base item comes back unchanged.
pub fn impl_mod(base: Vec<TopItem>, module: TopItem) -> (r: TopItem)
    requires
        mergeable(top_items_view(base@), module@),
    ensures
        merged_module(top_items_view(base@), module@) == Ok::<TopItemV, MergeError>(r@),
{
    match try_impl_mod(base, module) {
        Ok(t) => t,
        Err(e) => {
            proof {
                assert(false);
            }
            TopItem::Other(0)
        },
    }
}

/// Merges as `impl_mod` does where the merge can be carried out, and
/// otherwise ends with the error that says why, leaving the base untouched.
pub fn try_impl_mod(base: Vec<TopItem>, module: TopItem) -> (r: Result<TopItem, MergeError>)
    ensures
        merge_result_view(r) == merged_module(top_items_view(base@), module@),
{
    let ghost bv = top_items_view(base@);
    let mut base = base;
    let ghost before = base@;
    let last = match base.pop() {
        Some(t) => t,
        None => {
            return Err(MergeError::EmptyBase);
        },
    };
    assert(bv.len() > 0 && bv.last() == last@) by {
        assert(bv[bv.len() - 1] == before[before.len() - 1]@);
    }
    match module {
        TopItem::Mod(m) => match last {
            TopItem::Mod(b) => {
                if m.name != b.name {
                    return Err(MergeError::ModNameDiffered);
                }
                let items = match m.content {
                    None => {
                        return Err(MergeError::MissingContent);
                    },
                    Some(items) => items,
                };
                let Module { name, content, node } = b;
                match content {
                    None => {
                        match check_bodiless(&items) {
                            Err(e) => Err(e),
                            Ok(()) => Ok(TopItem::Mod(Module { name, content: None, node })),
                        }
                    },
                    Some(c) => {
                        let mut c = c;
                        match merge_all(&mut c, items) {
                            Err(e) => Err(e),
                            Ok(()) => Ok(TopItem::Mod(Module { name, content: Some(c), node })),
                        }
                    },
                }
            },
            other => Ok(other),
        },
        TopItem::Other(_) => Ok(last),
    }
}

// ---- laws -------------------------------------------------------------------

/// An override module without items leaves the base module as it was.
pub proof fn law_empty_override_changes_nothing(base: Seq<TopItemV>, b: ModuleV, node: u64)
    requires
        base.len() > 0,
        base.last() == TopItemV::Mod(b),
    ensures
        merged_module(base, TopItemV::Mod(ModuleV { name: b.name, content: Some(Seq::empty()), node })) == Ok::<TopItemV, MergeError>(base.last()),
{
    match b.content {
        Some(c) => {
            assert(merge_items(c, Seq::empty()) == Ok::<Seq<ItemV>, MergeError>(c));
            assert(TopItemV::Mod(ModuleV { name: b.name, content: Some(c), node: b.node }) == base.last());
        },
        None => {},
    }
}

pub(crate) proof fn lemma_trait_pass_len(content: Seq<ItemV>, trait_name: Seq<char>, name: Seq<char>, carried: FnItemV, i: nat)
    ensures
        trait_pass(content, trait_name, name, carried, i) matches Ok(c) ==> c.len() == content.len(),
    decreases content.len() - i,
{
    if i < content.len() {
        match content[i as int] {
            ItemV::Trait(t) => if t.name == trait_name {
                match scan_members(t.members, name, 0) {
                    Err(_) => {},
                    Ok(None) => lemma_trait_pass_len(content, trait_name, name, carried, i + 1),
                    Ok(Some(j)) => {
                        let held = match t.members[j as int] {
                            MemberV::Fn(g) => g,
                            MemberV::Other(_) => carried,
                        };
                        let t2 = TraitBlockV { name: t.name, members: t.members.update(j as int, MemberV::Fn(carried)), node: t.node };
                        lemma_trait_pass_len(content.update(i as int, ItemV::Trait(t2)), trait_name, name, held, i + 1);
                    },
                }
            } else {
                lemma_trait_pass_len(content, trait_name, name, carried, i + 1);
            },
            _ => lemma_trait_pass_len(content, trait_name, name, carried, i + 1),
        }
    }
}

proof fn lemma_trait_members_len(content: Seq<ItemV>, trait_name: Seq<char>, ms: Seq<MemberV>)
    ensures
        apply_trait_members(content, trait_name, ms) matches Ok(c) ==> c.len() == content.len(),
    decreases ms.len(),
{
    if ms.len() > 0 {
        match ms[0] {
            MemberV::Other(_) => {},
            MemberV::Fn(f) => {
                lemma_trait_pass_len(content, trait_name, f.name, f, 0);
                match trait_pass(content, trait_name, f.name, f, 0) {
                    Err(_) => {},
                    Ok(c) => lemma_trait_members_len(c, trait_name, ms.drop_first()),
                }
            },
        }
    }
}

proof fn lemma_impl_members_len(content: Seq<ItemV>, ty: u64, ms: Seq<MemberV>)
    ensures
        apply_impl_members(content, ty, ms) matches Ok(c) ==> c.len() == content.len(),
    decreases ms.len(),
{
    if ms.len() > 0 {
        match ms[0] {
            MemberV::Other(_) => {},
            MemberV::Fn(f) => {
                match apply_impl_fn(content, ty, f) {
                    Err(_) => {},
                    Ok(c) => {
                        match scan_impls(content, ty, f.name, 0) {
                            Ok(Some((i, j))) => {
                                lemma_scan_impls_slot(content, ty, f.name, 0, i, j);
                            },
                            _ => {},
                        }
                        assert(c.len() == content.len());
                        lemma_impl_members_len(c, ty, ms.drop_first());
                    },
                }
            },
        }
    }
}

pub(crate) proof fn lemma_find_named_in_range(content: Seq<ItemV>, is_struct: bool, name: Seq<char>, start: nat)
    ensures
        find_named(content, is_struct, name, start) matches Some(i) ==> start <= i < content.len()
            && is_named(content[i as int], is_struct, name),
    decreases content.len() - start,
{
    if start < content.len() && !is_named(content[start as int], is_struct, name) {
        lemma_find_named_in_range(content, is_struct, name, start + 1);
    }
}

pub(crate) proof fn lemma_find_named_skips(content: Seq<ItemV>, is_struct: bool, name: Seq<char>, start: nat)
    ensures
        match find_named(content, is_struct, name, start) {
            Some(i) => forall|k: int| start <= k < i ==> !is_named(#[trigger] content[k], is_struct, name),
            None => forall|k: int| start <= k < content.len() ==> !is_named(#[trigger] content[k], is_struct, name),
        },
    decreases content.len() - start,
{
    if start < content.len() && !is_named(content[start as int], is_struct, name) {
        lemma_find_named_skips(content, is_struct, name, start + 1);
    }
}

pub(crate) proof fn lemma_find_named_first(content: Seq<ItemV>, is_struct: bool, name: Seq<char>, start: nat, m: nat)
    requires
        start <= m < content.len(),
        is_named(content[m as int], is_struct, name),
        forall|k: int| start <= k < m ==> !is_named(#[trigger] content[k], is_struct, name),
    ensures
        find_named(content, is_struct, name, start) == Some(m),
    decreases m - start,
{
    if start < m {
        lemma_find_named_first(content, is_struct, name, start + 1, m);
    }
}

/// An override enum or struct takes the place of the first base item of its
/// kind and name, or is added at the end when there is none: looking the name
/// up afterwards finds the override, and all other items are unchanged.
pub proof fn law_named_item_replaces(content: Seq<ItemV>, is_struct: bool, name: Seq<char>, item: ItemV)
    requires
        is_named(item, is_struct, name),
    ensures
        ({
            let c = replace_or_push(content, is_struct, name, item);
            find_named(c, is_struct, name, 0) matches Some(i) && c[i as int] == item
                && (forall|k: int| 0 <= k < content.len() && k != i ==> c[k] == content[k])
                && c.len() == (if i < content.len() { content.len() } else { content.len() + 1 })
        }),
{
    lemma_find_named_skips(content, is_struct, name, 0);
    lemma_find_named_in_range(content, is_struct, name, 0);
    let c = replace_or_push(content, is_struct, name, item);
    match find_named(content, is_struct, name, 0) {
        Some(i) => {
            assert forall|k: int| 0 <= k < i implies !is_named(#[trigger] c[k], is_struct, name) by {
                assert(c[k] == content[k]);
            }
            lemma_find_named_first(c, is_struct, name, 0, i);
        },
        None => {
            assert forall|k: int| 0 <= k < content.len() implies !is_named(#[trigger] c[k], is_struct, name) by {
                assert(c[k] == content[k]);
            }
            lemma_find_named_first(c, is_struct, name, 0, content.len());
        },
    }
}

/// A merge never removes base items: the merged items are at least as many
/// as the base items, one more for each `use` item and for each enum or
/// struct that had no namesake.
pub proof fn law_merge_keeps_base_items(content: Seq<ItemV>, items: Seq<ItemV>)
    ensures
        merge_items(content, items) matches Ok(c) ==> c.len() >= content.len(),
    decreases items.len(),
{
    if items.len() > 0 {
        match items[0] {
            ItemV::Impl(b) => lemma_impl_members_len(content, b.self_ty, b.members),
            ItemV::Trait(t) => lemma_trait_members_len(content, t.name, t.members),
            ItemV::Enum(e) => lemma_find_named_in_range(content, false, e.name, 0),
            ItemV::Struct(st) => lemma_find_named_in_range(content, true, st.name, 0),
            _ => {},
        }
        match apply_item(content, items[0]) {
            Err(_) => {},
            Ok(c) => law_merge_keeps_base_items(c, items.drop_first()),
        }
    }
}

/// When the override function `f` of an impl block for type `ty` finds its
/// namesake, the namesake's place now holds `f` without its `needs_super`
/// attributes; if `f` had one and the block is an inherent impl, the replaced
/// function follows at the end of the block under the name `_super_<name>`;
/// nothing else changes.
pub proof fn law_impl_override_replaces(content: Seq<ItemV>, ty: u64, f: FnItemV, i: nat, j: nat)
    requires
        scan_impls(content, ty, f.name, 0) == Ok::<Option<(nat, nat)>, MergeError>(Some((i, j))),
        i < content.len(),
        content[i as int] is Impl,
    ensures
        apply_impl_fn(content, ty, f) matches Ok(c) && c.len() == content.len()
            && (forall|k: int| 0 <= k < content.len() && k != i ==> c[k] == content[k])
            && (c[i as int] matches ItemV::Impl(nb) && (content[i as int] matches ItemV::Impl(b) && {
                &&& nb.self_ty == b.self_ty
                &&& nb.node == b.node
                &&& nb.members[j as int] == MemberV::Fn(FnItemV { name: f.name, attrs: without_needs_super(f.attrs), node: f.node })
                &&& (forall|k: int| 0 <= k < b.members.len() && k != j ==> nb.members[k] == b.members[k])
                &&& if has_needs_super(f.attrs) && !b.is_trait_impl {
                    &&& nb.members.len() == b.members.len() + 1
                    &&& nb.members.last() matches MemberV::Fn(kept) && kept.name == "_super_"@ + f.name
                        && (b.members[j as int] matches MemberV::Fn(g) && kept.node == g.node && kept.attrs == g.attrs)
                } else {
                    nb.members.len() == b.members.len()
                }
            })),
{
    lemma_scan_impls_slot(content, ty, f.name, 0, i, j);
}

pub(crate) proof fn lemma_scan_members_slot(ms: Seq<MemberV>, name: Seq<char>, start: nat, j: nat)
    requires
        scan_members(ms, name, start) == Ok::<Option<nat>, MergeError>(Some(j)),
    ensures
        j < ms.len(),
        ms[j as int] matches MemberV::Fn(g) && g.name == name,
    decreases ms.len() - start,
{
    if start < ms.len() {
        match ms[start as int] {
            MemberV::Other(_) => {},
            MemberV::Fn(g) => if g.name != name {
                lemma_scan_members_slot(ms, name, start + 1, j);
            },
        }
    }
}

pub(crate) proof fn lemma_scan_impls_slot(content: Seq<ItemV>, ty: u64, name: Seq<char>, start: nat, i: nat, j: nat)
    requires
        scan_impls(content, ty, name, start) == Ok::<Option<(nat, nat)>, MergeError>(Some((i, j))),
    ensures
        i < content.len(),
        content[i as int] matches ItemV::Impl(b) && j < b.members.len() && (b.members[j as int] matches MemberV::Fn(g) && g.name == name),
    decreases content.len() - start,
{
    if start < content.len() {
        match content[start as int] {
            ItemV::Impl(b) => if b.self_ty == ty {
                match scan_members(b.members, name, 0) {
                    Err(_) => {},
                    Ok(Some(jj)) => lemma_scan_members_slot(b.members, name, 0, jj),
                    Ok(None) => lemma_scan_impls_slot(content, ty, name, start + 1, i, j),
                }
            } else {
                lemma_scan_impls_slot(content, ty, name, start + 1, i, j);
            },
            _ => lemma_scan_impls_slot(content, ty, name, start + 1, i, j),
        }
    }
}

/// Whether `item` is a trait named `trait_name`.
pub open spec fn is_trait_named(item: ItemV, trait_name: Seq<char>) -> bool {
    item matches ItemV::Trait(t) && t.name == trait_name
}

pub(crate) proof fn lemma_trait_pass_skips(content: Seq<ItemV>, trait_name: Seq<char>, name: Seq<char>, carried: FnItemV, k: nat, i: nat)
    requires
        k <= i <= content.len(),
        forall|m: int| k <= m < i ==> !is_trait_named(#[trigger] content[m], trait_name),
    ensures
        trait_pass(content, trait_name, name, carried, k) == trait_pass(content, trait_name, name, carried, i),
    decreases i - k,
{
    if k < i {
        assert(!is_trait_named(content[k as int], trait_name));
        lemma_trait_pass_skips(content, trait_name, name, carried, k + 1, i);
    }
}

/// When a single base trait carries the override trait's name, an override
/// function takes the place of its namesake there and nothing else changes.
pub proof fn law_trait_override_replaces(content: Seq<ItemV>, trait_name: Seq<char>, f: FnItemV, i: nat, j: nat)
    requires
        i < content.len(),
        content[i as int] matches ItemV::Trait(t) && t.name == trait_name
            && scan_members(t.members, f.name, 0) == Ok::<Option<nat>, MergeError>(Some(j)),
        forall|m: int| 0 <= m < content.len() && m != i ==> !is_trait_named(#[trigger] content[m], trait_name),
    ensures
        content[i as int] matches ItemV::Trait(t) && trait_pass(content, trait_name, f.name, f, 0)
            == Ok::<Seq<ItemV>, MergeError>(content.update(
                i as int,
                ItemV::Trait(TraitBlockV { name: t.name, members: t.members.update(j as int, MemberV::Fn(f)), node: t.node }),
            )),
{
    match content[i as int] {
        ItemV::Trait(t) => {
            lemma_trait_pass_skips(content, trait_name, f.name, f, 0, i);
            lemma_scan_members_slot(t.members, f.name, 0, j);
            let held = match t.members[j as int] {
                MemberV::Fn(g) => g,
                MemberV::Other(_) => f,
            };
            let t2 = TraitBlockV { name: t.name, members: t.members.update(j as int, MemberV::Fn(f)), node: t.node };
            let c2 = content.update(i as int, ItemV::Trait(t2));
            assert forall|m: int| i + 1 <= m < c2.len() implies !is_trait_named(#[trigger] c2[m], trait_name) by {
                assert(c2[m] == content[m]);
            }
            lemma_trait_pass_skips(c2, trait_name, f.name, held, i + 1, c2.len());
            assert(trait_pass(c2, trait_name, f.name, held, c2.len()) == Ok::<Seq<ItemV>, MergeError>(c2));
        },
        _ => {},
    }
}

/// Whether member `b` stands where member `a` stood: a function under the
/// same name, or the same other member.
pub open spec fn member_kept(a: MemberV, b: MemberV) -> bool {
    match (a, b) {
        (MemberV::Fn(f), MemberV::Fn(g)) => f.name == g.name,
        (MemberV::Other(x), MemberV::Other(y)) => x == y,
        _ => false,
    }
}

/// Whether `m` is a replaced function kept under a `_super_` name.
pub open spec fn is_super_fn(m: MemberV) -> bool {
    m matches MemberV::Fn(f) && exists|n: Seq<char>| f.name == super_name(n)
}

/// Whether `item` is an impl block or a trait whose member at `m` is a
/// function named `name`.
pub open spec fn item_has_fn(item: ItemV, m: int, name: Seq<char>) -> bool {
    match item {
        ItemV::Impl(b) => 0 <= m < b.members.len() && (b.members[m] matches MemberV::Fn(f) && f.name == name),
        ItemV::Trait(t) => 0 <= m < t.members.len() && (t.members[m] matches MemberV::Fn(f) && f.name == name),
        _ => false,
    }
}

/// Whether an impl block or a trait among `from` holds a function named `name`.
pub open spec fn overrides_fn(from: Seq<ItemV>, name: Seq<char>) -> bool {
    exists|k: int, m: int| 0 <= k < from.len() && #[trigger] item_has_fn(from[k], m, name)
}

/// `ms2` holds every member of `ms` in its place, left as it was unless an
/// impl block or trait of `from` holds a function of its name; after them
/// come only replaced functions kept under a `_super_` name, and only where
/// `extra`.
pub open spec fn members_kept(ms: Seq<MemberV>, ms2: Seq<MemberV>, extra: bool, from: Seq<ItemV>) -> bool {
    &&& ms2.len() >= ms.len()
    &&& !extra ==> ms2.len() == ms.len()
    &&& forall|j: int| 0 <= j < ms.len() ==> member_kept(#[trigger] ms[j], ms2[j])
    &&& forall|j: int| 0 <= j < ms.len() ==> #[trigger] ms2[j] == ms[j]
        || (ms[j] matches MemberV::Fn(f) && overrides_fn(from, f.name))
    &&& forall|j: int| ms.len() <= j < ms2.len() ==> is_super_fn(#[trigger] ms2[j])
}

/// What a merge with the override items `from` keeps of a base item: an impl
/// block or a trait keeps its node and kind, and its members their places,
/// kinds and names, each left as it was unless `from` holds a function of
/// its name (an inherent impl block may gain functions kept under a `_super_`
/// name); an enum or a struct keeps its kind and name and is either left as
/// it was or one of `from`; any other item stays as it was.
pub open spec fn keeps_frame(a: ItemV, b: ItemV, from: Seq<ItemV>) -> bool {
    match (a, b) {
        (ItemV::Impl(x), ItemV::Impl(y)) => x.node == y.node && x.self_ty == y.self_ty && x.is_trait_impl == y.is_trait_impl
            && members_kept(x.members, y.members, !x.is_trait_impl, from),
        (ItemV::Trait(x), ItemV::Trait(y)) => x.node == y.node && x.name == y.name && members_kept(x.members, y.members, false, from),
        (ItemV::Enum(x), ItemV::Enum(y)) => x.name == y.name && (a == b || from.contains(b)),
        (ItemV::Struct(x), ItemV::Struct(y)) => x.name == y.name && (a == b || from.contains(b)),
        (ItemV::Use(x), ItemV::Use(y)) => x == y,
        (ItemV::Other(x), ItemV::Other(y)) => x == y,
        _ => false,
    }
}

/// Every item of `c` stands, with its frame kept, `shift` places later in `c2`.
pub open spec fn frame_kept(c: Seq<ItemV>, c2: Seq<ItemV>, shift: nat, from: Seq<ItemV>) -> bool {
    &&& c2.len() >= c.len() + shift
    &&& forall|k: int| 0 <= k < c.len() ==> keeps_frame(#[trigger] c[k], c2[k + shift], from)
}

/// Whether `a` and `b` are both structs, or both enums, of one name.
pub open spec fn same_key(a: ItemV, b: ItemV) -> bool {
    match (a, b) {
        (ItemV::Struct(x), ItemV::Struct(y)) => x.name == y.name,
        (ItemV::Enum(x), ItemV::Enum(y)) => x.name == y.name,
        _ => false,
    }
}

/// The place in `items` of the first item that shares kind and name with `x`.
pub open spec fn first_key(items: Seq<ItemV>, x: ItemV) -> nat
    decreases items.len(),
{
    if items.len() == 0 {
        0
    } else if same_key(items[0], x) {
        0
    } else {
        1 + first_key(items.drop_first(), x)
    }
}

/// The items of `c2` after the first `start` come in the order in which
/// their kinds and names first occur in `items`.
pub open spec fn added_in_order(c2: Seq<ItemV>, start: nat, items: Seq<ItemV>) -> bool {
    forall|k1: int, k2: int| start <= k1 < k2 < c2.len()
        ==> #[trigger] first_key(items, c2[k1]) < #[trigger] first_key(items, c2[k2])
}

/// The items of `c2` after the first `start` are enums or structs of `from`
/// that no item of `base` shares kind and name with.
pub open spec fn added_named(c2: Seq<ItemV>, start: nat, from: Seq<ItemV>, base: Seq<ItemV>) -> bool {
    forall|k: int| start <= k < c2.len() ==> {
        &&& (#[trigger] c2[k] is Enum || c2[k] is Struct)
        &&& from.contains(c2[k])
        &&& forall|m: int| 0 <= m < base.len() ==> !same_key(#[trigger] base[m], c2[k])
    }
}

/// The number of `use` items among `items`.
pub open spec fn count_uses(items: Seq<ItemV>) -> nat
    decreases items.len(),
{
    if items.len() == 0 {
        0
    } else {
        (if items[0] is Use { 1nat } else { 0nat }) + count_uses(items.drop_first())
    }
}

/// The `use` items among `items`, the last one first.
pub open spec fn front_uses(items: Seq<ItemV>) -> Seq<ItemV>
    decreases items.len(),
{
    if items.len() == 0 {
        Seq::empty()
    } else {
        front_uses(items.drop_first()) + (if items[0] is Use { seq![items[0]] } else { Seq::empty() })
    }
}

proof fn lemma_front_uses_len(items: Seq<ItemV>)
    ensures
        front_uses(items).len() == count_uses(items),
    decreases items.len(),
{
    if items.len() > 0 {
        lemma_front_uses_len(items.drop_first());
    }
}

proof fn lemma_members_refl(ms: Seq<MemberV>, extra: bool, from: Seq<ItemV>)
    ensures
        members_kept(ms, ms, extra, from),
{
    assert forall|j: int| 0 <= j < ms.len() implies member_kept(#[trigger] ms[j], ms[j]) by {
        match ms[j] {
            _ => {},
        }
    }
}

proof fn lemma_members_trans(a: Seq<MemberV>, b: Seq<MemberV>, c: Seq<MemberV>, extra: bool, from: Seq<ItemV>)
    requires
        members_kept(a, b, extra, from),
        members_kept(b, c, extra, from),
    ensures
        members_kept(a, c, extra, from),
{
    assert forall|j: int| 0 <= j < a.len() implies #[trigger] c[j] == a[j]
        || (a[j] matches MemberV::Fn(f) && overrides_fn(from, f.name)) by {
        assert(member_kept(a[j], b[j]));
        assert(c[j] == b[j] || (b[j] matches MemberV::Fn(f) && overrides_fn(from, f.name)));
        assert(b[j] == a[j] || (a[j] matches MemberV::Fn(f) && overrides_fn(from, f.name)));
    }
    assert forall|j: int| 0 <= j < a.len() implies member_kept(#[trigger] a[j], c[j]) by {
        assert(member_kept(a[j], b[j]));
        assert(member_kept(b[j], c[j]));
    }
    assert forall|j: int| a.len() <= j < c.len() implies is_super_fn(#[trigger] c[j]) by {
        if j < b.len() {
            assert(is_super_fn(b[j]));
            assert(member_kept(b[j], c[j]));
            let n = choose|n: Seq<char>| b[j]->Fn_0.name == super_name(n);
            assert(c[j]->Fn_0.name == super_name(n));
        }
    }
}

proof fn lemma_keeps_refl(a: ItemV, from: Seq<ItemV>)
    ensures
        keeps_frame(a, a, from),
{
    match a {
        ItemV::Impl(x) => lemma_members_refl(x.members, !x.is_trait_impl, from),
        ItemV::Trait(x) => lemma_members_refl(x.members, false, from),
        _ => {},
    }
}

proof fn lemma_keeps_trans(a: ItemV, b: ItemV, c: ItemV, from: Seq<ItemV>)
    requires
        keeps_frame(a, b, from),
        keeps_frame(b, c, from),
    ensures
        keeps_frame(a, c, from),
{
    match (a, b, c) {
        (ItemV::Impl(x), ItemV::Impl(y), ItemV::Impl(z)) => lemma_members_trans(x.members, y.members, z.members, !x.is_trait_impl, from),
        (ItemV::Trait(x), ItemV::Trait(y), ItemV::Trait(z)) => lemma_members_trans(x.members, y.members, z.members, false, from),
        _ => {},
    }
}

proof fn lemma_frame_refl(c: Seq<ItemV>, from: Seq<ItemV>)
    ensures
        frame_kept(c, c, 0, from),
{
    assert forall|k: int| 0 <= k < c.len() implies keeps_frame(#[trigger] c[k], c[k + 0], from) by {
        lemma_keeps_refl(c[k], from);
    }
}

proof fn lemma_frame_trans(a: Seq<ItemV>, b: Seq<ItemV>, c: Seq<ItemV>, s1: nat, s2: nat, from: Seq<ItemV>)
    requires
        frame_kept(a, b, s1, from),
        frame_kept(b, c, s2, from),
    ensures
        frame_kept(a, c, s1 + s2, from),
{
    assert forall|k: int| 0 <= k < a.len() implies keeps_frame(#[trigger] a[k], c[k + (s1 + s2)], from) by {
        assert(keeps_frame(a[k], b[k + s1], from));
        assert(keeps_frame(b[k + s1], c[(k + s1) + s2], from));
        lemma_keeps_trans(a[k], b[k + s1], c[k + (s1 + s2)], from);
    }
}

proof fn lemma_frame_update(c: Seq<ItemV>, i: int, x: ItemV, from: Seq<ItemV>)
    requires
        0 <= i < c.len(),
        keeps_frame(c[i], x, from),
    ensures
        frame_kept(c, c.update(i, x), 0, from),
{
    assert forall|k: int| 0 <= k < c.len() implies keeps_frame(#[trigger] c[k], c.update(i, x)[k + 0], from) by {
        if k != i {
            lemma_keeps_refl(c[k], from);
        }
    }
}

proof fn lemma_override_in_impl_kept(b: ImplBlockV, j: nat, f: FnItemV, from: Seq<ItemV>)
    requires
        overrides_fn(from, f.name),
        j < b.members.len(),
        b.members[j as int] matches MemberV::Fn(g) && g.name == f.name,
    ensures
        keeps_frame(ItemV::Impl(b), ItemV::Impl(override_in_impl(b, j, f)), from),
{
    let placed = FnItemV { name: f.name, attrs: without_needs_super(f.attrs), node: f.node };
    let ms1 = b.members.update(j as int, MemberV::Fn(placed));
    assert(members_kept(b.members, ms1, !b.is_trait_impl, from)) by {
        assert forall|k: int| 0 <= k < b.members.len() implies member_kept(#[trigger] b.members[k], ms1[k]) by {
            if k != j {
                match b.members[k] {
                    _ => {},
                }
            }
        }
    }
    let nb = override_in_impl(b, j, f);
    if has_needs_super(f.attrs) && !b.is_trait_impl {
        let replaced = match b.members[j as int] {
            MemberV::Fn(g) => g,
            MemberV::Other(_) => f,
        };
        let sup = MemberV::Fn(FnItemV { name: super_name(f.name), attrs: replaced.attrs, node: replaced.node });
        assert(nb.members == ms1.push(sup));
        assert(is_super_fn(sup));
        assert forall|k: int| 0 <= k < b.members.len() implies member_kept(#[trigger] b.members[k], nb.members[k]) by {
            assert(member_kept(b.members[k], ms1[k]));
        }
    }
}

proof fn lemma_impl_fn_frame(c: Seq<ItemV>, ty: u64, f: FnItemV, from: Seq<ItemV>)
    requires
        overrides_fn(from, f.name),
    ensures
        apply_impl_fn(c, ty, f) matches Ok(c2) ==> frame_kept(c, c2, 0, from),
{
    lemma_frame_refl(c, from);
    match scan_impls(c, ty, f.name, 0) {
        Ok(Some((i, j))) => {
            lemma_scan_impls_slot(c, ty, f.name, 0, i, j);
            match c[i as int] {
                ItemV::Impl(b) => {
                    lemma_override_in_impl_kept(b, j, f, from);
                    lemma_frame_update(c, i as int, ItemV::Impl(override_in_impl(b, j, f)), from);
                },
                _ => {},
            }
        },
        _ => {},
    }
}

proof fn lemma_impl_members_frame(c: Seq<ItemV>, ty: u64, ms: Seq<MemberV>, from: Seq<ItemV>)
    requires
        forall|j: int| 0 <= j < ms.len() ==> (#[trigger] ms[j] matches MemberV::Fn(f) ==> overrides_fn(from, f.name)),
    ensures
        apply_impl_members(c, ty, ms) matches Ok(c2) ==> frame_kept(c, c2, 0, from),
    decreases ms.len(),
{
    lemma_frame_refl(c, from);
    if ms.len() > 0 {
        match ms[0] {
            MemberV::Fn(f) => {
                assert(ms[0] matches MemberV::Fn(g) ==> overrides_fn(from, g.name));
                lemma_impl_fn_frame(c, ty, f, from);
                match apply_impl_fn(c, ty, f) {
                    Ok(c1) => {
                        assert forall|j: int| 0 <= j < ms.drop_first().len() implies (#[trigger] ms.drop_first()[j] matches MemberV::Fn(g)
                            ==> overrides_fn(from, g.name)) by {
                            assert(ms.drop_first()[j] == ms[j + 1]);
                        }
                        lemma_impl_members_frame(c1, ty, ms.drop_first(), from);
                        match apply_impl_members(c1, ty, ms.drop_first()) {
                            Ok(c2) => lemma_frame_trans(c, c1, c2, 0, 0, from),
                            Err(_) => {},
                        }
                    },
                    Err(_) => {},
                }
            },
            MemberV::Other(_) => {},
        }
    }
}

proof fn lemma_trait_pass_frame(c: Seq<ItemV>, trait_name: Seq<char>, name: Seq<char>, carried: FnItemV, i: nat, from: Seq<ItemV>)
    requires
        carried.name == name,
        overrides_fn(from, name),
    ensures
        trait_pass(c, trait_name, name, carried, i) matches Ok(c2) ==> frame_kept(c, c2, 0, from),
    decreases c.len() - i,
{
    lemma_frame_refl(c, from);
    if i < c.len() {
        match c[i as int] {
            ItemV::Trait(t) => if t.name == trait_name {
                match scan_members(t.members, name, 0) {
                    Err(_) => {},
                    Ok(None) => lemma_trait_pass_frame(c, trait_name, name, carried, i + 1, from),
                    Ok(Some(j)) => {
                        lemma_scan_members_slot(t.members, name, 0, j);
                        let held = match t.members[j as int] {
                            MemberV::Fn(g) => g,
                            MemberV::Other(_) => carried,
                        };
                        let t2 = TraitBlockV { name: t.name, members: t.members.update(j as int, MemberV::Fn(carried)), node: t.node };
                        assert(members_kept(t.members, t2.members, false, from)) by {
                            assert forall|k: int| 0 <= k < t.members.len() implies member_kept(#[trigger] t.members[k], t2.members[k]) by {
                                if k != j {
                                    match t.members[k] {
                                        _ => {},
                                    }
                                }
                            }
                        }
                        let c1 = c.update(i as int, ItemV::Trait(t2));
                        lemma_frame_update(c, i as int, ItemV::Trait(t2), from);
                        lemma_trait_pass_frame(c1, trait_name, name, held, i + 1, from);
                        match trait_pass(c1, trait_name, name, held, i + 1) {
                            Ok(c2) => lemma_frame_trans(c, c1, c2, 0, 0, from),
                            Err(_) => {},
                        }
                    },
                }
            } else {
                lemma_trait_pass_frame(c, trait_name, name, carried, i + 1, from);
            },
            _ => lemma_trait_pass_frame(c, trait_name, name, carried, i + 1, from),
        }
    }
}

proof fn lemma_trait_members_frame(c: Seq<ItemV>, trait_name: Seq<char>, ms: Seq<MemberV>, from: Seq<ItemV>)
    requires
        forall|j: int| 0 <= j < ms.len() ==> (#[trigger] ms[j] matches MemberV::Fn(f) ==> overrides_fn(from, f.name)),
    ensures
        apply_trait_members(c, trait_name, ms) matches Ok(c2) ==> frame_kept(c, c2, 0, from),
    decreases ms.len(),
{
    lemma_frame_refl(c, from);
    if ms.len() > 0 {
        match ms[0] {
            MemberV::Fn(f) => {
                assert(ms[0] matches MemberV::Fn(g) ==> overrides_fn(from, g.name));
                lemma_trait_pass_frame(c, trait_name, f.name, f, 0, from);
                match trait_pass(c, trait_name, f.name, f, 0) {
                    Ok(c1) => {
                        assert forall|j: int| 0 <= j < ms.drop_first().len() implies (#[trigger] ms.drop_first()[j] matches MemberV::Fn(g)
                            ==> overrides_fn(from, g.name)) by {
                            assert(ms.drop_first()[j] == ms[j + 1]);
                        }
                        lemma_trait_members_frame(c1, trait_name, ms.drop_first(), from);
                        match apply_trait_members(c1, trait_name, ms.drop_first()) {
                            Ok(c2) => lemma_frame_trans(c, c1, c2, 0, 0, from),
                            Err(_) => {},
                        }
                    },
                    Err(_) => {},
                }
            },
            MemberV::Other(_) => {},
        }
    }
}

proof fn lemma_named_frame(c: Seq<ItemV>, is_struct: bool, name: Seq<char>, item: ItemV, from: Seq<ItemV>)
    requires
        is_named(item, is_struct, name),
        from.contains(item),
    ensures
        frame_kept(c, replace_or_push(c, is_struct, name, item), 0, from),
        added_named(replace_or_push(c, is_struct, name, item), c.len(), from, c),
{
    lemma_find_named_in_range(c, is_struct, name, 0);
    lemma_find_named_skips(c, is_struct, name, 0);
    lemma_frame_refl(c, from);
    match find_named(c, is_struct, name, 0) {
        Some(i) => lemma_frame_update(c, i as int, item, from),
        None => {
            let c2 = c.push(item);
            assert forall|k: int| 0 <= k < c.len() implies keeps_frame(#[trigger] c[k], c2[k + 0], from) by {
                assert(c2[k] == c[k]);
                lemma_keeps_refl(c[k], from);
            }
            assert forall|m: int| 0 <= m < c.len() implies !same_key(#[trigger] c[m], item) by {
                assert(!is_named(c[m], is_struct, name));
            }
            assert(c2[c.len() as int] == item);
        },
    }
}

/// One override item's effect in the terms of `law_merge_shape`.
proof fn lemma_item_shape(c: Seq<ItemV>, item: ItemV, from: Seq<ItemV>)
    requires
        from.contains(item),
    ensures
        apply_item(c, item) matches Ok(c2) ==> {
            let s: nat = if item is Use { 1nat } else { 0nat };
            &&& frame_kept(c, c2, s, from)
            &&& c2.take(s as int) == (if item is Use { seq![item] } else { Seq::<ItemV>::empty() })
            &&& added_named(c2, s + c.len(), from, c)
            &&& c2.len() <= s + c.len() + 1
            &&& (c2.len() == s + c.len() + 1 ==> c2[(s + c.len()) as int] == item)
            &&& ((item is Enum || item is Struct) ==> exists|m: int| 0 <= m < c2.len() && #[trigger] c2[m] == item)
        },
{
    lemma_frame_refl(c, from);
    let k0 = choose|k: int| 0 <= k < from.len() && from[k] == item;
    match item {
        ItemV::Impl(b) => {
            assert forall|j: int| 0 <= j < b.members.len() implies (#[trigger] b.members[j] matches MemberV::Fn(f)
                ==> overrides_fn(from, f.name)) by {
                if let MemberV::Fn(f) = b.members[j] {
                    assert(item_has_fn(from[k0], j, f.name));
                }
            }
            lemma_impl_members_frame(c, b.self_ty, b.members, from);
            lemma_impl_members_len(c, b.self_ty, b.members);
        },
        ItemV::Trait(t) => {
            assert forall|j: int| 0 <= j < t.members.len() implies (#[trigger] t.members[j] matches MemberV::Fn(f)
                ==> overrides_fn(from, f.name)) by {
                if let MemberV::Fn(f) = t.members[j] {
                    assert(item_has_fn(from[k0], j, f.name));
                }
            }
            lemma_trait_members_frame(c, t.name, t.members, from);
            lemma_trait_members_len(c, t.name, t.members);
        },
        ItemV::Enum(e) => {
            lemma_named_frame(c, false, e.name, item, from);
            lemma_find_named_in_range(c, false, e.name, 0);
            let c2 = replace_or_push(c, false, e.name, item);
            match find_named(c, false, e.name, 0) {
                Some(p) => assert(c2[p as int] == item),
                None => assert(c2[c.len() as int] == item),
            }
        },
        ItemV::Struct(st) => {
            lemma_named_frame(c, true, st.name, item, from);
            lemma_find_named_in_range(c, true, st.name, 0);
            let c2 = replace_or_push(c, true, st.name, item);
            match find_named(c, true, st.name, 0) {
                Some(p) => assert(c2[p as int] == item),
                None => assert(c2[c.len() as int] == item),
            }
        },
        ItemV::Use(n) => {
            let c2 = seq![ItemV::Use(n)] + c;
            assert forall|k: int| 0 <= k < c.len() implies keeps_frame(#[trigger] c[k], c2[k + 1], from) by {
                assert(c2[k + 1] == c[k]);
                lemma_keeps_refl(c[k], from);
            }
            assert(c2.take(1) =~= seq![item]);
        },
        ItemV::Other(_) => {},
    }
    match apply_item(c, item) {
        Ok(c2) => if !(item is Use) {
            assert(c2.take(0) =~= Seq::<ItemV>::empty());
        },
        Err(_) => {},
    }
}

proof fn lemma_merge_shape(c: Seq<ItemV>, items: Seq<ItemV>, from: Seq<ItemV>)
    requires
        forall|k: int| 0 <= k < items.len() ==> from.contains(#[trigger] items[k]),
    ensures
        merge_items(c, items) matches Ok(c2) ==> {
            let u = count_uses(items);
            &&& frame_kept(c, c2, u, from)
            &&& c2.take(u as int) == front_uses(items)
            &&& added_named(c2, u + c.len(), from, c)
            &&& added_in_order(c2, u + c.len(), items)
        },
    decreases items.len(),
{
    lemma_frame_refl(c, from);
    if items.len() == 0 {
        match merge_items(c, items) {
            Ok(c2) => assert(c2.take(0) =~= front_uses(items)),
            Err(_) => {},
        }
    } else {
        let x = items[0];
        let rest = items.drop_first();
        assert(from.contains(items[0]));
        lemma_item_shape(c, x, from);
        match apply_item(c, x) {
            Ok(c1) => {
                let s: nat = if x is Use { 1nat } else { 0nat };
                assert forall|k: int| 0 <= k < rest.len() implies from.contains(#[trigger] rest[k]) by {
                    assert(rest[k] == items[k + 1]);
                }
                lemma_merge_shape(c1, rest, from);
                match merge_items(c1, rest) {
                    Ok(c2) => {
                        let u1 = count_uses(rest);
                        lemma_frame_trans(c, c1, c2, s, u1, from);
                        assert(s + u1 == count_uses(items));
                        lemma_front_uses_len(rest);
                        lemma_front_uses_len(items);
                        // the front: the uses of the rest, then this item if it is one
                        assert forall|k: int| 0 <= k < s implies c2[u1 + k] == #[trigger] c1[k] by {
                            assert(keeps_frame(c1[k], c2[k + u1], from));
                            assert(c1.take(s as int)[k] == c1[k]);
                        }
                        assert(c2.take(count_uses(items) as int) =~= front_uses(items)) by {
                            assert forall|k: int| 0 <= k < count_uses(items) implies #[trigger] c2.take(count_uses(items) as int)[k] == front_uses(items)[k] by {
                                if k < u1 {
                                    assert(c2.take(u1 as int)[k] == c2[k]);
                                } else {
                                    assert(c1.take(s as int)[k - u1] == c1[k - u1]);
                                }
                            }
                        }
                        // the end: enums and structs added by the rest or by this item
                        assert forall|k: int| count_uses(items) + c.len() <= k < c2.len() implies {
                            &&& (#[trigger] c2[k] is Enum || c2[k] is Struct)
                            &&& from.contains(c2[k])
                            &&& forall|m: int| 0 <= m < c.len() ==> !same_key(#[trigger] c[m], c2[k])
                        } by {
                            if k < u1 + c1.len() {
                                let m1 = k - u1;
                                assert(s + c.len() <= m1 < c1.len());
                                assert(c1[m1] is Enum || c1[m1] is Struct);
                                assert(from.contains(c1[m1]));
                                assert(keeps_frame(c1[m1], c2[m1 + u1], from));
                                assert forall|m: int| 0 <= m < c.len() implies !same_key(#[trigger] c[m], c2[k]) by {
                                    assert(!same_key(c[m], c1[m1]));
                                }
                            } else {
                                assert forall|m: int| 0 <= m < c.len() implies !same_key(#[trigger] c[m], c2[k]) by {
                                    assert(keeps_frame(c[m], c1[m + s], from));
                                    assert(!same_key(c1[m + s], c2[k]));
                                }
                            }
                        }
                        // the order: what this item added comes before what the rest added
                        assert forall|k: int| u1 + c1.len() <= k < c2.len() implies
                            first_key(items, #[trigger] c2[k]) == 1 + first_key(rest, c2[k]) by {
                            if x is Enum || x is Struct {
                                let m = choose|m: int| 0 <= m < c1.len() && #[trigger] c1[m] == x;
                                assert(!same_key(c1[m], c2[k]));
                            }
                        }
                        assert forall|k1: int, k2: int| count_uses(items) + c.len() <= k1 < k2 < c2.len()
                            implies #[trigger] first_key(items, c2[k1]) < #[trigger] first_key(items, c2[k2]) by {
                            assert(first_key(items, c2[k2]) == 1 + first_key(rest, c2[k2]));
                            if k1 >= u1 + c1.len() {
                                assert(first_key(items, c2[k1]) == 1 + first_key(rest, c2[k1]));
                                assert(first_key(rest, c2[k1]) < first_key(rest, c2[k2]));
                            } else {
                                let m1 = k1 - u1;
                                assert(m1 == s + c.len());
                                assert(c1[m1] == x);
                                assert(keeps_frame(c1[m1], c2[m1 + u1], from));
                                assert(same_key(items[0], c2[k1]));
                            }
                        }
                    },
                    Err(_) => {},
                }
            },
            Err(_) => {},
        }
    }
}

/// What a merge makes of the base items, all at once: first the `use` items
/// of the override, the last one first; then every base item in its place,
/// as `keeps_frame` says (impl blocks and traits keep their members' places
/// and names, a member changes only where the override holds a function of
/// its name, an inherent impl block may gain functions kept under a `_super_`
/// name, an enum or a struct is left as it was or replaced by one of the
/// override's of the same kind and name, and all other items stay as they
/// were); and last, only enums and structs of the override that share kind
/// and name with no base item, in the order in which their kinds and names
/// first occur in the override.
pub proof fn law_merge_shape(c: Seq<ItemV>, items: Seq<ItemV>)
    ensures
        merge_items(c, items) matches Ok(c2) ==> {
            let u = count_uses(items);
            &&& frame_kept(c, c2, u, items)
            &&& c2.take(u as int) == front_uses(items)
            &&& added_named(c2, u + c.len(), items, c)
            &&& added_in_order(c2, u + c.len(), items)
        },
{
    assert forall|k: int| 0 <= k < items.len() implies items.contains(#[trigger] items[k]) by {}
    lemma_merge_shape(c, items, items);
}

/// The `use` items with the given nodes, in order.
pub open spec fn use_items(nodes: Seq<u64>) -> Seq<ItemV> {
    nodes.map_values(|n: u64| ItemV::Use(n))
}

/// The `use` items of an override come in front of the base items, each
/// before those that came earlier in the override: an override of only `use`
/// items puts them, in reverse order, in front of the base items.
pub proof fn law_uses_go_in_front(content: Seq<ItemV>, nodes: Seq<u64>)
    ensures
        merge_items(content, use_items(nodes)) == Ok::<Seq<ItemV>, MergeError>(use_items(nodes.reverse()) + content),
    decreases nodes.len(),
{
    if nodes.len() == 0 {
        assert(use_items(nodes.reverse()) + content =~= content);
    } else {
        let rest = nodes.drop_first();
        let c1 = seq![ItemV::Use(nodes[0])] + content;
        assert(use_items(nodes)[0] == ItemV::Use(nodes[0]));
        assert(use_items(nodes).drop_first() =~= use_items(rest));
        law_uses_go_in_front(c1, rest);
        assert(nodes.reverse() =~= rest.reverse().push(nodes[0]));
        assert(use_items(rest.reverse()) + c1 =~= use_items(nodes.reverse()) + content);
    }
}

} // verus!
