//! Merging a module override into the base module of a source file, from
//! tokens to tokens.
//!
//! The base tokens are parsed as items, one after another, until one fails
//! to parse; tokens left unread make the parser's error the result, as a
//! `compile_error!` invocation. The override is parsed as one item. The last
//! base item and the override are then taken apart into the model of
//! `module_merge`: each item, member and attribute is kept, as parsed, in a
//! store, and the model refers to it by its place there. The model is merged
//! by `module_merge::try_impl_mod`, and the merged item is put together again
//! from the stored pieces in the order that the merged model gives.

use vstd::prelude::*;

use crate::merge_twice::{apply_step, item_steps, lemma_merge_steps, run_steps, steps_of, Step};
use crate::module_merge::{
    attrs_view, items_view, lemma_find_named_in_range, lemma_scan_impls_slot,
    lemma_scan_members_slot, members_view, merged_module, override_in_impl, replace_or_push,
    scan_impls, scan_members, top_items_view, trait_pass, try_impl_mod, without_needs_super, Attr,
    AttrV, FnItem, FnItemV, ImplBlock, ImplBlockV, ItemV, Member, MemberV, MergeError, ModItem, Module,
    NamedItem, TopItem, TopItemV, TraitBlock, TraitBlockV,
};
use crate::syntax::{
    attr_meta, clone_attr, clone_impl_fn, clone_impl_member, clone_item, clone_trait_fn,
    clone_trait_member, impl_fn_name, impl_member_of_fn, is_ident, item_head, item_tokens,
    parse_item, parse_items, put_impl_fn_attrs, put_impl_members, put_mod_items,
    put_trait_fn_attrs, put_trait_members, rename_impl_fn, same_impl_type, split_impl_member,
    split_trait_member, take_impl_fn_attrs, take_impl_members, take_mod_items,
    take_trait_fn_attrs, take_trait_members, token_tree_count, trait_fn_name, trait_member_of_fn,
    ItemHead,
};

verus! {

/// Why merging sources fails.
#[derive(Debug)]
pub enum SourceError {
    /// A token stream does not parse; the `compile_error!` invocation that
    /// reports it.
    Parse(proc_macro2::TokenStream),
    /// The merge refused the override.
    Merge(MergeError),
    /// A function kept under the name `_super_<name>` whose new name does not
    /// parse as an identifier (as for a raw identifier `r#name`).
    Unprintable,
}

// ---- the model's nodes name stored pieces ---------------------------------------

/// How many pieces of each kind a store holds.
pub struct Limits {
    pub items: nat,
    pub impls: nat,
    pub impl_members: nat,
    pub trait_members: nat,
    pub attrs: nat,
}

pub open spec fn limits_le(a: Limits, b: Limits) -> bool {
    &&& a.items <= b.items
    &&& a.impls <= b.impls
    &&& a.impl_members <= b.impl_members
    &&& a.trait_members <= b.trait_members
    &&& a.attrs <= b.attrs
}

pub open spec fn attrs_below(attrs: Seq<AttrV>, n: nat) -> bool {
    forall|k: int| 0 <= k < attrs.len() ==> (#[trigger] attrs[k]).node < n
}

pub open spec fn member_below(m: MemberV, n: nat, n_attrs: nat) -> bool {
    match m {
        MemberV::Fn(f) => f.node < n && attrs_below(f.attrs, n_attrs),
        MemberV::Other(x) => x < n,
    }
}

pub open spec fn members_below(ms: Seq<MemberV>, n: nat, n_attrs: nat) -> bool {
    forall|k: int| 0 <= k < ms.len() ==> member_below(#[trigger] ms[k], n, n_attrs)
}

/// Every node of `item` names a piece within `lim`.
pub open spec fn item_below(item: ItemV, lim: Limits) -> bool {
    match item {
        ItemV::Impl(b) => b.node < lim.impls && members_below(b.members, lim.impl_members, lim.attrs),
        ItemV::Trait(t) => t.node < lim.items && members_below(t.members, lim.trait_members, lim.attrs),
        ItemV::Enum(e) => e.node < lim.items,
        ItemV::Struct(s) => s.node < lim.items,
        ItemV::Use(n) => n < lim.items,
        ItemV::Other(n) => n < lim.items,
    }
}

pub open spec fn items_below(items: Seq<ItemV>, lim: Limits) -> bool {
    forall|k: int| 0 <= k < items.len() ==> item_below(#[trigger] items[k], lim)
}

pub open spec fn top_below(t: TopItemV, lim: Limits) -> bool {
    match t {
        TopItemV::Mod(m) => m.node < lim.items && match m.content {
            Some(items) => items_below(items, lim),
            None => true,
        },
        TopItemV::Other(n) => n < lim.items,
    }
}

proof fn lemma_item_below_mono(item: ItemV, a: Limits, b: Limits)
    requires
        item_below(item, a),
        limits_le(a, b),
    ensures
        item_below(item, b),
{
    match item {
        ItemV::Impl(bl) => {
            assert forall|k: int| 0 <= k < bl.members.len() implies member_below(#[trigger] bl.members[k], b.impl_members, b.attrs) by {
                assert(member_below(bl.members[k], a.impl_members, a.attrs));
            }
        },
        ItemV::Trait(t) => {
            assert forall|k: int| 0 <= k < t.members.len() implies member_below(#[trigger] t.members[k], b.trait_members, b.attrs) by {
                assert(member_below(t.members[k], a.trait_members, a.attrs));
            }
        },
        _ => {},
    }
}

proof fn lemma_items_below_mono(items: Seq<ItemV>, a: Limits, b: Limits)
    requires
        items_below(items, a),
        limits_le(a, b),
    ensures
        items_below(items, b),
{
    assert forall|k: int| 0 <= k < items.len() implies item_below(#[trigger] items[k], b) by {
        lemma_item_below_mono(items[k], a, b);
    }
}

proof fn lemma_top_below_mono(t: TopItemV, a: Limits, b: Limits)
    requires
        top_below(t, a),
        limits_le(a, b),
    ensures
        top_below(t, b),
{
    match t {
        TopItemV::Mod(m) => match m.content {
            Some(items) => lemma_items_below_mono(items, a, b),
            None => {},
        },
        _ => {},
    }
}

/// Every node that step `s` places names a piece within `lim`.
pub open spec fn step_below(s: Step, lim: Limits) -> bool {
    match s {
        Step::ImplFn(_, f) => member_below(MemberV::Fn(f), lim.impl_members, lim.attrs),
        Step::TraitFn(_, f) => member_below(MemberV::Fn(f), lim.trait_members, lim.attrs),
        Step::Named(_, _, item) => item_below(item, lim),
        Step::Use(n) => n < lim.items,
        Step::Bad => true,
    }
}

proof fn lemma_without_needs_super_below(attrs: Seq<AttrV>, n: nat)
    requires
        attrs_below(attrs, n),
    ensures
        attrs_below(without_needs_super(attrs), n),
    decreases attrs.len(),
{
    if attrs.len() > 0 {
        let rest = attrs.drop_last();
        assert(attrs_below(rest, n)) by {
            assert forall|k: int| 0 <= k < rest.len() implies (#[trigger] rest[k]).node < n by {
                assert(rest[k] == attrs[k]);
            }
        }
        lemma_without_needs_super_below(rest, n);
        let w = without_needs_super(rest);
        assert(attrs.last().node < n);
        assert forall|k: int| 0 <= k < w.push(attrs.last()).len() implies (#[trigger] w.push(attrs.last())[k]).node < n by {
            if k < w.len() {
                assert(w.push(attrs.last())[k] == w[k]);
            }
        }
    }
}

proof fn lemma_trait_pass_below(c: Seq<ItemV>, trait_name: Seq<char>, name: Seq<char>, carried: FnItemV, i: nat, lim: Limits)
    requires
        items_below(c, lim),
        member_below(MemberV::Fn(carried), lim.trait_members, lim.attrs),
    ensures
        trait_pass(c, trait_name, name, carried, i) matches Ok(c2) ==> items_below(c2, lim),
    decreases c.len() - i,
{
    if i < c.len() {
        assert(item_below(c[i as int], lim));
        match c[i as int] {
            ItemV::Trait(t) => if t.name == trait_name {
                match scan_members(t.members, name, 0) {
                    Err(_) => {},
                    Ok(None) => lemma_trait_pass_below(c, trait_name, name, carried, i + 1, lim),
                    Ok(Some(j)) => {
                        lemma_scan_members_slot(t.members, name, 0, j);
                        let held = match t.members[j as int] {
                            MemberV::Fn(g) => g,
                            MemberV::Other(_) => carried,
                        };
                        assert(member_below(t.members[j as int], lim.trait_members, lim.attrs));
                        let ms2 = t.members.update(j as int, MemberV::Fn(carried));
                        assert(members_below(ms2, lim.trait_members, lim.attrs)) by {
                            assert forall|k: int| 0 <= k < ms2.len() implies member_below(#[trigger] ms2[k], lim.trait_members, lim.attrs) by {
                                if k != j {
                                    assert(ms2[k] == t.members[k]);
                                }
                            }
                        }
                        let t2 = TraitBlockV { name: t.name, members: ms2, node: t.node };
                        let c1 = c.update(i as int, ItemV::Trait(t2));
                        assert(items_below(c1, lim)) by {
                            assert forall|k: int| 0 <= k < c1.len() implies item_below(#[trigger] c1[k], lim) by {
                                if k != i {
                                    assert(c1[k] == c[k]);
                                }
                            }
                        }
                        lemma_trait_pass_below(c1, trait_name, name, held, i + 1, lim);
                    },
                }
            } else {
                lemma_trait_pass_below(c, trait_name, name, carried, i + 1, lim);
            },
            _ => lemma_trait_pass_below(c, trait_name, name, carried, i + 1, lim),
        }
    }
}

proof fn lemma_step_below(c: Seq<ItemV>, s: Step, lim: Limits)
    requires
        items_below(c, lim),
        step_below(s, lim),
    ensures
        apply_step(c, s) matches Ok(c2) ==> items_below(c2, lim),
{
    match s {
        Step::ImplFn(ty, f) => match scan_impls(c, ty, f.name, 0) {
            Ok(Some((p, q))) => {
                lemma_scan_impls_slot(c, ty, f.name, 0, p, q);
                let b = c[p as int]->Impl_0;
                assert(item_below(c[p as int], lim));
                lemma_without_needs_super_below(f.attrs, lim.attrs);
                assert(member_below(b.members[q as int], lim.impl_members, lim.attrs));
                let nb = override_in_impl(b, q, f);
                assert(members_below(nb.members, lim.impl_members, lim.attrs)) by {
                    let placed = FnItemV { name: f.name, attrs: without_needs_super(f.attrs), node: f.node };
                    let ms1 = b.members.update(q as int, MemberV::Fn(placed));
                    assert forall|k: int| 0 <= k < nb.members.len() implies member_below(#[trigger] nb.members[k], lim.impl_members, lim.attrs) by {
                        if k < b.members.len() {
                            assert(nb.members[k] == ms1[k]);
                            if k != q {
                                assert(ms1[k] == b.members[k]);
                            }
                        }
                    }
                }
                let c2 = c.update(p as int, ItemV::Impl(nb));
                assert forall|k: int| 0 <= k < c2.len() implies item_below(#[trigger] c2[k], lim) by {
                    if k != p {
                        assert(c2[k] == c[k]);
                    }
                }
            },
            _ => {},
        },
        Step::TraitFn(name, f) => lemma_trait_pass_below(c, name, f.name, f, 0, lim),
        Step::Named(is_struct, name, item) => {
            lemma_find_named_in_range(c, is_struct, name, 0);
            let c2 = replace_or_push(c, is_struct, name, item);
            assert forall|k: int| 0 <= k < c2.len() implies item_below(#[trigger] c2[k], lim) by {
                if k < c.len() && c2[k] != item {
                    assert(c2[k] == c[k]);
                }
            }
        },
        Step::Use(n) => {
            let c2 = seq![ItemV::Use(n)] + c;
            assert forall|k: int| 0 <= k < c2.len() implies item_below(#[trigger] c2[k], lim) by {
                if k > 0 {
                    assert(c2[k] == c[k - 1]);
                }
            }
        },
        Step::Bad => {},
    }
}

proof fn lemma_run_below(c: Seq<ItemV>, steps: Seq<Step>, lim: Limits)
    requires
        items_below(c, lim),
        forall|k: int| 0 <= k < steps.len() ==> step_below(#[trigger] steps[k], lim),
    ensures
        run_steps(c, steps) matches Ok(c2) ==> items_below(c2, lim),
    decreases steps.len(),
{
    if steps.len() > 0 {
        assert(step_below(steps[0], lim));
        lemma_step_below(c, steps[0], lim);
        match apply_step(c, steps[0]) {
            Ok(c1) => {
                assert forall|k: int| 0 <= k < steps.drop_first().len() implies step_below(#[trigger] steps.drop_first()[k], lim) by {
                    assert(steps.drop_first()[k] == steps[k + 1]);
                }
                lemma_run_below(c1, steps.drop_first(), lim);
            },
            Err(_) => {},
        }
    }
}

proof fn lemma_steps_below(items: Seq<ItemV>, lim: Limits)
    requires
        items_below(items, lim),
    ensures
        forall|k: int| 0 <= k < steps_of(items).len() ==> step_below(#[trigger] steps_of(items)[k], lim),
    decreases items.len(),
{
    if items.len() > 0 {
        let rest = items.drop_first();
        assert(items_below(rest, lim)) by {
            assert forall|k: int| 0 <= k < rest.len() implies item_below(#[trigger] rest[k], lim) by {
                assert(rest[k] == items[k + 1]);
            }
        }
        lemma_steps_below(rest, lim);
        let a = item_steps(items[0]);
        let b = steps_of(rest);
        assert(item_below(items[0], lim));
        assert forall|k: int| 0 <= k < (a + b).len() implies step_below(#[trigger] (a + b)[k], lim) by {
            if k < a.len() {
                assert((a + b)[k] == a[k]);
                match items[0] {
                    ItemV::Impl(bl) => {
                        assert(member_below(bl.members[k], lim.impl_members, lim.attrs));
                    },
                    ItemV::Trait(t) => {
                        assert(member_below(t.members[k], lim.trait_members, lim.attrs));
                    },
                    _ => {},
                }
            } else {
                assert((a + b)[k] == b[k - a.len()]);
            }
        }
    }
}

/// A merge only places nodes that its inputs hold.
proof fn lemma_merged_below(base: TopItemV, module: TopItemV, lim: Limits)
    requires
        top_below(base, lim),
        top_below(module, lim),
    ensures
        merged_module(seq![base], module) matches Ok(t) ==> top_below(t, lim),
{
    let bs = seq![base];
    assert(bs.last() == base);
    match (module, base) {
        (TopItemV::Mod(m), TopItemV::Mod(b)) => match (m.content, b.content) {
            (Some(items), Some(c)) => {
                lemma_merge_steps(c, items);
                lemma_steps_below(items, lim);
                lemma_run_below(c, steps_of(items), lim);
            },
            _ => {},
        },
        _ => {},
    }
}

/// Place `n` of a vector of length `len`.
fn place(n: u64, len: usize) -> (i: usize)
    requires
        n < len,
    ensures
        i == n,
{
    n as usize
}

/// Appends `x` to `v` and returns its place.
fn store<T>(v: &mut Vec<T>, x: T) -> (n: u64)
    ensures
        final(v)@ == old(v)@.push(x),
        n == old(v)@.len(),
{
    let n = v.len() as u64;
    v.push(x);
    n
}

proof fn lemma_members_below_mono(ms: Seq<MemberV>, n: nat, na: nat, n2: nat, na2: nat)
    requires
        members_below(ms, n, na),
        n <= n2,
        na <= na2,
    ensures
        members_below(ms, n2, na2),
{
    assert forall|k: int| 0 <= k < ms.len() implies member_below(#[trigger] ms[k], n2, na2) by {
        assert(member_below(ms[k], n, na));
    }
}

// ---- the model's nodes name pieces taken from its own item ---------------------

pub open spec fn attrs_above(attrs: Seq<AttrV>, n: nat) -> bool {
    forall|k: int| 0 <= k < attrs.len() ==> (#[trigger] attrs[k]).node >= n
}

pub open spec fn member_above(m: MemberV, n: nat, n_attrs: nat) -> bool {
    match m {
        MemberV::Fn(f) => f.node >= n && attrs_above(f.attrs, n_attrs),
        MemberV::Other(x) => x >= n,
    }
}

pub open spec fn members_above(ms: Seq<MemberV>, n: nat, n_attrs: nat) -> bool {
    forall|k: int| 0 <= k < ms.len() ==> member_above(#[trigger] ms[k], n, n_attrs)
}

/// Every node of `item` names a piece stored at or after `lim`.
pub open spec fn item_above(item: ItemV, lim: Limits) -> bool {
    match item {
        ItemV::Impl(b) => b.node >= lim.impls && members_above(b.members, lim.impl_members, lim.attrs),
        ItemV::Trait(t) => t.node >= lim.items && members_above(t.members, lim.trait_members, lim.attrs),
        ItemV::Enum(e) => e.node >= lim.items,
        ItemV::Struct(s) => s.node >= lim.items,
        ItemV::Use(n) => n >= lim.items,
        ItemV::Other(n) => n >= lim.items,
    }
}

pub open spec fn items_above(items: Seq<ItemV>, lim: Limits) -> bool {
    forall|k: int| 0 <= k < items.len() ==> item_above(#[trigger] items[k], lim)
}

pub open spec fn top_above(t: TopItemV, lim: Limits) -> bool {
    match t {
        TopItemV::Mod(m) => m.node >= lim.items && match m.content {
            Some(items) => items_above(items, lim),
            None => true,
        },
        TopItemV::Other(n) => n >= lim.items,
    }
}

/// Every node of `t` names a piece stored from `lo` on and before `hi`.
pub open spec fn top_within(t: TopItemV, lo: Limits, hi: Limits) -> bool {
    top_above(t, lo) && top_below(t, hi)
}

proof fn lemma_members_above_mono(ms: Seq<MemberV>, n: nat, na: nat, n2: nat, na2: nat)
    requires
        members_above(ms, n, na),
        n2 <= n,
        na2 <= na,
    ensures
        members_above(ms, n2, na2),
{
    assert forall|k: int| 0 <= k < ms.len() implies member_above(#[trigger] ms[k], n2, na2) by {
        assert(member_above(ms[k], n, na));
    }
}

proof fn lemma_items_above_mono(items: Seq<ItemV>, a: Limits, b: Limits)
    requires
        items_above(items, a),
        limits_le(b, a),
    ensures
        items_above(items, b),
{
    assert forall|k: int| 0 <= k < items.len() implies item_above(#[trigger] items[k], b) by {
        assert(item_above(items[k], a));
        match items[k] {
            ItemV::Impl(bl) => lemma_members_above_mono(bl.members, a.impl_members, a.attrs, b.impl_members, b.attrs),
            ItemV::Trait(t) => lemma_members_above_mono(t.members, a.trait_members, a.attrs, b.trait_members, b.attrs),
            _ => {},
        }
    }
}

/// A member of an impl block as stored: a function, without its attributes,
/// with the name it was parsed with; or any other member.
pub enum ImplPiece {
    Fn(syn::ImplItemFn, String),
    Other(syn::ImplItem),
}

/// A member of a trait as stored, whole, as it was parsed: a function, with
/// the name it was parsed with; or any other member. The merge moves trait
/// functions whole, so they are put back as they were parsed.
pub enum TraitPiece {
    Fn(syn::TraitItem, String),
    Other(syn::TraitItem),
}

/// The parsed trait member that a stored piece holds.
pub open spec fn trait_piece_member(p: TraitPiece) -> syn::TraitItem {
    match p {
        TraitPiece::Fn(m, _) => m,
        TraitPiece::Other(m) => m,
    }
}

/// The node of a member.
pub open spec fn member_node(m: MemberV) -> u64 {
    match m {
        MemberV::Fn(f) => f.node,
        MemberV::Other(n) => n,
    }
}

/// The node of an item that is stored whole: an enum, a struct, a `use`
/// item or any other item that the merge does not look into.
pub open spec fn whole_node(item: ItemV) -> Option<u64> {
    match item {
        ItemV::Enum(e) => Some(e.node),
        ItemV::Struct(s) => Some(s.node),
        ItemV::Use(n) => Some(n),
        ItemV::Other(n) => Some(n),
        _ => None,
    }
}

/// The parsed pieces that the nodes of a model stand for.
pub struct Store {
    /// Enums, structs, traits (without their members), modules (without
    /// their items) and every other item, each with what was read of it.
    pub items: Vec<(syn::Item, ItemHead)>,
    /// Impl blocks without their members, each with whether it implements a
    /// trait. The place of the first block for a type is the key of that type.
    pub impls: Vec<(syn::Item, bool)>,
    pub impl_members: Vec<ImplPiece>,
    pub trait_members: Vec<TraitPiece>,
    /// Attributes, each with its meta as read.
    pub attrs: Vec<(syn::Attribute, String)>,
}

impl Store {
    /// How many pieces of each kind the store holds.
    pub open spec fn lim(&self) -> Limits {
        Limits {
            items: self.items@.len(),
            impls: self.impls@.len(),
            impl_members: self.impl_members@.len(),
            trait_members: self.trait_members@.len(),
            attrs: self.attrs@.len(),
        }
    }

    /// Every node of the models `base` and `module` names a stored piece.
    pub open spec fn fits(&self, base: TopItemV, module: TopItemV) -> bool {
        top_below(base, self.lim()) && top_below(module, self.lim())
    }

    /// Whether a function member of an impl block can be put together under
    /// the name the model gives it: where the stored function was parsed with
    /// another name, the new name must parse as an identifier.
    pub open spec fn rename_ok(&self, m: MemberV) -> bool {
        match m {
            MemberV::Fn(f) => match self.impl_members@[f.node as int] {
                ImplPiece::Fn(_, parsed) => parsed@ == f.name || is_ident(f.name),
                ImplPiece::Other(_) => true,
            },
            MemberV::Other(_) => true,
        }
    }

    pub open spec fn members_rename_ok(&self, ms: Seq<MemberV>) -> bool {
        forall|k: int| #![trigger ms[k]] 0 <= k < ms.len() ==> self.rename_ok(ms[k])
    }

    pub open spec fn item_renames_ok(&self, item: ItemV) -> bool {
        match item {
            ItemV::Impl(b) => self.members_rename_ok(b.members),
            _ => true,
        }
    }

    pub open spec fn items_rename_ok(&self, items: Seq<ItemV>) -> bool {
        forall|k: int| #![trigger items[k]] 0 <= k < items.len() ==> self.item_renames_ok(items[k])
    }

    /// Whether every function of `t` can be put together under its name.
    pub open spec fn renames_ok(&self, t: TopItemV) -> bool {
        match t {
            TopItemV::Mod(m) => match m.content {
                Some(items) => self.items_rename_ok(items),
                None => true,
            },
            TopItemV::Other(_) => true,
        }
    }

    /// Every piece of `old` stands at its place in `self`.
    pub open spec fn grows(&self, old: Store) -> bool {
        &&& limits_le(old.lim(), self.lim())
        &&& forall|n: int| 0 <= n < old.items@.len() ==> #[trigger] self.items@[n] == old.items@[n]
        &&& forall|n: int| 0 <= n < old.impls@.len() ==> #[trigger] self.impls@[n] == old.impls@[n]
        &&& forall|n: int| 0 <= n < old.impl_members@.len() ==> #[trigger] self.impl_members@[n] == old.impl_members@[n]
        &&& forall|n: int| 0 <= n < old.trait_members@.len() ==> #[trigger] self.trait_members@[n] == old.trait_members@[n]
        &&& forall|n: int| 0 <= n < old.attrs@.len() ==> #[trigger] self.attrs@[n] == old.attrs@[n]
    }

    /// The metas of `attrs` are those read of the stored attributes.
    pub open spec fn attrs_read(&self, attrs: Seq<AttrV>) -> bool {
        forall|k: int| #![trigger attrs[k]] 0 <= k < attrs.len() ==> self.attrs@[attrs[k].node as int].1@ == attrs[k].meta
    }

    /// A member of an impl block is of the kind, and a function has the name
    /// and the attributes, read of the stored member.
    pub open spec fn impl_member_read(&self, m: MemberV) -> bool {
        match m {
            MemberV::Fn(f) => (self.impl_members@[f.node as int] matches ImplPiece::Fn(_, n) && n@ == f.name)
                && self.attrs_read(f.attrs),
            MemberV::Other(n) => self.impl_members@[n as int] is Other,
        }
    }

    pub open spec fn trait_member_read(&self, m: MemberV) -> bool {
        match m {
            MemberV::Fn(f) => (self.trait_members@[f.node as int] matches TraitPiece::Fn(_, n) && n@ == f.name)
                && self.attrs_read(f.attrs),
            MemberV::Other(n) => self.trait_members@[n as int] is Other,
        }
    }

    pub open spec fn impl_members_read(&self, ms: Seq<MemberV>) -> bool {
        forall|k: int| #![trigger ms[k]] 0 <= k < ms.len() ==> self.impl_member_read(ms[k])
    }

    pub open spec fn trait_members_read(&self, ms: Seq<MemberV>) -> bool {
        forall|k: int| #![trigger ms[k]] 0 <= k < ms.len() ==> self.trait_member_read(ms[k])
    }

    /// An item is of the kind, and has the name, read of the stored item, and
    /// so are its members.
    pub open spec fn item_read(&self, item: ItemV) -> bool {
        match item {
            ItemV::Impl(b) => self.impls@[b.node as int].1 == b.is_trait_impl && self.impl_members_read(b.members),
            ItemV::Trait(t) => (self.items@[t.node as int].1 matches ItemHead::Trait(n) && n@ == t.name)
                && self.trait_members_read(t.members),
            ItemV::Enum(e) => self.items@[e.node as int].1 matches ItemHead::Enum(n) && n@ == e.name,
            ItemV::Struct(s) => self.items@[s.node as int].1 matches ItemHead::Struct(n) && n@ == s.name,
            ItemV::Use(n) => self.items@[n as int].1 is Use,
            ItemV::Other(n) => self.items@[n as int].1 is Mod || self.items@[n as int].1 is Other,
        }
    }

    pub open spec fn items_read(&self, items: Seq<ItemV>) -> bool {
        forall|k: int| #![trigger items[k]] 0 <= k < items.len() ==> self.item_read(items[k])
    }

    /// A top-level item is a module exactly where the stored item was read as
    /// one, under the name read of it, and its items are read as above.
    pub open spec fn top_read(&self, t: TopItemV) -> bool {
        match t {
            TopItemV::Mod(m) => (self.items@[m.node as int].1 matches ItemHead::Mod(n) && n@ == m.name)
                && match m.content {
                    Some(items) => self.items_read(items),
                    None => true,
                },
            TopItemV::Other(n) => !(self.items@[n as int].1 is Mod),
        }
    }

    fn new() -> (s: Store)
        ensures
            s.lim() == (Limits { items: 0, impls: 0, impl_members: 0, trait_members: 0, attrs: 0 }),
    {
        Store { items: Vec::new(), impls: Vec::new(), impl_members: Vec::new(), trait_members: Vec::new(), attrs: Vec::new() }
    }

    /// The key of the implemented type of impl block `item`: the place of the
    /// first stored block for an equal type, or the place `item` will take.
    fn impl_key(&self, item: &syn::Item) -> (key: u64) {
        let mut j: usize = 0;
        while j < self.impls.len()
            invariant
                j <= self.impls@.len(),
            decreases self.impls@.len() - j,
        {
            if same_impl_type(&self.impls[j].0, item) {
                return j as u64;
            }
            j = j + 1;
        }
        self.impls.len() as u64
    }

    fn add_attrs(&mut self, attrs: Vec<syn::Attribute>) -> (out: Vec<Attr>)
        ensures
            limits_le(old(self).lim(), final(self).lim()),
            attrs_below(attrs_view(out@), final(self).lim().attrs),
            attrs_above(attrs_view(out@), old(self).lim().attrs),
            final(self).grows(*old(self)),
            final(self).attrs_read(attrs_view(out@)),
    {
        let ghost l0 = self.lim();
        let ghost s0 = *self;
        let mut attrs = attrs;
        let mut out: Vec<Attr> = Vec::new();
        while attrs.len() > 0
            invariant
                limits_le(l0, self.lim()),
                attrs_below(attrs_view(out@), self.lim().attrs),
                attrs_above(attrs_view(out@), l0.attrs),
                self.grows(s0),
                self.attrs_read(attrs_view(out@)),
            decreases attrs@.len(),
        {
            let a = attrs.remove(0);
            let meta = attr_meta(&a);
            let ghost s1 = *self;
            let node = store(&mut self.attrs, (a, meta.clone()));
            let ghost before = out@;
            out.push(Attr { meta, node });
            assert(attrs_view(out@) =~= attrs_view(before).push(out@.last()@));
            proof {
                assert(self.grows(s1));
                lemma_grows_trans(s0, s1, *self);
                lemma_attrs_read_grows(s1, *self, attrs_view(before));
            }
        }
        out
    }

    fn add_impl_members(&mut self, members: Vec<syn::ImplItem>) -> (out: Vec<Member>)
        ensures
            limits_le(old(self).lim(), final(self).lim()),
            members_below(members_view(out@), final(self).lim().impl_members, final(self).lim().attrs),
            members_above(members_view(out@), old(self).lim().impl_members, old(self).lim().attrs),
            final(self).grows(*old(self)),
            final(self).impl_members_read(members_view(out@)),
    {
        let ghost l0 = self.lim();
        let ghost s0 = *self;
        let mut members = members;
        let mut out: Vec<Member> = Vec::new();
        while members.len() > 0
            invariant
                limits_le(l0, self.lim()),
                members_below(members_view(out@), self.lim().impl_members, self.lim().attrs),
                members_above(members_view(out@), l0.impl_members, l0.attrs),
                self.grows(s0),
                self.impl_members_read(members_view(out@)),
            decreases members@.len(),
        {
            let m = members.remove(0);
            let ghost before = out@;
            let ghost l1 = self.lim();
            let ghost s1 = *self;
            match split_impl_member(m) {
                Ok(f) => {
                    let mut f = f;
                    let name = impl_fn_name(&f);
                    let attrs = self.add_attrs(take_impl_fn_attrs(&mut f));
                    let ghost s2 = *self;
                    proof {
                        lemma_attrs_above_mono(attrs_view(attrs@), l1.attrs, l0.attrs);
                    }
                    let node = store(&mut self.impl_members, ImplPiece::Fn(f, name.clone()));
                    proof {
                        assert(self.grows(s2));
                        lemma_grows_trans(s1, s2, *self);
                        lemma_attrs_read_grows(s2, *self, attrs_view(attrs@));
                    }
                    out.push(Member::Fn(FnItem { name, attrs, node }));
                },
                Err(other) => {
                    let node = store(&mut self.impl_members, ImplPiece::Other(other));
                    proof {
                        assert(self.grows(s1));
                    }
                    out.push(Member::Other(node));
                },
            }
            proof {
                lemma_grows_trans(s0, s1, *self);
                lemma_members_below_mono(members_view(before), l1.impl_members, l1.attrs, self.lim().impl_members, self.lim().attrs);
                lemma_members_read_grows(s1, *self, members_view(before), false);
                assert(members_view(out@) =~= members_view(before).push(out@.last()@));
            }
        }
        out
    }

    fn add_trait_members(&mut self, members: Vec<syn::TraitItem>) -> (out: Vec<Member>)
        ensures
            limits_le(old(self).lim(), final(self).lim()),
            members_below(members_view(out@), final(self).lim().trait_members, final(self).lim().attrs),
            members_above(members_view(out@), old(self).lim().trait_members, old(self).lim().attrs),
            final(self).grows(*old(self)),
            final(self).trait_members_read(members_view(out@)),
    {
        let ghost l0 = self.lim();
        let ghost s0 = *self;
        let mut members = members;
        let mut out: Vec<Member> = Vec::new();
        while members.len() > 0
            invariant
                limits_le(l0, self.lim()),
                members_below(members_view(out@), self.lim().trait_members, self.lim().attrs),
                members_above(members_view(out@), l0.trait_members, l0.attrs),
                self.grows(s0),
                self.trait_members_read(members_view(out@)),
            decreases members@.len(),
        {
            let m = members.remove(0);
            let ghost before = out@;
            let ghost l1 = self.lim();
            let ghost s1 = *self;
            match split_trait_member(clone_trait_member(&m)) {
                Ok(f) => {
                    let mut f = f;
                    let name = trait_fn_name(&f);
                    let attrs = self.add_attrs(take_trait_fn_attrs(&mut f));
                    let ghost s2 = *self;
                    proof {
                        lemma_attrs_above_mono(attrs_view(attrs@), l1.attrs, l0.attrs);
                    }
                    let node = store(&mut self.trait_members, TraitPiece::Fn(m, name.clone()));
                    proof {
                        assert(self.grows(s2));
                        lemma_grows_trans(s1, s2, *self);
                        lemma_attrs_read_grows(s2, *self, attrs_view(attrs@));
                    }
                    out.push(Member::Fn(FnItem { name, attrs, node }));
                },
                Err(_) => {
                    let node = store(&mut self.trait_members, TraitPiece::Other(m));
                    proof {
                        assert(self.grows(s1));
                    }
                    out.push(Member::Other(node));
                },
            }
            proof {
                lemma_grows_trans(s0, s1, *self);
                lemma_members_below_mono(members_view(before), l1.trait_members, l1.attrs, self.lim().trait_members, self.lim().attrs);
                lemma_members_read_grows(s1, *self, members_view(before), true);
                assert(members_view(out@) =~= members_view(before).push(out@.last()@));
            }
        }
        out
    }

    fn add_item(&mut self, item: syn::Item) -> (out: ModItem)
        ensures
            limits_le(old(self).lim(), final(self).lim()),
            item_below(out@, final(self).lim()),
            item_above(out@, old(self).lim()),
            final(self).grows(*old(self)),
            final(self).item_read(out@),
    {
        let ghost s0 = *self;
        let mut item = item;
        match item_head(&item) {
            ItemHead::Impl { is_trait_impl } => {
                let members = take_impl_members(&mut item);
                let self_ty = self.impl_key(&item);
                let node = store(&mut self.impls, (item, is_trait_impl));
                let ghost s1 = *self;
                let members = self.add_impl_members(members);
                proof {
                    assert(s1.grows(s0));
                    lemma_grows_trans(s0, s1, *self);
                    assert(self.impls@[node as int] == s1.impls@[node as int]);
                }
                ModItem::Impl(ImplBlock { self_ty, is_trait_impl, members, node })
            },
            ItemHead::Trait(name) => {
                let members = take_trait_members(&mut item);
                let node = store(&mut self.items, (item, ItemHead::Trait(name.clone())));
                let ghost s1 = *self;
                let members = self.add_trait_members(members);
                proof {
                    assert(s1.grows(s0));
                    lemma_grows_trans(s0, s1, *self);
                    assert(self.items@[node as int] == s1.items@[node as int]);
                }
                ModItem::Trait(TraitBlock { name, members, node })
            },
            ItemHead::Use => {
                let node = store(&mut self.items, (item, ItemHead::Use));
                assert(self.grows(s0));
                ModItem::Use(node)
            },
            ItemHead::Enum(name) => {
                let node = store(&mut self.items, (item, ItemHead::Enum(name.clone())));
                assert(self.grows(s0));
                ModItem::Enum(NamedItem { name, node })
            },
            ItemHead::Struct(name) => {
                let node = store(&mut self.items, (item, ItemHead::Struct(name.clone())));
                assert(self.grows(s0));
                ModItem::Struct(NamedItem { name, node })
            },
            other => {
                let node = store(&mut self.items, (item, other));
                assert(self.grows(s0));
                ModItem::Other(node)
            },
        }
    }

    fn add_items(&mut self, items: Vec<syn::Item>) -> (out: Vec<ModItem>)
        ensures
            limits_le(old(self).lim(), final(self).lim()),
            items_below(items_view(out@), final(self).lim()),
            items_above(items_view(out@), old(self).lim()),
            final(self).grows(*old(self)),
            final(self).items_read(items_view(out@)),
    {
        let ghost l0 = self.lim();
        let ghost s0 = *self;
        let mut items = items;
        let mut out: Vec<ModItem> = Vec::new();
        while items.len() > 0
            invariant
                limits_le(l0, self.lim()),
                items_below(items_view(out@), self.lim()),
                items_above(items_view(out@), l0),
                self.grows(s0),
                self.items_read(items_view(out@)),
            decreases items@.len(),
        {
            let item = items.remove(0);
            let ghost before = out@;
            let ghost l1 = self.lim();
            let ghost s1 = *self;
            let m = self.add_item(item);
            out.push(m);
            proof {
                lemma_grows_trans(s0, s1, *self);
                lemma_items_read_grows(s1, *self, items_view(before));
                lemma_items_below_mono(items_view(before), l1, self.lim());
                lemma_item_above_mono(m@, l1, l0);
                assert(items_view(out@) =~= items_view(before).push(out@.last()@));
            }
        }
        out
    }

    fn add_top(&mut self, item: syn::Item) -> (out: TopItem)
        ensures
            limits_le(old(self).lim(), final(self).lim()),
            top_within(out@, old(self).lim(), final(self).lim()),
            final(self).grows(*old(self)),
            final(self).top_read(out@),
    {
        let ghost l0 = self.lim();
        let ghost s0 = *self;
        let mut item = item;
        match item_head(&item) {
            ItemHead::Mod(name) => {
                let items = take_mod_items(&mut item);
                let node = store(&mut self.items, (item, ItemHead::Mod(name.clone())));
                let ghost l1 = self.lim();
                let ghost s1 = *self;
                assert(s1.grows(s0));
                let content = match items {
                    Some(items) => {
                        let c = self.add_items(items);
                        proof {
                            lemma_items_above_mono(items_view(c@), l1, l0);
                        }
                        Some(c)
                    },
                    None => None,
                };
                proof {
                    lemma_grows_trans(s0, s1, *self);
                    assert(self.items@[node as int] == s1.items@[node as int]);
                }
                TopItem::Mod(Module { name, content, node })
            },
            other => {
                let node = store(&mut self.items, (item, other));
                assert(self.grows(s0));
                TopItem::Other(node)
            },
        }
    }

    /// The stored attributes that `attrs` name, in their order.
    fn emit_attrs(&self, attrs: &Vec<Attr>) -> (out: Vec<syn::Attribute>)
        requires
            attrs_below(attrs_view(attrs@), self.lim().attrs),
        ensures
            out@.len() == attrs@.len(),
            forall|k: int| 0 <= k < attrs@.len() ==> vstd::pervasive::cloned(
                self.attrs@[attrs@[k].node as int].0,
                #[trigger] out@[k],
            ),
    {
        let mut out: Vec<syn::Attribute> = Vec::new();
        let mut k: usize = 0;
        while k < attrs.len()
            invariant
                k <= attrs@.len(),
                out@.len() == k,
                attrs_below(attrs_view(attrs@), self.lim().attrs),
                forall|j: int| 0 <= j < k ==> vstd::pervasive::cloned(self.attrs@[attrs@[j].node as int].0, #[trigger] out@[j]),
            decreases attrs@.len() - k,
        {
            assert(attrs_view(attrs@)[k as int] == attrs@[k as int]@);
            let i = place(attrs[k].node, self.attrs.len());
            out.push(clone_attr(&self.attrs[i].0));
            k = k + 1;
        }
        out
    }

    /// An impl-block member put together; a function gets the attributes and
    /// the name that the model gives it. `None` exactly where the name cannot
    /// be given (see `rename_ok`).
    fn emit_impl_member(&self, m: &Member) -> (out: Option<syn::ImplItem>)
        requires
            member_below(m@, self.lim().impl_members, self.lim().attrs),
        ensures
            (out is Some) <==> self.rename_ok(m@),
            m@ matches MemberV::Other(n) ==> (self.impl_members@[n as int] matches ImplPiece::Other(x)
                ==> (out matches Some(y) && vstd::pervasive::cloned(x, y))),
    {
        match m {
            Member::Other(n) => match &self.impl_members[place(*n, self.impl_members.len())] {
                ImplPiece::Fn(f, _) => Some(impl_member_of_fn(clone_impl_fn(f))),
                ImplPiece::Other(x) => Some(clone_impl_member(x)),
            },
            Member::Fn(f) => match &self.impl_members[place(f.node, self.impl_members.len())] {
                ImplPiece::Fn(g, parsed) => {
                    let mut x = clone_impl_fn(g);
                    put_impl_fn_attrs(&mut x, self.emit_attrs(&f.attrs));
                    if f.name != *parsed && !rename_impl_fn(&mut x, f.name.as_str()) {
                        return None;
                    }
                    Some(impl_member_of_fn(x))
                },
                ImplPiece::Other(x) => Some(clone_impl_member(x)),
            },
        }
    }

    /// A trait member put back as it was parsed: the merge only moves trait
    /// functions whole, with their attributes.
    fn emit_trait_member(&self, m: &Member) -> (out: syn::TraitItem)
        requires
            member_below(m@, self.lim().trait_members, self.lim().attrs),
        ensures
            vstd::pervasive::cloned(trait_piece_member(self.trait_members@[member_node(m@) as int]), out),
    {
        let n = match m {
            Member::Other(n) => *n,
            Member::Fn(f) => f.node,
        };
        match &self.trait_members[place(n, self.trait_members.len())] {
            TraitPiece::Fn(x, _) => clone_trait_member(x),
            TraitPiece::Other(x) => clone_trait_member(x),
        }
    }

    fn emit_item(&self, item: &ModItem) -> (out: Option<syn::Item>)
        requires
            item_below(item@, self.lim()),
        ensures
            (out is Some) <==> self.item_renames_ok(item@),
            whole_node(item@) matches Some(n) ==> (out matches Some(x) && vstd::pervasive::cloned(self.items@[n as int].0, x)),
    {
        match item {
            ModItem::Impl(b) => {
                let ghost mv = members_view(b.members@);
                let mut shell = clone_item(&self.impls[place(b.node, self.impls.len())].0);
                let mut members: Vec<syn::ImplItem> = Vec::new();
                let mut k: usize = 0;
                while k < b.members.len()
                    invariant
                        k <= b.members@.len(),
                        mv == members_view(b.members@),
                        item@ == ItemV::Impl(b@),
                        members_below(mv, self.lim().impl_members, self.lim().attrs),
                        forall|j: int| 0 <= j < k ==> self.rename_ok(#[trigger] mv[j]),
                    decreases b.members@.len() - k,
                {
                    assert(mv[k as int] == b.members@[k as int]@);
                    match self.emit_impl_member(&b.members[k]) {
                        Some(x) => members.push(x),
                        None => {
                            assert(!self.rename_ok(mv[k as int]));
                            return None;
                        },
                    }
                    k = k + 1;
                }
                put_impl_members(&mut shell, members);
                Some(shell)
            },
            ModItem::Trait(t) => {
                let mut shell = clone_item(&self.items[place(t.node, self.items.len())].0);
                let mut members: Vec<syn::TraitItem> = Vec::new();
                let mut k: usize = 0;
                while k < t.members.len()
                    invariant
                        k <= t.members@.len(),
                        members_below(members_view(t.members@), self.lim().trait_members, self.lim().attrs),
                    decreases t.members@.len() - k,
                {
                    assert(members_view(t.members@)[k as int] == t.members@[k as int]@);
                    members.push(self.emit_trait_member(&t.members[k]));
                    k = k + 1;
                }
                put_trait_members(&mut shell, members);
                Some(shell)
            },
            ModItem::Enum(e) => Some(clone_item(&self.items[place(e.node, self.items.len())].0)),
            ModItem::Struct(s) => Some(clone_item(&self.items[place(s.node, self.items.len())].0)),
            ModItem::Use(n) => Some(clone_item(&self.items[place(*n, self.items.len())].0)),
            ModItem::Other(n) => Some(clone_item(&self.items[place(*n, self.items.len())].0)),
        }
    }

    fn emit_top(&self, top: &TopItem) -> (out: Option<syn::Item>)
        requires
            top_below(top@, self.lim()),
        ensures
            (out is Some) <==> self.renames_ok(top@),
            top@ matches TopItemV::Other(n) ==> (out matches Some(x) && vstd::pervasive::cloned(self.items@[n as int].0, x)),
    {
        match top {
            TopItem::Mod(m) => {
                let mut shell = clone_item(&self.items[place(m.node, self.items.len())].0);
                if let Some(content) = &m.content {
                    let ghost iv = items_view(content@);
                    let mut items: Vec<syn::Item> = Vec::new();
                    let mut k: usize = 0;
                    while k < content.len()
                        invariant
                            k <= content@.len(),
                            iv == items_view(content@),
                            top@ == TopItemV::Mod(m@),
                            m@.content == Some(iv),
                            items_below(iv, self.lim()),
                            forall|j: int| 0 <= j < k ==> self.item_renames_ok(#[trigger] iv[j]),
                        decreases content@.len() - k,
                    {
                        assert(iv[k as int] == content@[k as int]@);
                        match self.emit_item(&content[k]) {
                            Some(x) => items.push(x),
                            None => {
                                assert(!self.item_renames_ok(iv[k as int]));
                                return None;
                            },
                        }
                        k = k + 1;
                    }
                    put_mod_items(&mut shell, items);
                }
                Some(shell)
            },
            TopItem::Other(n) => Some(clone_item(&self.items[place(*n, self.items.len())].0)),
        }
    }
}

proof fn lemma_grows_trans(s1: Store, s2: Store, s3: Store)
    requires
        s2.grows(s1),
        s3.grows(s2),
    ensures
        s3.grows(s1),
{
    assert forall|n: int| 0 <= n < s1.items@.len() implies #[trigger] s3.items@[n] == s1.items@[n] by {
        assert(s2.items@[n] == s1.items@[n]);
    }
    assert forall|n: int| 0 <= n < s1.impls@.len() implies #[trigger] s3.impls@[n] == s1.impls@[n] by {
        assert(s2.impls@[n] == s1.impls@[n]);
    }
    assert forall|n: int| 0 <= n < s1.impl_members@.len() implies #[trigger] s3.impl_members@[n] == s1.impl_members@[n] by {
        assert(s2.impl_members@[n] == s1.impl_members@[n]);
    }
    assert forall|n: int| 0 <= n < s1.trait_members@.len() implies #[trigger] s3.trait_members@[n] == s1.trait_members@[n] by {
        assert(s2.trait_members@[n] == s1.trait_members@[n]);
    }
    assert forall|n: int| 0 <= n < s1.attrs@.len() implies #[trigger] s3.attrs@[n] == s1.attrs@[n] by {
        assert(s2.attrs@[n] == s1.attrs@[n]);
    }
}

proof fn lemma_attrs_read_grows(s1: Store, s2: Store, a: Seq<AttrV>)
    requires
        s2.grows(s1),
        s1.attrs_read(a),
        attrs_below(a, s1.lim().attrs),
    ensures
        s2.attrs_read(a),
{
    assert forall|k: int| #![trigger a[k]] 0 <= k < a.len() implies s2.attrs@[a[k].node as int].1@ == a[k].meta by {
        assert(s2.attrs@[a[k].node as int] == s1.attrs@[a[k].node as int]);
    }
}

proof fn lemma_members_read_grows(s1: Store, s2: Store, ms: Seq<MemberV>, in_trait: bool)
    requires
        s2.grows(s1),
        if in_trait { s1.trait_members_read(ms) } else { s1.impl_members_read(ms) },
        members_below(ms, if in_trait { s1.lim().trait_members } else { s1.lim().impl_members }, s1.lim().attrs),
    ensures
        if in_trait { s2.trait_members_read(ms) } else { s2.impl_members_read(ms) },
{
    assert forall|k: int| #![trigger ms[k]] 0 <= k < ms.len() implies
        (if in_trait { s2.trait_member_read(ms[k]) } else { s2.impl_member_read(ms[k]) }) by {
        assert(member_below(ms[k], if in_trait { s1.lim().trait_members } else { s1.lim().impl_members }, s1.lim().attrs));
        assert(if in_trait { s1.trait_member_read(ms[k]) } else { s1.impl_member_read(ms[k]) });
        match ms[k] {
            MemberV::Fn(f) => {
                lemma_attrs_read_grows(s1, s2, f.attrs);
                if in_trait {
                    assert(s2.trait_members@[f.node as int] == s1.trait_members@[f.node as int]);
                } else {
                    assert(s2.impl_members@[f.node as int] == s1.impl_members@[f.node as int]);
                }
            },
            MemberV::Other(n) => {
                if in_trait {
                    assert(s2.trait_members@[n as int] == s1.trait_members@[n as int]);
                } else {
                    assert(s2.impl_members@[n as int] == s1.impl_members@[n as int]);
                }
            },
        }
    }
}

proof fn lemma_item_read_grows(s1: Store, s2: Store, item: ItemV)
    requires
        s2.grows(s1),
        s1.item_read(item),
        item_below(item, s1.lim()),
    ensures
        s2.item_read(item),
{
    match item {
        ItemV::Impl(b) => {
            assert(s2.impls@[b.node as int] == s1.impls@[b.node as int]);
            lemma_members_read_grows(s1, s2, b.members, false);
        },
        ItemV::Trait(t) => {
            assert(s2.items@[t.node as int] == s1.items@[t.node as int]);
            lemma_members_read_grows(s1, s2, t.members, true);
        },
        ItemV::Enum(e) => assert(s2.items@[e.node as int] == s1.items@[e.node as int]),
        ItemV::Struct(st) => assert(s2.items@[st.node as int] == s1.items@[st.node as int]),
        ItemV::Use(n) => assert(s2.items@[n as int] == s1.items@[n as int]),
        ItemV::Other(n) => assert(s2.items@[n as int] == s1.items@[n as int]),
    }
}

proof fn lemma_items_read_grows(s1: Store, s2: Store, items: Seq<ItemV>)
    requires
        s2.grows(s1),
        s1.items_read(items),
        items_below(items, s1.lim()),
    ensures
        s2.items_read(items),
{
    assert forall|k: int| #![trigger items[k]] 0 <= k < items.len() implies s2.item_read(items[k]) by {
        assert(item_below(items[k], s1.lim()));
        lemma_item_read_grows(s1, s2, items[k]);
    }
}

proof fn lemma_top_read_grows(s1: Store, s2: Store, t: TopItemV)
    requires
        s2.grows(s1),
        s1.top_read(t),
        top_below(t, s1.lim()),
    ensures
        s2.top_read(t),
{
    match t {
        TopItemV::Mod(m) => {
            assert(s2.items@[m.node as int] == s1.items@[m.node as int]);
            match m.content {
                Some(items) => lemma_items_read_grows(s1, s2, items),
                None => {},
            }
        },
        TopItemV::Other(n) => assert(s2.items@[n as int] == s1.items@[n as int]),
    }
}

proof fn lemma_attrs_above_mono(attrs: Seq<AttrV>, n: nat, n2: nat)
    requires
        attrs_above(attrs, n),
        n2 <= n,
    ensures
        attrs_above(attrs, n2),
{
}

proof fn lemma_item_above_mono(item: ItemV, a: Limits, b: Limits)
    requires
        item_above(item, a),
        limits_le(b, a),
    ensures
        item_above(item, b),
{
    match item {
        ItemV::Impl(bl) => lemma_members_above_mono(bl.members, a.impl_members, a.attrs, b.impl_members, b.attrs),
        ItemV::Trait(t) => lemma_members_above_mono(t.members, a.trait_members, a.attrs, b.trait_members, b.attrs),
        _ => {},
    }
}

/// Whether `base` and `module` are the models of two items taken apart into
/// `store`, in that order: every node names a stored piece, each model is
/// what was read of its pieces (kinds and names of items and members,
/// whether an impl block implements a trait, attribute metas), and all
/// pieces of `base` were stored before all pieces of `module`.
pub open spec fn taken_apart(store: Store, base: TopItemV, module: TopItemV) -> bool {
    &&& store.fits(base, module)
    &&& store.top_read(base)
    &&& store.top_read(module)
    &&& exists|mid: Limits| limits_le(mid, store.lim()) && #[trigger] top_below(base, mid) && top_above(module, mid)
}

/// Takes apart the last item of a base file and an override into the model
/// of `module_merge`, keeping the parsed pieces in a store (see
/// `taken_apart`).
pub fn take_apart(base: syn::Item, module: syn::Item) -> (r: (Store, TopItem, TopItem))
    ensures
        taken_apart(r.0, r.1@, r.2@),
{
    let mut store = Store::new();
    let base = store.add_top(base);
    let ghost l1 = store.lim();
    let ghost s1 = store;
    let module = store.add_top(module);
    proof {
        lemma_top_read_grows(s1, store, base@);
        lemma_top_below_mono(base@, l1, store.lim());
        assert(limits_le(l1, store.lim()) && top_below(base@, l1) && top_above(module@, l1));
    }
    let r = (store, base, module);
    assert(limits_le(l1, r.0.lim()) && top_below(r.1@, l1) && top_above(r.2@, l1));
    r
}

/// What merging the override model `module` into the base model `base`
/// gives, with the pieces of `store`: the merge's error where the model
/// cannot be merged; otherwise the merged item as tokens, or
/// `Unprintable` exactly where a function of the merged model cannot be given
/// its new name (`Store::renames_ok`).
pub open spec fn merge_outcome(store: Store, base: TopItemV, module: TopItemV, r: Result<proc_macro2::TokenStream, SourceError>) -> bool {
    match merged_module(seq![base], module) {
        Err(e) => r matches Err(SourceError::Merge(x)) && x == e,
        Ok(t) => ((r is Ok) <==> store.renames_ok(t)) && (r is Ok || r matches Err(SourceError::Unprintable)),
    }
}

/// Merges the override model `module` into the base model `base` and puts
/// the merged item together as tokens from the pieces in `store` (see
/// `merge_outcome`).
pub fn merge_parsed(store: Store, base: TopItem, module: TopItem) -> (r: Result<proc_macro2::TokenStream, SourceError>)
    requires
        store.fits(base@, module@),
    ensures
        merge_outcome(store, base@, module@, r),
{
    let ghost bv = base@;
    let ghost mv = module@;
    let bases = vec![base];
    assert(top_items_view(bases@) =~= seq![bv]);
    match try_impl_mod(bases, module) {
        Err(e) => Err(SourceError::Merge(e)),
        Ok(t) => {
            proof {
                lemma_merged_below(bv, mv, store.lim());
            }
            match store.emit_top(&t) {
                Some(item) => Ok(item_tokens(item)),
                None => Err(SourceError::Unprintable),
            }
        },
    }
}

/// Merges the override `module` (one item) into the last item of the base
/// file `base` and gives back that item as tokens. The base is read as
/// items until one fails to parse, and tokens left unread are an error;
/// where either does not parse, the error holds the parser's report. An
/// empty base file is answered with `MergeError::EmptyBase`. Otherwise the
/// last base item and the override are taken apart (`take_apart`) and the
/// result is that of `merge_parsed` on their models. What the parser makes
/// of the tokens is the parser's: the contract speaks of the models that were
/// read, not of the tokens.
pub fn merge_sources(base: proc_macro2::TokenStream, module: proc_macro2::TokenStream) -> (r: Result<proc_macro2::TokenStream, SourceError>)
    ensures
        (r is Err && r->Err_0 is Parse)
            || (r is Err && r->Err_0 == SourceError::Merge(MergeError::EmptyBase))
            || (exists|store: Store, b: TopItemV, m: TopItemV| taken_apart(store, b, m) && #[trigger] merge_outcome(store, b, m, r)),
{
    let bound = token_tree_count(&base);
    let mut items = match parse_items(base, bound) {
        Ok(items) => items,
        Err(e) => {
            return Err(SourceError::Parse(e));
        },
    };
    let module = match parse_item(module) {
        Ok(item) => item,
        Err(e) => {
            return Err(SourceError::Parse(e));
        },
    };
    match items.pop() {
        Some(last) => {
            let (store, base, module) = take_apart(last, module);
            let ghost sv = store;
            let ghost bv = base@;
            let ghost mv = module@;
            let r = merge_parsed(store, base, module);
            assert(taken_apart(sv, bv, mv) && merge_outcome(sv, bv, mv, r));
            r
        },
        None => Err(SourceError::Merge(MergeError::EmptyBase)),
    }
}

} // verus!
