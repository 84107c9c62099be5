//! Merging the same override twice.
//!
//! A merge is a run of single steps: each function of an override impl block
//! or trait, each enum or struct and each `use` item is one step. Where the
//! override holds no `use` item and no function that asks to keep the one it
//! replaces, and no two base traits both hold a function that an override
//! trait of their name replaces, every step writes its
//! value into one place that the names in the base decide, or adds an enum
//! or struct at the end; a second merge then writes the same values into the
//! same places, and changes nothing.

use vstd::prelude::*;

use crate::module_merge::{
    apply_impl_fn, apply_impl_members, apply_item, apply_trait_members, find_named, has_needs_super,
    is_named, is_trait_named, merge_items, merged_module, override_in_impl,
    replace_or_push, scan_impls, scan_members, trait_pass, without_needs_super, FnItemV, ImplBlockV,
    ItemV, MemberV, MergeError, TopItemV, TraitBlockV,
    lemma_scan_impls_slot, lemma_scan_members_slot, lemma_find_named_in_range, lemma_find_named_skips,
    lemma_find_named_first, lemma_trait_pass_len,
};

verus! {

/// One step of a merge.
pub enum Step {
    ImplFn(u64, FnItemV),
    TraitFn(Seq<char>, FnItemV),
    /// An enum (`false`) or a struct (`true`) with its name.
    Named(bool, Seq<char>, ItemV),
    Use(u64),
    /// A member or item of a kind that the merge does not handle.
    Bad,
}

pub open spec fn impl_steps(ty: u64, ms: Seq<MemberV>) -> Seq<Step> {
    ms.map_values(|m: MemberV| match m {
        MemberV::Fn(f) => Step::ImplFn(ty, f),
        MemberV::Other(_) => Step::Bad,
    })
}

pub open spec fn trait_steps(name: Seq<char>, ms: Seq<MemberV>) -> Seq<Step> {
    ms.map_values(|m: MemberV| match m {
        MemberV::Fn(f) => Step::TraitFn(name, f),
        MemberV::Other(_) => Step::Bad,
    })
}

pub open spec fn item_steps(item: ItemV) -> Seq<Step> {
    match item {
        ItemV::Impl(b) => impl_steps(b.self_ty, b.members),
        ItemV::Trait(t) => trait_steps(t.name, t.members),
        ItemV::Enum(e) => seq![Step::Named(false, e.name, item)],
        ItemV::Struct(s) => seq![Step::Named(true, s.name, item)],
        ItemV::Use(n) => seq![Step::Use(n)],
        ItemV::Other(_) => seq![Step::Bad],
    }
}

pub open spec fn steps_of(items: Seq<ItemV>) -> Seq<Step>
    decreases items.len(),
{
    if items.len() == 0 {
        Seq::empty()
    } else {
        item_steps(items[0]) + steps_of(items.drop_first())
    }
}

pub open spec fn apply_step(c: Seq<ItemV>, s: Step) -> Result<Seq<ItemV>, MergeError> {
    match s {
        Step::ImplFn(ty, f) => apply_impl_fn(c, ty, f),
        Step::TraitFn(name, f) => trait_pass(c, name, f.name, f, 0),
        Step::Named(is_struct, name, item) => Ok(replace_or_push(c, is_struct, name, item)),
        Step::Use(n) => Ok(seq![ItemV::Use(n)] + c),
        Step::Bad => Err(MergeError::Unsupported),
    }
}

pub open spec fn run_steps(c: Seq<ItemV>, steps: Seq<Step>) -> Result<Seq<ItemV>, MergeError>
    decreases steps.len(),
{
    if steps.len() == 0 {
        Ok(c)
    } else {
        match apply_step(c, steps[0]) {
            Err(e) => Err(e),
            Ok(c1) => run_steps(c1, steps.drop_first()),
        }
    }
}

proof fn lemma_run_append(c: Seq<ItemV>, a: Seq<Step>, b: Seq<Step>)
    ensures
        run_steps(c, a + b) == (match run_steps(c, a) {
            Err(e) => Err(e),
            Ok(c1) => run_steps(c1, b),
        }),
    decreases a.len(),
{
    if a.len() == 0 {
        assert(a + b =~= b);
    } else {
        assert((a + b).drop_first() =~= a.drop_first() + b);
        assert((a + b)[0] == a[0]);
        match apply_step(c, a[0]) {
            Err(_) => {},
            Ok(c1) => lemma_run_append(c1, a.drop_first(), b),
        }
    }
}

proof fn lemma_impl_steps(c: Seq<ItemV>, ty: u64, ms: Seq<MemberV>)
    ensures
        apply_impl_members(c, ty, ms) == run_steps(c, impl_steps(ty, ms)),
    decreases ms.len(),
{
    if ms.len() > 0 {
        assert(impl_steps(ty, ms).drop_first() =~= impl_steps(ty, ms.drop_first()));
        match ms[0] {
            MemberV::Fn(f) => match apply_impl_fn(c, ty, f) {
                Err(_) => {},
                Ok(c1) => lemma_impl_steps(c1, ty, ms.drop_first()),
            },
            MemberV::Other(_) => {},
        }
    }
}

proof fn lemma_trait_steps(c: Seq<ItemV>, name: Seq<char>, ms: Seq<MemberV>)
    ensures
        apply_trait_members(c, name, ms) == run_steps(c, trait_steps(name, ms)),
    decreases ms.len(),
{
    if ms.len() > 0 {
        assert(trait_steps(name, ms).drop_first() =~= trait_steps(name, ms.drop_first()));
        match ms[0] {
            MemberV::Fn(f) => match trait_pass(c, name, f.name, f, 0) {
                Err(_) => {},
                Ok(c1) => lemma_trait_steps(c1, name, ms.drop_first()),
            },
            MemberV::Other(_) => {},
        }
    }
}

proof fn lemma_item_steps(c: Seq<ItemV>, item: ItemV)
    ensures
        apply_item(c, item) == run_steps(c, item_steps(item)),
{
    match item {
        ItemV::Impl(b) => lemma_impl_steps(c, b.self_ty, b.members),
        ItemV::Trait(t) => lemma_trait_steps(c, t.name, t.members),
        _ => {
            let s = item_steps(item);
            assert(s.len() == 1);
            assert(s.drop_first().len() == 0);
            match apply_step(c, s[0]) {
                Err(_) => {},
                Ok(c1) => assert(run_steps(c1, s.drop_first()) == Ok::<Seq<ItemV>, MergeError>(c1)),
            }
        },
    }
}

pub(crate) proof fn lemma_merge_steps(c: Seq<ItemV>, items: Seq<ItemV>)
    ensures
        merge_items(c, items) == run_steps(c, steps_of(items)),
    decreases items.len(),
{
    if items.len() > 0 {
        lemma_item_steps(c, items[0]);
        lemma_run_append(c, item_steps(items[0]), steps_of(items.drop_first()));
        match apply_item(c, items[0]) {
            Err(_) => {},
            Ok(c1) => lemma_merge_steps(c1, items.drop_first()),
        }
    }
}


// ---- places -------------------------------------------------------------------

/// Whether `item` is a trait named `tn` in which the merge's scan finds a
/// function named `name`.
pub open spec fn holds_fn(item: ItemV, tn: Seq<char>, name: Seq<char>) -> bool {
    item matches ItemV::Trait(t) && t.name == tn && scan_members(t.members, name, 0) matches Ok(Some(_))
}

/// For each pair of a trait name and a function name in `pairs`, no two
/// traits of `c` hold that function.
pub open spec fn traits_unique(c: Seq<ItemV>, pairs: Set<(Seq<char>, Seq<char>)>) -> bool {
    forall|a: int, b: int, tn: Seq<char>, name: Seq<char>|
        0 <= a < b < c.len() && pairs.contains((tn, name)) && #[trigger] holds_fn(c[a], tn, name)
            && #[trigger] holds_fn(c[b], tn, name) ==> false
}

/// Whether the scan for `name` fails in a trait named `tn` from position `k` on.
pub open spec fn trait_scan_fails(c: Seq<ItemV>, tn: Seq<char>, name: Seq<char>, k: nat) -> bool
    decreases c.len() - k,
{
    if k >= c.len() {
        false
    } else {
        (is_trait_named(c[k as int], tn) && scan_members(c[k as int]->Trait_0.members, name, 0) is Err)
            || trait_scan_fails(c, tn, name, k + 1)
    }
}

/// The first trait named `tn` from position `k` on that holds a function
/// named `name`, and the function's place in it.
pub open spec fn trait_holder(c: Seq<ItemV>, tn: Seq<char>, name: Seq<char>, k: nat) -> Option<(nat, nat)>
    decreases c.len() - k,
{
    if k >= c.len() {
        None
    } else if holds_fn(c[k as int], tn, name) {
        Some((k, scan_members(c[k as int]->Trait_0.members, name, 0)->Ok_0->Some_0))
    } else {
        trait_holder(c, tn, name, k + 1)
    }
}

proof fn lemma_trait_holder(c: Seq<ItemV>, tn: Seq<char>, name: Seq<char>, k: nat)
    ensures
        match trait_holder(c, tn, name, k) {
            Some((p, q)) => k <= p < c.len() && holds_fn(c[p as int], tn, name)
                && (c[p as int] matches ItemV::Trait(t) && scan_members(t.members, name, 0) == Ok::<Option<nat>, MergeError>(Some(q))),
            None => forall|m: int| k <= m < c.len() ==> !holds_fn(#[trigger] c[m], tn, name),
        },
    decreases c.len() - k,
{
    if k < c.len() && !holds_fn(c[k as int], tn, name) {
        lemma_trait_holder(c, tn, name, k + 1);
    }
}

/// Trait `t` with its member at `q` replaced by function `f`.
pub open spec fn trait_with_fn(t: TraitBlockV, q: nat, f: FnItemV) -> TraitBlockV {
    TraitBlockV { name: t.name, members: t.members.update(q as int, MemberV::Fn(f)), node: t.node }
}

/// What a trait step from position `k` on does where no two traits named
/// `tn` hold a function named `name`: it fails where a scan fails, and
/// otherwise puts `f` in place of the one function it finds.
pub open spec fn trait_effect(c: Seq<ItemV>, tn: Seq<char>, name: Seq<char>, f: FnItemV, k: nat) -> Result<Seq<ItemV>, MergeError> {
    if trait_scan_fails(c, tn, name, k) {
        Err(MergeError::Unsupported)
    } else {
        match trait_holder(c, tn, name, k) {
            None => Ok(c),
            Some((p, q)) => Ok(c.update(p as int, ItemV::Trait(trait_with_fn(c[p as int]->Trait_0, q, f)))),
        }
    }
}

pub open spec fn unique_trait_step(c: Seq<ItemV>, tn: Seq<char>, f: FnItemV) -> Result<Seq<ItemV>, MergeError> {
    trait_effect(c, tn, f.name, f, 0)
}

proof fn lemma_scan_err(ms: Seq<MemberV>, name: Seq<char>, k: nat)
    ensures
        scan_members(ms, name, k) is Err ==> scan_members(ms, name, k) == Err::<Option<nat>, MergeError>(MergeError::Unsupported),
    decreases ms.len() - k,
{
    if k < ms.len() {
        lemma_scan_err(ms, name, k + 1);
    }
}

proof fn lemma_suffix_same(c: Seq<ItemV>, c1: Seq<ItemV>, tn: Seq<char>, name: Seq<char>, k: nat)
    requires
        c.len() == c1.len(),
        forall|m: int| k <= m < c.len() ==> #[trigger] c[m] == c1[m],
    ensures
        trait_scan_fails(c, tn, name, k) == trait_scan_fails(c1, tn, name, k),
        trait_holder(c, tn, name, k) == trait_holder(c1, tn, name, k),
    decreases c.len() - k,
{
    if k < c.len() {
        assert(c[k as int] == c1[k as int]);
        lemma_suffix_same(c, c1, tn, name, k + 1);
    }
}

/// A trait and the same trait with a function replaced by one of the same
/// name hold the same functions.
proof fn lemma_holds_same(t: TraitBlockV, t2: TraitBlockV, q: int)
    requires
        t.name == t2.name,
        t.members == t2.members || members_differ_at(t.members, t2.members, q),
    ensures
        forall|tn: Seq<char>, name: Seq<char>| #[trigger] holds_fn(ItemV::Trait(t), tn, name) == holds_fn(ItemV::Trait(t2), tn, name),
        forall|name: Seq<char>| #[trigger] scan_members(t.members, name, 0) == scan_members(t2.members, name, 0),
{
    assert forall|name: Seq<char>| #[trigger] scan_members(t.members, name, 0) == scan_members(t2.members, name, 0) by {
        lemma_scan_members_same(t.members, t2.members, q, name, 0);
    }
}

proof fn lemma_trait_pass_effect(c: Seq<ItemV>, tn: Seq<char>, name: Seq<char>, carried: FnItemV, k: nat, pairs: Set<(Seq<char>, Seq<char>)>)
    requires
        traits_unique(c, pairs),
        pairs.contains((tn, name)),
        carried.name == name,
    ensures
        trait_pass(c, tn, name, carried, k) == trait_effect(c, tn, name, carried, k),
    decreases c.len() - k,
{
    if k < c.len() {
        lemma_scan_err(c[k as int]->Trait_0.members, name, 0);
        if is_trait_named(c[k as int], tn) {
            let t = c[k as int]->Trait_0;
            match scan_members(t.members, name, 0) {
                Err(_) => {},
                Ok(None) => {
                    lemma_trait_pass_effect(c, tn, name, carried, k + 1, pairs);
                },
                Ok(Some(q)) => {
                    lemma_scan_members_slot(t.members, name, 0, q);
                    let held = t.members[q as int]->Fn_0;
                    let t2 = trait_with_fn(t, q, carried);
                    let c1 = c.update(k as int, ItemV::Trait(t2));
                    assert(members_differ_at(t.members, t2.members, q as int));
                    lemma_holds_same(t, t2, q as int);
                    assert(traits_unique(c1, pairs)) by {
                        assert forall|a: int, b: int, tn2: Seq<char>, nm2: Seq<char>|
                            0 <= a < b < c1.len() && pairs.contains((tn2, nm2)) && #[trigger] holds_fn(c1[a], tn2, nm2)
                                && #[trigger] holds_fn(c1[b], tn2, nm2) implies false by {
                            assert(holds_fn(c[a], tn2, nm2));
                            assert(holds_fn(c[b], tn2, nm2));
                        }
                    }
                    lemma_trait_holder(c, tn, name, k + 1);
                    assert(holds_fn(c[k as int], tn, name));
                    if trait_holder(c, tn, name, k + 1) is Some {
                        let p = trait_holder(c, tn, name, k + 1)->Some_0.0;
                        assert(holds_fn(c[p as int], tn, name));
                    }
                    lemma_trait_holder(c1, tn, name, k + 1);
                    assert forall|m: int| k + 1 <= m < c.len() implies #[trigger] c[m] == c1[m] by {}
                    lemma_suffix_same(c, c1, tn, name, k + 1);
                    lemma_trait_pass_effect(c1, tn, name, held, k + 1, pairs);
                },
            }
        } else {
            lemma_trait_pass_effect(c, tn, name, carried, k + 1, pairs);
        }
    }
}

proof fn lemma_unique_trait_step(c: Seq<ItemV>, tn: Seq<char>, f: FnItemV, pairs: Set<(Seq<char>, Seq<char>)>)
    requires
        traits_unique(c, pairs),
        pairs.contains((tn, f.name)),
    ensures
        trait_pass(c, tn, f.name, f, 0) == unique_trait_step(c, tn, f),
{
    lemma_trait_pass_effect(c, tn, f.name, f, 0, pairs);
}

/// Members `ms` and `ms2` differ at most in the function at `j`, which keeps
/// its name.
pub open spec fn members_differ_at(ms: Seq<MemberV>, ms2: Seq<MemberV>, j: int) -> bool {
    &&& ms.len() == ms2.len()
    &&& 0 <= j < ms.len()
    &&& forall|m: int| 0 <= m < ms.len() && m != j ==> #[trigger] ms[m] == ms2[m]
    &&& ms[j] matches MemberV::Fn(f) && ms2[j] matches MemberV::Fn(g) && f.name == g.name
}

/// Items `a` and `b` are equal, or differ only where one step writes: in the
/// function at `j` of an impl block or trait, or (for a negative `j`) as an
/// enum or a struct of the same name.
pub open spec fn item_differ(a: ItemV, b: ItemV, j: int) -> bool {
    a == b || if j < 0 {
        (a matches ItemV::Struct(x) && b matches ItemV::Struct(y) && x.name == y.name)
            || (a matches ItemV::Enum(x) && b matches ItemV::Enum(y) && x.name == y.name)
    } else {
        match (a, b) {
            (ItemV::Impl(x), ItemV::Impl(y)) => x.self_ty == y.self_ty && x.is_trait_impl == y.is_trait_impl
                && x.node == y.node && members_differ_at(x.members, y.members, j),
            (ItemV::Trait(x), ItemV::Trait(y)) => x.name == y.name && x.node == y.node
                && members_differ_at(x.members, y.members, j),
            _ => false,
        }
    }
}

/// Contents `c` and `c2` differ at most at place `(i, j)`.
pub open spec fn differ(c: Seq<ItemV>, c2: Seq<ItemV>, i: int, j: int) -> bool {
    &&& c.len() == c2.len()
    &&& 0 <= i < c.len()
    &&& forall|k: int| 0 <= k < c.len() && k != i ==> #[trigger] c[k] == c2[k]
    &&& item_differ(c[i], c2[i], j)
}

proof fn lemma_scan_members_same(ms: Seq<MemberV>, ms2: Seq<MemberV>, j: int, name: Seq<char>, k: nat)
    requires
        ms == ms2 || members_differ_at(ms, ms2, j),
    ensures
        scan_members(ms, name, k) == scan_members(ms2, name, k),
    decreases ms.len() - k,
{
    if k < ms.len() {
        assert(ms[k as int] == ms2[k as int] || k == j);
        lemma_scan_members_same(ms, ms2, j, name, k + 1);
    }
}

proof fn lemma_scan_impls_same(c: Seq<ItemV>, c2: Seq<ItemV>, i: int, j: int, ty: u64, name: Seq<char>, k: nat)
    requires
        differ(c, c2, i, j),
    ensures
        scan_impls(c, ty, name, k) == scan_impls(c2, ty, name, k),
    decreases c.len() - k,
{
    if k < c.len() {
        lemma_scan_impls_same(c, c2, i, j, ty, name, k + 1);
        if k == i {
            match (c[i], c2[i]) {
                (ItemV::Impl(x), ItemV::Impl(y)) => lemma_scan_members_same(x.members, y.members, j, name, 0),
                _ => {},
            }
        } else {
            assert(c[k as int] == c2[k as int]);
        }
    }
}

proof fn lemma_find_named_same(c: Seq<ItemV>, c2: Seq<ItemV>, i: int, j: int, is_struct: bool, name: Seq<char>, k: nat)
    requires
        differ(c, c2, i, j),
    ensures
        find_named(c, is_struct, name, k) == find_named(c2, is_struct, name, k),
    decreases c.len() - k,
{
    if k < c.len() {
        lemma_find_named_same(c, c2, i, j, is_struct, name, k + 1);
        if k != i {
            assert(c[k as int] == c2[k as int]);
        }
    }
}

proof fn lemma_trait_scan_same(c: Seq<ItemV>, c2: Seq<ItemV>, i: int, j: int, tn: Seq<char>, name: Seq<char>, k: nat)
    requires
        differ(c, c2, i, j),
    ensures
        trait_scan_fails(c, tn, name, k) == trait_scan_fails(c2, tn, name, k),
        trait_holder(c, tn, name, k) == trait_holder(c2, tn, name, k),
    decreases c.len() - k,
{
    if k < c.len() {
        lemma_trait_scan_same(c, c2, i, j, tn, name, k + 1);
        if k == i {
            match (c[i], c2[i]) {
                (ItemV::Trait(t), ItemV::Trait(t2)) => lemma_holds_same(t, t2, j),
                _ => {},
            }
        } else {
            assert(c[k as int] == c2[k as int]);
        }
    }
}

proof fn lemma_unique_same(c: Seq<ItemV>, c2: Seq<ItemV>, i: int, j: int, pairs: Set<(Seq<char>, Seq<char>)>)
    requires
        differ(c, c2, i, j),
        traits_unique(c, pairs),
    ensures
        traits_unique(c2, pairs),
{
    match (c[i], c2[i]) {
        (ItemV::Trait(t), ItemV::Trait(t2)) => lemma_holds_same(t, t2, j),
        _ => {},
    }
    assert forall|a: int, b: int, tn: Seq<char>, nm: Seq<char>|
        0 <= a < b < c2.len() && pairs.contains((tn, nm)) && #[trigger] holds_fn(c2[a], tn, nm)
            && #[trigger] holds_fn(c2[b], tn, nm) implies false by {
        assert(holds_fn(c[a], tn, nm));
        assert(holds_fn(c[b], tn, nm));
    }
}

/// Contents that keep every trait of `c` in its place and add none keep the
/// traits' functions apart.
proof fn lemma_unique_keep(c: Seq<ItemV>, d: Seq<ItemV>, pairs: Set<(Seq<char>, Seq<char>)>)
    requires
        traits_unique(c, pairs),
        d.len() >= c.len(),
        forall|k: int| 0 <= k < c.len() ==> #[trigger] d[k] == c[k] || (!(c[k] is Trait) && !(d[k] is Trait)),
        forall|k: int| c.len() <= k < d.len() ==> !(#[trigger] d[k] is Trait),
    ensures
        traits_unique(d, pairs),
{
    assert forall|a: int, b: int, tn: Seq<char>, nm: Seq<char>|
        0 <= a < b < d.len() && pairs.contains((tn, nm)) && #[trigger] holds_fn(d[a], tn, nm)
            && #[trigger] holds_fn(d[b], tn, nm) implies false by {
        assert(d[a] == c[a] || !(d[a] is Trait));
        assert(b < c.len());
        assert(d[b] == c[b] || !(d[b] is Trait));
        assert(holds_fn(c[a], tn, nm));
        assert(holds_fn(c[b], tn, nm));
    }
}

// ---- single steps -------------------------------------------------------------

/// A step that writes into one place or adds an enum or struct: not a `use`
/// item, no function that keeps the one it replaces, and an enum or struct
/// under its own kind and name.
pub open spec fn step_ok(s: Step, pairs: Set<(Seq<char>, Seq<char>)>) -> bool {
    match s {
        Step::ImplFn(_, f) => !has_needs_super(f.attrs),
        Step::TraitFn(tn, f) => pairs.contains((tn, f.name)),
        Step::Named(is_struct, name, item) => is_named(item, is_struct, name),
        Step::Use(_) => false,
        _ => true,
    }
}

/// The place that step `s` writes in `c`: an item and a member, or an item
/// (member `-1`); `None` where it writes nowhere or adds an item at the end.
pub open spec fn step_loc(c: Seq<ItemV>, s: Step) -> Option<(int, int)> {
    match s {
        Step::ImplFn(ty, f) => match scan_impls(c, ty, f.name, 0) {
            Ok(Some((p, q))) => Some((p as int, q as int)),
            _ => None,
        },
        Step::TraitFn(tn, f) => match trait_holder(c, tn, f.name, 0) {
            Some((p, q)) => Some((p as int, q as int)),
            None => None,
        },
        Step::Named(is_struct, name, _) => match find_named(c, is_struct, name, 0) {
            Some(p) => Some((p as int, -1)),
            None => None,
        },
        _ => None,
    }
}

/// The function that an impl step puts in place, without `needs_super`.
pub open spec fn placed_fn(f: FnItemV) -> FnItemV {
    FnItemV { name: f.name, attrs: without_needs_super(f.attrs), node: f.node }
}

pub open spec fn impl_with_fn(b: ImplBlockV, q: nat, f: FnItemV) -> ImplBlockV {
    ImplBlockV { self_ty: b.self_ty, is_trait_impl: b.is_trait_impl, members: b.members.update(q as int, MemberV::Fn(placed_fn(f))), node: b.node }
}

proof fn lemma_impl_with_fn(b: ImplBlockV, q: nat, f: FnItemV)
    requires
        !has_needs_super(f.attrs),
    ensures
        override_in_impl(b, q, f) == impl_with_fn(b, q, f),
{
}

/// One step keeps two contents that differ at one place differing there at
/// most, and keeps the traits' names apart.
proof fn lemma_step_differ(c: Seq<ItemV>, c2: Seq<ItemV>, i: int, j: int, s: Step, pairs: Set<(Seq<char>, Seq<char>)>)
    requires
        differ(c, c2, i, j),
        traits_unique(c, pairs),
        step_ok(s, pairs),
        apply_step(c, s) is Ok,
    ensures
        apply_step(c2, s) is Ok,
        differ(apply_step(c, s)->Ok_0, apply_step(c2, s)->Ok_0, i, j),
        traits_unique(apply_step(c, s)->Ok_0, pairs),
{
    lemma_unique_same(c, c2, i, j, pairs);
    match s {
        Step::ImplFn(ty, f) => {
            lemma_scan_impls_same(c, c2, i, j, ty, f.name, 0);
            match scan_impls(c, ty, f.name, 0) {
                Ok(Some((p, q))) => {
                    lemma_scan_impls_slot(c, ty, f.name, 0, p, q);
                    lemma_scan_impls_slot(c2, ty, f.name, 0, p, q);
                    let b = c[p as int]->Impl_0;
                    let b2 = c2[p as int]->Impl_0;
                    lemma_impl_with_fn(b, q, f);
                    lemma_impl_with_fn(b2, q, f);
                    let d = c.update(p as int, ItemV::Impl(impl_with_fn(b, q, f)));
                    let d2 = c2.update(p as int, ItemV::Impl(impl_with_fn(b2, q, f)));
                    if p == i && b != b2 {
                        let m1 = b.members.update(q as int, MemberV::Fn(placed_fn(f)));
                        let m2 = b2.members.update(q as int, MemberV::Fn(placed_fn(f)));
                        if q == j {
                            assert(m1 =~= m2);
                            assert(d[i] == d2[i]);
                        } else {
                            assert(members_differ_at(m1, m2, j));
                        }
                    }
                    assert(differ(d, d2, i, j));
                    lemma_unique_keep(c, d, pairs);
                },
                _ => {},
            }
        },
        Step::TraitFn(tn, f) => {
            lemma_unique_trait_step(c, tn, f, pairs);
            lemma_unique_trait_step(c2, tn, f, pairs);
            lemma_trait_scan_same(c, c2, i, j, tn, f.name, 0);
            lemma_trait_holder(c, tn, f.name, 0);
            lemma_trait_holder(c2, tn, f.name, 0);
            match trait_holder(c, tn, f.name, 0) {
                Some((p, q)) => {
                    let t = c[p as int]->Trait_0;
                    let t2 = c2[p as int]->Trait_0;
                    lemma_scan_members_slot(t.members, f.name, 0, q);
                    let d = c.update(p as int, ItemV::Trait(trait_with_fn(t, q, f)));
                    let d2 = c2.update(p as int, ItemV::Trait(trait_with_fn(t2, q, f)));
                    if p == i && t != t2 {
                        let m1 = t.members.update(q as int, MemberV::Fn(f));
                        let m2 = t2.members.update(q as int, MemberV::Fn(f));
                        if q == j {
                            assert(m1 =~= m2);
                            assert(d[i] == d2[i]);
                        } else {
                            assert(members_differ_at(m1, m2, j));
                        }
                    }
                    assert(differ(d, d2, i, j));
                    assert(members_differ_at(t.members, trait_with_fn(t, q, f).members, q as int));
                    assert(differ(c, d, p as int, q as int));
                    lemma_unique_same(c, d, p as int, q as int, pairs);
                },
                None => {},
            }
        },
        Step::Named(is_struct, name, item) => {
            lemma_find_named_same(c, c2, i, j, is_struct, name, 0);
            lemma_find_named_in_range(c, is_struct, name, 0);
            match find_named(c, is_struct, name, 0) {
                Some(p) => {
                    let d = c.update(p as int, item);
                    let d2 = c2.update(p as int, item);
                    assert(differ(d, d2, i, j));
                    lemma_unique_keep(c, d, pairs);
                },
                None => {
                    let d = c.push(item);
                    let d2 = c2.push(item);
                    assert(differ(d, d2, i, j));
                    lemma_unique_keep(c, d, pairs);
                },
            }
        },
        _ => {},
    }
}


/// A step changes its own place only.
proof fn lemma_step_own_place(c: Seq<ItemV>, s: Step, i: int, j: int, pairs: Set<(Seq<char>, Seq<char>)>)
    requires
        traits_unique(c, pairs),
        step_ok(s, pairs),
        apply_step(c, s) is Ok,
        step_loc(c, s) == Some((i, j)),
    ensures
        differ(c, apply_step(c, s)->Ok_0, i, j),
{
    match s {
        Step::ImplFn(ty, f) => {
            let (p, q) = scan_impls(c, ty, f.name, 0)->Ok_0->Some_0;
            lemma_scan_impls_slot(c, ty, f.name, 0, p, q);
            let b = c[p as int]->Impl_0;
            lemma_impl_with_fn(b, q, f);
            let d = c.update(p as int, ItemV::Impl(impl_with_fn(b, q, f)));
            assert(members_differ_at(b.members, impl_with_fn(b, q, f).members, j));
            assert(differ(c, d, i, j));
        },
        Step::TraitFn(tn, f) => {
            lemma_unique_trait_step(c, tn, f, pairs);
            lemma_trait_holder(c, tn, f.name, 0);
            let (p, q) = trait_holder(c, tn, f.name, 0)->Some_0;
            let t = c[p as int]->Trait_0;
            lemma_scan_members_slot(t.members, f.name, 0, q);
            let d = c.update(p as int, ItemV::Trait(trait_with_fn(t, q, f)));
            assert(members_differ_at(t.members, trait_with_fn(t, q, f).members, j));
            assert(differ(c, d, i, j));
        },
        Step::Named(is_struct, name, item) => {
            lemma_find_named_in_range(c, is_struct, name, 0);
            let d = c.update(i, item);
            assert(differ(c, d, i, j));
        },
        _ => {},
    }
}

/// A step writes the same value into its own place whatever stood there.
proof fn lemma_step_rewrites(c: Seq<ItemV>, c2: Seq<ItemV>, s: Step, i: int, j: int, pairs: Set<(Seq<char>, Seq<char>)>)
    requires
        traits_unique(c, pairs),
        step_ok(s, pairs),
        apply_step(c, s) is Ok,
        step_loc(c, s) == Some((i, j)),
        differ(c, c2, i, j),
    ensures
        apply_step(c2, s) == apply_step(c, s),
{
    lemma_unique_same(c, c2, i, j, pairs);
    match s {
        Step::ImplFn(ty, f) => {
            lemma_scan_impls_same(c, c2, i, j, ty, f.name, 0);
            let (p, q) = scan_impls(c, ty, f.name, 0)->Ok_0->Some_0;
            lemma_scan_impls_slot(c, ty, f.name, 0, p, q);
            lemma_scan_impls_slot(c2, ty, f.name, 0, p, q);
            let b = c[p as int]->Impl_0;
            let b2 = c2[p as int]->Impl_0;
            lemma_impl_with_fn(b, q, f);
            lemma_impl_with_fn(b2, q, f);
            assert(impl_with_fn(b, q, f).members =~= impl_with_fn(b2, q, f).members);
            assert(c.update(p as int, ItemV::Impl(impl_with_fn(b, q, f))) =~= c2.update(p as int, ItemV::Impl(impl_with_fn(b2, q, f))));
        },
        Step::TraitFn(tn, f) => {
            lemma_unique_trait_step(c, tn, f, pairs);
            lemma_unique_trait_step(c2, tn, f, pairs);
            lemma_trait_scan_same(c, c2, i, j, tn, f.name, 0);
            lemma_trait_holder(c, tn, f.name, 0);
            lemma_trait_holder(c2, tn, f.name, 0);
            let (p, q) = trait_holder(c, tn, f.name, 0)->Some_0;
            let t = c[p as int]->Trait_0;
            let t2 = c2[p as int]->Trait_0;
            lemma_scan_members_slot(t.members, f.name, 0, q);
            assert(trait_with_fn(t, q, f).members =~= trait_with_fn(t2, q, f).members);
            assert(c.update(p as int, ItemV::Trait(trait_with_fn(t, q, f))) =~= c2.update(p as int, ItemV::Trait(trait_with_fn(t2, q, f))));
        },
        Step::Named(is_struct, name, item) => {
            lemma_find_named_same(c, c2, i, j, is_struct, name, 0);
            assert(c.update(i, item) =~= c2.update(i, item));
        },
        _ => {},
    }
}

/// A function step that finds no place changes nothing.
proof fn lemma_step_nowhere(c: Seq<ItemV>, s: Step, pairs: Set<(Seq<char>, Seq<char>)>)
    requires
        traits_unique(c, pairs),
        step_ok(s, pairs),
        apply_step(c, s) is Ok,
        step_loc(c, s) is None,
        s is ImplFn || s is TraitFn,
    ensures
        apply_step(c, s) == Ok::<Seq<ItemV>, MergeError>(c),
{
    match s {
        Step::TraitFn(tn, f) => {
            lemma_unique_trait_step(c, tn, f, pairs);
        },
        _ => {},
    }
}

proof fn lemma_step_len(c: Seq<ItemV>, s: Step, pairs: Set<(Seq<char>, Seq<char>)>)
    requires
        apply_step(c, s) is Ok,
        step_ok(s, pairs),
    ensures
        apply_step(c, s)->Ok_0.len() == c.len() + (if s is Named && step_loc(c, s) is None { 1int } else { 0int }),
{
    match s {
        Step::TraitFn(name, f) => lemma_trait_pass_len(c, name, f.name, f, 0),
        Step::ImplFn(ty, f) => match scan_impls(c, ty, f.name, 0) {
            Ok(Some((p, q))) => lemma_scan_impls_slot(c, ty, f.name, 0, p, q),
            _ => {},
        },
        Step::Named(is_struct, name, item) => lemma_find_named_in_range(c, is_struct, name, 0),
        _ => {},
    }
}

proof fn lemma_step_unique(c: Seq<ItemV>, s: Step, pairs: Set<(Seq<char>, Seq<char>)>)
    requires
        traits_unique(c, pairs),
        step_ok(s, pairs),
        apply_step(c, s) is Ok,
    ensures
        traits_unique(apply_step(c, s)->Ok_0, pairs),
{
    if c.len() > 0 {
        lemma_step_differ(c, c, 0, -1, s, pairs);
    } else {
        lemma_step_len(c, s, pairs);
        let d = apply_step(c, s)->Ok_0;
        match s {
            Step::Named(is_struct, name, item) => {
                assert(d.len() <= 1);
            },
            _ => {
                assert(d.len() == 0);
            },
        }
    }
}

/// All steps keep their conditions.
pub open spec fn steps_ok(steps: Seq<Step>, pairs: Set<(Seq<char>, Seq<char>)>) -> bool {
    forall|k: int| 0 <= k < steps.len() ==> step_ok(#[trigger] steps[k], pairs)
}

proof fn lemma_run_differ(c: Seq<ItemV>, c2: Seq<ItemV>, i: int, j: int, steps: Seq<Step>, pairs: Set<(Seq<char>, Seq<char>)>)
    requires
        differ(c, c2, i, j),
        traits_unique(c, pairs),
        steps_ok(steps, pairs),
        run_steps(c, steps) is Ok,
    ensures
        run_steps(c2, steps) is Ok,
        differ(run_steps(c, steps)->Ok_0, run_steps(c2, steps)->Ok_0, i, j),
        traits_unique(run_steps(c, steps)->Ok_0, pairs),
    decreases steps.len(),
{
    if steps.len() > 0 {
        assert(step_ok(steps[0], pairs));
        lemma_step_differ(c, c2, i, j, steps[0], pairs);
        assert(steps_ok(steps.drop_first(), pairs)) by {
            assert forall|k: int| 0 <= k < steps.drop_first().len() implies step_ok(#[trigger] steps.drop_first()[k], pairs) by {
                assert(steps.drop_first()[k] == steps[k + 1]);
            }
        }
        lemma_run_differ(apply_step(c, steps[0])->Ok_0, apply_step(c2, steps[0])->Ok_0, i, j, steps.drop_first(), pairs);
    }
}

proof fn lemma_run_unique(c: Seq<ItemV>, steps: Seq<Step>, pairs: Set<(Seq<char>, Seq<char>)>)
    requires
        traits_unique(c, pairs),
        steps_ok(steps, pairs),
        run_steps(c, steps) is Ok,
    ensures
        traits_unique(run_steps(c, steps)->Ok_0, pairs),
        run_steps(c, steps)->Ok_0.len() >= c.len(),
    decreases steps.len(),
{
    if steps.len() > 0 {
        assert(step_ok(steps[0], pairs));
        lemma_step_unique(c, steps[0], pairs);
        lemma_step_len(c, steps[0], pairs);
        assert(steps_ok(steps.drop_first(), pairs)) by {
            assert forall|k: int| 0 <= k < steps.drop_first().len() implies step_ok(#[trigger] steps.drop_first()[k], pairs) by {
                assert(steps.drop_first()[k] == steps[k + 1]);
            }
        }
        lemma_run_unique(apply_step(c, steps[0])->Ok_0, steps.drop_first(), pairs);
    }
}


proof fn lemma_run_one(c: Seq<ItemV>, s: Step)
    ensures
        run_steps(c, seq![s]) == apply_step(c, s),
{
    assert(seq![s].drop_first() =~= Seq::<Step>::empty());
    match apply_step(c, s) {
        Ok(c1) => assert(run_steps(c1, Seq::<Step>::empty()) == Ok::<Seq<ItemV>, MergeError>(c1)),
        Err(_) => {},
    }
}

// ---- an enum or struct added at the end -----------------------------------------

proof fn lemma_scan_impls_push(c: Seq<ItemV>, x: ItemV, ty: u64, name: Seq<char>, k: nat)
    requires
        !(x is Impl),
        k <= c.len(),
    ensures
        scan_impls(c.push(x), ty, name, k) == scan_impls(c, ty, name, k),
    decreases c.len() - k,
{
    if k < c.len() {
        assert(c.push(x)[k as int] == c[k as int]);
        lemma_scan_impls_push(c, x, ty, name, k + 1);
    } else {
        assert(c.push(x)[k as int] == x);
        assert(scan_impls(c.push(x), ty, name, k + 1) == Ok::<Option<(nat, nat)>, MergeError>(None));
    }
}

proof fn lemma_trait_scan_push(c: Seq<ItemV>, x: ItemV, tn: Seq<char>, name: Seq<char>, k: nat)
    requires
        !(x is Trait),
        k <= c.len(),
    ensures
        trait_scan_fails(c.push(x), tn, name, k) == trait_scan_fails(c, tn, name, k),
        trait_holder(c.push(x), tn, name, k) == trait_holder(c, tn, name, k),
    decreases c.len() - k,
{
    if k < c.len() {
        assert(c.push(x)[k as int] == c[k as int]);
        lemma_trait_scan_push(c, x, tn, name, k + 1);
    } else {
        assert(c.push(x)[k as int] == x);
        assert(trait_scan_fails(c.push(x), tn, name, k + 1) == false);
        assert(trait_holder(c.push(x), tn, name, k + 1) == None::<(nat, nat)>);
    }
}

proof fn lemma_find_named_push(c: Seq<ItemV>, x: ItemV, is_struct: bool, name: Seq<char>)
    ensures
        find_named(c, is_struct, name, 0) is Some ==> find_named(c.push(x), is_struct, name, 0) == find_named(c, is_struct, name, 0),
        find_named(c, is_struct, name, 0) is None && is_named(x, is_struct, name)
            ==> find_named(c.push(x), is_struct, name, 0) == Some(c.len()),
{
    lemma_find_named_in_range(c, is_struct, name, 0);
    lemma_find_named_skips(c, is_struct, name, 0);
    let d = c.push(x);
    match find_named(c, is_struct, name, 0) {
        Some(p) => {
            assert forall|k: int| 0 <= k < p implies !is_named(#[trigger] d[k], is_struct, name) by {
                assert(d[k] == c[k]);
            }
            assert(d[p as int] == c[p as int]);
            lemma_find_named_first(d, is_struct, name, 0, p);
        },
        None => if is_named(x, is_struct, name) {
            assert forall|k: int| 0 <= k < c.len() implies !is_named(#[trigger] d[k], is_struct, name) by {
                assert(d[k] == c[k]);
            }
            assert(d[c.len() as int] == x);
            lemma_find_named_first(d, is_struct, name, 0, c.len());
        },
    }
}

/// A step that adds nothing does the same with an enum or struct added at
/// the end.
proof fn lemma_step_push(g: Seq<ItemV>, s: Step, item: ItemV, is_struct: bool, name: Seq<char>, pairs: Set<(Seq<char>, Seq<char>)>)
    requires
        step_ok(s, pairs),
        traits_unique(g, pairs),
        apply_step(g, s) is Ok,
        apply_step(g, s)->Ok_0.len() == g.len(),
        is_named(item, is_struct, name),
    ensures
        apply_step(g.push(item), s) == Ok::<Seq<ItemV>, MergeError>(apply_step(g, s)->Ok_0.push(item)),
{
    let gp = g.push(item);
    assert forall|k: int| 0 <= k < g.len() implies #[trigger] gp[k] == g[k] || (!(g[k] is Trait) && !(gp[k] is Trait)) by {}
    lemma_unique_keep(g, gp, pairs);
    lemma_step_len(g, s, pairs);
    match s {
        Step::ImplFn(ty, f) => {
            lemma_scan_impls_push(g, item, ty, f.name, 0);
            match scan_impls(g, ty, f.name, 0) {
                Ok(Some((p, q))) => {
                    lemma_scan_impls_slot(g, ty, f.name, 0, p, q);
                    assert(gp[p as int] == g[p as int]);
                    let v = ItemV::Impl(override_in_impl(g[p as int]->Impl_0, q, f));
                    assert(gp.update(p as int, v) =~= g.update(p as int, v).push(item));
                },
                _ => {},
            }
        },
        Step::TraitFn(tn, f) => {
            lemma_unique_trait_step(g, tn, f, pairs);
            lemma_unique_trait_step(gp, tn, f, pairs);
            lemma_trait_scan_push(g, item, tn, f.name, 0);
            lemma_trait_holder(g, tn, f.name, 0);
            match trait_holder(g, tn, f.name, 0) {
                Some((p, q)) => {
                    assert(gp[p as int] == g[p as int]);
                    let t = g[p as int]->Trait_0;
                    let v = ItemV::Trait(trait_with_fn(t, q, f));
                    assert(gp.update(p as int, v) =~= g.update(p as int, v).push(item));
                },
                None => {},
            }
        },
        Step::Named(st, n, it) => {
            lemma_find_named_push(g, item, st, n);
            lemma_find_named_in_range(g, st, n, 0);
            let p = find_named(g, st, n, 0)->Some_0;
            assert(gp.update(p as int, it) =~= g.update(p as int, it).push(item));
        },
        _ => {},
    }
}

proof fn lemma_run_push(g: Seq<ItemV>, steps: Seq<Step>, item: ItemV, is_struct: bool, name: Seq<char>, pairs: Set<(Seq<char>, Seq<char>)>)
    requires
        steps_ok(steps, pairs),
        traits_unique(g, pairs),
        run_steps(g, steps) is Ok,
        run_steps(g, steps)->Ok_0.len() == g.len(),
        is_named(item, is_struct, name),
    ensures
        run_steps(g.push(item), steps) == Ok::<Seq<ItemV>, MergeError>(run_steps(g, steps)->Ok_0.push(item)),
    decreases steps.len(),
{
    if steps.len() > 0 {
        let s = steps[0];
        let rest = steps.drop_first();
        assert(step_ok(s, pairs));
        assert(steps_ok(rest, pairs)) by {
            assert forall|k: int| 0 <= k < rest.len() implies step_ok(#[trigger] rest[k], pairs) by {
                assert(rest[k] == steps[k + 1]);
            }
        }
        lemma_step_len(g, s, pairs);
        lemma_step_unique(g, s, pairs);
        let g1 = apply_step(g, s)->Ok_0;
        lemma_run_unique(g1, rest, pairs);
        lemma_step_push(g, s, item, is_struct, name, pairs);
        lemma_run_push(g1, rest, item, is_struct, name, pairs);
    }
}

// ---- twice ----------------------------------------------------------------------

proof fn lemma_run_twice(c: Seq<ItemV>, steps: Seq<Step>, pairs: Set<(Seq<char>, Seq<char>)>)
    requires
        traits_unique(c, pairs),
        steps_ok(steps, pairs),
        run_steps(c, steps) is Ok,
    ensures
        run_steps(run_steps(c, steps)->Ok_0, steps) == run_steps(c, steps),
    decreases steps.len(),
{
    if steps.len() > 0 {
        let s1 = steps.drop_last();
        let x = steps.last();
        assert(steps =~= s1 + seq![x]);
        assert(steps_ok(s1, pairs)) by {
            assert forall|k: int| 0 <= k < s1.len() implies step_ok(#[trigger] s1[k], pairs) by {
                assert(s1[k] == steps[k]);
            }
        }
        assert(step_ok(x, pairs));
        lemma_run_append(c, s1, seq![x]);
        let e = run_steps(c, s1)->Ok_0;
        lemma_run_one(e, x);
        lemma_run_twice(c, s1, pairs);
        lemma_run_unique(c, s1, pairs);
        let c1 = apply_step(e, x)->Ok_0;
        assert(run_steps(c, steps) == Ok::<Seq<ItemV>, MergeError>(c1));
        lemma_run_append(c1, s1, seq![x]);
        match step_loc(e, x) {
            Some((i, j)) => {
                lemma_step_own_place(e, x, i, j, pairs);
                lemma_run_differ(e, c1, i, j, s1, pairs);
                let e3 = run_steps(c1, s1)->Ok_0;
                lemma_step_rewrites(e, e3, x, i, j, pairs);
                lemma_run_one(e3, x);
            },
            None => {
                match x {
                    Step::Named(st, n, item) => {
                        assert(c1 == e.push(item));
                        lemma_run_push(e, s1, item, st, n, pairs);
                        lemma_find_named_push(e, item, st, n);
                        assert(e.push(item).update(e.len() as int, item) =~= e.push(item));
                        lemma_run_one(e.push(item), x);
                    },
                    _ => {
                        lemma_step_nowhere(e, x, pairs);
                        lemma_run_one(e, x);
                    },
                }
            },
        }
    }
}

/// Whether an override item asks for no replaced function to be kept.
pub open spec fn asks_no_super(item: ItemV) -> bool {
    match item {
        ItemV::Impl(b) => forall|m: int| 0 <= m < b.members.len()
            ==> !(#[trigger] b.members[m] matches MemberV::Fn(f) && has_needs_super(f.attrs)),
        _ => true,
    }
}

/// Override items without `use` items and without functions that ask to
/// keep the ones they replace.
pub open spec fn twice_safe(items: Seq<ItemV>) -> bool {
    forall|k: int| 0 <= k < items.len() ==> !(#[trigger] items[k] is Use) && asks_no_super(items[k])
}

/// Whether `item` is a trait named `tn` with a function named `name`.
pub open spec fn has_fn(item: ItemV, tn: Seq<char>, name: Seq<char>) -> bool {
    item matches ItemV::Trait(t) && t.name == tn
        && exists|m: int| 0 <= m < t.members.len() && (#[trigger] t.members[m] matches MemberV::Fn(f) && f.name == name)
}

/// The pairs of a trait name and a function name that the traits among
/// `items` hold.
pub open spec fn override_pairs(items: Seq<ItemV>) -> Set<(Seq<char>, Seq<char>)> {
    Set::new(|p: (Seq<char>, Seq<char>)| exists|k: int| 0 <= k < items.len() && #[trigger] has_fn(items[k], p.0, p.1))
}

/// No two base traits of `c` both hold a function that a trait of their name
/// among the override items `items` replaces.
pub open spec fn holders_apart(c: Seq<ItemV>, items: Seq<ItemV>) -> bool {
    forall|a: int, b: int, k: int, tn: Seq<char>, name: Seq<char>|
        0 <= a < b < c.len() && 0 <= k < items.len() && #[trigger] has_fn(items[k], tn, name)
            && #[trigger] has_fn(c[a], tn, name) && #[trigger] has_fn(c[b], tn, name) ==> false
}

proof fn lemma_holds_has(item: ItemV, tn: Seq<char>, name: Seq<char>)
    ensures
        holds_fn(item, tn, name) ==> has_fn(item, tn, name),
{
    if holds_fn(item, tn, name) {
        let t = item->Trait_0;
        let q = scan_members(t.members, name, 0)->Ok_0->Some_0;
        lemma_scan_members_slot(t.members, name, 0, q);
        assert(t.members[q as int] matches MemberV::Fn(f) && f.name == name);
    }
}

proof fn lemma_holders_apart(c: Seq<ItemV>, items: Seq<ItemV>)
    requires
        holders_apart(c, items),
    ensures
        traits_unique(c, override_pairs(items)),
{
    let pairs = override_pairs(items);
    assert forall|a: int, b: int, tn: Seq<char>, name: Seq<char>|
        0 <= a < b < c.len() && pairs.contains((tn, name)) && #[trigger] holds_fn(c[a], tn, name)
            && #[trigger] holds_fn(c[b], tn, name) implies false by {
        let k = choose|k: int| 0 <= k < items.len() && #[trigger] has_fn(items[k], tn, name);
        lemma_holds_has(c[a], tn, name);
        lemma_holds_has(c[b], tn, name);
        assert(has_fn(items[k], tn, name) && has_fn(c[a], tn, name) && has_fn(c[b], tn, name));
    }
}

proof fn lemma_steps_ok(items: Seq<ItemV>, pairs: Set<(Seq<char>, Seq<char>)>)
    requires
        twice_safe(items),
        forall|k: int, tn: Seq<char>, name: Seq<char>| 0 <= k < items.len() && #[trigger] has_fn(items[k], tn, name)
            ==> pairs.contains((tn, name)),
    ensures
        steps_ok(steps_of(items), pairs),
    decreases items.len(),
{
    if items.len() > 0 {
        let rest = items.drop_first();
        assert(twice_safe(rest)) by {
            assert forall|k: int| 0 <= k < rest.len() implies !(#[trigger] rest[k] is Use) && asks_no_super(rest[k]) by {
                assert(rest[k] == items[k + 1]);
            }
        }
        assert forall|k: int, tn: Seq<char>, name: Seq<char>| 0 <= k < rest.len() && #[trigger] has_fn(rest[k], tn, name)
            implies pairs.contains((tn, name)) by {
            assert(rest[k] == items[k + 1]);
        }
        lemma_steps_ok(rest, pairs);
        let a = item_steps(items[0]);
        let b = steps_of(rest);
        assert(!(items[0] is Use) && asks_no_super(items[0]));
        assert forall|k: int| 0 <= k < (a + b).len() implies step_ok(#[trigger] (a + b)[k], pairs) by {
            if k < a.len() {
                assert((a + b)[k] == a[k]);
                match items[0] {
                    ItemV::Impl(bl) => {
                        assert(a[k] == (match bl.members[k] {
                            MemberV::Fn(f) => Step::ImplFn(bl.self_ty, f),
                            MemberV::Other(_) => Step::Bad,
                        }));
                    },
                    ItemV::Trait(t) => {
                        assert(a[k] == (match t.members[k] {
                            MemberV::Fn(f) => Step::TraitFn(t.name, f),
                            MemberV::Other(_) => Step::Bad,
                        }));
                        if let MemberV::Fn(f) = t.members[k] {
                            assert(has_fn(items[0], t.name, f.name));
                        }
                    },
                    _ => {},
                }
            } else {
                assert((a + b)[k] == b[k - a.len()]);
            }
        }
    }
}

/// Merging an override a second time into what the first merge gave changes
/// nothing, where the override holds no `use` item and no function that asks
/// to keep the one it replaces, and no two base traits both hold a function
/// that an override trait of their name replaces.
pub proof fn law_merge_twice(c: Seq<ItemV>, items: Seq<ItemV>)
    requires
        holders_apart(c, items),
        twice_safe(items),
    ensures
        merge_items(c, items) matches Ok(c2) ==> merge_items(c2, items) == Ok::<Seq<ItemV>, MergeError>(c2),
{
    lemma_merge_steps(c, items);
    match merge_items(c, items) {
        Ok(c2) => {
            let pairs = override_pairs(items);
            lemma_holders_apart(c, items);
            assert forall|k: int, tn: Seq<char>, name: Seq<char>| 0 <= k < items.len() && #[trigger] has_fn(items[k], tn, name)
                implies pairs.contains((tn, name)) by {
                let pr = (tn, name);
                assert(has_fn(items[k], pr.0, pr.1));
            }
            lemma_steps_ok(items, pairs);
            lemma_run_twice(c, steps_of(items), pairs);
            lemma_merge_steps(c2, items);
        },
        Err(_) => {},
    }
}

/// Where the last base item and the override are modules with bodies, no
/// two traits of the base module both hold a function that an override trait
/// of their name replaces.
pub open spec fn base_holders_apart(base: Seq<TopItemV>, module: TopItemV) -> bool {
    base.len() > 0 ==> match (base.last(), module) {
        (TopItemV::Mod(b), TopItemV::Mod(m)) => match (b.content, m.content) {
            (Some(c), Some(items)) => holders_apart(c, items),
            _ => true,
        },
        _ => true,
    }
}

/// The override module's items, if it is a module with a body, are `twice_safe`.
pub open spec fn module_twice_safe(module: TopItemV) -> bool {
    match module {
        TopItemV::Mod(m) => match m.content {
            Some(items) => twice_safe(items),
            None => true,
        },
        _ => true,
    }
}

/// Merging an override module into the item that a merge of it gave gives
/// that item back, where the override holds no `use` item and no function
/// that asks to keep the one it replaces, and no two traits of the base
/// module both hold a function that an override trait of their name
/// replaces.
pub proof fn law_module_merge_twice(base: Seq<TopItemV>, module: TopItemV)
    requires
        base_holders_apart(base, module),
        module_twice_safe(module),
    ensures
        merged_module(base, module) matches Ok(t) ==> merged_module(seq![t], module) == Ok::<TopItemV, MergeError>(t),
{
    match merged_module(base, module) {
        Ok(t) => {
            let b1 = seq![t];
            assert(b1.last() == t);
            match (module, base.last()) {
                (TopItemV::Mod(m), TopItemV::Mod(b)) => match (m.content, b.content) {
                    (Some(items), Some(c)) => {
                        law_merge_twice(c, items);
                    },
                    _ => {},
                },
                _ => {},
            }
        },
        Err(_) => {},
    }
}

} // verus!
