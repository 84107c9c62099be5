use ddnet_kit::module_merge::{
    impl_mod, try_impl_mod, Attr, FnItem, ImplBlock, ModItem, Member, MergeError, Module, NamedItem, TopItem,
    TraitBlock,
};

fn func(name: &str, node: u64) -> FnItem {
    FnItem { name: name.to_string(), attrs: Vec::new(), node }
}

fn func_with(name: &str, node: u64, metas: &[&str]) -> FnItem {
    FnItem {
        name: name.to_string(),
        attrs: metas
            .iter()
            .enumerate()
            .map(|(i, m)| Attr { meta: m.to_string(), node: 1000 + i as u64 })
            .collect(),
        node,
    }
}

fn imp(self_ty: u64, is_trait_impl: bool, members: Vec<Member>, node: u64) -> ModItem {
    ModItem::Impl(ImplBlock { self_ty, is_trait_impl, members, node })
}

fn module(name: &str, items: Vec<ModItem>, node: u64) -> TopItem {
    TopItem::Mod(Module { name: name.to_string(), content: Some(items), node })
}

fn content_of(t: TopItem) -> Vec<ModItem> {
    match t {
        TopItem::Mod(Module { content: Some(c), .. }) => c,
        other => panic!("not a module with a body: {:?}", other),
    }
}

fn members_of(item: &ModItem) -> &Vec<Member> {
    match item {
        ModItem::Impl(b) => &b.members,
        ModItem::Trait(t) => &t.members,
        other => panic!("no members: {:?}", other),
    }
}

#[test]
fn override_replaces_function_of_same_type() {
    let base = vec![module(
        "world",
        vec![imp(7, false, vec![Member::Fn(func("tick", 1)), Member::Fn(func("draw", 2))], 10)],
        100,
    )];
    let over = module("world", vec![imp(7, false, vec![Member::Fn(func("tick", 50))], 60)], 200);
    let c = content_of(impl_mod(base, over));
    assert_eq!(c.len(), 1);
    let ms = members_of(&c[0]);
    assert_eq!(ms, &vec![Member::Fn(func("tick", 50)), Member::Fn(func("draw", 2))]);
    match &c[0] {
        ModItem::Impl(b) => assert_eq!((b.self_ty, b.node), (7, 10)),
        _ => unreachable!(),
    }
}

#[test]
fn override_skips_impls_of_other_types() {
    let base = vec![module(
        "world",
        vec![
            imp(3, false, vec![Member::Fn(func("tick", 1))], 10),
            imp(7, false, vec![Member::Fn(func("tick", 2))], 11),
        ],
        100,
    )];
    let over = module("world", vec![imp(7, false, vec![Member::Fn(func("tick", 50))], 60)], 200);
    let c = content_of(impl_mod(base, over));
    assert_eq!(members_of(&c[0]), &vec![Member::Fn(func("tick", 1))]);
    assert_eq!(members_of(&c[1]), &vec![Member::Fn(func("tick", 50))]);
}

#[test]
fn needs_super_keeps_replaced_function() {
    let base = vec![module(
        "world",
        vec![imp(7, false, vec![Member::Fn(func_with("tick", 1, &["inline"]))], 10)],
        100,
    )];
    let over = module(
        "world",
        vec![imp(7, false, vec![Member::Fn(func_with("tick", 50, &["needs_super", "cold"]))], 60)],
        200,
    );
    let c = content_of(impl_mod(base, over));
    let ms = members_of(&c[0]);
    assert_eq!(ms.len(), 2);
    match &ms[0] {
        Member::Fn(f) => {
            assert_eq!(f.name, "tick");
            assert_eq!(f.node, 50);
            assert_eq!(f.attrs, vec![Attr { meta: "cold".to_string(), node: 1001 }]);
        }
        other => panic!("{:?}", other),
    }
    match &ms[1] {
        Member::Fn(f) => {
            assert_eq!(f.name, "_super_tick");
            assert_eq!(f.node, 1);
            assert_eq!(f.attrs, vec![Attr { meta: "inline".to_string(), node: 1000 }]);
        }
        other => panic!("{:?}", other),
    }
}

#[test]
fn needs_super_in_trait_impl_drops_replaced_function() {
    let base = vec![module(
        "world",
        vec![imp(7, true, vec![Member::Fn(func("tick", 1))], 10)],
        100,
    )];
    let over = module(
        "world",
        vec![imp(7, false, vec![Member::Fn(func_with("tick", 50, &["needs_super"]))], 60)],
        200,
    );
    let c = content_of(impl_mod(base, over));
    assert_eq!(members_of(&c[0]), &vec![Member::Fn(func("tick", 50))]);
}

#[test]
fn override_without_namesake_is_dropped() {
    let base = vec![module("world", vec![imp(7, false, vec![Member::Fn(func("tick", 1))], 10)], 100)];
    let over = module("world", vec![imp(7, false, vec![Member::Fn(func("spawn", 50))], 60)], 200);
    let c = content_of(impl_mod(base, over));
    assert_eq!(members_of(&c[0]), &vec![Member::Fn(func("tick", 1))]);
}

#[test]
fn non_function_member_before_namesake_is_unsupported() {
    let base = vec![module(
        "world",
        vec![imp(7, false, vec![Member::Other(5), Member::Fn(func("tick", 1))], 10)],
        100,
    )];
    let over = module("world", vec![imp(7, false, vec![Member::Fn(func("tick", 50))], 60)], 200);
    assert_eq!(try_impl_mod(base, over), Err(MergeError::Unsupported));
}

#[test]
fn non_function_member_in_override_impl_is_unsupported() {
    let base = vec![module("world", vec![imp(7, false, vec![Member::Fn(func("tick", 1))], 10)], 100)];
    let over = module("world", vec![imp(7, false, vec![Member::Other(9)], 60)], 200);
    assert_eq!(try_impl_mod(base, over), Err(MergeError::Unsupported));
}

#[test]
fn uses_go_in_front_later_first() {
    let base = vec![module("world", vec![ModItem::Other(1)], 100)];
    let over = module("world", vec![ModItem::Use(20), ModItem::Use(21)], 200);
    let c = content_of(impl_mod(base, over));
    assert_eq!(c, vec![ModItem::Use(21), ModItem::Use(20), ModItem::Other(1)]);
}

#[test]
fn struct_replaces_namesake() {
    let base = vec![module(
        "world",
        vec![
            ModItem::Struct(NamedItem { name: "Pos".to_string(), node: 1 }),
            ModItem::Enum(NamedItem { name: "Pos".to_string(), node: 2 }),
        ],
        100,
    )];
    let over = module("world", vec![ModItem::Struct(NamedItem { name: "Pos".to_string(), node: 30 })], 200);
    let c = content_of(impl_mod(base, over));
    assert_eq!(
        c,
        vec![
            ModItem::Struct(NamedItem { name: "Pos".to_string(), node: 30 }),
            ModItem::Enum(NamedItem { name: "Pos".to_string(), node: 2 }),
        ]
    );
}

#[test]
fn enum_without_namesake_is_appended() {
    let base = vec![module("world", vec![ModItem::Struct(NamedItem { name: "Kind".to_string(), node: 1 })], 100)];
    let over = module("world", vec![ModItem::Enum(NamedItem { name: "Kind".to_string(), node: 30 })], 200);
    let c = content_of(impl_mod(base, over));
    assert_eq!(
        c,
        vec![
            ModItem::Struct(NamedItem { name: "Kind".to_string(), node: 1 }),
            ModItem::Enum(NamedItem { name: "Kind".to_string(), node: 30 }),
        ]
    );
}

#[test]
fn trait_override_is_passed_along_namesakes() {
    let tr = |node: u64, members: Vec<Member>| {
        ModItem::Trait(TraitBlock { name: "Ai".to_string(), members, node })
    };
    let base = vec![module(
        "world",
        vec![
            tr(10, vec![Member::Fn(func("think", 1))]),
            tr(11, vec![Member::Fn(func("think", 2))]),
        ],
        100,
    )];
    let over = module("world", vec![tr(60, vec![Member::Fn(func("think", 50))])], 200);
    let c = content_of(impl_mod(base, over));
    assert_eq!(members_of(&c[0]), &vec![Member::Fn(func("think", 50))]);
    assert_eq!(members_of(&c[1]), &vec![Member::Fn(func("think", 1))]);
}

#[test]
fn other_item_kinds_are_unsupported() {
    let base = vec![module("world", vec![], 100)];
    let over = module("world", vec![ModItem::Other(3)], 200);
    assert_eq!(try_impl_mod(base, over), Err(MergeError::Unsupported));
}

#[test]
fn module_names_must_agree() {
    let base = vec![module("world", vec![], 100)];
    let over = module("stage", vec![], 200);
    assert_eq!(try_impl_mod(base, over), Err(MergeError::ModNameDiffered));
}

#[test]
fn empty_base_is_refused() {
    assert_eq!(try_impl_mod(Vec::new(), module("world", vec![], 1)), Err(MergeError::EmptyBase));
    assert_eq!(try_impl_mod(Vec::new(), TopItem::Other(1)), Err(MergeError::EmptyBase));
}

#[test]
fn override_without_body_is_refused() {
    let base = vec![module("world", vec![], 100)];
    let over = TopItem::Mod(Module { name: "world".to_string(), content: None, node: 200 });
    assert_eq!(try_impl_mod(base, over), Err(MergeError::MissingContent));
}

#[test]
fn base_without_body_fails_when_its_items_are_needed() {
    let bodiless = || TopItem::Mod(Module { name: "world".to_string(), content: None, node: 100 });
    let over = module("world", vec![ModItem::Use(1)], 200);
    assert_eq!(try_impl_mod(vec![bodiless()], over), Err(MergeError::MissingContent));
    let over = module("world", vec![imp(7, false, vec![], 60)], 200);
    assert_eq!(try_impl_mod(vec![bodiless()], over), Ok(bodiless()));
}

#[test]
fn non_module_inputs_give_last_base_item_back() {
    let base = vec![TopItem::Other(1), TopItem::Other(2)];
    assert_eq!(try_impl_mod(base, module("world", vec![ModItem::Use(3)], 9)), Ok(TopItem::Other(2)));
    let base = vec![module("world", vec![ModItem::Other(4)], 100)];
    assert_eq!(try_impl_mod(base, TopItem::Other(8)), Ok(module("world", vec![ModItem::Other(4)], 100)));
}

#[test]
fn empty_override_changes_nothing() {
    let base_module = || module("world", vec![imp(7, false, vec![Member::Fn(func("tick", 1))], 10)], 100);
    let over = module("world", vec![], 200);
    assert_eq!(try_impl_mod(vec![base_module()], over), Ok(base_module()));
}

#[test]
fn merge_keeps_base_items() {
    let base = vec![module("world", vec![ModItem::Other(1), ModItem::Other(2)], 100)];
    let over = module(
        "world",
        vec![ModItem::Use(3), ModItem::Struct(NamedItem { name: "S".to_string(), node: 4 })],
        200,
    );
    let c = content_of(impl_mod(base, over));
    assert_eq!(c.len(), 4);
}

#[test]
fn trait_override_replaces_namesake() {
    let base = vec![module(
        "world",
        vec![
            ModItem::Other(1),
            ModItem::Trait(TraitBlock {
                name: "Ai".to_string(),
                members: vec![Member::Fn(func("plan", 2)), Member::Fn(func("think", 3))],
                node: 10,
            }),
            ModItem::Trait(TraitBlock { name: "Other".to_string(), members: vec![Member::Fn(func("think", 4))], node: 11 }),
        ],
        100,
    )];
    let over = module(
        "world",
        vec![ModItem::Trait(TraitBlock { name: "Ai".to_string(), members: vec![Member::Fn(func("think", 50))], node: 60 })],
        200,
    );
    let c = content_of(impl_mod(base, over));
    assert_eq!(c[0], ModItem::Other(1));
    assert_eq!(members_of(&c[1]), &vec![Member::Fn(func("plan", 2)), Member::Fn(func("think", 50))]);
    assert_eq!(members_of(&c[2]), &vec![Member::Fn(func("think", 4))]);
}

#[test]
fn non_function_trait_member_in_override_is_unsupported() {
    let base = vec![module("world", vec![], 100)];
    let over = module(
        "world",
        vec![ModItem::Trait(TraitBlock { name: "Ai".to_string(), members: vec![Member::Other(5)], node: 60 })],
        200,
    );
    assert_eq!(try_impl_mod(base, over), Err(MergeError::Unsupported));
}

#[test]
fn merge_keeps_frame_of_base_items() {
    let base = vec![module(
        "world",
        vec![
            ModItem::Other(1),
            imp(7, false, vec![Member::Fn(func("tick", 2)), Member::Fn(func("draw", 3))], 10),
            ModItem::Struct(NamedItem { name: "S".to_string(), node: 4 }),
        ],
        100,
    )];
    let over = module(
        "world",
        vec![
            ModItem::Use(20),
            ModItem::Struct(NamedItem { name: "S".to_string(), node: 21 }),
            imp(7, false, vec![Member::Fn(func("draw", 22))], 60),
        ],
        200,
    );
    let c = content_of(impl_mod(base, over));
    assert_eq!(c.len(), 4);
    assert_eq!(c[0], ModItem::Use(20));
    assert_eq!(c[1], ModItem::Other(1));
    match &c[2] {
        ModItem::Impl(b) => {
            assert_eq!((b.self_ty, b.node), (7, 10));
            assert_eq!(b.members, vec![Member::Fn(func("tick", 2)), Member::Fn(func("draw", 22))]);
        }
        other => panic!("{:?}", other),
    }
    assert_eq!(c[3], ModItem::Struct(NamedItem { name: "S".to_string(), node: 21 }));
}

#[test]
fn merging_the_same_override_twice_changes_nothing() {
    let tr = |node: u64, members: Vec<Member>| {
        ModItem::Trait(TraitBlock { name: "Ai".to_string(), members, node })
    };
    let base = vec![module(
        "world",
        vec![
            imp(7, false, vec![Member::Fn(func("tick", 1)), Member::Fn(func("draw", 2))], 10),
            tr(11, vec![Member::Fn(func("think", 3))]),
            ModItem::Struct(NamedItem { name: "S".to_string(), node: 4 }),
        ],
        100,
    )];
    let over = module(
        "world",
        vec![
            imp(7, false, vec![Member::Fn(func("draw", 50)), Member::Fn(func("draw", 51))], 60),
            tr(61, vec![Member::Fn(func("think", 52))]),
            ModItem::Struct(NamedItem { name: "S".to_string(), node: 53 }),
            ModItem::Enum(NamedItem { name: "E".to_string(), node: 54 }),
            ModItem::Struct(NamedItem { name: "T".to_string(), node: 55 }),
            ModItem::Struct(NamedItem { name: "T".to_string(), node: 56 }),
        ],
        200,
    );
    let once = impl_mod(base, over.clone());
    let twice = impl_mod(vec![once.clone()], over);
    assert_eq!(twice, once);
    let c = content_of(once);
    assert_eq!(c.len(), 5);
    assert_eq!(c[3], ModItem::Enum(NamedItem { name: "E".to_string(), node: 54 }));
    assert_eq!(c[4], ModItem::Struct(NamedItem { name: "T".to_string(), node: 56 }));
}

#[test]
fn uses_are_not_merged_idempotently() {
    let base = vec![module("world", vec![ModItem::Other(1)], 100)];
    let over = module("world", vec![ModItem::Use(20)], 200);
    let once = impl_mod(base, over.clone());
    let twice = impl_mod(vec![once.clone()], over);
    assert_eq!(content_of(twice), vec![ModItem::Use(20), ModItem::Use(20), ModItem::Other(1)]);
}

#[test]
fn merge_shape_puts_uses_first_and_new_items_last() {
    let base = vec![module(
        "world",
        vec![
            ModItem::Other(1),
            imp(7, false, vec![Member::Fn(func("tick", 2))], 10),
            ModItem::Enum(NamedItem { name: "E".to_string(), node: 3 }),
        ],
        100,
    )];
    let over = module(
        "world",
        vec![
            ModItem::Use(20),
            ModItem::Struct(NamedItem { name: "N".to_string(), node: 21 }),
            imp(7, false, vec![Member::Fn(func_with("tick", 22, &["needs_super"]))], 60),
            ModItem::Use(23),
            ModItem::Enum(NamedItem { name: "E".to_string(), node: 24 }),
        ],
        200,
    );
    let c = content_of(impl_mod(base, over));
    assert_eq!(c.len(), 6);
    assert_eq!(c[0], ModItem::Use(23));
    assert_eq!(c[1], ModItem::Use(20));
    assert_eq!(c[2], ModItem::Other(1));
    assert_eq!(
        members_of(&c[3]),
        &vec![Member::Fn(func("tick", 22)), Member::Fn(func("_super_tick", 2))]
    );
    assert_eq!(c[4], ModItem::Enum(NamedItem { name: "E".to_string(), node: 24 }));
    assert_eq!(c[5], ModItem::Struct(NamedItem { name: "N".to_string(), node: 21 }));
}

#[test]
fn new_structs_come_in_order_of_first_occurrence() {
    let s = |name: &str, node: u64| ModItem::Struct(NamedItem { name: name.to_string(), node });
    let base = vec![module("world", vec![ModItem::Other(1)], 100)];
    let over = module("world", vec![s("S", 10), s("T", 11), s("S", 12)], 200);
    let c = content_of(impl_mod(base, over));
    assert_eq!(c, vec![ModItem::Other(1), s("S", 12), s("T", 11)]);
}

#[test]
fn same_named_traits_holding_different_functions_merge_idempotently() {
    let tr = |node: u64, members: Vec<Member>| {
        ModItem::Trait(TraitBlock { name: "Ai".to_string(), members, node })
    };
    let base = vec![module(
        "world",
        vec![tr(10, vec![Member::Fn(func("think", 1))]), tr(11, vec![Member::Fn(func("plan", 2))])],
        100,
    )];
    let over = module("world", vec![tr(60, vec![Member::Fn(func("think", 50))])], 200);
    let once = impl_mod(base, over.clone());
    let twice = impl_mod(vec![once.clone()], over);
    assert_eq!(twice, once);
    assert_eq!(members_of(&content_of(once)[0]), &vec![Member::Fn(func("think", 50))]);
}
