use ttfm::col::Col;
use ttfm::edit::action::{DeleteTarget, TagOp, WriteAction};
use ttfm::edit::error::EditError;
use ttfm::edit::modify::{
    build_leaf_label, check_untag_allowed, find_number, interpret_tag_value, modify,
    resolve_nodes, NumberText,
};
use ttfm::edit::parse::{parse_edit_query, EditQuery, EditQueryLeaf};
use ttfm::edit::{QueryType, WriteOptions};
use ttfm::config::{ConfirmMode, ConflictPolicy, HardlinkPolicy};
use ttfm::item::{Item, ItemKind, Label, Representative, TagType, Tags, TypedTag};
use ttfm::tag::{EditStrategy, TagRegistry};
use ttfm::types::{Bitical, ItemId, Number, Origin};

fn number(x: f64) -> Number {
    Number { bits: x.to_bits(), shown: x.to_string() }
}

fn make_item(item_id: i64, typed_tags: Vec<TypedTag>) -> Item {
    let mut tags = Tags::new();
    for tag in typed_tags {
        tags.push(tag, Origin::User);
    }
    Item {
        id: ItemId::Stored(item_id),
        item_kind: ItemKind::File,
        representative: Representative { tags: vec![] },
        tags,
        item_count: None,
    }
}

fn registry() -> TagRegistry {
    TagRegistry::with_standard()
}

fn eq(q: &str, qt: QueryType) -> EditQuery {
    parse_edit_query(q, qt, &registry()).unwrap()
}

fn modify_query(
    item: &Item,
    query: Option<&EditQuery>,
    query_type: QueryType,
    registry: &TagRegistry,
) -> Result<Vec<WriteAction>, EditError> {
    let nodes = resolve_nodes(query, &vec![], query_type, registry)?;
    modify(item, &nodes, query_type, registry)
}

fn leaf(q: &str) -> EditQueryLeaf {
    eq(&format!("t:{q}"), QueryType::Tag)
        .nodes
        .into_iter()
        .next()
        .unwrap()
        .label
        .unwrap()
}

fn make_volatile_item(col: Col, repr_value: &str) -> Item {
    let repr_label =
        TypedTag::new(TagType::Base(col), Bitical::String(repr_value.to_string()));
    Item {
        id: ItemId::Volatile(0),
        item_kind: ItemKind::Volatile,
        representative: Representative { tags: vec![repr_label] },
        tags: Tags::new(),
        item_count: None,
    }
}

#[test]
fn integer_value_is_typed_as_integer() {
    let label = build_leaf_label(&leaf("5"), None);
    assert_eq!(label, Label::other(Bitical::Integer(5)));
}

#[test]
fn double_value_is_typed_as_double() {
    let label = build_leaf_label(&leaf("42.1"), Some(number(42.1)));
    assert_eq!(label, Label::other(Bitical::Double(number(42.1))));
}

#[test]
fn boolean_value_is_typed_as_boolean() {
    let label = build_leaf_label(&leaf("true"), None);
    assert_eq!(label, Label::other(Bitical::Boolean(true)));
}

#[test]
fn quoted_value_stays_string() {
    let label = build_leaf_label(&leaf("\"42\""), None);
    assert_eq!(label, Label::other(Bitical::String("42".into())));
}

#[test]
fn braced_value_renders_as_literal() {
    let label = build_leaf_label(&leaf("{1}"), None);
    assert_eq!(label, Label::other(Bitical::String("{1}".into())));
}

#[test]
fn modify_append_custom_type() {
    let item = make_item(1, vec![]);
    let actions = modify_query(
        &item,
        Some(&eq("project:A", QueryType::Tag)),
        QueryType::Tag,
        &registry(),
    )
    .unwrap();
    assert_eq!(actions.len(), 1);
    assert!(
        matches!(&actions[0], WriteAction::Add { tags, .. } if matches!(&tags[0], TagOp::Append(_)))
    );
}

#[test]
fn modify_tag_multiple_tokens() {
    let item = make_item(1, vec![]);
    let actions = modify_query(
        &item,
        Some(&eq("project:A status:done", QueryType::Tag)),
        QueryType::Tag,
        &registry(),
    )
    .unwrap();
    assert_eq!(actions.len(), 2);
}

#[test]
fn modify_replace_rank_generates_delete_then_add() {
    let item = make_item(1, vec![]);
    let actions = modify_query(
        &item,
        Some(&eq("rank:5", QueryType::Tag)),
        QueryType::Tag,
        &registry(),
    )
    .unwrap();
    assert_eq!(actions.len(), 2);
    assert!(
        matches!(&actions[0], WriteAction::Delete { tags, .. } if matches!(&tags[0], DeleteTarget::Type(TagType::Base(Col::Rank))))
    );
    assert!(
        matches!(&actions[1], WriteAction::Add { tags, .. } if matches!(&tags[0], TagOp::Replace(t) if t.tag_type() == TagType::Base(Col::Rank) && t.label.as_i64() == 5))
    );
}

#[test]
fn interpret_tag_value_applies_tagfn_interpret() {
    let label =
        TypedTag::new(TagType::from("size"), Bitical::String("1k".into()));
    let interpreted = interpret_tag_value(label, &registry()).unwrap();
    assert_eq!(
        interpreted,
        TypedTag::new(TagType::Base(Col::Size), Bitical::Integer(1024)),
        "TagFn (SizeFn::interpret) must interpret unit-suffixed values, \
         independent of whether the type is currently editable"
    );
}

#[test]
fn modify_tag_relocate_is_error() {
    let item = make_item(1, vec![]);
    assert!(modify_query(
        &item,
        Some(&eq("filename:foo.txt", QueryType::Tag)),
        QueryType::Tag,
        &registry()
    )
    .is_err());
}

#[test]
fn modify_tag_registered_without_edit_is_forbidden() {
    assert!(
        parse_edit_query(
            "hash:xxx",
            QueryType::Tag,
            &registry()
        )
        .is_err(),
        "registered type without edit() must be Forbidden, not Append"
    );
}

#[test]
fn modify_tag_type_value_is_forbidden() {
    assert!(
        parse_edit_query(
            "type:foo",
            QueryType::Tag,
            &registry()
        )
        .is_err(),
        "type: is a meta type and must be Forbidden as an EditQuery value"
    );
}

#[test]
fn modify_tag_item_id_is_forbidden() {
    let item = make_item(1, vec![]);
    assert!(
        modify_query(&item, Some(&eq("item_id:5", QueryType::Tag)), QueryType::Tag, &registry())
            .is_err(),
        "item_id: must reject Tag direction (RemoveOnly: append not allowed)"
    );
}

#[test]
fn modify_untag_registered_without_edit_is_forbidden() {
    assert!(
        parse_edit_query(
            "hash:xxx",
            QueryType::Untag,
            &registry()
        )
        .is_err(),
        "Forbidden must also block Untag direction"
    );
}

#[test]
fn modify_untag_item_id_is_allowed() {
    let item = make_item(1, vec![]);
    let actions = modify_query(
        &item,
        Some(&eq("item_id:", QueryType::Untag)),
        QueryType::Untag,
        &registry(),
    )
    .unwrap();
    assert_eq!(actions.len(), 1);
    assert!(
        matches!(&actions[0], WriteAction::Delete { tags, .. } if matches!(&tags[0], DeleteTarget::Type(TagType::Base(Col::ItemId)))),
        "untag item_id: must be allowed (RemoveOnly) and produce item deletion"
    );
}

#[test]
fn modify_tag_stem_is_relocate_not_forbidden() {
    let item = make_item(1, vec![]);
    let err = modify_query(
        &item,
        Some(&eq("stem:foo", QueryType::Tag)),
        QueryType::Tag,
        &registry(),
    )
    .unwrap_err();
    assert!(
        err.message().contains("fs_operate"),
        "stem must be classified as Relocate, not Forbidden: {err:?}"
    );
}

#[test]
fn modify_tag_modify_injection_is_error() {
    let item = make_item(1, vec![]);
    assert!(modify_query(
        &item,
        Some(&eq("item_kind:note", QueryType::Tag)),
        QueryType::Tag,
        &registry()
    )
    .is_err());
}

#[test]
fn modify_tag_projection_is_error() {
    assert!(
        parse_edit_query(
            "project:",
            QueryType::Tag,
            &registry()
        )
        .is_err(),
        "Projection form must be rejected at parse time in Tag direction"
    );
}

#[test]
fn modify_untag_existing_label() {
    let tag = TypedTag::new(TagType::from("project"), Bitical::String("A".into()));
    let item = make_item(1, vec![tag.clone()]);
    let actions = modify_query(
        &item,
        Some(&eq("project:A", QueryType::Untag)),
        QueryType::Untag,
        &registry(),
    )
    .unwrap();
    assert_eq!(actions.len(), 1);
    assert!(
        matches!(&actions[0], WriteAction::Delete { tags, .. } if matches!(&tags[0], DeleteTarget::Tag(_)))
    );
}

#[test]
fn modify_untag_nonexistent_label_is_noop() {
    let item = make_item(1, vec![]);
    let actions = modify_query(
        &item,
        Some(&eq("project:Z", QueryType::Untag)),
        QueryType::Untag,
        &registry(),
    )
    .unwrap();
    assert!(actions.is_empty());
}

#[test]
fn modify_untag_projection() {
    let item = make_item(1, vec![]);
    let actions = modify_query(
        &item,
        Some(&eq("project:", QueryType::Untag)),
        QueryType::Untag,
        &registry(),
    )
    .unwrap();
    assert_eq!(actions.len(), 1);
    assert!(
        matches!(&actions[0], WriteAction::Delete { tags, .. } if matches!(&tags[0], DeleteTarget::Type(_)))
    );
}

#[test]
fn modify_untag_multiple_gives_separate_deletes() {
    let tags = vec![
        TypedTag::new(TagType::from("project"), Bitical::String("A".into())),
        TypedTag::new(TagType::from("status"), Bitical::String("done".into())),
    ];
    let item = make_item(1, tags);
    let actions = modify_query(
        &item,
        Some(&eq("project:A status:done", QueryType::Untag)),
        QueryType::Untag,
        &registry(),
    )
    .unwrap();
    assert_eq!(actions.len(), 2);
    assert!(
        matches!(&actions[0], WriteAction::Delete { tags, .. } if matches!(&tags[0], DeleteTarget::Tag(_)))
    );
    assert!(
        matches!(&actions[1], WriteAction::Delete { tags, .. } if matches!(&tags[0], DeleteTarget::Tag(_)))
    );
}

fn add_tags(actions: &[WriteAction]) -> &[TagOp] {
    assert_eq!(actions.len(), 1, "Volatile must yield exactly one Add");
    let WriteAction::Add { tags, .. } = &actions[0] else {
        panic!("expected Add")
    };
    tags
}
fn has_append(tags: &[TagOp], pred: impl Fn(&TypedTag) -> bool) -> bool {
    tags.iter()
        .any(|t| matches!(t, TagOp::Append(l) if pred(l)))
}

#[test]
fn modify_settling_item_also_folds_into_single_add() {
    let mut item = make_volatile_item(Col::Type, "project");
    item.id = ItemId::Volatile(0).settle(Origin::User);
    let actions = modify_query(
        &item,
        Some(&eq("rank:5", QueryType::Tag)),
        QueryType::Tag,
        &registry(),
    )
    .unwrap();
    assert_eq!(actions.len(), 1, "Settling item must fold into one Add");
    match &actions[0] {
        WriteAction::Add { item: id, .. } => {
            assert_eq!(*id, item.id, "Add must target the same Settling id")
        }
        other => panic!("expected Add, got {:?}", other),
    }
}

#[test]
fn modify_volatile_injects_name_from_representative() {
    let item = make_volatile_item(Col::TypedTag, "project:A");
    let actions =
        modify_query(&item, None, QueryType::Tag, &registry()).unwrap();
    let tags = add_tags(&actions);
    assert!(
        has_append(tags, |l| l.tag_type() == TagType::Base(Col::Name)
            && l.as_str() == "project:A"),
        "name must be injected from representative when no name tag exists"
    );
}

#[test]
fn modify_volatile_existing_name_not_duplicated() {
    let mut item = make_volatile_item(Col::TypedTag, "project:A");
    item.tags
        .push(TypedTag::new(TagType::Base(Col::Name), Bitical::String("custom name".into())), Origin::User);
    let actions =
        modify_query(&item, None, QueryType::Tag, &registry()).unwrap();
    let tags = add_tags(&actions);
    let names: Vec<_> = tags
        .iter()
        .filter(|t| matches!(t, TagOp::Append(l) if l.tag_type() == TagType::Base(Col::Name)))
        .collect();
    assert_eq!(names.len(), 1, "must not duplicate name tag");
    assert!(has_append(tags, |l| l.tag_type()
        == TagType::Base(Col::Name)
        && l.as_str() == "custom name"));
}

#[test]
fn modify_volatile_no_representative_falls_back_to_item_kind() {
    let item = Item {
        id: ItemId::Volatile(0),
        item_kind: ItemKind::Volatile,
        representative: Representative { tags: vec![] },
        tags: Tags::new(),
        item_count: None,
    };
    let actions = modify_query(
        &item,
        Some(&eq("project:X", QueryType::Tag)),
        QueryType::Tag,
        &registry(),
    )
    .unwrap();
    let tags = add_tags(&actions);
    assert!(
        has_append(tags, |l| l.tag_type() == TagType::Base(Col::Name)
            && l.as_str() == "note"),
        "name must fall back to item_kind when representative is empty"
    );
}

#[test]
fn modify_volatile_tag_def_replace_single_add() {
    let item = make_volatile_item(Col::TypedTag, "project:A");
    let actions = modify_query(
        &item,
        Some(&eq("rank:5", QueryType::Tag)),
        QueryType::Tag,
        &registry(),
    )
    .unwrap();
    let tags = add_tags(&actions);
    assert!(has_append(tags, |l| l.tag_type()
        == TagType::Base(Col::Rank)
        && l.label.as_i64() == 5));
    assert!(has_append(tags, |l| l.tag_type()
        == TagType::Base(Col::Content)
        && l.as_str() == "project:A"));
    assert!(has_append(tags, |l| l.tag_type()
        == TagType::Base(Col::ItemKind)
        && l.as_str() == "tag"));
}

#[test]
fn modify_volatile_replace_dedups_against_item_tags() {
    let mut item = make_volatile_item(Col::TypedTag, "project:A");
    item.tags.push(TypedTag::new(TagType::Base(Col::Rank), Bitical::Integer(1)), Origin::User);
    let actions = modify_query(
        &item,
        Some(&eq("rank:5", QueryType::Tag)),
        QueryType::Tag,
        &registry(),
    )
    .unwrap();
    let tags = add_tags(&actions);
    let ranks: Vec<_> = tags
        .iter()
        .filter(|t| matches!(t, TagOp::Append(l) if l.tag_type() == TagType::Base(Col::Rank)))
        .collect();
    assert_eq!(
        ranks.len(),
        1,
        "old rank dropped, only EditQuery rank remains"
    );
    assert!(has_append(tags, |l| l.tag_type()
        == TagType::Base(Col::Rank)
        && l.label.as_i64() == 5));
}

#[test]
fn modify_volatile_tag_def_append_single_add() {
    let item = make_volatile_item(Col::TypedTag, "project:A");
    let actions = modify_query(
        &item,
        Some(&eq("project:X", QueryType::Tag)),
        QueryType::Tag,
        &registry(),
    )
    .unwrap();
    let tags = add_tags(&actions);
    assert!(has_append(tags, |l| l.tag_type()
        == TagType::Base(Col::Content)
        && l.as_str() == "project:A"));
    assert!(has_append(tags, |l| l.tag_type()
        == TagType::Base(Col::ItemKind)
        && l.as_str() == "tag"));
}

#[test]
fn modify_volatile_type_def_single_add() {
    let item = make_volatile_item(Col::Type, "project");
    let actions = modify_query(
        &item,
        Some(&eq("project:X", QueryType::Tag)),
        QueryType::Tag,
        &registry(),
    )
    .unwrap();
    let tags = add_tags(&actions);
    assert!(has_append(tags, |l| l.tag_type()
        == TagType::Base(Col::Content)
        && l.as_str() == "project"));
    assert!(has_append(tags, |l| l.tag_type()
        == TagType::Base(Col::ItemKind)
        && l.as_str() == "type"));
}

#[test]
fn modify_volatile_other_projection_single_add_note() {
    let item = make_volatile_item(Col::Parentdir, "/home/aki/projects");
    let actions = modify_query(
        &item,
        Some(&eq("project:X", QueryType::Tag)),
        QueryType::Tag,
        &registry(),
    )
    .unwrap();
    let tags = add_tags(&actions);
    assert!(has_append(tags, |l| l.tag_type()
        == TagType::Base(Col::Content)
        && l.as_str() == "/home/aki/projects"));
    assert!(has_append(tags, |l| l.tag_type()
        == TagType::Base(Col::ItemKind)
        && l.as_str() == "note"));
}

#[test]
fn modify_stored_item_no_registration_action() {
    let item = make_item(1, vec![]);
    let actions = modify_query(
        &item,
        Some(&eq("project:X", QueryType::Tag)),
        QueryType::Tag,
        &registry(),
    )
    .unwrap();
    assert_eq!(actions.len(), 1);
}

#[test]
fn modify_volatile_no_edit_query_registration_only() {
    let item = make_volatile_item(Col::TypedTag, "project:A");
    let actions =
        modify_query(&item, None, QueryType::Tag, &registry()).unwrap();
    let tags = add_tags(&actions);
    assert!(has_append(tags, |l| l.tag_type()
        == TagType::Base(Col::Content)
        && l.as_str() == "project:A"));
    assert!(has_append(tags, |l| l.tag_type()
        == TagType::Base(Col::ItemKind)
        && l.as_str() == "tag"));
}

#[test]
fn modify_stored_no_edit_query_is_noop() {
    let item = make_item(1, vec![]);
    let actions =
        modify_query(&item, None, QueryType::Tag, &registry()).unwrap();
    assert!(actions.is_empty());
}

#[test]
fn modify_volatile_multi_repr_is_note_with_joined_content() {
    let repr = vec![
        TypedTag::new(
            TagType::Base(Col::TypedTag),
            Bitical::String("project:A".to_string()),
        ),
        TypedTag::new(
            TagType::Base(Col::TypedTag),
            Bitical::String("status:done".to_string()),
        ),
    ];
    let item = Item {
        id: ItemId::Volatile(0),
        item_kind: ItemKind::Volatile,
        representative: Representative { tags: repr },
        tags: Tags::new(),
        item_count: None,
    };
    let actions =
        modify_query(&item, None, QueryType::Tag, &registry()).unwrap();
    let tags = add_tags(&actions);
    assert!(has_append(tags, |l| l.tag_type()
        == TagType::Base(Col::ItemKind)
        && l.as_str() == "note"));
    assert!(has_append(tags, |l| l.tag_type()
        == TagType::Base(Col::Content)
        && l.as_str() == "project:A &: status:done"));
}

#[test]
fn modify_type_tag_no_longer_renamed() {
    let mut item = make_volatile_item(Col::TypedTag, "project:A");
    item.tags.push(
        TypedTag::new(TagType::Base(Col::Type), Bitical::String("integer".to_string())),
        Origin::Builtin,
    );
    let actions =
        modify_query(&item, None, QueryType::Tag, &registry()).unwrap();
    let tags = add_tags(&actions);
    assert!(
        has_append(tags, |l| l.tag_type() == TagType::Base(Col::Type)
            && matches!(
                l.value(),
                Bitical::String(s) if s == "integer"
            )),
        "type: tag must pass through unchanged"
    );
}

#[test]
fn test_check_untag_allowed_rejections() {
    let reg = registry();
    assert!(check_untag_allowed(&TagType::Base(Col::Path), &reg).is_ok());
    assert!(check_untag_allowed(&TagType::Base(Col::Name), &reg).is_ok());
    assert!(
        check_untag_allowed(&TagType::Base(Col::ItemId), &reg).is_ok()
    );
    assert!(check_untag_allowed(
        &TagType::Custom("custom_tag".into()),
        &reg
    )
    .is_ok());

    assert!(check_untag_allowed(&TagType::Base(Col::Stem), &reg).is_err());
    assert!(
        check_untag_allowed(&TagType::Base(Col::Filename), &reg).is_err()
    );
    assert!(check_untag_allowed(&TagType::Base(Col::Extension), &reg)
        .is_err());
    assert!(check_untag_allowed(&TagType::Base(Col::Parentdir), &reg)
        .is_err());
    assert!(
        check_untag_allowed(&TagType::Base(Col::Mtime), &reg).is_err()
    );
    assert!(check_untag_allowed(&TagType::Base(Col::Size), &reg).is_err());
}

#[test]
fn forbidden_tags_return_none() {
    let reg = TagRegistry::with_standard();
    assert!(reg.get("size").and_then(|f| f.edit.as_ref()).is_none());
    assert!(reg.get("hash").and_then(|f| f.edit.as_ref()).is_none());
    assert!(reg.get("is_dir").and_then(|f| f.edit.as_ref()).is_none());
    assert!(reg.get("file_id").and_then(|f| f.edit.as_ref()).is_none());
}

#[test]
fn editable_tags_have_correct_strategies() {
    let reg = TagRegistry::with_standard();
    let strategy = |name: &str| reg.strategy(name);
    assert!(matches!(strategy("rank"), Some(EditStrategy::Replace)));
    assert!(matches!(strategy("name"), Some(EditStrategy::Replace)));
    assert!(matches!(strategy("filename"), Some(EditStrategy::Relocate)));
    assert!(matches!(strategy("path"), Some(EditStrategy::Relocate)));
    assert!(matches!(strategy("extension"), Some(EditStrategy::Relocate)));
    assert!(matches!(strategy("parentdir"), Some(EditStrategy::Relocate)));
    assert!(matches!(strategy("mtime"), Some(EditStrategy::SetFileAttr)));
    assert!(matches!(strategy("item_kind"), Some(EditStrategy::ModifyInjection)));
    assert!(matches!(strategy("content"), Some(EditStrategy::ModifyInjection)));
}

#[test]
fn test_write_options_is_interactive() {
    for terminal in [true, false] {
        let noconfirm = WriteOptions::noconfirm();
        assert!(!noconfirm.is_interactive(terminal));

        let always = WriteOptions::noconfirm().on_confirm(ConfirmMode::Always);
        assert!(always.is_interactive(terminal));

        let never = WriteOptions::interactive().on_confirm(ConfirmMode::Never);
        assert!(!never.is_interactive(terminal));

        let policy_bypass = WriteOptions::interactive().on_conflict(ConflictPolicy::Serial);
        assert!(!policy_bypass.is_interactive(terminal));

        let hardlink_bypass = WriteOptions::interactive().on_hardlink(HardlinkPolicy::All);
        assert!(!hardlink_bypass.is_interactive(terminal));
    }
    assert!(WriteOptions::interactive().is_interactive(true));
    assert!(!WriteOptions::interactive().is_interactive(false));
}

#[test]
fn a_query_is_refused_with_a_reason() {
    let reg = registry();
    let refused = |q: &str, qt: QueryType| {
        let item = make_item(1, vec![]);
        parse_edit_query(q, qt, &reg)
            .and_then(|e| modify_query(&item, Some(&e), qt, &reg))
            .unwrap_err()
    };
    assert!(matches!(refused("filename:a", QueryType::Tag), EditError::NeedsFsOperate(_)));
    assert!(matches!(refused("item_kind:a", QueryType::Tag), EditError::ModifyInjection(_)));
    assert!(matches!(refused("item_id:5", QueryType::Tag), EditError::RemoveOnly(_)));
    assert!(matches!(refused("size:5", QueryType::Tag), EditError::Forbidden(_)));
    assert!(matches!(refused("tag:5", QueryType::Tag), EditError::MetaType(_)));
    assert!(matches!(refused("\"\":5", QueryType::Tag), EditError::EmptyType));
    assert!(matches!(refused("note:", QueryType::Tag), EditError::Projection(_)));
    assert!(matches!(refused("name:a name:b", QueryType::Tag), EditError::AmbiguousReplace(_)));
    assert!(matches!(refused("stem:a", QueryType::Untag), EditError::PartOfLocation(_)));
    assert!(matches!(refused("mtime:", QueryType::Untag), EditError::NoRemoval(_)));
    let invalid = refused("note:a |b", QueryType::Tag);
    assert_eq!(invalid, EditError::InvalidQuery("note:a |b".to_string(), 7));
    assert_eq!(
        invalid.message(),
        "invalid edit query \"note:a |b\": no tag can be read behind the first 7 characters"
    );
}

#[test]
fn numbers_are_looked_up_by_their_text() {
    let table = vec![NumberText { text: "1.5".to_string(), number: number(1.5) }];
    assert_eq!(find_number(&table, "1.5"), Some(number(1.5)));
    assert_eq!(find_number(&table, "1.50"), None);
    let q = eq("score:1.5", QueryType::Tag);
    let nodes = resolve_nodes(Some(&q), &table, QueryType::Tag, &registry()).unwrap();
    let actions = modify(&make_item(1, vec![]), &nodes, QueryType::Tag, &registry()).unwrap();
    assert!(matches!(
        &actions[0],
        WriteAction::Add { tags, .. } if tags[0].tag().value() == Bitical::Double(number(1.5))
    ));
}
