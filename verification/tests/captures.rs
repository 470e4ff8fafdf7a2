use chrono::{Local, TimeZone};
use ttfm::col::Col;
use ttfm::edit::error::EditError;
use ttfm::edit::parse::{parse_edit_query, EditQuery};
use ttfm::edit::search_and_apply_captures::{
    apply_captures, candidate_types, collect_units, fit_label, hits_for_unit, reject_glob,
    search_and_apply_captures, Pattern, Unit,
};
use ttfm::edit::QueryType;
use ttfm::item::{Item, ItemKind, Representative, TagType, Tags, TypedTag};
use ttfm::tag::{capture, default_capture, TagRegistry, TimeSlots};
use ttfm::types::{Bitical, ItemId, Origin};

fn glob(text: &str, numbers: &[usize]) -> Pattern {
    Pattern::Glob {
        text: text.to_string(),
        numbers: numbers.to_vec(),
    }
}

fn literal(text: &str) -> Pattern {
    Pattern::Literal(text.to_string())
}

fn tag(ty: &str, label: &str) -> TypedTag {
    TypedTag::new(TagType::from(ty), Bitical::String(label.to_string()))
}

fn reg() -> TagRegistry {
    TagRegistry::with_standard()
}

fn item_with(entries: Vec<TypedTag>) -> Item {
    let mut tags = Tags::new();
    for t in entries {
        tags.push(t, Origin::User);
    }
    Item {
        id: ItemId::Stored(1),
        item_kind: ItemKind::File,
        representative: Representative { tags: vec![] },
        tags,
        item_count: None,
    }
}

fn edit_query(s: &str) -> EditQuery {
    parse_edit_query(s, QueryType::Tag, &reg()).unwrap()
}

#[test]
fn numbers_run_left_to_right_across_label_and_type() {
    let (units, total) = collect_units("a*:b* | c*:d*").unwrap();
    assert_eq!(
        units,
        vec![
            Unit::Pair {
                ty: glob("a*", &[1]),
                label: glob("b*", &[2]),
            },
            Unit::Pair {
                ty: glob("c*", &[3]),
                label: glob("d*", &[4]),
            },
        ]
    );
    assert_eq!(total, 4);
}

#[test]
fn metachar_inside_quotes_is_numbered() {
    let (units, total) = collect_units(r#"project:"al*pha""#).unwrap();
    assert_eq!(
        units,
        vec![Unit::Pair {
            ty: glob("project", &[]),
            label: glob("al*pha", &[1]),
        }]
    );
    assert_eq!(total, 1);
}

#[test]
fn escaped_metachar_is_not_numbered() {
    let (units, total) = collect_units(r"project:al\*pha").unwrap();
    assert_eq!(
        units,
        vec![Unit::Pair {
            ty: glob("project", &[]),
            label: glob(r"al\*pha", &[]),
        }]
    );
    assert_eq!(total, 0);
}

#[test]
fn count_shorthand_consumes_no_number() {
    let (units, total) = collect_units("count() > 0").unwrap();
    assert_eq!(units, vec![Unit::Label(literal("0"))]);
    assert_eq!(total, 0);
}

#[test]
fn explicit_count_star_star_consumes_two() {
    let (units, total) = collect_units("count(*:*) > 0").unwrap();
    assert_eq!(
        units,
        vec![
            Unit::Pair {
                ty: glob("*", &[1]),
                label: glob("*", &[2]),
            },
            Unit::Label(literal("0")),
        ]
    );
    assert_eq!(total, 2);
}

#[test]
fn bare_token_on_stuck_comparison_rhs_is_numbered() {
    let (units, total) = collect_units("size:>al*pha").unwrap();
    assert_eq!(
        units,
        vec![
            Unit::Type(glob("size", &[])),
            Unit::Label(glob("al*pha", &[1])),
        ]
    );
    assert_eq!(total, 1);
}

#[test]
fn arithmetic_star_is_not_numbered() {
    let (units, total) = collect_units("(size: * 2)").unwrap();
    assert_eq!(
        units,
        vec![Unit::Type(glob("size", &[])), Unit::Label(literal("2"))]
    );
    assert_eq!(total, 0);
}

#[test]
fn aggregate_and_difference_operands_follow_same_rule() {
    let (units, total) =
        collect_units("count(pro*:al*) - count(a*:b*)").unwrap();
    assert_eq!(
        units,
        vec![
            Unit::Pair {
                ty: glob("pro*", &[1]),
                label: glob("al*", &[2]),
            },
            Unit::Pair {
                ty: glob("a*", &[3]),
                label: glob("b*", &[4]),
            },
        ]
    );
    assert_eq!(total, 4);
}

#[test]
fn or_branches_are_collected_like_any_other_position() {
    let (units, total) = collect_units("x*:y* | z*:w*").unwrap();
    assert_eq!(
        units,
        vec![
            Unit::Pair {
                ty: glob("x*", &[1]),
                label: glob("y*", &[2]),
            },
            Unit::Pair {
                ty: glob("z*", &[3]),
                label: glob("w*", &[4]),
            },
        ]
    );
    assert_eq!(total, 4);
}

#[test]
fn escaped_metachar_in_type_position_is_not_numbered() {
    let (units, total) = collect_units(r"\*:x").unwrap();
    assert_eq!(
        units,
        vec![Unit::Pair {
            ty: glob(r"\*", &[]),
            label: glob("x", &[]),
        }]
    );
    assert_eq!(total, 0);
}

#[test]
fn quoted_type_pattern_is_numbered() {
    let (units, total) = collect_units(r#""ext*":txt"#).unwrap();
    assert_eq!(
        units,
        vec![Unit::Pair {
            ty: glob("ext*", &[1]),
            label: glob("txt", &[]),
        }]
    );
    assert_eq!(total, 1);
}

#[test]
fn type_side_precedes_label_side_in_a_pair() {
    let (units, _total) = collect_units("pro*:al*").unwrap();
    assert_eq!(
        units,
        vec![Unit::Pair {
            ty: glob("pro*", &[1]),
            label: glob("al*", &[2]),
        }]
    );
}

#[test]
fn single_match_binds_one_value() {
    let reg = reg();
    let item = item_with(vec![tag("project", "alpha")]);
    let parsed = edit_query("note:{1}");
    let (units, total) = collect_units("project:al*").unwrap();
    let out = apply_captures(&item, &parsed, &units, total, &reg, &vec![]).unwrap();
    assert_eq!(out.nodes.len(), 1);
    assert_eq!(out.nodes[0].label.as_ref().unwrap().value(), "pha");
}

#[test]
fn multiple_matches_expand_as_product() {
    let reg = reg();
    let item = item_with(vec![
        tag("cat", "a"),
        tag("cat", "b"),
        tag("grp", "x"),
        tag("grp", "y"),
    ]);
    let parsed = edit_query("note:{1}-{2}");
    let (units, total) = collect_units("cat:* | grp:*").unwrap();
    let out = apply_captures(&item, &parsed, &units, total, &reg, &vec![]).unwrap();
    let mut values: Vec<String> = out
        .nodes
        .iter()
        .map(|n| n.label.as_ref().unwrap().value())
        .collect();
    values.sort();
    assert_eq!(values, vec!["a-x", "a-y", "b-x", "b-y"]);
}

#[test]
fn axis_without_hits_stays_one_unbound_candidate() {
    let reg = reg();
    let item = item_with(vec![]);
    let parsed = edit_query("project:{1} static:y");
    let (units, total) = collect_units("project:*").unwrap();
    let out = apply_captures(&item, &parsed, &units, total, &reg, &vec![]).unwrap();
    assert_eq!(out.nodes.len(), 1);
    assert_eq!(out.nodes[0].tag_type.value(), "static");
}

#[test]
fn node_with_unbound_ref_is_dropped_from_output() {
    let reg = reg();
    let item = item_with(vec![tag("project", "alpha")]);
    let parsed = edit_query("x:{1} y:{2}");
    let (units, total) = collect_units("cat:* | project:al*").unwrap();
    let out = apply_captures(&item, &parsed, &units, total, &reg, &vec![]).unwrap();
    assert_eq!(out.nodes.len(), 1);
    assert_eq!(out.nodes[0].tag_type.value(), "y");
    assert_eq!(out.nodes[0].label.as_ref().unwrap().value(), "pha");
}

#[test]
fn bound_ref_rendering_to_empty_string_is_kept() {
    let reg = reg();
    let item = item_with(vec![tag("project", "tt")]);
    let parsed = edit_query("note:pre{1}post");
    let (units, total) = collect_units("project:tt*").unwrap();
    let out = apply_captures(&item, &parsed, &units, total, &reg, &vec![]).unwrap();
    assert_eq!(out.nodes.len(), 1);
    assert_eq!(out.nodes[0].label.as_ref().unwrap().value(), "prepost");
}

#[test]
fn pattern_inside_aggregate_binds_from_item_tags() {
    let reg = reg();
    let item = item_with(vec![tag("project", "alpha")]);
    let parsed = edit_query("x:{1}-{2}");
    let (units, total) = collect_units("count(pro*:al*) > 0").unwrap();
    let out = apply_captures(&item, &parsed, &units, total, &reg, &vec![]).unwrap();
    assert_eq!(out.nodes.len(), 1);
    assert_eq!(out.nodes[0].label.as_ref().unwrap().value(), "ject-pha");
}

#[test]
fn pair_binds_only_when_type_and_label_hit_same_entry() {
    let reg = reg();
    let item = item_with(vec![
        tag("zz_cat", "a1"),
        tag("zz_dog", "b1"),
    ]);
    let parsed = edit_query("note:{1}_{2}");
    let (units, total) = collect_units("zz_*:a*").unwrap();
    let out = apply_captures(&item, &parsed, &units, total, &reg, &vec![]).unwrap();
    assert_eq!(out.nodes.len(), 1);
    assert_eq!(out.nodes[0].label.as_ref().unwrap().value(), "cat_1");
}

#[test]
fn pair_with_literal_side_skips_entries_of_other_types() {
    let reg = reg();
    let item = item_with(vec![
        tag("zz_cat", "100"),
        tag("zz_dog", "200"),
    ]);
    let parsed = edit_query("note:{1}");
    let (units, total) = collect_units("zz_*:100").unwrap();
    let out = apply_captures(&item, &parsed, &units, total, &reg, &vec![]).unwrap();
    assert_eq!(out.nodes.len(), 1);
    assert_eq!(out.nodes[0].label.as_ref().unwrap().value(), "cat");
}

#[test]
fn capture_free_node_appears_once_across_sets() {
    let reg = reg();
    let item = item_with(vec![
        tag("cat", "a"),
        tag("cat", "b"),
    ]);
    let parsed = edit_query("note:{1} static:z");
    let (units, total) = collect_units("cat:*").unwrap();
    let out = apply_captures(&item, &parsed, &units, total, &reg, &vec![]).unwrap();
    let static_count = out
        .nodes
        .iter()
        .filter(|n| n.tag_type.value() == "static")
        .count();
    let note_count = out
        .nodes
        .iter()
        .filter(|n| n.tag_type.value() == "note")
        .count();
    assert_eq!(static_count, 1);
    assert_eq!(note_count, 2);
}

#[test]
fn identical_binding_from_two_entries_yields_one_node() {
    let reg = reg();
    let item = item_with(vec![
        tag("project", "alpha"),
        tag("project", "alpha"),
    ]);
    let parsed = edit_query("note:{1}");
    let (units, total) = collect_units("project:al*").unwrap();
    let out = apply_captures(&item, &parsed, &units, total, &reg, &vec![]).unwrap();
    assert_eq!(out.nodes.len(), 1);
    assert_eq!(out.nodes[0].label.as_ref().unwrap().value(), "pha");
}

#[test]
fn zero_reference_is_error() {
    let reg = reg();
    let item = item_with(vec![tag("project", "alpha")]);
    let parsed = edit_query("note:{0}");
    let (units, total) = collect_units("project:al*").unwrap();
    assert!(apply_captures(&item, &parsed, &units, total, &reg, &vec![]).is_err());
}

#[test]
fn non_numeric_reference_is_error() {
    let reg = reg();
    let item = item_with(vec![tag("project", "alpha")]);
    let parsed = edit_query("note:{abc}");
    let (units, total) = collect_units("project:al*").unwrap();
    assert!(apply_captures(&item, &parsed, &units, total, &reg, &vec![]).is_err());
}

#[test]
fn overflowing_reference_is_error() {
    let reg = reg();
    let item = item_with(vec![tag("project", "alpha")]);
    let parsed = edit_query("note:{99999999999999999999999999}");
    let (units, total) = collect_units("project:al*").unwrap();
    assert!(apply_captures(&item, &parsed, &units, total, &reg, &vec![]).is_err());
}

#[test]
fn leading_zero_reference_is_accepted() {
    let reg = reg();
    let item = item_with(vec![tag("project", "alpha")]);
    let parsed = edit_query("note:{01}");
    let (units, total) = collect_units("project:al*").unwrap();
    let out = apply_captures(&item, &parsed, &units, total, &reg, &vec![]).unwrap();
    assert_eq!(out.nodes[0].label.as_ref().unwrap().value(), "pha");
}

#[test]
fn reference_above_total_is_error() {
    let reg = reg();
    let item = item_with(vec![tag("project", "alpha")]);
    let parsed = edit_query("note:{2}");
    let (units, total) = collect_units("project:al*").unwrap();
    assert!(apply_captures(&item, &parsed, &units, total, &reg, &vec![]).is_err());
}

#[test]
fn type_position_glob_expands_over_candidate_types() {
    let reg = reg();
    let item = item_with(vec![
        tag("zz_extra", "txt"),
        tag("zz_ex2", "nope"),
        tag("zz_ex3", "txt"),
    ]);
    let parsed = edit_query("note:{1}");
    let (units, total) = collect_units("zz_*:txt").unwrap();
    let out = apply_captures(&item, &parsed, &units, total, &reg, &vec![]).unwrap();
    let mut values: Vec<String> = out
        .nodes
        .iter()
        .map(|n| n.label.as_ref().unwrap().value())
        .collect();
    values.sort();
    assert_eq!(values, vec!["ex3", "extra"]);
}

#[test]
fn literal_type_yields_exactly_one_candidate() {
    let reg = reg();
    let item = item_with(vec![
        tag("project", "alpha"),
        tag("projectx", "foo"),
    ]);
    let p = Pattern::Glob {
        text: "project".to_string(),
        numbers: vec![],
    };
    let candidates = candidate_types(&reg, &item, &p);
    assert_eq!(candidates, vec![TagType::from("project")]);
}

#[test]
fn unregistered_type_uses_default_capture() {
    let reg = reg();
    let item = item_with(vec![tag("myproj", "alpha")]);
    let ty = TagType::from("myproj");
    let p = Pattern::Glob {
        text: "al*".to_string(),
        numbers: vec![1],
    };
    let via_fit = fit_label(&reg, &p, &ty, &item, &vec![]);
    let direct = default_capture(&ty, "al*", &item);
    assert_eq!(via_fit, direct);
    assert_eq!(via_fit, vec![vec!["pha".to_string()]]);
}

#[test]
fn definition_item_binds_via_type_fn() {
    let reg = reg();
    let item = Item {
        id: ItemId::Stored(1),
        item_kind: ItemKind::File,
        representative: Representative {
            tags: vec![TypedTag::new(
                TagType::Base(Col::Type),
                Bitical::String("project".into()),
            )],
        },
        tags: Tags::new(),
        item_count: None,
    };
    let parsed = edit_query("note:{1}");
    let (units, total) = collect_units("type:proj*").unwrap();
    let out = apply_captures(&item, &parsed, &units, total, &reg, &vec![]).unwrap();
    assert_eq!(out.nodes.len(), 1);
    assert_eq!(out.nodes[0].label.as_ref().unwrap().value(), "ect");
}

#[test]
fn unquoted_glob_in_value_is_error() {
    let parsed = edit_query("cat:*");
    assert!(reject_glob(&parsed).is_err());
}

#[test]
fn quoted_glob_in_value_is_error() {
    let parsed = edit_query(r#"cat:"*""#);
    assert!(reject_glob(&parsed).is_err());
}

#[test]
fn escaped_glob_in_value_is_accepted() {
    let reg = reg();
    let item = item_with(vec![]);
    let parsed = edit_query(r"cat:\*");
    assert!(reject_glob(&parsed).is_ok());
    let (units, total) = collect_units("x:y").unwrap();
    let out = apply_captures(&item, &parsed, &units, total, &reg, &vec![]).unwrap();
    assert_eq!(out.nodes.len(), 1);
    assert_eq!(out.nodes[0].label.as_ref().unwrap().value(), "*");
}

#[test]
fn metachar_from_bound_value_is_accepted() {
    let reg = reg();
    let item = item_with(vec![tag("project", "a*b")]);
    let parsed = edit_query("note:{1}");
    assert!(reject_glob(&parsed).is_ok());
    let (units, total) = collect_units("project:a*").unwrap();
    let out = apply_captures(&item, &parsed, &units, total, &reg, &vec![]).unwrap();
    assert_eq!(out.nodes.len(), 1);
    assert_eq!(out.nodes[0].label.as_ref().unwrap().value(), "*b");
}

#[test]
fn reject_glob_does_not_look_at_bindings() {
    let parsed = edit_query("note:x*{1}");
    assert!(reject_glob(&parsed).is_err());
}

#[test]
fn references_are_refused_with_a_reason() {
    let reg = reg();
    let item = item_with(vec![tag("project", "alpha")]);
    let (units, total) = collect_units("project:al*").unwrap();
    let refused = |q: &str| {
        apply_captures(&item, &edit_query(q), &units, total, &reg, &vec![]).unwrap_err()
    };
    assert_eq!(refused("note:{0}"), EditError::ReferenceZero);
    assert_eq!(refused("note:{2}"), EditError::ReferenceTooLarge(2, 1));
    assert_eq!(refused("note:{x}"), EditError::ReferenceNotANumber("x".to_string()));
    assert!(matches!(reject_glob(&edit_query("cat:*")), Err(EditError::UnescapedGlob(_))));
}

#[test]
fn every_item_gets_its_own_query() {
    let reg = reg();
    let items = vec![
        item_with(vec![tag("project", "alpha")]),
        item_with(vec![tag("project", "allied")]),
    ];
    let parsed = edit_query("note:{1}");
    let edits = search_and_apply_captures(items, &reg, "project:al*", Some(&parsed), &vec![])
        .unwrap();
    let labels: Vec<String> = edits
        .iter()
        .map(|(_, q)| q.as_ref().unwrap().nodes[0].label.as_ref().unwrap().value())
        .collect();
    assert_eq!(labels, vec!["pha", "lied"]);
    let plain = search_and_apply_captures(
        vec![item_with(vec![])],
        &reg,
        "project:al*",
        None,
        &vec![],
    )
    .unwrap();
    assert!(plain[0].1.is_none());
}

#[test]
fn a_pattern_binds_each_fitting_tag() {
    let item = item_with(vec![tag("cat", "a1"), tag("cat", "b1"), tag("cat", "a2")]);
    let unit = Unit::Pair { ty: glob("cat", &[]), label: glob("a*", &[1]) };
    assert_eq!(hits_for_unit(&reg(), &item, &unit, &vec![]).len(), 2);
}

fn local_noon(year: i32, month: u32, day: u32) -> chrono::DateTime<Local> {
    Local.with_ymd_and_hms(year, month, day, 12, 0, 0).unwrap()
}

fn written(t: &chrono::DateTime<Local>) -> TimeSlots {
    let forms = ["%Y-%m-%d", "%Y-%m", "%Y"];
    TimeSlots {
        timestamp: t.timestamp(),
        texts: forms.iter().map(|f| t.format(f).to_string()).collect(),
    }
}

fn changed_at(timestamp: i64) -> TypedTag {
    TypedTag::new(TagType::Base(Col::Mtime), Bitical::Integer(timestamp))
}

#[test]
fn mtime_slot_glob_binds_slot_value() {
    let reg = reg();
    let noon = local_noon(2026, 8, 3);
    let item = item_with(vec![changed_at(noon.timestamp())]);
    let parsed = edit_query("note:{1}");
    let (units, total) = collect_units("mtime:*-08-03").unwrap();
    let out =
        apply_captures(&item, &parsed, &units, total, &reg, &vec![written(&noon)]).unwrap();
    assert_eq!(out.nodes.len(), 1);
    assert_eq!(out.nodes[0].label.as_ref().unwrap().value(), "2026");
}

#[test]
fn the_first_text_of_a_time_that_fits_is_taken() {
    let noon = local_noon(2026, 8, 3);
    let other = local_noon(2025, 1, 2);
    let slots = vec![written(&other), written(&noon)];
    let item = item_with(vec![changed_at(noon.timestamp())]);
    let ty = TagType::Base(Col::Mtime);
    let taken = |pattern: &str| capture(&reg(), &ty, pattern, &item, &slots);
    assert_eq!(taken("2026-*"), vec![vec!["08-03".to_string()]]);
    assert_eq!(taken("20*6"), vec![vec!["2".to_string()]]);
    assert!(taken("2025-*").is_empty());
    let unwritten = capture(&reg(), &ty, "2026-*", &item, &vec![]);
    assert!(unwritten.is_empty());
}

#[test]
fn a_copy_of_an_item_keeps_the_origins_of_its_tags() {
    let mut item = item_with(vec![tag("project", "alpha")]);
    item.tags.push(tag("ext", "rs"), Origin::File);
    let copy = item.clone();
    let origins: Vec<Origin> = copy.tags.entries.iter().map(|e| e.origin).collect();
    assert_eq!(origins, vec![Origin::User, Origin::File]);
}
