use ttfm::db::identifier::{max_in_block, next, parse, source_tables, IdError};
use ttfm::types::{show_id, ItemId, Origin};

/// The width of a block, worked out again.
const B: i64 = 1 << 58;

fn fmt_id(id: i64) -> String {
    let o = Origin::within(id);
    format!("{}({})", o.short(), id - o.block_lo())
}

#[test]
fn block_builtin_owns_negative_side() {
    assert_eq!(Origin::Builtin.block_lo(), -B);
    assert_eq!(Origin::Builtin.block_hi(), 0);
}

#[test]
fn block_user_owns_zero_to_file() {
    assert_eq!(Origin::User.block_lo(), 0);
    assert_eq!(Origin::User.block_hi(), 8 * B);
}

#[test]
fn block_file_owns_8b_to_16b() {
    assert_eq!(Origin::File.block_lo(), 8 * B);
    assert_eq!(Origin::File.block_hi(), 16 * B);
}

#[test]
fn block_plugin_owns_16b_to_i64_max() {
    assert_eq!(Origin::Plugin.block_lo(), 16 * B);
    assert_eq!(Origin::Plugin.block_hi(), i64::MAX);
}

#[test]
fn blocks_tile_without_overlap() {
    let shi = Origin::Builtin.block_hi();
    let (ulo, uhi) = (Origin::User.block_lo(), Origin::User.block_hi());
    let (flo, fhi) = (Origin::File.block_lo(), Origin::File.block_hi());
    let plo = Origin::Plugin.block_lo();
    assert_eq!(shi, ulo);
    assert_eq!(uhi, flo);
    assert_eq!(fhi, plo);
}

#[test]
fn short_labels() {
    assert_eq!(Origin::Builtin.short(), "Sys");
    assert_eq!(Origin::User.short(), "User");
    assert_eq!(Origin::File.short(), "File");
    assert_eq!(Origin::Plugin.short(), "Plg");
}

#[test]
fn parse_rejects_offset_outside_the_block() {
    assert!(
        parse(&format!("File({})", i64::MAX)).is_err(),
        "an offset that overflows must error, not panic"
    );
    assert!(parse("File(-1)").is_err());
    assert!(parse(&format!("File({})", 8 * B)).is_err());
    assert_eq!(parse(&format!("File({})", 8 * B - 1)).unwrap(), 16 * B - 1);
}

#[test]
fn within_inside_builtin_block() {
    assert_eq!(Origin::within(-B), Origin::Builtin);
    assert_eq!(Origin::within(-5), Origin::Builtin);
    assert_eq!(Origin::within(-1), Origin::Builtin);
}

#[test]
fn within_inside_user_block() {
    assert_eq!(Origin::within(0), Origin::User);
    assert_eq!(Origin::within(10), Origin::User);
    assert_eq!(Origin::within(B - 1), Origin::User);
}

#[test]
fn within_inside_file_block() {
    assert_eq!(Origin::within(8 * B), Origin::File);
    assert_eq!(Origin::within(8 * B + 10), Origin::File);
    assert_eq!(Origin::within(15 * B), Origin::File);
}

#[test]
fn within_inside_plugin_block() {
    assert_eq!(Origin::within(16 * B), Origin::Plugin);
    assert_eq!(Origin::within(16 * B + 10), Origin::Plugin);
    assert_eq!(Origin::within(30 * B), Origin::Plugin);
}

#[test]
fn within_below_all_blocks_falls_to_builtin() {
    assert_eq!(Origin::within(-B - 1), Origin::Builtin);
}

#[test]
fn within_gap_maps_to_block_directly_below() {
    assert_eq!(Origin::within(B), Origin::User);
    assert_eq!(Origin::within(4 * B), Origin::User);
    assert_eq!(Origin::within(8 * B - 1), Origin::User);
}

#[test]
fn display_uses_local_offset_form() {
    assert_eq!(fmt_id(10), "User(10)");
    assert_eq!(fmt_id(0), "User(0)");
    assert_eq!(fmt_id(-B), "Sys(0)");
    assert_eq!(fmt_id(-B + 10), "Sys(10)");
    assert_eq!(fmt_id(8 * B), "File(0)");
    assert_eq!(fmt_id(8 * B + 10), "File(10)");
    assert_eq!(fmt_id(16 * B), "Plg(0)");
    assert_eq!(fmt_id(16 * B + 10), "Plg(10)");
}

#[test]
fn parse_local_form() {
    assert_eq!(parse("Sys(10)").unwrap(), -B + 10);
    assert_eq!(parse("Sys(0)").unwrap(), -B);
    assert_eq!(parse("User(10)").unwrap(), 10);
    assert_eq!(parse("User(0)").unwrap(), 0);
    assert_eq!(parse("File(0)").unwrap(), 8 * B);
    assert_eq!(parse("File(10)").unwrap(), 8 * B + 10);
    assert_eq!(parse("Plg(0)").unwrap(), 16 * B);
    assert_eq!(parse("Plg(10)").unwrap(), 16 * B + 10);
}

#[test]
fn parse_raw_id() {
    assert_eq!(parse("123").unwrap(), 123);
    assert_eq!(parse("-5").unwrap(), -5);
    assert_eq!(parse(&(8 * B + 10).to_string()).unwrap(), 8 * B + 10);
}

#[test]
fn parse_rejects_garbage() {
    assert!(parse("Sys(abc)").is_err());
    assert!(parse("Bogus(10)").is_err());
    assert!(parse("hello").is_err());
    assert!(parse("Sys(10").is_err());
}

#[test]
fn display_parse_roundtrip() {
    for id in [0_i64, 10, B - 1, 8 * B, 8 * B + 10, -B, -B + 5, 16 * B, 16 * B + 10] {
        assert_eq!(parse(&fmt_id(id)).unwrap(), id);
        assert_eq!(parse(&show_id(id)).unwrap(), id);
    }
}

#[test]
fn id_errors_say_what_is_wrong() {
    assert_eq!(parse("Sys(10").unwrap_err(), IdError::MalformedLocalForm("Sys(10".to_string()));
    assert_eq!(parse("Sys(abc)").unwrap_err(), IdError::InvalidOffset("Sys(abc)".to_string()));
    assert_eq!(parse("hello").unwrap_err().message(), "invalid item_id: hello");
    assert!(matches!(parse("Bogus(10)").unwrap_err(), IdError::UnknownOrigin(_)));
    assert!(matches!(parse("File(-1)").unwrap_err(), IdError::OffsetOutsideBlock(_, _)));
    assert_eq!(parse("  7 ").unwrap(), 7);
}

#[test]
fn new_ids_follow_the_largest() {
    assert_eq!(max_in_block(Origin::User, &vec![]), -1);
    assert_eq!(max_in_block(Origin::User, &vec![4, 9, 2]), 9);
    assert_eq!(max_in_block(Origin::File, &vec![]), 8 * B - 1);
    assert_eq!(next(9, 3), vec![10, 11, 12]);
    assert!(next(9, 0).is_empty());
    assert!(source_tables(Origin::File).len() > source_tables(Origin::User).len());
}

#[test]
fn items_show_their_ids() {
    assert_eq!(ItemId::Stored(7).show(), "User(7)");
    assert!(ItemId::Stored(7).is_stored());
    assert_eq!(Origin::User.id_at_offset(5), Some(5));
    assert_eq!(Origin::User.id_at_offset(-1), None);
    assert_eq!(Origin::File.id_at_offset(8 * B), None);
}
