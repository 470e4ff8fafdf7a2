//! What the registry of types promises, and how values and times are read and shown.
use crate::col::Col;
use crate::functions;
use crate::tag;
use crate::tag::{EditStrategy, Reading, TagFnModel};
use crate::text;
use crate::types::BiticalModel;
use vstd::prelude::*;

verus! {

/// A type is found by its name where it is registered; of several of one name, the first counts.
pub proof fn law_first_registration_counts(reg: Seq<TagFnModel>, name: Seq<char>)
    ensures
        match tag::find_fn(reg, name) {
            Some(f) => exists|i: int|
                0 <= i < reg.len() && #[trigger] reg[i] == f && f.name == name && forall|j: int|
                    0 <= j < i ==> (#[trigger] reg[j]).name != name,
            None => forall|i: int| 0 <= i < reg.len() ==> (#[trigger] reg[i]).name != name,
        },
    decreases reg.len(),
{
    if reg.len() > 0 && reg[0].name != name {
        let rest = reg.skip(1);
        law_first_registration_counts(rest, name);
        assert(forall|i: int| 0 <= i < rest.len() ==> #[trigger] rest[i] == reg[i + 1]);
        match tag::find_fn(rest, name) {
            Some(f) => {
                let i = choose|i: int|
                    0 <= i < rest.len() && #[trigger] rest[i] == f && f.name == name && forall|j: int|
                        0 <= j < i ==> (#[trigger] rest[j]).name != name;
                assert(reg[i + 1] == f);
                assert forall|j: int| 0 <= j < i + 1 implies (#[trigger] reg[j]).name != name by {
                    if j > 0 {
                        assert(rest[j - 1].name != name);
                    }
                }
            },
            None => {
                assert forall|i: int| 0 <= i < reg.len() implies (#[trigger] reg[i]).name != name by {
                    if i > 0 {
                        assert(rest[i - 1].name != name);
                    }
                }
            },
        }
    }
}

/// The names that are kept out of the tags are those that are registered so.
pub proof fn law_excluded_names_are_registered_so(reg: Seq<TagFnModel>, name: Seq<char>)
    ensures
        tag::excluded_names(reg).contains(name) <==> exists|i: int|
            0 <= i < reg.len() && (#[trigger] reg[i]).name == name && !reg[i].in_tags,
    decreases reg.len(),
{
    if reg.len() > 0 {
        let rest = reg.drop_last();
        law_excluded_names_are_registered_so(rest, name);
        let before = tag::excluded_names(rest);
        let all = tag::excluded_names(reg);
        assert(reg[reg.len() - 1] == reg.last());
        assert(forall|i: int| 0 <= i < rest.len() ==> #[trigger] rest[i] == reg[i]);
        if !reg.last().in_tags {
            assert(all[all.len() - 1] == reg.last().name);
            if before.contains(name) {
                let i = choose|i: int| 0 <= i < before.len() && before[i] == name;
                assert(all[i] == name);
            }
            if all.contains(name) && name != reg.last().name {
                let i = choose|i: int| 0 <= i < all.len() && all[i] == name;
                assert(before[i] == name);
            }
        }
        if exists|i: int| 0 <= i < rest.len() && (#[trigger] rest[i]).name == name && !rest[i].in_tags {
            let i = choose|i: int|
                0 <= i < rest.len() && (#[trigger] rest[i]).name == name && !rest[i].in_tags;
            assert(reg[i].name == name);
        }
        if exists|i: int| 0 <= i < reg.len() && (#[trigger] reg[i]).name == name && !reg[i].in_tags {
            let i = choose|i: int|
                0 <= i < reg.len() && (#[trigger] reg[i]).name == name && !reg[i].in_tags;
            if i < rest.len() {
                assert(rest[i].name == name);
            }
        }
    }
}

/// A file is moved by setting its path or a part of it, and the types that do so set what their
/// parts set together. What a file is cannot be edited. Only a path, a rank, a name and an item
/// can be taken away.
pub proof fn law_standard_types(c: Col)
    requires
        tag::standard_columns().contains(c),
    ensures
        ({
            let e = tag::standard_edit(c);
            &&& e is None <==> c == Col::Size || c == Col::IsDir || c == Col::FileId || c
                == Col::Hash || c == Col::Type || c == Col::Label || c == Col::TypedTag
            &&& e is Some ==> {
                &&& e->0.strategy == EditStrategy::Relocate <==> c == Col::Path || c
                    == Col::Parentdir || c == Col::Filename || c == Col::Stem || c == Col::Extension
                &&& e->0.strategy == EditStrategy::Replace <==> c == Col::Rank || c == Col::Name
                &&& e->0.strategy == EditStrategy::SetFileAttr <==> c == Col::Mtime
                &&& e->0.strategy == EditStrategy::ModifyInjection <==> c == Col::ItemKind || c
                    == Col::Content
                &&& e->0.strategy == EditStrategy::RemoveOnly <==> c == Col::ItemId
                &&& e->0.can_untag <==> c == Col::Path || c == Col::Rank || c == Col::Name || c
                    == Col::ItemId
                &&& e->0.strategy != EditStrategy::Relocate ==> e->0.components.len() == 0
            }
            &&& tag::standard_fn(c).name == c.name_text()
            &&& tag::standard_fn(c).edit == e
            &&& tag::standard_fn(c).in_tags <==> c != Col::Mtime && c != Col::Size
            &&& tag::standard_fn(c).reading == Reading::Time <==> c == Col::Mtime
            &&& tag::standard_fn(c).reading == Reading::Size <==> c == Col::Size
            &&& tag::standard_fn(c).reading == Reading::Type <==> c == Col::Type
        }),
        tag::standard_edit(Col::Path)->0.components == tag::standard_edit(
            Col::Parentdir,
        )->0.components + tag::standard_edit(Col::Filename)->0.components,
        tag::standard_edit(Col::Filename)->0.components == tag::standard_edit(
            Col::Stem,
        )->0.components + tag::standard_edit(Col::Extension)->0.components,
{
    let cols = tag::standard_columns();
    let i = choose|i: int| 0 <= i < cols.len() && cols[i] == c;
    assert(cols[i] == c);
}

/// A number with a unit of kilobytes, megabytes or gigabytes is read as that many times 1024,
/// 1024 twice or 1024 three times, as long as it fits; a size that is a number stays.
pub proof fn law_sizes_are_read_by_their_unit(n: i64, c: char, k: nat)
    requires
        k == 1 && (c == 'k' || c == 'K') || k == 2 && (c == 'm' || c == 'M') || k == 3 && (c == 'g'
            || c == 'G'),
    ensures
        ({
            let bytes = n * (if k == 1 {
                1024int
            } else if k == 2 {
                1024int * 1024int
            } else {
                1024int * 1024int * 1024int
            });
            let v = BiticalModel::String(text::int_text(n as int).push(c));
            &&& i64::MIN <= bytes <= i64::MAX ==> tag::read_as(Reading::Size, v) == Some(
                BiticalModel::Integer(bytes as i64),
            )
            &&& !(i64::MIN <= bytes <= i64::MAX) ==> tag::read_as(Reading::Size, v) == Some(v)
        }),
        tag::read_as(Reading::Size, BiticalModel::Integer(n)) == Some(BiticalModel::Integer(n)),
{
    text::law_show_parse_i64(n);
    let s = text::int_text(n as int).push(c);
    assert(s.drop_last() =~= text::int_text(n as int));
}

/// The number of leap days in the years before a year.
pub open spec fn leap_days_before(y: int) -> int {
    (y - 1) / 4 - (y - 1) / 100 + (y - 1) / 400
}

/// The days of a year before a month.
pub open spec fn days_before_month(y: int, m: int) -> int
    decreases m,
{
    if m <= 1 {
        0
    } else {
        days_before_month(y, m - 1) + if m - 1 == 2 {
            if y % 4 == 0 && (y % 100 != 0 || y % 400 == 0) {
                29int
            } else {
                28
            }
        } else if m - 1 == 4 || m - 1 == 6 || m - 1 == 9 || m - 1 == 11 {
            30
        } else {
            31
        }
    }
}

/// The year of a day and the day in it: as many days as the years between have, those of their
/// leap years with them, and the rest, which is less than a year.
pub proof fn law_days_make_years(day: int, y: int)
    requires
        day >= 0,
        y >= 1,
    ensures
        ({
            let (z, d) = functions::year_and_day(day, y);
            &&& z >= y
            &&& day == 365 * (z - y) + leap_days_before(z) - leap_days_before(y) + d
            &&& 0 <= d < 365 + leap_days_before(z + 1) - leap_days_before(z)
        }),
    decreases day,
{
    assert(leap_days_before(y + 1) - leap_days_before(y) == if y % 4 == 0 && (y % 100 != 0 || y
        % 400 == 0) {
        1int
    } else {
        0
    });
    if day >= functions::year_days(y) {
        law_days_make_years(day - functions::year_days(y), y + 1);
    }
}

/// The month of a day and its day there: as many days as the months between have, and the rest,
/// which counts from one.
pub proof fn law_days_make_months(day: int, y: int, m: int)
    requires
        day >= 0,
        1 <= m <= 12,
        day < days_before_month(y, 13) - days_before_month(y, m),
    ensures
        ({
            let (k, d) = functions::month_and_day(day, y, m);
            &&& m <= k <= 12
            &&& day == days_before_month(y, k) - days_before_month(y, m) + d - 1
            &&& 1 <= d <= days_before_month(y, k + 1) - days_before_month(y, k)
        }),
    decreases 12 - m,
{
    if m < 12 && day >= functions::month_days(y, m) {
        law_days_make_months(day - functions::month_days(y, m), y, m + 1);
    }
}

} // verus!
