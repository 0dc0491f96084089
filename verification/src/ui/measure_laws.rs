//! How texts are cut, sizes rounded and progress counted, in terms of columns,
//! bytes and numbers.

use crate::text::decimal;
use crate::ui::measure::{
    char_width, clamped, fitted, fitting, half_even, id_start, rounded_bytes, shown_bytes,
    shown_storage, too_small, unit_bytes, unit_level, unit_name, weight_of, width_of, StorageLevel,
};
use crate::ui::overview::{
    percent_of, progressed, ExecutionEvent, ExecutionPhase, ExecutionProgress,
};
use vstd::prelude::*;

verus! {

broadcast use vstd::group_vstd_default;

/// A text takes as many columns as its characters together.
pub proof fn law_columns_add_up(a: Seq<char>, b: Seq<char>, c: char)
    ensures
        width_of(a + b) == width_of(a) + width_of(b),
        width_of(seq![c]) == char_width(c),
        width_of(Seq::<char>::empty()) == 0,
    decreases b.len(),
{
    reveal_with_fuel(width_of, 2);
    assert(seq![c].drop_last() =~= Seq::empty());
    if b.len() == 0 {
        assert(a + b =~= a);
    } else {
        law_columns_add_up(a, b.drop_last(), c);
        assert((a + b).drop_last() =~= a + b.drop_last());
        assert((a + b).last() == b.last());
    }
}

/// A printable character of ASCII takes one column and a control character
/// none; a character of the unified ideographs, of the Hangul syllables or of
/// the two kana takes two.
pub proof fn law_wide_characters_take_two_columns(c: char)
    ensures
        0x20 <= c as u32 <= 0x7e ==> char_width(c) == 1,
        c as u32 <= 0x1f || c as u32 == 0x7f ==> char_width(c) == 0,
        0x4e00 <= c as u32 <= 0x9fff || 0xac00 <= c as u32 <= 0xd7a3 || 0x3040 <= c as u32 <= 0x30ff
            ==> char_width(c) == 2,
        char_width(c) <= 2,
{
}

proof fn lemma_longest(s: Seq<char>, limit: int)
    ensures
        0 <= fitting(s, limit) <= s.len(),
        limit >= 0 ==> width_of(s.take(fitting(s, limit))) <= limit,
        fitting(s, limit) < s.len() ==> width_of(s.take(fitting(s, limit) + 1)) > limit,
    decreases s.len(),
{
    if s.len() == 0 || width_of(s) <= limit {
        assert(s.take(s.len() as int) =~= s);
    } else {
        let head = s.drop_last();
        lemma_longest(head, limit);
        let n = fitting(head, limit);
        assert(s.take(n) =~= head.take(n));
        if n < head.len() {
            assert(s.take(n + 1) =~= head.take(n + 1));
        } else {
            assert(s.take(n + 1) =~= s);
        }
    }
}

/// A text that fits is shown as it is. One that does not is cut: it keeps as
/// much of its beginning as leaves a column for the mark, and not a character
/// less.
pub proof fn law_a_cut_text_keeps_its_beginning(s: Seq<char>, max: int)
    ensures
        width_of(s) <= max ==> fitted(s, max) == s,
        width_of(s) > max && max <= 0 ==> fitted(s, max).len() == 0,
        width_of(s) > max && max > 0 ==> {
            let n = fitted(s, max).len() - 1;
            &&& 0 <= n < s.len()
            &&& fitted(s, max) == s.take(n).push('…')
            &&& width_of(s.take(n)) <= max - 1
            &&& width_of(s.take(n + 1)) > max - 1
        },
{
    if width_of(s) > max && max > 0 {
        lemma_longest(s, max - 1);
        let n = fitting(s, max - 1);
        assert(fitted(s, max) =~= s.take(n).push('…'));
        if n == s.len() {
            assert(s.take(n) =~= s);
        }
    }
}

/// An id is shown by its first eight columns.
pub proof fn law_an_id_is_shown_by_its_start(value: Seq<char>)
    ensures
        width_of(value) <= 8 ==> id_start(value) == value,
        id_start(value).len() > 0 && id_start(value) != value ==> {
            let n = id_start(value).len() - 1;
            id_start(value) == value.take(n).push('…') && width_of(value.take(n)) <= 7
        },
{
    law_a_cut_text_keeps_its_beginning(value, 8);
}

/// A quotient is rounded to the nearest whole number, and from the middle to
/// the even one.
pub proof fn law_rounding_is_to_the_nearest(n: int, d: int)
    requires
        n >= 0,
        d > 0,
    ensures
        2 * n - d <= 2 * (half_even(n, d) * d) <= 2 * n + d,
        2 * (half_even(n, d) * d) == 2 * n - d || 2 * (half_even(n, d) * d) == 2 * n + d
            ==> half_even(n, d) % 2 == 0,
        half_even(n, d) >= 0,
{
    let (q, r) = (n / d, n % d);
    assert(n == q * d + r && 0 <= r < d && q >= 0) by (nonlinear_arith)
        requires
            n >= 0,
            d > 0,
            q == n / d,
            r == n % d,
    ;
    assert((q + 1) * d == q * d + d) by (nonlinear_arith);
}

proof fn lemma_small_sizes_stay(v: int)
    requires
        0 <= v < 0x20_0000_0000_0000,
    ensures
        rounded_bytes(v) == v,
{
    assert(v / 1 == v && v % 1 == 0);
}

/// A size below a kibibyte is shown in bytes, exactly. One above is shown in
/// the largest unit of which it has at least one, with one decimal, rounded to
/// the nearest tenth of that unit. (Sizes from two to the power of fifty-three
/// on are first rounded to what a double can hold and are left out.)
pub proof fn law_sizes_are_shown_to_the_nearest_tenth(value: int)
    requires
        0 <= value < 0x20_0000_0000_0000,
    ensures
        value < 1024 ==> shown_bytes(value) == decimal(value) + " B"@,
        value >= 1024 ==> exists|tenths: int, unit: int, name: Seq<char>|
            {
                &&& #[trigger] is_unit(unit, name)
                &&& unit <= value
                &&& value < 1024 * unit || name == "TiB"@
                &&& #[trigger] shown_as(tenths, name) == shown_bytes(value)
                &&& 20 * value - unit <= 2 * (tenths * unit) <= 20 * value + unit
            },
{
    lemma_small_sizes_stay(value);
    let level = unit_level(value);
    let unit = unit_bytes(level);
    if value < 1024 {
        reveal_strlit(" B");
        reveal_strlit(" ");
        reveal_strlit("B");
        assert(shown_bytes(value) =~= decimal(value) + " B"@);
    } else {
        let tenths = half_even(value * 10, unit);
        let name = unit_name(level);
        law_rounding_is_to_the_nearest(value * 10, unit);
        assert(is_unit(unit, name));
        assert(shown_as(tenths, name) == shown_bytes(value));
    }
}

/// The units of sizes.
pub open spec fn is_unit(unit: int, name: Seq<char>) -> bool {
    ||| unit == 1024 && name == "KiB"@
    ||| unit == 1024 * 1024 && name == "MiB"@
    ||| unit == 1024 * 1024 * 1024 && name == "GiB"@
    ||| unit == 1024 * 1024 * 1024 * 1024 && name == "TiB"@
}

/// A number of tenths with its unit.
pub open spec fn shown_as(tenths: int, name: Seq<char>) -> Seq<char> {
    decimal(tenths / 10) + "."@ + decimal(tenths % 10) + " "@ + name
}

/// A size that is not known is shown as such and has no weight; a known one is
/// small below a mebibyte and large from ten of them on.
pub proof fn law_unknown_sizes_are_not_guessed(bytes: Option<u64>)
    ensures
        bytes is None <==> weight_of(bytes) == StorageLevel::Unknown,
        bytes is None ==> shown_storage(bytes) == "?"@,
        bytes matches Some(n) ==> {
            &&& weight_of(bytes) == StorageLevel::Small <==> n < 1024 * 1024
            &&& weight_of(bytes) == StorageLevel::Large <==> n >= 10 * 1024 * 1024
            &&& shown_storage(bytes) == shown_bytes(n as int)
        },
{
}

/// The place in a list stays in the list, and is left alone where it is in it.
pub proof fn law_a_place_stays_in_the_list(index: int, len: int)
    requires
        index >= 0,
    ensures
        index < len ==> clamped(index, len) == index,
        len > 0 && index >= len ==> clamped(index, len) == len - 1,
        len <= 0 ==> clamped(index, len) == 0,
{
}

/// A share is shown in whole hundredths, rounded down: nothing is none, all is
/// a hundred, and more than all counts as all. (The numbers are those that can
/// be multiplied by a hundred.)
pub proof fn law_shares_are_in_hundredths(progress: ExecutionProgress)
    requires
        progress.total > 0,
        progress.total * 100 <= usize::MAX,
    ensures
        ({
            let (done, total) = (
                if progress.completed <= progress.total {
                    progress.completed as int
                } else {
                    progress.total as int
                },
                progress.total as int,
            );
            let percent = percent_of(progress);
            &&& percent * total <= 100 * done < (percent + 1) * total
            &&& 0 <= percent <= 100
            &&& done == total ==> percent == 100
        }),
{
    let total = progress.total as int;
    let done = if progress.completed <= progress.total {
        progress.completed as int
    } else {
        total
    };
    let percent = percent_of(progress);
    assert(percent == (done * 100) / total);
    assert(percent * total <= 100 * done < (percent + 1) * total && 0 <= percent <= 100 && (done
        == total ==> percent == 100)) by (nonlinear_arith)
        requires
            percent == (done * 100) / total,
            total > 0,
            0 <= done <= total,
    ;
}

/// Each change that is done counts once, up to the number that was planned,
/// and nothing else counts; the number that was planned stays.
pub proof fn law_each_change_counts_once(progress: ExecutionProgress, event: ExecutionEvent)
    ensures
        progressed(progress, event).total == progress.total,
        event != ExecutionEvent::Changed ==> progressed(progress, event).completed
            == progress.completed,
        event == ExecutionEvent::Changed && progress.completed < progress.total ==> progressed(
            progress,
            event,
        ).completed == progress.completed + 1,
        event == ExecutionEvent::Changed && progress.completed >= progress.total ==> progressed(
            progress,
            event,
        ).completed == progress.completed,
        event == ExecutionEvent::Changing ==> progressed(progress, event).phase
            == ExecutionPhase::Applying,
        event == ExecutionEvent::Scanning && progress.phase != ExecutionPhase::Validating
            ==> progressed(progress, event).phase == ExecutionPhase::Verifying,
        event == ExecutionEvent::Scanning && progress.phase == ExecutionPhase::Validating
            ==> progressed(progress, event).phase == ExecutionPhase::Validating,
{
}

/// The pages are shown on a terminal of eighty columns and twenty lines and on
/// every larger one, and on no smaller one.
pub proof fn law_a_large_enough_terminal(width: u16, height: u16)
    ensures
        too_small(width, height) <==> !(width >= 80 && height >= 20),
{
}

} // verus!
