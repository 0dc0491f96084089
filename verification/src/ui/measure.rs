//! Places in lists, widths of texts and sizes of files.

use crate::text::{chars_of, decimal, decimal_text, one, push_decimal};
use vstd::prelude::*;
use vstd::string::*;

verus! {

broadcast use vstd::group_vstd_default;

/// The smallest terminal that the pages fit in.
pub const MIN_TERMINAL_WIDTH: u16 = 80;

pub const MIN_TERMINAL_HEIGHT: u16 = 20;

/// A key.
#[derive(Debug, Clone, Copy, PartialEq, Eq, Structural)]
pub enum KeyCode {
    Char(char),
    Enter,
    Esc,
    Up,
    Down,
    Left,
    Right,
    Tab,
    BackTab,
    Backspace,
    Other,
}

/// A key with what is held beside it.
#[derive(Debug, Clone, Copy, PartialEq, Eq, Structural)]
pub struct Key {
    pub code: KeyCode,
    pub control: bool,
    pub shift: bool,
}

/// The terminal is too small for the pages.
pub open spec fn too_small(width: u16, height: u16) -> bool {
    width < MIN_TERMINAL_WIDTH || height < MIN_TERMINAL_HEIGHT
}

pub fn terminal_too_small(width: u16, height: u16) -> (r: bool)
    ensures
        r == too_small(width, height),
{
    width < MIN_TERMINAL_WIDTH || height < MIN_TERMINAL_HEIGHT
}

/// Control and c.
pub open spec fn interrupts(key: Key) -> bool {
    key.code == KeyCode::Char('c') && key.control
}

/// A key that leaves the program.
pub open spec fn leaves(key: Key) -> bool {
    key.code == KeyCode::Char('q') || interrupts(key)
}

pub fn is_exit_key(key: Key) -> (r: bool)
    ensures
        r == leaves(key),
{
    key.code == KeyCode::Char('q') || (key.code == KeyCode::Char('c') && key.control)
}

/// In a terminal that is too small only the keys that leave count.
pub fn event_allowed(width: u16, height: u16, key: Key) -> (r: bool)
    ensures
        r == (!too_small(width, height) || leaves(key)),
{
    !terminal_too_small(width, height) || is_exit_key(key)
}

/// The key that selects everything.
pub open spec fn selects_all(key: Key) -> bool {
    key.code == KeyCode::Char('A') || (key.code == KeyCode::Char('a') && key.shift)
}

pub fn is_select_all_key(key: Key) -> (r: bool)
    ensures
        r == selects_all(key),
{
    key.code == KeyCode::Char('A') || (key.code == KeyCode::Char('a') && key.shift)
}

/// What is left after taking away, not below zero.
pub open spec fn less_by(n: int, m: int) -> int {
    if n >= m {
        n - m
    } else {
        0
    }
}

pub open spec fn smaller(n: int, m: int) -> int {
    if n <= m {
        n
    } else {
        m
    }
}

/// How many lines of results a terminal shows.
pub fn result_view_height(terminal_height: u16) -> (r: usize)
    ensures
        r == less_by(terminal_height as int, 12),
{
    if terminal_height >= 12 {
        (terminal_height - 12) as usize
    } else {
        0
    }
}

/// An index held inside a list.
pub open spec fn clamped(index: int, len: int) -> int {
    if len <= 0 {
        0
    } else {
        smaller(index, len - 1)
    }
}

pub fn clamp_index(index: usize, len: usize) -> (r: usize)
    ensures
        r == clamped(index as int, len as int),
{
    if len == 0 {
        0
    } else if index <= len - 1 {
        index
    } else {
        len - 1
    }
}

/// Where a window of so many lines begins that shows the line at an index.
pub open spec fn window_at(index: int, len: int, visible: int) -> int {
    if len == 0 || visible == 0 {
        0
    } else {
        smaller(less_by(clamped(index, len) + 1, visible), less_by(len, visible))
    }
}

pub fn window_start(index: usize, len: usize, visible: usize) -> (r: usize)
    ensures
        r == window_at(index as int, len as int, visible as int),
{
    if len == 0 || visible == 0 {
        return 0;
    }
    let index = clamp_index(index, len);
    let after: usize = index + 1;
    let wanted: usize = if after >= visible {
        after - visible
    } else {
        0
    };
    let last: usize = if len >= visible {
        len - visible
    } else {
        0
    };
    if wanted <= last {
        wanted
    } else {
        last
    }
}

/// A window shows the line at the index, and begins where it is filled as far as
/// there are lines.
pub proof fn law_window_shows_index(index: int, len: int, visible: int)
    requires
        0 <= index,
        0 < len,
        0 < visible,
    ensures
        0 <= window_at(index, len, visible) <= clamped(index, len) < window_at(
            index,
            len,
            visible,
        ) + visible,
        len >= visible ==> window_at(index, len, visible) + visible <= len,
{
}

/// The next place in a ring, forward or back.
pub open spec fn next_in_ring(current: int, len: int, forward: bool) -> int {
    if len <= 0 {
        0
    } else if forward {
        (current + 1) % len
    } else if current > 0 {
        current - 1
    } else {
        len - 1
    }
}

pub fn cycle_index(current: usize, len: usize, forward: bool) -> (r: usize)
    requires
        forward && len > 0 ==> current < usize::MAX,
    ensures
        r == next_in_ring(current as int, len as int, forward),
{
    if len == 0 {
        return 0;
    }
    if forward {
        (current + 1) % len
    } else if current > 0 {
        current - 1
    } else {
        len - 1
    }
}

/// A step back undoes a step forward, and a step forward a step back.
pub proof fn law_ring_steps_undo(current: int, len: int, forward: bool)
    requires
        0 <= current < len,
    ensures
        0 <= next_in_ring(current, len, forward) < len,
        next_in_ring(next_in_ring(current, len, forward), len, !forward) == current,
{
    if current + 1 < len {
        vstd::arithmetic::div_mod::lemma_small_mod((current + 1) as nat, len as nat);
    } else {
        vstd::arithmetic::div_mod::lemma_mod_self_0(len);
    }
    if !forward {
        vstd::arithmetic::div_mod::lemma_small_mod(current as nat, len as nat);
        if current == 0 {
            vstd::arithmetic::div_mod::lemma_mod_self_0(len);
        }
    }
}

/// How many columns a character takes.
pub open spec fn char_width(c: char) -> nat {
    let u = c as u32;
    if (0x1100 <= u <= 0x115f) || (0x2329 <= u <= 0x232a) || (0x2e80 <= u <= 0xa4cf) || (0xac00
        <= u <= 0xd7a3) || (0xf900 <= u <= 0xfaff) || (0xfe10 <= u <= 0xfe19) || (0xfe30 <= u
        <= 0xfe6f) || (0xff00 <= u <= 0xff60) || (0xffe0 <= u <= 0xffe6) || (0x1f300 <= u
        <= 0x1faff) || (0x20000 <= u <= 0x3fffd) {
        2
    } else if u <= 0x1f || (0x7f <= u <= 0x9f) {
        0
    } else {
        1
    }
}

pub fn display_char_width(c: char) -> (r: usize)
    ensures
        r == char_width(c),
{
    let u: u32 = c as u32;
    if (0x1100 <= u && u <= 0x115f) || (0x2329 <= u && u <= 0x232a) || (0x2e80 <= u && u <= 0xa4cf)
        || (0xac00 <= u && u <= 0xd7a3) || (0xf900 <= u && u <= 0xfaff) || (0xfe10 <= u && u
        <= 0xfe19) || (0xfe30 <= u && u <= 0xfe6f) || (0xff00 <= u && u <= 0xff60) || (0xffe0 <= u
        && u <= 0xffe6) || (0x1f300 <= u && u <= 0x1faff) || (0x20000 <= u && u <= 0x3fffd) {
        2
    } else if u <= 0x1f || (0x7f <= u && u <= 0x9f) {
        0
    } else {
        1
    }
}

/// How many columns a text takes.
pub open spec fn width_of(s: Seq<char>) -> nat
    decreases s.len(),
{
    if s.len() == 0 {
        0
    } else {
        width_of(s.drop_last()) + char_width(s.last())
    }
}

proof fn lemma_width_grows(s: Seq<char>, i: int, j: int)
    requires
        0 <= i <= j <= s.len(),
    ensures
        width_of(s.take(i)) <= width_of(s.take(j)),
    decreases j - i,
{
    if i < j {
        lemma_width_grows(s, i, j - 1);
        assert(s.take(j).drop_last() =~= s.take(j - 1));
    }
}

fn columns(v: &Vec<char>) -> (r: u128)
    ensures
        r == width_of(v@),
{
    let mut sum: u128 = 0;
    let mut i: usize = 0;
    assert(v@.take(0) =~= Seq::empty());
    while i < v.len()
        invariant
            i <= v@.len(),
            sum == width_of(v@.take(i as int)),
            sum <= 2 * i,
        decreases v.len() - i,
    {
        proof {
            assert(v@.take(i as int + 1).drop_last() =~= v@.take(i as int));
            assert(v@.take(i as int + 1).last() == v@[i as int]);
        }
        sum = sum + display_char_width(v[i]) as u128;
        i += 1;
    }
    assert(v@.take(i as int) =~= v@);
    sum
}

/// How many columns a text takes, as far as a machine can count.
pub fn display_width(value: &str) -> (r: usize)
    ensures
        r == smaller(width_of(value@) as int, usize::MAX as int),
{
    let sum: u128 = columns(&chars_of(value));
    if sum <= usize::MAX as u128 {
        sum as usize
    } else {
        usize::MAX
    }
}

/// How long the longest beginning of a text is that takes no more columns.
pub open spec fn fitting(s: Seq<char>, limit: int) -> int
    decreases s.len(),
{
    if s.len() == 0 || width_of(s) <= limit {
        s.len() as int
    } else {
        fitting(s.drop_last(), limit)
    }
}

/// A text cut to so many columns. A cut shows as an ellipsis.
pub open spec fn fitted(s: Seq<char>, max: int) -> Seq<char> {
    if width_of(s) <= max {
        s
    } else if max <= 0 {
        Seq::empty()
    } else {
        s.take(fitting(s, max - 1)) + one('…')
    }
}

proof fn lemma_fitting(s: Seq<char>, limit: int, k: int)
    requires
        0 <= k <= s.len(),
        limit >= 0,
        width_of(s.take(k)) <= limit,
        k < s.len() ==> width_of(s.take(k + 1)) > limit,
    ensures
        fitting(s, limit) == k,
    decreases s.len(),
{
    if k < s.len() {
        lemma_width_grows(s, k + 1, s.len() as int);
        assert(s.take(s.len() as int) =~= s);
        let head = s.drop_last();
        assert(head.take(k) =~= s.take(k));
        if k < head.len() {
            assert(head.take(k + 1) =~= s.take(k + 1));
        }
        lemma_fitting(head, limit, k);
    } else {
        assert(s.take(k) =~= s);
    }
}

proof fn lemma_fitting_bound(s: Seq<char>, limit: int)
    requires
        limit >= 0,
    ensures
        0 <= fitting(s, limit) <= s.len(),
        width_of(s.take(fitting(s, limit))) <= limit,
    decreases s.len(),
{
    if s.len() == 0 || width_of(s) <= limit {
        assert(s.take(s.len() as int) =~= s);
    } else {
        lemma_fitting_bound(s.drop_last(), limit);
        assert(s.drop_last().take(fitting(s, limit)) =~= s.take(fitting(s, limit)));
    }
}

/// Cuts a text to so many columns.
pub fn fit_to_width(value: &str, max_width: usize) -> (r: String)
    ensures
        r@ == fitted(value@, max_width as int),
{
    let v = chars_of(value);
    let total: u128 = columns(&v);
    if total <= max_width as u128 {
        return value.to_owned();
    }
    if max_width == 0 {
        let empty = String::new();
        assert(empty@ =~= Seq::empty());
        return empty;
    }
    let limit: usize = max_width - 1;
    let mut result = String::new();
    let mut width: usize = 0;
    let mut i: usize = 0;
    proof {
        assert(v@.take(0) =~= Seq::empty());
        assert(result@ =~= v@.take(0));
    }
    while i < v.len()
        invariant_except_break
            i <= v@.len(),
            limit < usize::MAX,
            v@ == value@,
            result@ == v@.take(i as int),
            width == width_of(v@.take(i as int)),
            width <= limit,
        ensures
            i <= v@.len(),
            v@ == value@,
            result@ == v@.take(i as int),
            width_of(v@.take(i as int)) <= limit,
            i < v@.len() ==> width_of(v@.take(i as int + 1)) > limit,
        decreases v.len() - i,
    {
        let w: usize = display_char_width(v[i]);
        proof {
            assert(v@.take(i as int + 1).drop_last() =~= v@.take(i as int));
            assert(v@.take(i as int + 1).last() == v@[i as int]);
        }
        if w > limit - width {
            break;
        }
        let ghost before = result@;
        result.push(v[i]);
        assert(result@ =~= v@.take(i as int + 1));
        width = width + w;
        i += 1;
    }
    proof {
        lemma_fitting(v@, limit as int, i as int);
    }
    let ghost before = result@;
    result.push('…');
    assert(result@ =~= before + one('…'));
    result
}

/// A cut text takes no more columns than it was given.
pub proof fn law_fitted_text_fits(s: Seq<char>, max: int)
    requires
        0 <= max,
    ensures
        width_of(fitted(s, max)) <= max,
{
    if width_of(s) > max && max > 0 {
        lemma_fitting_bound(s, max - 1);
        let kept = s.take(fitting(s, max - 1));
        let cut = kept + one('…');
        assert(cut.drop_last() =~= kept);
        assert(cut.last() == '…');
    }
}

/// The beginning of an id.
pub open spec fn id_start(value: Seq<char>) -> Seq<char> {
    fitted(value, 8)
}

pub fn short_id(value: &str) -> (r: String)
    ensures
        r@ == id_start(value@),
{
    fit_to_width(value, 8)
}

/// A quotient, rounded to the nearest whole number, and to the even one of two.
pub open spec fn half_even(n: int, d: int) -> int {
    let q = n / d;
    let r = n % d;
    if 2 * r < d || (2 * r == d && q % 2 == 0) {
        q
    } else {
        q + 1
    }
}

fn divide_half_even(n: u128, d: u128) -> (r: u128)
    requires
        0 < d <= 0x1_0000_0000_0000_0000,
        n < u128::MAX,
    ensures
        r == half_even(n as int, d as int),
{
    let q: u128 = n / d;
    let r: u128 = n % d;
    proof {
        vstd::arithmetic::div_mod::lemma_div_is_ordered_by_denominator(n as int, 1, d as int);
        vstd::arithmetic::div_mod::lemma_div_basics(n as int);
    }
    if 2 * r < d || (2 * r == d && q % 2 == 0) {
        q
    } else {
        q + 1
    }
}

/// The power of two that the last of a number's fifty-three leading binary
/// digits stands for.
pub open spec fn last_digit(v: int) -> int
    decreases v,
{
    if v < 0x20_0000_0000_0000 {
        1
    } else {
        2 * last_digit(v / 2)
    }
}

/// A number of bytes as a number of fifty-three binary digits.
pub open spec fn rounded_bytes(v: int) -> int {
    half_even(v, last_digit(v)) * last_digit(v)
}

/// The unit in which so many bytes are shown: the power of 1024 that they reach.
pub open spec fn unit_level(v: int) -> int {
    if v < 1024 {
        0
    } else if v < 1_048_576 {
        1
    } else if v < 1_073_741_824 {
        2
    } else if v < 1_099_511_627_776 {
        3
    } else {
        4
    }
}

pub open spec fn unit_bytes(level: int) -> int {
    if level <= 0 {
        1
    } else if level == 1 {
        1024
    } else if level == 2 {
        1_048_576
    } else if level == 3 {
        1_073_741_824
    } else {
        1_099_511_627_776
    }
}

pub open spec fn unit_name(level: int) -> Seq<char> {
    if level <= 0 {
        "B"@
    } else if level == 1 {
        "KiB"@
    } else if level == 2 {
        "MiB"@
    } else if level == 3 {
        "GiB"@
    } else {
        "TiB"@
    }
}

/// A number of bytes, shown in the unit that they reach, with one decimal.
pub open spec fn shown_bytes(value: int) -> Seq<char> {
    let v = rounded_bytes(value);
    let level = unit_level(v);
    if level == 0 {
        decimal(value) + " "@ + unit_name(0)
    } else {
        let tenths = half_even(v * 10, unit_bytes(level));
        decimal(tenths / 10) + "."@ + decimal(tenths % 10) + " "@ + unit_name(level)
    }
}

fn find_last_digit(v: u64) -> (r: u64)
    ensures
        r == last_digit(v as int),
        0 < r <= 2048,
{
    let mut scale: u64 = 1;
    let mut rest: u64 = v;
    let ghost mut steps: nat = 0;
    proof {
        lemma_pow2();
    }
    while rest >= 0x20_0000_0000_0000
        invariant
            last_digit(v as int) == scale * last_digit(rest as int),
            scale == pow2(steps),
            rest < pow2((64 - steps) as nat),
            steps <= 11,
        decreases rest,
    {
        proof {
            lemma_pow2();
            if steps == 11 {
                assert(rest < pow2(53));
            }
            assert(scale * (2 * last_digit(rest as int / 2)) == (scale * 2) * last_digit(
                rest as int / 2,
            )) by (nonlinear_arith);
            assert(pow2((64 - steps) as nat) == 2 * pow2((64 - steps - 1) as nat));
        }
        scale = scale * 2;
        rest = rest / 2;
        proof {
            steps = steps + 1;
        }
    }
    proof {
        lemma_pow2();
        assert(last_digit(rest as int) == 1);
        assert(scale * 1 == scale) by (nonlinear_arith);
    }
    scale
}

spec fn pow2(n: nat) -> int
    decreases n,
{
    if n == 0 {
        1
    } else {
        2 * pow2((n - 1) as nat)
    }
}

proof fn lemma_pow2()
    ensures
        pow2(0) == 1,
        pow2(1) == 2,
        pow2(2) == 4,
        pow2(3) == 8,
        pow2(4) == 16,
        pow2(5) == 32,
        pow2(6) == 64,
        pow2(7) == 128,
        pow2(8) == 256,
        pow2(9) == 512,
        pow2(10) == 1024,
        pow2(11) == 2048,
        pow2(53) == 0x20_0000_0000_0000,
        pow2(64) == 0x1_0000_0000_0000_0000,
{
    reveal_with_fuel(pow2, 65);
}

/// A number of bytes, shown in the unit that they reach.
pub fn human_bytes(value: u64) -> (r: String)
    ensures
        r@ == shown_bytes(value as int),
{
    let digit: u64 = find_last_digit(value);
    let q: u128 = divide_half_even(value as u128, digit as u128);
    proof {
        lemma_quotient(value as int, digit as int);
        assert(q * digit <= 0xffff_ffff_ffff_ffff + 2048) by (nonlinear_arith)
            requires
                q <= value as int / digit as int + 1,
                value as int / digit as int * digit <= value,
                digit <= 2048,
                value <= 0xffff_ffff_ffff_ffff,
                digit > 0,
        ;
    }
    let v: u128 = q * (digit as u128);
    let (unit, name): (u128, &str) = if v < 1024 {
        (1, "B")
    } else if v < 1_048_576 {
        (1024, "KiB")
    } else if v < 1_073_741_824 {
        (1_048_576, "MiB")
    } else if v < 1_099_511_627_776 {
        (1_073_741_824, "GiB")
    } else {
        (1_099_511_627_776, "TiB")
    };
    if unit == 1 {
        return decimal_text(value).concat(" ").concat(name);
    }
    let tenths: u128 = divide_half_even(v * 10, unit);
    let mut r = String::new();
    push_decimal(&mut r, tenths / 10);
    r.append(".");
    push_decimal(&mut r, tenths % 10);
    r.append(" ");
    r.append(name);
    assert(r@ =~= shown_bytes(value as int));
    r
}

proof fn lemma_quotient(v: int, d: int)
    requires
        v >= 0,
        d > 0,
    ensures
        half_even(v, d) <= v / d + 1,
        v / d * d <= v,
{
    vstd::arithmetic::div_mod::lemma_fundamental_div_mod(v, d);
    assert(v / d * d == d * (v / d)) by (nonlinear_arith);
    vstd::arithmetic::div_mod::lemma_mod_bound(v, d);
}

/// A size, or that it is not known.
pub open spec fn shown_storage(bytes: Option<u64>) -> Seq<char> {
    match bytes {
        Some(bytes) => shown_bytes(bytes as int),
        None => "?"@,
    }
}

pub fn format_storage(bytes: Option<u64>) -> (r: String)
    ensures
        r@ == shown_storage(bytes),
{
    match bytes {
        Some(bytes) => human_bytes(bytes),
        None => "?".to_owned(),
    }
}

/// How much a tree weighs.
#[derive(Debug, Clone, Copy, PartialEq, Eq, Structural)]
pub enum StorageLevel {
    Unknown,
    Small,
    Medium,
    Large,
}

/// How much so many bytes weigh: from one mebibyte on they are medium, from ten
/// on large.
pub open spec fn weight_of(bytes: Option<u64>) -> StorageLevel {
    match bytes {
        None => StorageLevel::Unknown,
        Some(bytes) => if bytes >= 10_485_760 {
            StorageLevel::Large
        } else if bytes >= 1_048_576 {
            StorageLevel::Medium
        } else {
            StorageLevel::Small
        },
    }
}

pub fn storage_level(bytes: Option<u64>) -> (r: StorageLevel)
    ensures
        r == weight_of(bytes),
{
    match bytes {
        None => StorageLevel::Unknown,
        Some(bytes) => if bytes >= 10_485_760 {
            StorageLevel::Large
        } else if bytes >= 1_048_576 {
            StorageLevel::Medium
        } else {
            StorageLevel::Small
        },
    }
}

} // verus!
