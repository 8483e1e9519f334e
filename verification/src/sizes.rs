//! Sizes and durations as they are written on the command line, and how much
//! space is worth reclaiming.
use vstd::prelude::*;
use vstd::slice::slice_subrange;

use crate::text::{chars_of, string_of, trim};
use crate::text;

verus! {

pub const KIB: u64 = 1024;

pub const MIB: u64 = 1048576;

pub const GIB: u64 = 1073741824;

pub const TIB: u64 = 1099511627776;

/// The text that `str::to_uppercase` makes.
pub uninterp spec fn uppercased(s: Seq<char>) -> Seq<char>;

/// An ASCII small letter as its capital, anything else as it is.
pub open spec fn upper(c: char) -> char {
    if 'a' as u32 <= c as u32 <= 'z' as u32 {
        (c as u32 - 32) as char
    } else {
        c
    }
}

/// A text with each of its ASCII small letters as its capital.
pub open spec fn capitals(s: Seq<char>) -> Seq<char> {
    Seq::new(s.len(), |i: int| upper(s[i]))
}

/// `str::to_uppercase`: the text in capitals. Of ASCII text each letter is
/// replaced by its capital; of other text only the name is known.
pub assume_specification[ str::to_uppercase ](s: &str) -> (r: String)
    ensures
        r@ == uppercased(s@),
        vstd::utf8::is_ascii_chars(s@) ==> r@ == capitals(s@),
;

/// A number as it was written, and what it is to be multiplied by.
#[derive(Debug, PartialEq, Eq)]
pub struct Scaled {
    pub number: String,
    pub factor: u64,
}

/// The factor of a size's last character.
pub open spec fn size_factor(c: char) -> Option<u64> {
    if c == 'K' {
        Some(KIB)
    } else if c == 'M' {
        Some(MIB)
    } else if c == 'G' {
        Some(GIB)
    } else if c == 'T' {
        Some(TIB)
    } else {
        None
    }
}

/// The factor of a duration's last character, in seconds.
pub open spec fn duration_factor(c: char) -> Option<u64> {
    if c == 's' {
        Some(1)
    } else if c == 'm' {
        Some(60)
    } else if c == 'h' {
        Some(3600)
    } else if c == 'd' {
        Some(86400)
    } else {
        None
    }
}

/// Whether a text was split into its number and its factor.
pub open spec fn scaled_as(r: Scaled, s: Seq<char>, factor: Option<u64>) -> bool {
    match factor {
        Some(f) => r.number@ == s.drop_last() && r.factor == f,
        None => r.number@ == s && r.factor == 1,
    }
}

/// The factor of the last character, where there is one.
pub open spec fn size_factor_of(s: Seq<char>) -> Option<u64> {
    if s.len() > 0 {
        size_factor(s.last())
    } else {
        None
    }
}

pub open spec fn duration_factor_of(s: Seq<char>) -> Option<u64> {
    if s.len() > 0 {
        duration_factor(s.last())
    } else {
        None
    }
}

/// Splits a size in capitals.
pub fn split_size(s: &str) -> (r: Scaled)
    ensures
        scaled_as(r, s@, size_factor_of(s@)),
{
    let chars = chars_of(s);
    let n: usize = chars.len();
    let factor: u64 = if n == 0 {
        0
    } else {
        match chars[n - 1] {
            'K' => KIB,
            'M' => MIB,
            'G' => GIB,
            'T' => TIB,
            _ => 0,
        }
    };
    if factor == 0 {
        Scaled { number: s.to_owned(), factor: 1 }
    } else {
        let number = string_of(slice_subrange(chars.as_slice(), 0, n - 1));
        assert(number@ =~= s@.drop_last());
        Scaled { number, factor }
    }
}

/// Whether a size was read so.
pub open spec fn reads_size(r: Scaled, s: Seq<char>) -> bool {
    let t = text::trimmed(s);
    &&& scaled_as(r, uppercased(t), size_factor_of(uppercased(t)))
    &&& vstd::utf8::is_ascii_chars(t) ==> scaled_as(r, capitals(t), size_factor_of(capitals(t)))
}

/// Whether a duration was read so.
pub open spec fn reads_duration(r: Scaled, s: Seq<char>) -> bool {
    scaled_as(r, text::trimmed(s), duration_factor_of(text::trimmed(s)))
}

/// Splits a size such as `10G`: white space around it and the case of the
/// letters do not matter.
pub fn parse_size(s: &str) -> (r: Scaled)
    ensures
        scaled_as(
            r,
            uppercased(text::trimmed(s@)),
            size_factor_of(uppercased(text::trimmed(s@))),
        ),
        vstd::utf8::is_ascii_chars(text::trimmed(s@)) ==> scaled_as(
            r,
            capitals(text::trimmed(s@)),
            size_factor_of(capitals(text::trimmed(s@))),
        ),
        reads_size(r, s@),
{
    let chars = chars_of(s);
    let trimmed = string_of(trim(chars.as_slice()));
    let capitals = trimmed.as_str().to_uppercase();
    split_size(capitals.as_str())
}

/// Splits a duration such as `30m`; without a letter it is in seconds.
pub fn parse_duration(s: &str) -> (r: Scaled)
    ensures
        scaled_as(r, text::trimmed(s@), duration_factor_of(text::trimmed(s@))),
        reads_duration(r, s@),
{
    let chars = chars_of(s);
    let t = trim(chars.as_slice());
    let n: usize = t.len();
    let factor: u64 = if n == 0 {
        0
    } else {
        match t[n - 1] {
            's' => 1,
            'm' => 60,
            'h' => 3600,
            'd' => 86400,
            _ => 0,
        }
    };
    if factor == 0 {
        Scaled { number: string_of(t), factor: 1 }
    } else {
        let number = string_of(slice_subrange(t, 0, n - 1));
        assert(number@ =~= t@.drop_last());
        Scaled { number, factor }
    }
}

/// How a number of bytes is shown: as it is, or in a larger unit with one
/// decimal place.
#[derive(Clone, Copy, Debug, PartialEq, Eq)]
pub enum HumanSize {
    Bytes(u64),
    /// The bytes divided by `divisor`.
    Unit { bytes: u64, divisor: u64, unit: &'static str },
}

/// The largest unit of which there is at least one.
pub open spec fn human_size_of(bytes: u64) -> HumanSize {
    if bytes < KIB {
        HumanSize::Bytes(bytes)
    } else if bytes < MIB {
        HumanSize::Unit { bytes, divisor: KIB, unit: "KiB" }
    } else if bytes < GIB {
        HumanSize::Unit { bytes, divisor: MIB, unit: "MiB" }
    } else if bytes < TIB {
        HumanSize::Unit { bytes, divisor: GIB, unit: "GiB" }
    } else {
        HumanSize::Unit { bytes, divisor: TIB, unit: "TiB" }
    }
}

pub fn human_size(bytes: u64) -> (r: HumanSize)
    ensures
        r == human_size_of(bytes),
{
    if bytes < KIB {
        HumanSize::Bytes(bytes)
    } else if bytes < MIB {
        HumanSize::Unit { bytes, divisor: KIB, unit: "KiB" }
    } else if bytes < GIB {
        HumanSize::Unit { bytes, divisor: MIB, unit: "MiB" }
    } else if bytes < TIB {
        HumanSize::Unit { bytes, divisor: GIB, unit: "GiB" }
    } else {
        HumanSize::Unit { bytes, divisor: TIB, unit: "TiB" }
    }
}

/// Less than this is never worth reclaiming.
pub const MIN_RECLAIM_BYTES: u64 = 67108864;

/// What compacting would give back of a file of `on_disk` bytes whose content
/// takes up `used`.
pub open spec fn reclaimable_of(on_disk: u64, used: u64) -> u64 {
    if on_disk > used {
        (on_disk - used) as u64
    } else {
        0
    }
}

pub fn reclaimable(on_disk: u64, used: u64) -> (gap: u64)
    ensures
        gap == reclaimable_of(on_disk, used),
{
    on_disk.saturating_sub(used)
}

/// Whether compacting is worth it: 64 MiB at least, and a tenth of the file.
pub open spec fn worthwhile(on_disk: u64, used: u64) -> bool {
    let gap = reclaimable_of(on_disk, used);
    gap >= MIN_RECLAIM_BYTES && gap * 10 >= on_disk
}

pub fn worth_compacting(on_disk: u64, used: u64) -> (r: bool)
    ensures
        r == worthwhile(on_disk, used),
{
    let gap: u64 = reclaimable(on_disk, used);
    gap >= MIN_RECLAIM_BYTES && gap as u128 * 10 >= on_disk as u128
}

/// A limit in milliseconds, kept between a second and half a minute.
pub open spec fn interval_for(limit: u64) -> u64 {
    if limit < 1000 {
        1000
    } else if limit > 30000 {
        30000
    } else {
        limit
    }
}

/// How often, in milliseconds, to look whether a limit of so many has passed:
/// every second at most, every half minute at least.
pub fn poll_interval(limit: u64) -> (r: u64)
    ensures
        r == (if limit < 1000 {
            1000
        } else if limit > 30000 {
            30000
        } else {
            limit as int
        }),
        r == interval_for(limit),
{
    if limit < 1000 {
        1000
    } else if limit > 30000 {
        30000
    } else {
        limit
    }
}

/// A small letter means what the capital means: of ASCII text, the factor is
/// that of the last letter in capitals, and what stands before it is the
/// number, in capitals too.
pub proof fn case_does_not_matter(s: Seq<char>, r: Scaled, capitals: Seq<char>)
    requires
        s.len() > 0,
        capitals == Seq::new(s.len(), |i: int| upper(s[i])),
        scaled_as(r, capitals, size_factor_of(capitals)),
    ensures
        s.last() == 'k' || s.last() == 'K' ==> r.factor == KIB,
        s.last() == 'm' || s.last() == 'M' ==> r.factor == MIB,
        s.last() == 'g' || s.last() == 'G' ==> r.factor == GIB,
        s.last() == 't' || s.last() == 'T' ==> r.factor == TIB,
        size_factor_of(capitals) is Some ==> r.number@ == Seq::new(
            (s.len() - 1) as nat,
            |i: int| upper(s[i]),
        ),
{
    assert(capitals.last() == upper(s.last()));
    assert(capitals.drop_last() =~= Seq::new((s.len() - 1) as nat, |i: int| upper(s[i])));
}

/// A size in capitals is a number with a letter behind it, which stands for a
/// power of 1024, or a number alone, which stands for itself.
pub proof fn sizes_have_units(s: Seq<char>, r: Scaled)
    requires
        scaled_as(r, s, size_factor_of(s)),
    ensures
        s.len() > 0 && s.last() == 'K' ==> r.factor == 1024 && r.number@.push('K') == s,
        s.len() > 0 && s.last() == 'M' ==> r.factor == 1024 * 1024 && r.number@.push('M') == s,
        s.len() > 0 && s.last() == 'G' ==> r.factor == 1024 * 1024 * 1024 && r.number@.push('G')
            == s,
        s.len() > 0 && s.last() == 'T' ==> r.factor == 1024 * 1024 * 1024 * 1024
            && r.number@.push('T') == s,
        s.len() == 0 || (s.last() != 'K' && s.last() != 'M' && s.last() != 'G' && s.last() != 'T')
            ==> r.factor == 1 && r.number@ == s,
{
    if s.len() > 0 {
        assert(s.drop_last().push(s.last()) =~= s);
    }
}

/// A number of bytes is shown as it is below 1024; above, in the unit of which
/// there is at least one and, but for the largest, less than 1024.
pub proof fn shown_in_fitting_unit(bytes: u64)
    ensures
        bytes < 1024 ==> human_size_of(bytes) == HumanSize::Bytes(bytes),
        bytes >= 1024 ==> {
            &&& human_size_of(bytes) matches HumanSize::Unit { bytes: all, divisor, unit }
            &&& all == bytes
            &&& divisor <= bytes
            &&& bytes < 1024 * divisor || divisor == 1024 * 1024 * 1024 * 1024
            &&& unit == "KiB" && divisor == 1024 || unit == "MiB" && divisor == 1024 * 1024 || unit
                == "GiB" && divisor == 1024 * 1024 * 1024 || unit == "TiB" && divisor == 1024 * 1024
                * 1024 * 1024
        },
{
}

/// Compacting is worth it where it gives back 64 MiB at least and a tenth of
/// the file: what is used is then at most nine tenths of it.
pub proof fn worth_a_tenth(on_disk: u64, used: u64)
    ensures
        worthwhile(on_disk, used) <==> on_disk >= used + 64 * 1024 * 1024 && 9 * on_disk >= 10
            * used,
        on_disk >= used ==> reclaimable_of(on_disk, used) == on_disk - used,
        on_disk <= used ==> reclaimable_of(on_disk, used) == 0,
{
}

/// The interval is the limit itself, kept between a second and half a minute.
pub proof fn polled_in_time(limit: u64)
    ensures
        1000 <= interval_for(limit) <= 30000,
        1000 <= limit <= 30000 ==> interval_for(limit) == limit,
        limit < 1000 ==> interval_for(limit) == 1000,
        limit > 30000 ==> interval_for(limit) == 30000,
{
}

/// A size is read with or without white space around it, and with its letter in
/// either case: what stands before the letter is the number, as it is written
/// where no small letter is in it.
pub proof fn sizes_are_read(s: Seq<char>, bare: Seq<char>, r: Scaled)
    requires
        reads_size(r, s),
        text::trimmed(s) == bare,
        bare.len() > 0,
        vstd::utf8::is_ascii_chars(bare),
        forall|i: int|
            0 <= i < bare.len() - 1 ==> !('a' as u32 <= (#[trigger] bare[i]) as u32 <= 'z' as u32),
    ensures
        bare.last() == 'k' || bare.last() == 'K' ==> r.factor == 1024 && r.number@
            == bare.drop_last(),
        bare.last() == 'm' || bare.last() == 'M' ==> r.factor == 1024 * 1024 && r.number@
            == bare.drop_last(),
        bare.last() == 'g' || bare.last() == 'G' ==> r.factor == 1024 * 1024 * 1024 && r.number@
            == bare.drop_last(),
        bare.last() == 't' || bare.last() == 'T' ==> r.factor == 1024 * 1024 * 1024 * 1024
            && r.number@ == bare.drop_last(),
        '0' as u32 <= bare.last() as u32 <= '9' as u32 ==> r.factor == 1 && r.number@ == bare,
{
    let up = capitals(bare);
    assert(up.last() == upper(bare.last()));
    assert(up.drop_last() =~= bare.drop_last()) by {
        assert forall|i: int| 0 <= i < bare.len() - 1 implies #[trigger] up[i] == bare[i] by {
            assert(up[i] == upper(bare[i]));
        }
    }
    if '0' as u32 <= bare.last() as u32 <= '9' as u32 {
        assert(up =~= bare) by {
            assert forall|i: int| 0 <= i < bare.len() implies #[trigger] up[i] == bare[i] by {
                if i == bare.len() - 1 {
                    assert(up[i] == upper(bare.last()));
                } else {
                    assert(up[i] == upper(bare[i]));
                }
            }
        }
    }
}

/// So is a duration in seconds, minutes, hours or days, but the case of its letter
/// matters. Without a letter it is in seconds.
pub proof fn durations_are_read(s: Seq<char>, bare: Seq<char>, r: Scaled)
    requires
        reads_duration(r, s),
        text::trimmed(s) == bare,
        bare.len() > 0,
    ensures
        bare.last() == 's' ==> r.factor == 1 && r.number@ == bare.drop_last(),
        bare.last() == 'm' ==> r.factor == 60 && r.number@ == bare.drop_last(),
        bare.last() == 'h' ==> r.factor == 60 * 60 && r.number@ == bare.drop_last(),
        bare.last() == 'd' ==> r.factor == 24 * 60 * 60 && r.number@ == bare.drop_last(),
        bare.last() != 's' && bare.last() != 'm' && bare.last() != 'h' && bare.last() != 'd'
            ==> r.factor == 1 && r.number@ == bare,
{
}

} // verus!
