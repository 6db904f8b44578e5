//! T-Code v0.3: positions of axes as a command line, and which lines are sent.
use crate::axis::{axis_at, rank, tcode_name, AxisChannel};
use crate::text::{
    append_decimal, append_padded, decimal, digit_value, is_white, lemma_decimal_nonempty,
    lemma_decimal_reads_back, lemma_padded_reads_back, numeral_value, same_text, trimmed_end,
    zero_padded,
};
use vstd::prelude::*;
use vstd::string::*;

verus! {

/// `value` brought into four digits.
pub open spec fn four_digits(value: u32) -> nat {
    if value > 9999 {
        9999
    } else {
        value as nat
    }
}

/// `line` with another part behind a blank.
pub open spec fn with_part(line: Seq<char>, part: Seq<char>) -> Seq<char> {
    if line.len() == 0 {
        part
    } else {
        line + " "@ + part
    }
}

/// The part of a line that positions one axis.
pub open spec fn axis_part(axis: AxisChannel, value: u32) -> Seq<char> {
    tcode_name(axis) + zero_padded(decimal(four_digits(value)), 4)
}

/// The axis at a place of the canonical order of a line: L0, L1, L2, R0, R1, R2, V0.
pub open spec fn line_axis(i: int) -> AxisChannel {
    if i == 3 {
        AxisChannel::Roll
    } else if i == 4 {
        AxisChannel::Pitch
    } else {
        axis_at(i)
    }
}

/// The parts of the first `n` axes of a line that have a value. The values are given
/// in the order of [`AxisChannel::ALL`].
pub open spec fn axis_parts(values: Seq<Option<u32>>, n: nat) -> Seq<char>
    decreases n,
{
    if n == 0 {
        Seq::empty()
    } else {
        let line = axis_parts(values, (n - 1) as nat);
        let axis = line_axis(n - 1);
        match values[rank(axis)] {
            Some(value) => with_part(line, axis_part(axis, value)),
            None => line,
        }
    }
}

/// The whole line: the axes in the canonical order, the interval if there is
/// one, and a line feed.
pub open spec fn tcode_line(values: Seq<Option<u32>>, interval_ms: Option<u32>) -> Seq<char> {
    let axes = axis_parts(values, 7);
    let timed = match interval_ms {
        Some(ms) => with_part(axes, "I"@ + decimal(ms as nat)),
        None => axes,
    };
    timed + "\n"@
}

/// `s` holds no line feed and does not end in white space.
spec fn within_line(s: Seq<char>) -> bool {
    &&& forall|i: int| 0 <= i < s.len() ==> #[trigger] s[i] != '\n'
    &&& s.len() > 0 ==> !is_white(s.last())
}

proof fn lemma_numeral_within_line(n: nat)
    ensures
        decimal(n).len() > 0,
        within_line(decimal(n)),
    decreases n,
{
    if n >= 10 {
        lemma_numeral_within_line(n / 10);
    }
}

proof fn lemma_numeral_width(n: nat)
    requires
        n <= 9999,
    ensures
        decimal(n).len() <= 4,
{
    reveal_with_fuel(decimal, 5);
}

/// Every axis is positioned by its two-character name and four digits.
pub proof fn lemma_axis_part_width(axis: AxisChannel, value: u32)
    ensures
        axis_part(axis, value).len() == 6,
        axis_part(axis, value).take(2) == tcode_name(axis),
{
    lemma_numeral_width(four_digits(value));
    lemma_axis_name(axis);
    assert(axis_part(axis, value).take(2) =~= tcode_name(axis));
}

proof fn lemma_axis_name(axis: AxisChannel)
    ensures
        tcode_name(axis).len() == 2,
        within_line(tcode_name(axis)),
{
    reveal_strlit("L0");
    reveal_strlit("L1");
    reveal_strlit("L2");
    reveal_strlit("R0");
    reveal_strlit("R1");
    reveal_strlit("R2");
    reveal_strlit("V0");
}

proof fn lemma_parts_within_line(values: Seq<Option<u32>>, n: nat)
    ensures
        within_line(axis_parts(values, n)),
    decreases n,
{
    if n > 0 {
        lemma_parts_within_line(values, (n - 1) as nat);
        let axis = line_axis(n - 1);
        if let Some(value) = values[rank(axis)] {
            let number = decimal(four_digits(value));
            lemma_numeral_within_line(four_digits(value));
            lemma_axis_name(axis);
            assert(within_line(zero_padded(number, 4)));
            lemma_joined_within_line(tcode_name(axis), zero_padded(number, 4));
            lemma_part_within_line(axis_parts(values, (n - 1) as nat), axis_part(axis, value));
        }
    }
}

proof fn lemma_joined_within_line(a: Seq<char>, b: Seq<char>)
    requires
        forall|i: int| 0 <= i < a.len() ==> #[trigger] a[i] != '\n',
        within_line(b),
        b.len() > 0,
    ensures
        within_line(a + b),
        (a + b).len() > 0,
{
    assert((a + b).last() == b.last());
}

proof fn lemma_part_within_line(line: Seq<char>, part: Seq<char>)
    requires
        within_line(line),
        within_line(part),
        part.len() > 0,
    ensures
        within_line(with_part(line, part)),
{
    if line.len() > 0 {
        reveal_strlit(" ");
        lemma_joined_within_line(line + " "@, part);
    }
}

/// A command is one line: it ends in its only line feed. A serial link, which puts
/// one line feed in place of the white space at a command's end, sends it as it is.
pub proof fn lemma_one_line(values: Seq<Option<u32>>, interval_ms: Option<u32>)
    ensures
        ({
            let line = tcode_line(values, interval_ms);
            &&& line.last() == '\n'
            &&& forall|i: int| 0 <= i < line.len() - 1 ==> #[trigger] line[i] != '\n'
            &&& trimmed_end(line) + "\n"@ == line
        }),
{
    reveal_strlit("\n");
    reveal_strlit("I");
    let line = tcode_line(values, interval_ms);
    let axes = axis_parts(values, 7);
    lemma_parts_within_line(values, 7);
    if let Some(ms) = interval_ms {
        lemma_numeral_within_line(ms as nat);
        lemma_joined_within_line("I"@, decimal(ms as nat));
        lemma_part_within_line(axes, "I"@ + decimal(ms as nat));
    }
    let timed = match interval_ms {
        Some(ms) => with_part(axes, "I"@ + decimal(ms as nat)),
        None => axes,
    };
    assert(line.drop_last() =~= timed);
    assert(trimmed_end(timed) == timed);
    assert(trimmed_end(line) == timed);
}

fn begin_part(line: &mut String)
    ensures
        forall|part: Seq<char>| #[trigger]
            with_part(old(line)@, part) == final(line)@ + part,
{
    if !line.as_str().is_empty() {
        line.append(" ");
    } else {
        assert forall|part: Seq<char>| #[trigger] with_part(old(line)@, part) == line@ + part by {
            assert(line@ + part =~= part);
        }
    }
}

/// Format multi-axis positions into canonical T-Code v0.3 command string.
///
/// T-Code v0.3 uses 4-digit precision (0000-9999). `values[i]` is the position
/// of axis `i` of [`AxisChannel::ALL`], in that scale. The axes come in the order L0,
/// L1, L2, R0, R1, R2, V0.
/// Format: `L0{val4} L1{val4} ... I{interval_ms}\n`
pub fn format_tcode_v03(values: &Vec<Option<u32>>, interval_ms: Option<u32>) -> (line: String)
    requires
        values.len() == 7,
    ensures
        line@ == tcode_line(values@, interval_ms),
{
    let mut line: String = String::new();
    let mut i: usize = 0;
    while i < 7
        invariant
            i <= 7,
            values.len() == 7,
            line@ == axis_parts(values@, i as nat),
        decreases 7 - i,
    {
        let place: usize = match i {
            3 => 4,
            4 => 3,
            _ => i,
        };
        let axis: AxisChannel = AxisChannel::from_index(place);
        if let Some(value) = values[place] {
            let ghost before = line@;
            let val: u32 = if value > 9999 {
                9999
            } else {
                value
            };
            begin_part(&mut line);
            let ghost lead = line@;
            line.append(axis.tcode_axis());
            append_padded(&mut line, val as u64, 4);
            assert(line@ =~= lead + axis_part(axis, value));
            assert(line@ == with_part(before, axis_part(axis, value)));
        }
        i += 1;
    }
    if let Some(ms) = interval_ms {
        let ghost before = line@;
        begin_part(&mut line);
        let ghost lead = line@;
        line.append("I");
        append_decimal(&mut line, ms as u64);
        assert(line@ =~= lead + ("I"@ + decimal(ms as nat)));
        assert(line@ == with_part(before, "I"@ + decimal(ms as nat)));
    }
    line.append("\n");
    line
}

/// What is known about the receiver of T-Code packets.
#[derive(Debug)]
pub struct TCodeDispatcher {
    pub target_addr: String,
    pub is_enabled: bool,
    pub last_sent_string: String,
}

impl Default for TCodeDispatcher {
    fn default() -> (res: Self)
        ensures
            res.target_addr@ == "127.0.0.1:8888"@,
            !res.is_enabled,
            res.last_sent_string@.len() == 0,
    {
        TCodeDispatcher::new("127.0.0.1:8888")
    }
}

/// A line is to be sent: sending is enabled, and the line differs from the last.
pub open spec fn line_due(enabled: bool, last: Seq<char>, line: Seq<char>) -> bool {
    enabled && line != last
}

/// The last line that was sent, after another one.
pub open spec fn last_after(
    enabled: bool,
    last: Seq<char>,
    line: Seq<char>,
    delivered: bool,
) -> Seq<char> {
    if delivered && line_due(enabled, last, line) {
        line
    } else {
        last
    }
}

/// A line that was delivered is not due again right after, but every other is; one
/// that was not delivered stays due.
pub proof fn lemma_unchanged_not_sent(
    enabled: bool,
    last: Seq<char>,
    line: Seq<char>,
    other: Seq<char>,
    delivered: bool,
)
    requires
        line_due(enabled, last, line),
        other != line,
    ensures
        ({
            let sent_last = last_after(enabled, last, line, delivered);
            &&& line_due(enabled, sent_last, line) == !delivered
            &&& delivered ==> line_due(enabled, sent_last, other)
        }),
{
}

impl TCodeDispatcher {
    pub fn new(target_addr: &str) -> (res: Self)
        ensures
            res.target_addr@ == target_addr@,
            !res.is_enabled,
            res.last_sent_string@.len() == 0,
    {
        TCodeDispatcher {
            target_addr: target_addr.to_owned(),
            is_enabled: false,
            last_sent_string: String::new(),
        }
    }

    /// Whether a line is to be sent: sending is enabled, and the line differs
    /// from the one sent last.
    pub fn is_due(&self, tcode: &str) -> (res: bool)
        ensures
            res == line_due(self.is_enabled, self.last_sent_string@, tcode@),
    {
        self.is_enabled && !same_text(tcode, self.last_sent_string.as_str())
    }

    /// Accounts for a line: `delivered` is whether the network took it, which
    /// counts only where the line was due. Says whether it was sent.
    pub fn send(&mut self, tcode: &str, delivered: bool) -> (sent: bool)
        ensures
            sent == (delivered && line_due(
                old(self).is_enabled,
                old(self).last_sent_string@,
                tcode@,
            )),
            final(self).last_sent_string@ == last_after(
                old(self).is_enabled,
                old(self).last_sent_string@,
                tcode@,
                delivered,
            ),
            final(self).target_addr == old(self).target_addr,
            final(self).is_enabled == old(self).is_enabled,
    {
        if delivered && self.is_due(tcode) {
            self.last_sent_string = tcode.to_owned();
            true
        } else {
            false
        }
    }
}

/// How many of the first `i` axes of a line have a value. The values stand in the listed
/// order, in which pitch comes before roll.
pub open spec fn present_before(values: Seq<Option<u32>>, i: nat) -> nat
    decreases i,
{
    if i == 0 {
        0
    } else {
        let listed = if i == 4 {
            4
        } else if i == 5 {
            3
        } else {
            i - 1
        };
        present_before(values, (i - 1) as nat) + if values[listed] is Some {
            1nat
        } else {
            0nat
        }
    }
}

/// Every axis with a value has its place in the line: behind those of the axes before it,
/// seven characters each, stand the letter of its kind, its number, and four digits that
/// read as the value, or as 9999 where it is larger; a blank parts it from what is before.
pub proof fn lemma_axis_in_line(values: Seq<Option<u32>>, interval_ms: Option<u32>, i: int)
    requires
        values.len() == 7,
        0 <= i < 7,
    ensures
        ({
            let line = tcode_line(values, interval_ms);
            let p = (7 * present_before(values, i as nat)) as int;
            let listed = if i == 3 {
                4
            } else if i == 4 {
                3
            } else {
                i
            };
            values[listed] matches Some(value) ==> {
                &&& p + 6 < line.len()
                &&& p > 0 ==> line[p - 1] == ' '
                &&& line[p] == (if i < 3 {
                    'L'
                } else if i < 6 {
                    'R'
                } else {
                    'V'
                })
                &&& digit_value(line[p + 1]) == i % 3
                &&& numeral_value(line.subrange(p + 2, p + 6)) == (if value > 9999 {
                    9999
                } else {
                    value as int
                })
            }
        }),
{
    let line = tcode_line(values, interval_ms);
    let axes = axis_parts(values, 7);
    let axis = line_axis(i);
    reveal_strlit("\n");
    reveal_strlit(" ");
    lemma_line_names();
    if let Some(value) = values[rank(axis)] {
        let p = (7 * present_before(values, i as nat)) as int;
        let part = axis_part(axis, value);
        let digits = zero_padded(decimal(four_digits(value)), 4);
        lemma_part_placed(values, 7, i);
        lemma_numeral_width(four_digits(value));
        lemma_padded_reads_back(four_digits(value), 4);
        assert(line.take(axes.len() as int) =~= axes);
        assert forall|k: int| 0 <= k < 6 implies line[p + k] == #[trigger] part[k] by {
            assert(axes.subrange(p, p + 6)[k] == axes[p + k]);
            assert(line.take(axes.len() as int)[p + k] == line[p + k]);
        }
        assert(line[p] == part[0]);
        assert(line[p + 1] == part[1]);
        if p > 0 {
            assert(line.take(axes.len() as int)[p - 1] == line[p - 1]);
        }
        assert(part.skip(2) =~= digits);
        assert forall|k: int| 0 <= k < 4 implies line.subrange(p + 2, p + 6)[k]
            == #[trigger] digits[k] by {
            assert(part.skip(2)[k] == part[k + 2]);
        }
        assert(line.subrange(p + 2, p + 6) =~= digits);
    }
}

/// With an interval, the line is that without one and, before the line feed, the letter I
/// and a numeral that reads as the interval, behind a blank where an axis comes before.
pub proof fn lemma_interval_in_line(values: Seq<Option<u32>>, ms: u32)
    requires
        values.len() == 7,
    ensures
        ({
            let plain = tcode_line(values, None);
            let line = tcode_line(values, Some(ms));
            let axes = plain.drop_last();
            let p = if axes.len() == 0 {
                0int
            } else {
                axes.len() as int + 1
            };
            &&& p + 1 < line.len()
            &&& line.take(axes.len() as int) == axes
            &&& p > 0 ==> line[p - 1] == ' '
            &&& line[p] == 'I'
            &&& numeral_value(line.subrange(p + 1, line.len() - 1)) == ms
            &&& axes.len() == 0 <==> present_before(values, 7) == 0
            &&& present_before(values, 7) > 0 ==> axes.len() == 7 * present_before(values, 7) - 1
        }),
{
    reveal_strlit("\n");
    reveal_strlit(" ");
    reveal_strlit("I");
    let plain = tcode_line(values, None);
    let line = tcode_line(values, Some(ms));
    let axes = axis_parts(values, 7);
    lemma_parts_width(values, 7);
    lemma_decimal_reads_back(ms as nat);
    lemma_decimal_nonempty(ms as nat);
    assert(plain.drop_last() =~= axes);
    assert(line.take(axes.len() as int) =~= axes);
    let p = if axes.len() == 0 {
        0int
    } else {
        axes.len() as int + 1
    };
    assert(line.subrange(p + 1, line.len() - 1) =~= decimal(ms as nat));
}

proof fn lemma_line_names()
    ensures
        "L0"@ =~= seq!['L', '0'],
        "L1"@ =~= seq!['L', '1'],
        "L2"@ =~= seq!['L', '2'],
        "R0"@ =~= seq!['R', '0'],
        "R1"@ =~= seq!['R', '1'],
        "R2"@ =~= seq!['R', '2'],
        "V0"@ =~= seq!['V', '0'],
{
    reveal_strlit("L0");
    reveal_strlit("L1");
    reveal_strlit("L2");
    reveal_strlit("R0");
    reveal_strlit("R1");
    reveal_strlit("R2");
    reveal_strlit("V0");
}

proof fn lemma_parts_width(values: Seq<Option<u32>>, n: nat)
    requires
        n <= 7,
    ensures
        present_before(values, n) == 0 ==> axis_parts(values, n).len() == 0,
        present_before(values, n) > 0 ==> axis_parts(values, n).len() == 7 * present_before(
            values,
            n,
        ) - 1,
    decreases n,
{
    if n > 0 {
        reveal_strlit(" ");
        lemma_parts_width(values, (n - 1) as nat);
        let axis = line_axis(n - 1);
        if let Some(value) = values[rank(axis)] {
            lemma_axis_part_width(axis, value);
        }
    }
}

proof fn lemma_part_placed(values: Seq<Option<u32>>, n: nat, i: int)
    requires
        0 <= i < n <= 7,
        values[rank(line_axis(i))] is Some,
    ensures
        ({
            let line = axis_parts(values, n);
            let p = (7 * present_before(values, i as nat)) as int;
            &&& p + 6 <= line.len()
            &&& p > 0 ==> line[p - 1] == ' '
            &&& line.subrange(p, p + 6) == axis_part(
                line_axis(i),
                values[rank(line_axis(i))]->0,
            )
        }),
    decreases n,
{
    reveal_strlit(" ");
    let line = axis_parts(values, n);
    let before = axis_parts(values, (n - 1) as nat);
    let p = (7 * present_before(values, i as nat)) as int;
    let axis = line_axis(n - 1);
    lemma_parts_width(values, (n - 1) as nat);
    if i == n - 1 {
        let part = axis_part(axis, values[rank(axis)]->0);
        lemma_axis_part_width(axis, values[rank(axis)]->0);
        assert(line.subrange(p, p + 6) =~= part);
    } else {
        lemma_part_placed(values, (n - 1) as nat, i);
        assert(line.take(before.len() as int) =~= before);
        assert(line.subrange(p, p + 6) =~= before.subrange(p, p + 6));
        if p > 0 {
            assert(line.take(before.len() as int)[p - 1] == line[p - 1]);
        }
    }
}

} // verus!
