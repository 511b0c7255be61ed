//! The text form of snapshots and reports.
use vstd::prelude::*;
use crate::bag::{ObservationBagSnapshot, UNIT};
use crate::tally::{lemma_prefix_sum, seq_sum};

verus! {

/// The character of a decimal digit.
pub open spec fn digit(d: int) -> char {
    if d == 0 { '0' } else if d == 1 { '1' } else if d == 2 { '2' } else if d == 3 { '3' } else if d == 4 {
        '4'
    } else if d == 5 { '5' } else if d == 6 { '6' } else if d == 7 { '7' } else if d == 8 { '8' } else { '9' }
}

/// The decimal digits of `n`, without leading zeros.
pub open spec fn decimal(n: nat) -> Seq<char>
    decreases n,
{
    if n < 10 {
        seq![digit(n as int)]
    } else {
        decimal(n / 10).push(digit((n % 10) as int))
    }
}

/// Relies on `ToString` for `u128` in the standard library: the decimal
/// digits of the value, with no sign and no leading zeros.
#[verifier::external_body]
fn decimal_text(n: u128) -> (r: String)
    ensures
        r@ == decimal(n as nat),
{
    n.to_string()
}

/// The digits after the decimal point of a fraction `f` of `10^width`:
/// trailing zeros dropped, leading zeros kept.
pub open spec fn fraction_digits(f: nat, width: nat) -> Seq<char>
    decreases width,
{
    if width > 0 && f % 10 == 0 {
        fraction_digits(f / 10, (width - 1) as nat)
    } else {
        let d = decimal(f);
        Seq::new(if d.len() < width { (width - d.len()) as nat } else { 0 }, |i: int| '0') + d
    }
}

/// A magnitude in millionths, written in units: the whole part, and a
/// decimal point with the digits that are not zero at the end, if any.
pub open spec fn magnitude_text(m: int) -> Seq<char> {
    let a = if m < 0 { -m } else { m };
    let sign = if m < 0 { seq!['-'] } else { Seq::<char>::empty() };
    let whole = decimal((a / UNIT as int) as nat);
    let f = a % UNIT as int;
    if f == 0 {
        sign + whole
    } else {
        sign + whole + seq!['.'] + fraction_digits(f as nat, 6)
    }
}

/// The mean of `count` observations that sum to `sum`, rounded toward zero.
pub open spec fn mean(sum: int, count: int) -> int {
    if sum >= 0 { sum / count } else { -((-sum) / count) }
}

/// The lines of the first `n` finite buckets.
pub open spec fn bucket_lines(bounds: Seq<i64>, counts: Seq<usize>, n: int) -> Seq<char>
    decreases n,
{
    if n <= 0 {
        Seq::empty()
    } else {
        bucket_lines(bounds, counts, n - 1) + "  bucket <= "@ + magnitude_text(bounds[n - 1] as int) + ": "@
            + decimal(counts[n - 1] as nat) + "\n"@
    }
}

/// The first line of a snapshot's text.
pub open spec fn headline(s: ObservationBagSnapshot) -> Seq<char> {
    if s.count * UNIT == s.sum {
        decimal(s.count as nat) + " (counter)\n"@
    } else if s.count > 0 {
        decimal(s.count as nat) + "; sum "@ + magnitude_text(s.sum as int) + "; avg "@ + magnitude_text(
            mean(s.sum as int, s.count as int),
        ) + "\n"@
    } else {
        "0\n"@
    }
}

/// A snapshot's text: a counter shows its count alone, anything else its
/// count, sum and mean; then, where there are buckets and observations, a
/// line for each bucket and one for what exceeded every bound.
pub open spec fn snapshot_text(s: ObservationBagSnapshot) -> Seq<char> {
    let n = s.bucket_counts@.len();
    if !(s.count * UNIT == s.sum) && s.count == 0 || n == 0 {
        headline(s)
    } else {
        headline(s) + bucket_lines(s.bucket_magnitudes@, s.bucket_counts@, n as int) + "  bucket +Inf: "@
            + decimal((s@.overflow()) as nat) + "\n"@
    }
}

/// Lexicographic order of character sequences by code point. Over UTF-8 text
/// this is the byte order by which strings are compared.
pub open spec fn name_le(a: Seq<char>, b: Seq<char>) -> bool
    decreases a.len(),
{
    if a.len() == 0 {
        true
    } else if b.len() == 0 {
        false
    } else if a[0] != b[0] {
        (a[0] as u32) < (b[0] as u32)
    } else {
        name_le(a.drop_first(), b.drop_first())
    }
}

/// Relies on `slice::sort` over `String`: the same strings, rearranged into
/// the order of `Ord for String`, which compares the UTF-8 bytes
/// lexicographically.
#[verifier::external_body]
pub(crate) fn sort_names(v: &mut Vec<String>)
    ensures
        final(v)@.to_multiset() == old(v)@.to_multiset(),
        forall|i: int, j: int| 0 <= i < j < final(v)@.len() ==> name_le(final(v)@[i]@, final(v)@[j]@),
{
    v.sort();
}

/// Each name in `order`, followed by the text of its snapshot.
pub open spec fn report_lines(order: Seq<int>, names: Seq<Seq<char>>, entries: Seq<ObservationBagSnapshot>) -> Seq<char>
    decreases order.len(),
{
    if order.len() == 0 {
        Seq::empty()
    } else {
        report_lines(order.drop_last(), names, entries) + names[order.last()] + ": "@ + snapshot_text(
            entries[order.last()],
        ) + "\n"@
    }
}

/// `order` lists each index of `names` once, by increasing name.
pub open spec fn in_name_order(order: Seq<int>, names: Seq<Seq<char>>) -> bool {
    &&& order.len() == names.len()
    &&& forall|i: int| 0 <= i < order.len() ==> 0 <= #[trigger] order[i] < names.len()
    &&& forall|i: int, j: int| 0 <= i < j < order.len() ==> names[#[trigger] order[i]] != names[#[trigger] order[j]]
        && name_le(names[order[i]], names[order[j]])
}

/// `m` in units, as `magnitude_text` writes it.
fn write_magnitude(out: &mut String, m: i128)
    requires
        m > i128::MIN,
    ensures
        final(out)@ == old(out)@ + magnitude_text(m as int),
{
    let a: u128 = if m < 0 { (-m) as u128 } else { m as u128 };
    if m < 0 {
        out.append("-");
        proof { reveal_strlit("-"); }
    }
    let whole = decimal_text(a / 1_000_000);
    out.append(whole.as_str());
    let f = a % 1_000_000;
    if f != 0 {
        out.append(".");
        proof { reveal_strlit("."); }
        let mut g: u128 = f;
        let mut w: usize = 6;
        while w > 0 && g % 10 == 0
            invariant
                fraction_digits(g as nat, w as nat) == fraction_digits(f as nat, 6),
            decreases w,
        {
            g = g / 10;
            w = w - 1;
        }
        let d = decimal_text(g);
        let len = d.as_str().unicode_len();
        let mut pad: usize = if len < w { w - len } else { 0 };
        let ghost zeros = Seq::new(pad as nat, |i: int| '0');
        let ghost start = out@;
        while pad > 0
            invariant
                pad <= zeros.len(),
                out@ == start + Seq::new((zeros.len() - pad) as nat, |i: int| '0'),
            decreases pad,
        {
            out.append("0");
            proof {
                reveal_strlit("0");
                assert(Seq::new((zeros.len() - pad) as nat, |i: int| '0') + "0"@ =~= Seq::new(
                    (zeros.len() - pad + 1) as nat,
                    |i: int| '0',
                ));
            }
            pad = pad - 1;
        }
        out.append(d.as_str());
        proof {
            assert(zeros =~= Seq::new((zeros.len() - 0) as nat, |i: int| '0'));
        }
    }
    proof {
        let ms = magnitude_text(m as int);
        assert(a as int == if m < 0 { -(m as int) } else { m as int });
        assert(old(out)@ + ms =~= out@);
    }
}

impl ObservationBagSnapshot {
    /// The snapshot as text, as `snapshot_text` gives it.
    pub fn render(&self) -> (r: String)
        requires
            self.wf(),
        ensures
            r@ == snapshot_text(*self),
    {
        let mut out = String::new();
        let n = self.bucket_counts.len();
        if (self.count as i128) * 1_000_000 == self.sum {
            out.append(decimal_text(self.count as u128).as_str());
            out.append(" (counter)\n");
        } else if self.count > 0 {
            out.append(decimal_text(self.count as u128).as_str());
            out.append("; sum ");
            write_magnitude(&mut out, self.sum);
            out.append("; avg ");
            let avg: i128 = if self.sum >= 0 {
                self.sum / (self.count as i128)
            } else {
                -((-self.sum) / (self.count as i128))
            };
            write_magnitude(&mut out, avg);
            out.append("\n");
        } else {
            out.append("0\n");
            return out;
        }
        if n == 0 {
            return out;
        }
        let ghost head = out@;
        let ghost counts = self@.buckets;
        let mut cumulative: usize = 0;
        let mut i: usize = 0;
        while i < n
            invariant
                self.wf(),
                n == self.bucket_counts@.len() == self.bucket_magnitudes@.len(),
                counts == self@.buckets,
                i <= n,
                cumulative as int == seq_sum(counts.take(i as int)),
                out@ == head + bucket_lines(self.bucket_magnitudes@, self.bucket_counts@, i as int),
            decreases n - i,
        {
            proof {
                lemma_prefix_sum(counts, i as int + 1);
                assert(counts.take(i as int + 1).drop_last() =~= counts.take(i as int));
            }
            cumulative = cumulative + self.bucket_counts[i];
            out.append("  bucket <= ");
            write_magnitude(&mut out, self.bucket_magnitudes[i] as i128);
            out.append(": ");
            out.append(decimal_text(self.bucket_counts[i] as u128).as_str());
            out.append("\n");
            i = i + 1;
        }
        proof {
            assert(counts.take(n as int) =~= counts);
        }
        out.append("  bucket +Inf: ");
        out.append(decimal_text((self.count - cumulative) as u128).as_str());
        out.append("\n");
        out
    }
}

} // verus!
