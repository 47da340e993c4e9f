//! Text helpers for reports: a progress bar and counts of match types.
use crate::{matches_view, FunctionMatch, MatchType, MatchView};
use vstd::prelude::*;

verus! {

pub open spec fn digit_char(d: nat) -> char {
    seq!['0', '1', '2', '3', '4', '5', '6', '7', '8', '9'][(d % 10) as int]
}

/// The decimal digits of `n`, without leading zeros.
pub open spec fn decimal_text(n: nat) -> Seq<char>
    decreases n,
{
    if n < 10 {
        seq![digit_char(n)]
    } else {
        decimal_text(n / 10).push(digit_char(n % 10))
    }
}

/// Tenths of a percent of `current / total`, rounded half up.
pub open spec fn percent_tenths(current: nat, total: nat) -> nat {
    (2000 * current / total + 1) / 2
}

/// `[`, `filled` full cells, the rest of `width` as empty cells, `] `,
/// `current/total` and the share in percent with one decimal.
pub open spec fn progress_bar(current: nat, total: nat, width: nat) -> Seq<char> {
    if total == 0 {
        Seq::empty()
    } else {
        let filled = current * width / total;
        let t = percent_tenths(current, total);
        seq!['['] + Seq::new(filled, |i: int| '█') + Seq::new((width - filled) as nat, |i: int| '░')
            + seq![']', ' '] + decimal_text(current) + seq!['/'] + decimal_text(total) + seq![' ', '(']
            + decimal_text(t / 10) + seq!['.', digit_char(t % 10), '%', ')']
    }
}

/// How many of the matches have type `t`.
pub open spec fn type_count(ms: Seq<MatchView>, t: MatchType) -> nat
    decreases ms.len(),
{
    if ms.len() == 0 {
        0
    } else {
        type_count(ms.drop_last(), t) + if ms.last().match_type == t {
            1nat
        } else {
            0nat
        }
    }
}

/// The number of matches of each type.
#[derive(Debug, Clone, Copy, PartialEq, Eq, Structural)]
pub struct MatchTypeCounts {
    pub exact: usize,
    pub structural: usize,
    pub heuristic: usize,
    pub manual: usize,
}

/// Relies on `Iterator::collect` into a `String`: the characters in order.
#[verifier::external_body]
pub(crate) fn string_from_chars(v: &Vec<char>) -> (r: String)
    ensures
        r@ == v@,
{
    v.iter().collect()
}

fn digit_char_exec(d: u64) -> (r: char)
    requires
        d < 10,
    ensures
        r == digit_char(d as nat),
{
    let digits: Vec<char> = vec!['0', '1', '2', '3', '4', '5', '6', '7', '8', '9'];
    assert(digits@ =~= seq!['0', '1', '2', '3', '4', '5', '6', '7', '8', '9']);
    digits[d as usize]
}

fn push_decimal(out: &mut Vec<char>, n: u128)
    ensures
        final(out)@ == old(out)@ + decimal_text(n as nat),
    decreases n,
{
    if n >= 10 {
        push_decimal(out, n / 10);
    }
    let ghost before = out@;
    out.push(digit_char_exec((n % 10) as u64));
    assert(out@ =~= before + seq![digit_char((n % 10) as nat)]);
}

fn push_repeated(out: &mut Vec<char>, c: char, n: usize)
    ensures
        final(out)@ == old(out)@ + Seq::new(n as nat, |i: int| c),
{
    let ghost start = out@;
    let mut k: usize = 0;
    while k < n
        invariant
            k <= n,
            out@ == start + Seq::new(k as nat, |i: int| c),
        decreases n - k,
    {
        out.push(c);
        assert(out@ =~= start + Seq::new((k + 1) as nat, |i: int| c));
        k += 1;
    }
}

pub struct DiffUI;

impl DiffUI {
    /// A text progress bar of `width` cells for `current` of `total` steps;
    /// empty when `total` is 0. The filled cells, `current * width / total`,
    /// must fit the bar.
    pub fn generate_progress_bar(current: usize, total: usize, width: usize) -> (r: String)
        requires
            total == 0 || (current * width) / (total as int) <= width,
        ensures
            r@ == progress_bar(current as nat, total as nat, width as nat),
    {
        if total == 0 {
            return string_from_chars(&Vec::new());
        }
        proof {
            assert(current * width <= 0xFFFF_FFFF_FFFF_FFFFint * 0xFFFF_FFFF_FFFF_FFFFint) by (nonlinear_arith)
                requires
                    0 <= current <= 0xFFFF_FFFF_FFFF_FFFFint,
                    0 <= width <= 0xFFFF_FFFF_FFFF_FFFFint,
            ;
        }
        let filled_wide = (current as u128) * (width as u128) / (total as u128);
        let filled = filled_wide as usize;
        proof {
            assert(2000 * current / (total as int) <= 2000 * current) by (nonlinear_arith)
                requires
                    0 <= current,
                    total > 0,
            ;
        }
        let tenths: u128 = (2000 * (current as u128) / (total as u128) + 1) / 2;
        let mut out: Vec<char> = Vec::new();
        out.push('[');
        push_repeated(&mut out, '█', filled);
        push_repeated(&mut out, '░', width - filled);
        out.push(']');
        out.push(' ');
        push_decimal(&mut out, current as u128);
        out.push('/');
        push_decimal(&mut out, total as u128);
        out.push(' ');
        out.push('(');
        push_decimal(&mut out, tenths / 10);
        out.push('.');
        out.push(digit_char_exec((tenths % 10) as u64));
        out.push('%');
        out.push(')');
        assert(out@ =~= progress_bar(current as nat, total as nat, width as nat));
        string_from_chars(&out)
    }

    /// The number of matches of each type.
    pub fn count_match_types(matches: &[FunctionMatch]) -> (r: MatchTypeCounts)
        ensures
            r.exact == type_count(matches_view(matches@), MatchType::Exact),
            r.structural == type_count(matches_view(matches@), MatchType::StructuralMatch),
            r.heuristic == type_count(matches_view(matches@), MatchType::Heuristic),
            r.manual == type_count(matches_view(matches@), MatchType::Manual),
    {
        let ghost ms = matches_view(matches@);
        let mut counts = MatchTypeCounts { exact: 0, structural: 0, heuristic: 0, manual: 0 };
        let mut i: usize = 0;
        while i < matches.len()
            invariant
                i <= matches@.len(),
                ms == matches_view(matches@),
                counts.exact == type_count(ms.take(i as int), MatchType::Exact),
                counts.structural == type_count(ms.take(i as int), MatchType::StructuralMatch),
                counts.heuristic == type_count(ms.take(i as int), MatchType::Heuristic),
                counts.manual == type_count(ms.take(i as int), MatchType::Manual),
                counts.exact + counts.structural + counts.heuristic + counts.manual == i,
            decreases matches@.len() - i,
        {
            assert(ms.take(i + 1).drop_last() =~= ms.take(i as int));
            assert(ms[i as int].match_type == matches@[i as int].match_type);
            match matches[i].match_type {
                MatchType::Exact => counts.exact = counts.exact + 1,
                MatchType::StructuralMatch => counts.structural = counts.structural + 1,
                MatchType::Heuristic => counts.heuristic = counts.heuristic + 1,
                MatchType::Manual => counts.manual = counts.manual + 1,
            }
            i += 1;
        }
        assert(ms.take(matches@.len() as int) =~= ms);
        counts
    }
}

} // verus!
