//! Days, addresses and counts, said of their neighbours.

use vstd::prelude::*;

use crate::domain::Research;
use crate::polymarket::{encoded_byte, encoded_bytes, spacing, upper_hex};
use crate::tui::data::{in_group, quorum_edges, tally};
use crate::time::{days_before_month, days_before_year, day_number, EPOCH_DAY};

verus! {

/// The days follow one another: within a month, from the last of a month to the
/// first of the next, and from the last of December to the new year. February
/// has a twenty-ninth in every fourth year, but of the hundredth years only in
/// every fourth.
pub proof fn days_follow_one_another(year: int, month: int, day: int)
    ensures
        day_number(year, month, day) matches Some(n) ==> (day_number(
            year,
            month,
            day + 1,
        ) matches Some(next) ==> next == n + 1),
        day_number(year, month, day) matches Some(n) ==> (day_number(year, month, day + 1) is None
            && month < 12 ==> day_number(year, month + 1, 1) == Some(n + 1)),
        day_number(year, 12, 31) matches Some(n) ==> (day_number(year + 1, 1, 1) matches Some(
            next,
        ) ==> next == n + 1),
        -262_143 <= year <= 262_142 ==> (day_number(year, 2, 29) is Some <==> year % 400 == 0 || (
        year % 4 == 0 && year % 100 != 0)),
        day_number(1970, 1, 1) == Some(EPOCH_DAY as int),
{
    reveal_with_fuel(days_before_month, 13);
    assert(year / 4 - (year - 1) / 4 == if year % 4 == 0 {
        1int
    } else {
        0int
    });
    assert(year / 100 - (year - 1) / 100 == if year % 100 == 0 {
        1int
    } else {
        0int
    });
    assert(year / 400 - (year - 1) / 400 == if year % 400 == 0 {
        1int
    } else {
        0int
    });
    assert(year % 100 == 0 ==> year % 4 == 0);
    assert(year % 400 == 0 ==> year % 100 == 0);
}

/// Requests stand as close as the rate allows: a second's worth of spacings fills
/// the second, and with one nanosecond less each it would not.
pub proof fn requests_fill_their_second(rate: int)
    requires
        rate >= 1,
    ensures
        spacing(rate) * rate >= 1_000_000_000,
        (spacing(rate) - 1) * rate < 1_000_000_000,
        spacing(0) == spacing(1),
{
    let n = 1_000_000_000 + rate - 1;
    assert(n / rate * rate <= n && n < n / rate * rate + rate) by (nonlinear_arith)
        requires
            rate >= 1,
    ;
    let q = n / rate;
    assert((q - 1) * rate == q * rate - rate) by (nonlinear_arith);
}

/// An encoded byte can be told from any other, and what is joined is encoded
/// piece by piece.
pub proof fn encoded_bytes_are_told_apart(a: u8, b: u8, front: Seq<u8>)
    ensures
        encoded_byte(a) == encoded_byte(b) ==> a == b,
        encoded_bytes(front.push(a)) == encoded_bytes(front) + encoded_byte(a),
        a as char == ' ' ==> encoded_byte(a) == seq!['+'],
{
    reveal_strlit("0123456789ABCDEF");
    assert(front.push(a).drop_last() =~= front);
    let x = encoded_byte(a);
    let y = encoded_byte(b);
    if x == y {
        if x.len() == 3 {
            assert(x[1] == y[1] && x[2] == y[2]);
            lemma_hex(a as int / 16, b as int / 16);
            lemma_hex(a as int % 16, b as int % 16);
        } else {
            assert(x[0] == y[0]);
            assert(x[0] == (if a as char == ' ' {
                '+'
            } else {
                a as char
            }));
            assert(y[0] == (if b as char == ' ' {
                '+'
            } else {
                b as char
            }));
        }
    }
}

proof fn lemma_hex(m: int, n: int)
    requires
        0 <= m < 16,
        0 <= n < 16,
        upper_hex(m) == upper_hex(n),
    ensures
        m == n,
{
    reveal_strlit("0123456789ABCDEF");
    let s = "0123456789ABCDEF"@;
    assert(s[0] == '0' && s[1] == '1' && s[2] == '2' && s[3] == '3' && s[4] == '4' && s[5] == '5'
        && s[6] == '6' && s[7] == '7' && s[8] == '8' && s[9] == '9' && s[10] == 'A' && s[11]
        == 'B' && s[12] == 'C' && s[13] == 'D' && s[14] == 'E' && s[15] == 'F');
}

/// A row is counted with the rows priced by none or one family, by two, or by
/// more; and those priced by three or more give their edges, raw and net.
pub proof fn rows_count_by_their_families(rows: Seq<Research>, row: Research)
    ensures
        tally(rows.push(row), in_group(0)) == tally(rows, in_group(0))
            + if row.opportunity.family_count <= 1 {
            1nat
        } else {
            0nat
        },
        tally(rows.push(row), in_group(1)) == tally(rows, in_group(1))
            + if row.opportunity.family_count == 2 {
            1nat
        } else {
            0nat
        },
        tally(rows.push(row), in_group(2)) == tally(rows, in_group(2))
            + if row.opportunity.family_count >= 3 {
            1nat
        } else {
            0nat
        },
        quorum_edges(rows.push(row)) == if row.opportunity.family_count >= 3 {
            quorum_edges(rows).push((row.opportunity.raw_edge, row.opportunity.net_edge))
        } else {
            quorum_edges(rows)
        },
{
    reveal(Seq::filter);
    assert(rows.push(row).drop_last() =~= rows);
}

} // verus!
