//! Document identifiers of the form `YYYYMMSS`: year, month and a per-month
//! sequence number starting at 1.
use vstd::prelude::*;

verus! {

/// The identifier made of `year`, `month` and the sequence number `seq`.
pub open spec fn compose_id(year: int, month: int, seq: int) -> int {
    year * 10000 + month * 100 + seq
}

/// The year digits of an identifier.
pub open spec fn id_year(id: int) -> int {
    id / 10000
}

/// The month digits of an identifier.
pub open spec fn id_month(id: int) -> int {
    (id / 100) % 100
}

/// The trailing two-digit sequence number of an identifier.
pub open spec fn id_seq(id: int) -> int {
    id % 100
}

/// A calendar month that identifiers can encode: a four-digit year.
pub open spec fn valid_year_month(year: int, month: int) -> bool {
    0 <= year <= 9999 && 1 <= month <= 12
}

/// Whether `last` was issued in the month (`year`, `month`).
pub open spec fn issued_in(last: int, year: int, month: int) -> bool {
    0 <= last && id_year(last) == year && id_month(last) == month
}

/// The sequence number that follows the highest identifier `last` of a table,
/// in the month (`year`, `month`).
pub open spec fn next_seq(last: Option<i32>, year: int, month: int) -> int {
    match last {
        Some(l) => if issued_in(l as int, year, month) {
            id_seq(l as int) + 1
        } else {
            1
        },
        None => 1,
    }
}

/// A month holds at most 99 identifiers.
pub open spec fn seq_fits(last: Option<i32>, year: int, month: int) -> bool {
    next_seq(last, year, month) <= 99
}

/// The identifier that follows `last` in the month (`year`, `month`), when
/// the month still has room.
pub open spec fn spec_next_id(last: Option<i32>, year: int, month: int) -> int {
    compose_id(year, month, next_seq(last, year, month))
}

/// The digits of a composed identifier give back its year, month and
/// sequence number.
pub proof fn lemma_compose_parts(year: int, month: int, seq: int)
    requires
        valid_year_month(year, month),
        1 <= seq <= 99,
    ensures
        id_year(compose_id(year, month, seq)) == year,
        id_month(compose_id(year, month, seq)) == month,
        id_seq(compose_id(year, month, seq)) == seq,
        issued_in(compose_id(year, month, seq), year, month),
{
    let v = year * 10000 + month * 100 + seq;
    assert(v / 10000 == year) by (nonlinear_arith)
        requires v == year * 10000 + month * 100 + seq, 1 <= month <= 12, 1 <= seq <= 99, 0 <= year;
    assert((v / 100) % 100 == month) by (nonlinear_arith)
        requires v == year * 10000 + month * 100 + seq, 1 <= month <= 12, 1 <= seq <= 99, 0 <= year;
    assert(v % 100 == seq) by (nonlinear_arith)
        requires v == year * 10000 + month * 100 + seq, 1 <= month <= 12, 1 <= seq <= 99, 0 <= year;
    assert(v >= 0) by (nonlinear_arith)
        requires v == year * 10000 + month * 100 + seq, 1 <= month <= 12, 1 <= seq <= 99, 0 <= year;
}

/// The identifier that follows `last`, the highest identifier of a table
/// (`None` for an empty table), in the month (`year`, `month`). `None` when
/// the month already holds 99 identifiers.
pub fn next_id_from(last: Option<i32>, year: i32, month: u32) -> (r: Option<i32>)
    requires
        valid_year_month(year as int, month as int),
    ensures
        r is Some <==> seq_fits(last, year as int, month as int),
        r matches Some(v) ==> v as int == spec_next_id(last, year as int, month as int),
        r matches Some(v) ==> issued_in(v as int, year as int, month as int),
        r matches Some(v) ==> id_seq(v as int) == next_seq(last, year as int, month as int),
{
    let seq: i32 = match last {
        Some(l) => {
            if l >= 0 && l / 10000 == year && (l / 100) % 100 == month as i32 {
                l % 100 + 1
            } else {
                1
            }
        },
        None => 1,
    };
    if seq > 99 {
        None
    } else {
        let v: i32 = year * 10000 + month as i32 * 100 + seq;
        proof {
            lemma_compose_parts(year as int, month as int, seq as int);
        }
        Some(v)
    }
}

} // verus!
