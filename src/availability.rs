//! How many units of an item remain free over a date range, given the
//! reservations that already hold it.
use vstd::prelude::*;

verus! {

/// One reservation of an item: `quantite` units held by document `doc_id`
/// over the days `[start_day, start_day + duree)`. Only confirmed
/// reservations hold units.
pub struct Reservation {
    pub doc_id: i32,
    pub start_day: i32,
    pub duree: i32,
    pub quantite: i32,
    pub confirmed: bool,
}

/// The workflow marker of a confirmed reservation.
pub open spec fn confirmed_marker() -> Seq<char> {
    seq!['v', 'a', 'l', 'i', 'd', 'e']
}

/// Whether the status text `s` holds the confirmation marker.
pub open spec fn has_marker(s: Seq<char>) -> bool {
    exists|i: int| 0 <= i && i + 6 <= s.len() && #[trigger] s.subrange(i, i + 6) == confirmed_marker()
}

/// Whether a status text marks a reservation as confirmed: it holds the
/// marker `valide` (as in `validee`).
pub fn is_confirmed(etat: &str) -> (r: bool)
    ensures
        r == has_marker(etat@),
{
    let n = etat.unicode_len();
    if n < 6 {
        proof {
            assert forall|i: int| 0 <= i && i + 6 <= etat@.len() implies
                #[trigger] etat@.subrange(i, i + 6) != confirmed_marker() by {}
        }
        return false;
    }
    let mut i: usize = 0;
    while i <= n - 6
        invariant
            n == etat@.len(),
            6 <= n,
            0 <= i <= n - 5,
            forall|j: int| 0 <= j < i ==> #[trigger] etat@.subrange(j, j + 6) != confirmed_marker(),
        decreases n - i,
    {
        if etat.get_char(i) == 'v' && etat.get_char(i + 1) == 'a' && etat.get_char(i + 2) == 'l'
            && etat.get_char(i + 3) == 'i' && etat.get_char(i + 4) == 'd' && etat.get_char(i + 5)
            == 'e' {
            proof {
                assert(etat@.subrange(i as int, i + 6) =~= confirmed_marker());
            }
            return true;
        }
        proof {
            let w = etat@.subrange(i as int, i + 6);
            if w == confirmed_marker() {
                assert(w[0] == 'v' && w[1] == 'a' && w[2] == 'l');
                assert(w[3] == 'i' && w[4] == 'd' && w[5] == 'e');
            }
        }
        i = i + 1;
    }
    false
}

/// Whether reservation `r` holds units over the window of `duration` days
/// starting on day `start`, leaving out those of document `excluding`: it
/// is confirmed and the two half-open ranges overlap.
pub open spec fn counts(r: Reservation, excluding: i32, start: int, duration: int) -> bool {
    &&& r.confirmed
    &&& r.doc_id != excluding
    &&& (r.start_day as int) < start + duration
    &&& r.start_day as int + r.duree as int > start
}

/// The units that the reservations `rs` hold over the window.
pub open spec fn reserved(rs: Seq<Reservation>, excluding: i32, start: int, duration: int) -> int
    decreases rs.len(),
{
    if rs.len() == 0 {
        0
    } else {
        reserved(rs.drop_last(), excluding, start, duration) + if counts(
            rs.last(),
            excluding,
            start,
            duration,
        ) {
            rs.last().quantite as int
        } else {
            0
        }
    }
}

/// Units of an item that no reservation holds: its total less what is
/// reserved, and never below zero.
pub open spec fn free_units(total: int, held: int) -> int {
    if total - held > 0 {
        total - held
    } else {
        0
    }
}

/// No reservation holds a negative number of units.
pub open spec fn quantities_nonneg(rs: Seq<Reservation>) -> bool {
    forall|i: int| 0 <= i < rs.len() ==> #[trigger] rs[i].quantite >= 0
}

proof fn lemma_reserved_nonneg(rs: Seq<Reservation>, excluding: i32, start: int, duration: int)
    requires
        quantities_nonneg(rs),
    ensures
        reserved(rs, excluding, start, duration) >= 0,
    decreases rs.len(),
{
    if rs.len() > 0 {
        lemma_reserved_nonneg(rs.drop_last(), excluding, start, duration);
    }
}

/// Units of an item of catalog total `total` that remain free over the
/// `duration` days from day `start`, given the reservations `rs` and leaving
/// out those of document `excluding`.
pub fn available(total: i32, rs: &Vec<Reservation>, excluding: i32, start: i32, duration: i32) -> (r: i32)
    requires
        quantities_nonneg(rs@),
    ensures
        r as int == free_units(total as int, reserved(rs@, excluding, start as int, duration as int)),
        r >= 0,
{
    let cap: i64 = if total > 0 { total as i64 } else { 0 };
    let mut used: i64 = 0;
    let mut i: usize = 0;
    while i < rs.len()
        invariant
            0 <= i <= rs@.len(),
            quantities_nonneg(rs@),
            cap == if total > 0 { total as int } else { 0 },
            0 <= used <= cap,
            used == if reserved(rs@.take(i as int), excluding, start as int, duration as int) < cap {
                reserved(rs@.take(i as int), excluding, start as int, duration as int)
            } else {
                cap as int
            },
        decreases rs@.len() - i,
    {
        let rv = &rs[i];
        let hit = rv.confirmed && rv.doc_id != excluding && (rv.start_day as i64) < (start as i64)
            + (duration as i64) && (rv.start_day as i64) + (rv.duree as i64) > (start as i64);
        proof {
            let prefix = rs@.take(i as int);
            let next = rs@.take(i + 1);
            assert(next.drop_last() =~= prefix);
            assert(next.last() == rs@[i as int]);
            assert(quantities_nonneg(prefix));
            lemma_reserved_nonneg(prefix, excluding, start as int, duration as int);
            assert(hit == counts(rs@[i as int], excluding, start as int, duration as int));
        }
        if hit {
            let q = rv.quantite as i64;
            if used + q < cap {
                used = used + q;
            } else {
                used = cap;
            }
        }
        i = i + 1;
    }
    proof {
        assert(rs@.take(rs@.len() as int) =~= rs@);
        lemma_reserved_nonneg(rs@, excluding, start as int, duration as int);
    }
    if used >= total as i64 {
        0
    } else {
        (total as i64 - used) as i32
    }
}

} // verus!
