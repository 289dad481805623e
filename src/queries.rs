//! Read-only views of the store: item availability, document listings and
//! the invoices that reserve an item.
use vstd::prelude::*;
use crate::availability::{Reservation, available, free_units, has_marker, is_confirmed, quantities_nonneg, reserved};
use crate::calendar::{day_number, iso_day};
use crate::model::{Client, DocRecord, LineItem, SummDevis, SummFactureItem};
use crate::store::{Database, DbView, StoreError, keys_unique, lines_nonneg};
use crate::tables::{
    DocView, client_index, find_client, find_item, has_client, has_item, item_index, lemma_client_at,
    lemma_item_at, table_view,
};

verus! {

/// The reservations of item `item` among the line items `lines` of
/// document `doc`, dated `day`.
pub open spec fn line_reservations(lines: Seq<LineItem>, doc: i32, day: i32, item: i32) -> Seq<Reservation>
    decreases lines.len(),
{
    if lines.len() == 0 {
        Seq::empty()
    } else {
        let rest = line_reservations(lines.drop_last(), doc, day, item);
        let l = lines.last();
        if l.materiel_id == item {
            rest.push(
                Reservation {
                    doc_id: doc,
                    start_day: day,
                    duree: l.duree,
                    quantite: l.quantite,
                    confirmed: has_marker(l.etat@),
                },
            )
        } else {
            rest
        }
    }
}

/// The reservations of item `item` by document `d`; a document whose date
/// is not a calendar date reserves nothing.
pub open spec fn doc_reservations(d: DocView, item: i32) -> Seq<Reservation> {
    match iso_day(d.header.date@) {
        None => Seq::empty(),
        Some(day) => line_reservations(d.lines, d.header.id, day, item),
    }
}

/// The reservations of item `item` by the documents of `t`.
pub open spec fn reservations_of(t: Seq<DocView>, item: i32) -> Seq<Reservation>
    decreases t.len(),
{
    if t.len() == 0 {
        Seq::empty()
    } else {
        reservations_of(t.drop_last(), item) + doc_reservations(t.last(), item)
    }
}

/// What asking for the availability of item `id` over `duration` days from
/// the date `date`, leaving out the quote `excluding`, gives on `v`.
pub open spec fn spec_dispo(v: DbView, id: i32, excluding: i32, date: Seq<char>, duration: i32) -> Result<i32, StoreError> {
    match iso_day(date) {
        None => Err(StoreError::InvalidDate),
        Some(day) => if !has_item(v.items, id) {
            Err(StoreError::NotFound(id as i64))
        } else {
            Ok(
                free_units(
                    v.items[item_index(v.items, id)].total as int,
                    reserved(reservations_of(v.quotes, id), excluding, day as int, duration as int),
                ) as i32,
            )
        },
    }
}

/// The listing row of a document whose client is `c`.
pub open spec fn summary_of(d: DocView, c: Client) -> SummDevis {
    SummDevis {
        id: d.header.id,
        nom: d.header.nom,
        date: d.header.date,
        client_nom: c.nom,
        evenement: c.evenement,
        etat: d.header.etat,
    }
}

/// The listing of table `t`: one row for each document whose client is
/// known, in table order.
pub open spec fn summaries(clients: Seq<Client>, t: Seq<DocView>) -> Seq<SummDevis>
    decreases t.len(),
{
    if t.len() == 0 {
        Seq::empty()
    } else {
        let rest = summaries(clients, t.drop_last());
        let d = t.last();
        if has_client(clients, d.header.client_id) {
            rest.push(summary_of(d, clients[client_index(clients, d.header.client_id)]))
        } else {
            rest
        }
    }
}

/// The first line item of `lines` that reserves item `item`.
pub open spec fn line_for(lines: Seq<LineItem>, item: i32) -> Option<LineItem>
    decreases lines.len(),
{
    if lines.len() == 0 {
        None
    } else {
        match line_for(lines.drop_last(), item) {
            Some(l) => Some(l),
            None => if lines.last().materiel_id == item {
                Some(lines.last())
            } else {
                None
            },
        }
    }
}

/// The invoices of `t` that reserve item `item`, each with its first line
/// item for it, in table order.
pub open spec fn invoices_with(t: Seq<DocView>, item: i32) -> Seq<SummFactureItem>
    decreases t.len(),
{
    if t.len() == 0 {
        Seq::empty()
    } else {
        let rest = invoices_with(t.drop_last(), item);
        let d = t.last();
        match line_for(d.lines, item) {
            None => rest,
            Some(l) => rest.push(
                SummFactureItem {
                    id: d.header.id,
                    nom: d.header.nom,
                    date: d.header.date,
                    quantite: l.quantite,
                    duree: l.duree,
                },
            ),
        }
    }
}

/// Whether the text `a` sorts before the text `b`: character by character
/// in code point order, a proper prefix first. This is the order of UTF-8
/// bytes, that of a database's text columns.
pub open spec fn text_before(a: Seq<char>, b: Seq<char>) -> bool
    decreases a.len(),
{
    if b.len() == 0 {
        false
    } else if a.len() == 0 {
        true
    } else if a[0] != b[0] {
        (a[0] as u32) < (b[0] as u32)
    } else {
        text_before(a.drop_first(), b.drop_first())
    }
}

/// Whether the text `a` sorts before the text `b`.
pub fn is_text_before(a: &str, b: &str) -> (r: bool)
    ensures
        r == text_before(a@, b@),
{
    let na = a.unicode_len();
    let nb = b.unicode_len();
    let mut i: usize = 0;
    proof {
        assert(a@.skip(0) =~= a@);
        assert(b@.skip(0) =~= b@);
    }
    while i < na && i < nb
        invariant
            na == a@.len(),
            nb == b@.len(),
            i <= na,
            i <= nb,
            text_before(a@, b@) == text_before(a@.skip(i as int), b@.skip(i as int)),
        decreases na - i,
    {
        let ca = a.get_char(i);
        let cb = b.get_char(i);
        proof {
            assert(a@.skip(i as int)[0] == ca);
            assert(b@.skip(i as int)[0] == cb);
        }
        if ca != cb {
            return (ca as u32) < (cb as u32);
        }
        proof {
            assert(a@.skip(i as int).drop_first() =~= a@.skip(i + 1));
            assert(b@.skip(i as int).drop_first() =~= b@.skip(i + 1));
        }
        i = i + 1;
    }
    proof {
        assert(a@.skip(i as int).len() == na - i);
        assert(b@.skip(i as int).len() == nb - i);
    }
    i < nb
}

/// `s`, listed newest date first, with `x` placed after every entry whose
/// date does not sort before its own.
pub open spec fn insert_by_date(s: Seq<SummFactureItem>, x: SummFactureItem) -> Seq<SummFactureItem>
    decreases s.len(),
{
    if s.len() == 0 {
        seq![x]
    } else if text_before(s[0].date@, x.date@) {
        seq![x] + s
    } else {
        seq![s[0]] + insert_by_date(s.drop_first(), x)
    }
}

/// The entries of `s` newest date first; entries of the same date keep
/// their order.
pub open spec fn newest_first(s: Seq<SummFactureItem>) -> Seq<SummFactureItem>
    decreases s.len(),
{
    if s.len() == 0 {
        Seq::empty()
    } else {
        insert_by_date(newest_first(s.drop_last()), s.last())
    }
}

proof fn lemma_insert_at(s: Seq<SummFactureItem>, x: SummFactureItem, k: int)
    requires
        0 <= k <= s.len(),
        forall|j: int| 0 <= j < k ==> !text_before(#[trigger] s[j].date@, x.date@),
        k < s.len() ==> text_before(s[k].date@, x.date@),
    ensures
        insert_by_date(s, x) == s.insert(k, x),
    decreases k,
{
    if k == 0 {
        if s.len() == 0 {
            assert(s.insert(0, x) =~= seq![x]);
        } else {
            assert(s.insert(0, x) =~= seq![x] + s);
        }
    } else {
        let t = s.drop_first();
        assert(!text_before(s[0].date@, x.date@));
        assert forall|j: int| 0 <= j < k - 1 implies !text_before(#[trigger] t[j].date@, x.date@) by {
            assert(t[j] == s[j + 1]);
        }
        if k < s.len() {
            assert(t[k - 1] == s[k]);
        }
        lemma_insert_at(t, x, k - 1);
        assert(seq![s[0]] + t.insert(k - 1, x) =~= s.insert(k, x));
    }
}

proof fn lemma_text_irreflexive(a: Seq<char>)
    ensures
        !text_before(a, a),
    decreases a.len(),
{
    if a.len() > 0 {
        lemma_text_irreflexive(a.drop_first());
    }
}

proof fn lemma_text_transitive(a: Seq<char>, b: Seq<char>, c: Seq<char>)
    requires
        text_before(a, b),
        text_before(b, c),
    ensures
        text_before(a, c),
    decreases a.len(),
{
    if a.len() > 0 && b.len() > 0 && c.len() > 0 && a[0] == b[0] && b[0] == c[0] {
        lemma_text_transitive(a.drop_first(), b.drop_first(), c.drop_first());
    }
}

proof fn lemma_same_code(c: char, d: char)
    requires
        c as u32 == d as u32,
    ensures
        c == d,
{
}

proof fn lemma_text_total(a: Seq<char>, b: Seq<char>)
    ensures
        a == b || text_before(a, b) || text_before(b, a),
    decreases a.len(),
{
    if a.len() == 0 && b.len() == 0 {
        assert(a =~= b);
    } else if a.len() > 0 && b.len() > 0 && a[0] == b[0] {
        lemma_text_total(a.drop_first(), b.drop_first());
        if a.drop_first() == b.drop_first() {
            assert(a.len() == b.len());
            assert forall|i: int| 0 <= i < a.len() implies a[i] == b[i] by {
                if i > 0 {
                    assert(a[i] == a.drop_first()[i - 1]);
                    assert(b[i] == b.drop_first()[i - 1]);
                }
            }
            assert(a =~= b);
        }
    } else if a.len() > 0 && b.len() > 0 {
        if a[0] as u32 == b[0] as u32 {
            lemma_same_code(a[0], b[0]);
        }
    }
}

/// No entry of `s` is dated after `d`.
pub open spec fn none_after(d: Seq<char>, s: Seq<SummFactureItem>) -> bool {
    forall|i: int| 0 <= i < s.len() ==> !text_before(d, #[trigger] s[i].date@)
}

/// The entries of `s` are listed newest date first.
pub open spec fn newest_to_oldest(s: Seq<SummFactureItem>) -> bool {
    forall|i: int, j: int| 0 <= i < j < s.len() ==> !text_before(#[trigger] s[i].date@, #[trigger] s[j].date@)
}

proof fn lemma_insert_bound(s: Seq<SummFactureItem>, x: SummFactureItem, d: Seq<char>)
    requires
        none_after(d, s),
        !text_before(d, x.date@),
    ensures
        none_after(d, insert_by_date(s, x)),
    decreases s.len(),
{
    if s.len() > 0 && !text_before(s[0].date@, x.date@) {
        let t = s.drop_first();
        assert forall|i: int| 0 <= i < t.len() implies !text_before(d, #[trigger] t[i].date@) by {
            assert(t[i] == s[i + 1]);
        }
        lemma_insert_bound(t, x, d);
        let r = insert_by_date(t, x);
        assert forall|i: int| 0 <= i < r.len() + 1 implies !text_before(d, #[trigger] (seq![s[0]] + r)[i].date@) by {
            if i > 0 {
                assert((seq![s[0]] + r)[i] == r[i - 1]);
            }
        }
    } else if s.len() > 0 {
        assert forall|i: int| 0 <= i < s.len() + 1 implies !text_before(d, #[trigger] (seq![x] + s)[i].date@) by {
            if i > 0 {
                assert((seq![x] + s)[i] == s[i - 1]);
            }
        }
    } else {
        assert(seq![x][0] == x);
    }
}

proof fn lemma_insert_keeps_order(s: Seq<SummFactureItem>, x: SummFactureItem)
    requires
        newest_to_oldest(s),
    ensures
        newest_to_oldest(insert_by_date(s, x)),
    decreases s.len(),
{
    if s.len() == 0 {
    } else if text_before(s[0].date@, x.date@) {
        let r = seq![x] + s;
        assert forall|j: int| 0 <= j < s.len() implies !text_before(x.date@, #[trigger] s[j].date@) by {
            if text_before(x.date@, s[j].date@) {
                if j > 0 {
                    assert(!text_before(s[0].date@, s[j].date@));
                    lemma_text_total(s[0].date@, s[j].date@);
                    if s[0].date@ != s[j].date@ {
                        lemma_text_transitive(x.date@, s[j].date@, s[0].date@);
                    }
                }
                lemma_text_transitive(x.date@, s[0].date@, x.date@);
                lemma_text_irreflexive(x.date@);
            }
        }
        assert forall|i: int, j: int| 0 <= i < j < r.len() implies !text_before(#[trigger] r[i].date@, #[trigger] r[j].date@) by {
            assert(r[j] == s[j - 1]);
            if i > 0 {
                assert(r[i] == s[i - 1]);
            }
        }
    } else {
        let t = s.drop_first();
        assert forall|i: int, j: int| 0 <= i < j < t.len() implies !text_before(#[trigger] t[i].date@, #[trigger] t[j].date@) by {
            assert(t[i] == s[i + 1] && t[j] == s[j + 1]);
        }
        lemma_insert_keeps_order(t, x);
        assert forall|i: int| 0 <= i < t.len() implies !text_before(s[0].date@, #[trigger] t[i].date@) by {
            assert(t[i] == s[i + 1]);
        }
        lemma_insert_bound(t, x, s[0].date@);
        let rt = insert_by_date(t, x);
        let r = seq![s[0]] + rt;
        assert forall|i: int, j: int| 0 <= i < j < r.len() implies !text_before(#[trigger] r[i].date@, #[trigger] r[j].date@) by {
            assert(r[j] == rt[j - 1]);
            if i > 0 {
                assert(r[i] == rt[i - 1]);
            }
        }
    }
}

/// A listing of invoices by date is newest first: no entry is dated before
/// one that follows it.
pub proof fn law_newest_first_ordered(s: Seq<SummFactureItem>)
    ensures
        newest_to_oldest(newest_first(s)),
    decreases s.len(),
{
    if s.len() > 0 {
        law_newest_first_ordered(s.drop_last());
        lemma_insert_keeps_order(newest_first(s.drop_last()), s.last());
    }
}

/// Where `x` goes in `s`, listed newest date first: after every entry whose
/// date does not sort before its own.
fn date_slot(s: &Vec<SummFactureItem>, x: &SummFactureItem) -> (k: usize)
    ensures
        k <= s@.len(),
        forall|j: int| 0 <= j < k ==> !text_before(#[trigger] s@[j].date@, x.date@),
        k < s@.len() ==> text_before(s@[k as int].date@, x.date@),
{
    let mut k: usize = 0;
    while k < s.len()
        invariant
            k <= s@.len(),
            forall|j: int| 0 <= j < k ==> !text_before(#[trigger] s@[j].date@, x.date@),
        decreases s@.len() - k,
    {
        if is_text_before(s[k].date.as_str(), x.date.as_str()) {
            return k;
        }
        k = k + 1;
    }
    k
}

/// The reservations of item `item` by the quotes of `t`.
fn collect_reservations(t: &Vec<DocRecord>, item: i32) -> (r: Vec<Reservation>)
    requires
        lines_nonneg(table_view(t@)),
    ensures
        r@ == reservations_of(table_view(t@), item),
        quantities_nonneg(r@),
{
    let ghost tv = table_view(t@);
    let mut out: Vec<Reservation> = Vec::new();
    let mut i: usize = 0;
    while i < t.len()
        invariant
            0 <= i <= t@.len(),
            tv == table_view(t@),
            lines_nonneg(tv),
            out@ == reservations_of(tv.take(i as int), item),
            quantities_nonneg(out@),
        decreases t@.len() - i,
    {
        let rec = &t[i];
        let ghost before = out@;
        proof {
            assert(tv.take(i + 1).drop_last() =~= tv.take(i as int));
            assert(tv.take(i + 1).last() == rec@);
        }
        match day_number(rec.header.date.as_str()) {
            None => {
                proof {
                    assert(out@ =~= reservations_of(tv.take(i + 1), item));
                }
            },
            Some(day) => {
                let mut j: usize = 0;
                while j < rec.lines.len()
                    invariant
                        0 <= j <= rec.lines@.len(),
                        0 <= i < t@.len(),
                        rec == &t@[i as int],
                        tv == table_view(t@),
                        lines_nonneg(tv),
                        out@ == before + line_reservations(rec.lines@.take(j as int), rec.header.id, day, item),
                        quantities_nonneg(out@),
                    decreases rec.lines@.len() - j,
                {
                    let l = &rec.lines[j];
                    proof {
                        assert(rec.lines@.take(j + 1).drop_last() =~= rec.lines@.take(j as int));
                        assert(rec.lines@.take(j + 1).last() == rec.lines@[j as int]);
                        assert(tv[i as int].lines[j as int].quantite >= 0);
                    }
                    if l.materiel_id == item {
                        let confirmed = is_confirmed(l.etat.as_str());
                        out.push(
                            Reservation {
                                doc_id: rec.header.id,
                                start_day: day,
                                duree: l.duree,
                                quantite: l.quantite,
                                confirmed,
                            },
                        );
                    }
                    proof {
                        assert(out@ =~= before + line_reservations(rec.lines@.take(j + 1), rec.header.id, day, item));
                    }
                    j = j + 1;
                }
                proof {
                    assert(rec.lines@.take(rec.lines@.len() as int) =~= rec.lines@);
                    assert(out@ =~= reservations_of(tv.take(i + 1), item));
                }
            },
        }
        i = i + 1;
    }
    proof {
        assert(tv.take(tv.len() as int) =~= tv);
    }
    out
}

impl Database {
    /// Units of item `id` free over `duration` days from the date `date`
    /// (`YYYY-MM-DD`): its catalog total less the units that confirmed quotes
    /// other than `devis_id` reserve over an overlapping range, never below
    /// zero.
    pub fn get_item_dispo(&self, id: i32, devis_id: i32, date: String, duration: i32) -> (r: Result<i32, StoreError>)
        requires
            keys_unique(self@),
            lines_nonneg(self@.quotes),
        ensures
            r == spec_dispo(self@, id, devis_id, date@, duration),
    {
        let day = match day_number(date.as_str()) {
            None => {
                return Err(StoreError::InvalidDate);
            },
            Some(d) => d,
        };
        let k = match find_item(&self.items, id) {
            None => {
                return Err(StoreError::NotFound(id as i64));
            },
            Some(k) => k,
        };
        proof {
            lemma_item_at(self@.items, k as int);
        }
        let rs = collect_reservations(&self.quotes, id);
        Ok(available(self.items[k].total, &rs, devis_id, day, duration))
    }

    fn summarize(&self, is_invoice: bool) -> (r: Vec<SummDevis>)
        requires
            keys_unique(self@),
        ensures
            r@ == summaries(self@.clients, self@.table(is_invoice)),
    {
        let t = if is_invoice {
            &self.invoices
        } else {
            &self.quotes
        };
        let ghost tv = table_view(t@);
        let mut out: Vec<SummDevis> = Vec::new();
        let mut i: usize = 0;
        while i < t.len()
            invariant
                0 <= i <= t@.len(),
                keys_unique(self@),
                tv == table_view(t@),
                tv == self@.table(is_invoice),
                out@ == summaries(self@.clients, tv.take(i as int)),
            decreases t@.len() - i,
        {
            let h = &t[i].header;
            proof {
                assert(tv.take(i + 1).drop_last() =~= tv.take(i as int));
                assert(tv.take(i + 1).last() == tv[i as int]);
            }
            match find_client(&self.clients, h.client_id) {
                None => {},
                Some(k) => {
                    proof {
                        lemma_client_at(self@.clients, k as int);
                    }
                    let c = &self.clients[k];
                    out.push(
                        SummDevis {
                            id: h.id,
                            nom: h.nom.clone(),
                            date: h.date.clone(),
                            client_nom: c.nom.clone(),
                            evenement: c.evenement.clone(),
                            etat: h.etat.clone(),
                        },
                    );
                },
            }
            i = i + 1;
        }
        proof {
            assert(tv.take(tv.len() as int) =~= tv);
        }
        out
    }

    /// One listing row for each quote whose client is known.
    pub fn get_devis_summaries(&self) -> (r: Vec<SummDevis>)
        requires
            keys_unique(self@),
        ensures
            r@ == summaries(self@.clients, self@.quotes),
    {
        self.summarize(false)
    }

    /// One listing row for each invoice whose client is known.
    pub fn get_factures_summaries(&self) -> (r: Vec<SummDevis>)
        requires
            keys_unique(self@),
        ensures
            r@ == summaries(self@.clients, self@.invoices),
    {
        self.summarize(true)
    }

    /// Every client.
    pub fn get_client_infos(&self) -> (r: Vec<Client>)
        ensures
            r@ == self@.clients,
    {
        let mut out: Vec<Client> = Vec::new();
        let mut i: usize = 0;
        while i < self.clients.len()
            invariant
                0 <= i <= self.clients@.len(),
                out@ == self.clients@.take(i as int),
            decreases self.clients@.len() - i,
        {
            out.push(self.clients[i].copied());
            proof {
                assert(out@ =~= self.clients@.take(i + 1));
            }
            i = i + 1;
        }
        proof {
            assert(self.clients@.take(self.clients@.len() as int) =~= self.clients@);
        }
        out
    }

    /// The invoices that reserve item `item_id`, each with the quantity and
    /// duration of its first line item for it, newest date first.
    pub fn get_factures_from_item(&self, item_id: i32) -> (r: Vec<SummFactureItem>)
        ensures
            r@ == newest_first(invoices_with(self@.invoices, item_id)),
    {
        let ghost tv = self@.invoices;
        let mut out: Vec<SummFactureItem> = Vec::new();
        let mut i: usize = 0;
        while i < self.invoices.len()
            invariant
                0 <= i <= self.invoices@.len(),
                tv == table_view(self.invoices@),
                out@ == newest_first(invoices_with(tv.take(i as int), item_id)),
            decreases self.invoices@.len() - i,
        {
            let rec = &self.invoices[i];
            proof {
                assert(tv.take(i + 1).drop_last() =~= tv.take(i as int));
                assert(tv.take(i + 1).last() == rec@);
            }
            let mut j: usize = 0;
            let mut found: Option<usize> = None;
            while j < rec.lines.len()
                invariant
                    0 <= j <= rec.lines@.len(),
                    found is None ==> line_for(rec.lines@.take(j as int), item_id) is None,
                    found matches Some(k) ==> k < rec.lines@.len() && line_for(rec.lines@, item_id) == Some(
                        rec.lines@[k as int],
                    ),
                decreases rec.lines@.len() - j,
            {
                if found.is_none() {
                    proof {
                        assert(rec.lines@.take(j + 1).drop_last() =~= rec.lines@.take(j as int));
                        assert(rec.lines@.take(j + 1).last() == rec.lines@[j as int]);
                    }
                    if rec.lines[j].materiel_id == item_id {
                        proof {
                            lemma_line_for_prefix(rec.lines@, item_id, j + 1);
                        }
                        found = Some(j);
                    }
                }
                j = j + 1;
            }
            proof {
                assert(rec.lines@.take(rec.lines@.len() as int) =~= rec.lines@);
            }
            match found {
                None => {},
                Some(k) => {
                    let l = &rec.lines[k];
                    let x = SummFactureItem {
                        id: rec.header.id,
                        nom: rec.header.nom.clone(),
                        date: rec.header.date.clone(),
                        quantite: l.quantite,
                        duree: l.duree,
                    };
                    let slot = date_slot(&out, &x);
                    proof {
                        lemma_insert_at(out@, x, slot as int);
                        let before = invoices_with(tv.take(i as int), item_id);
                        assert(invoices_with(tv.take(i + 1), item_id) == before.push(x));
                        assert(before.push(x).drop_last() =~= before);
                    }
                    out.insert(slot, x);
                },
            }
            proof {
                assert(out@ =~= newest_first(invoices_with(tv.take(i + 1), item_id)));
            }
            i = i + 1;
        }
        proof {
            assert(tv.take(tv.len() as int) =~= tv);
        }
        out
    }
}

proof fn lemma_line_for_prefix(lines: Seq<LineItem>, item: i32, n: int)
    requires
        0 <= n <= lines.len(),
        line_for(lines.take(n), item) is Some,
    ensures
        line_for(lines, item) == line_for(lines.take(n), item),
    decreases lines.len(),
{
    if n < lines.len() {
        let p = lines.drop_last();
        assert(p.take(n) =~= lines.take(n));
        lemma_line_for_prefix(p, item, n);
    } else {
        assert(lines.take(n) =~= lines);
    }
}

} // verus!
