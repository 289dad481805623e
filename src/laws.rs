//! Properties that relate several operations of the store.
use vstd::prelude::*;
use crate::ident::{
    compose_id, id_month, id_year, issued_in, lemma_compose_parts, next_seq, seq_fits,
    spec_next_id, valid_year_month,
};
use crate::model::{DevisExtra, FullDevis, FullItem, extra_of, line_of};
use crate::store::{
    DbView, StoreError, alloc_id, converted, deleted, duplicated, invoice_marker, saves_existing,
    spec_save, wf,
};
use crate::tables::{
    DocView, all_below, doc_ids_unique, doc_index, doc_keys, has_doc, lemma_lookup_at, lemma_max_of,
    lookup, max_of,
};

verus! {

proof fn lemma_push_unique(t: Seq<DocView>, d: DocView)
    requires
        doc_ids_unique(t),
        !has_doc(t, d.header.id),
    ensures
        doc_ids_unique(t.push(d)),
{
    let u = t.push(d);
    assert forall|i: int, j: int| 0 <= i < u.len() && 0 <= j < u.len() && i != j implies
        #[trigger] u[i].header.id != #[trigger] u[j].header.id by {
        if i < t.len() {
            assert(u[i] == t[i]);
        }
        if j < t.len() {
            assert(u[j] == t[j]);
        }
    }
}

proof fn lemma_update_unique(t: Seq<DocView>, k: int, d: DocView)
    requires
        doc_ids_unique(t),
        0 <= k < t.len(),
        d.header.id == t[k].header.id,
    ensures
        doc_ids_unique(t.update(k, d)),
{
    let u = t.update(k, d);
    assert forall|i: int, j: int| 0 <= i < u.len() && 0 <= j < u.len() && i != j implies
        #[trigger] u[i].header.id != #[trigger] u[j].header.id by {
        assert(u[i].header.id == t[i].header.id && u[j].header.id == t[j].header.id);
    }
}

/// Saving a quote again under the identifier that a first save returned
/// keeps that identifier and replaces the quote's line items and extra
/// charges by the new ones: none of the earlier ones survive, and no quote
/// is added.
pub proof fn law_resave_replaces_children(
    v: DbView,
    first: FullDevis,
    second: FullDevis,
    y1: int,
    m1: int,
    y2: int,
    m2: int,
)
    requires
        wf(v),
        valid_year_month(y1, m1),
        spec_save(v, first, y1, m1) is Ok,
        second.devis.id == spec_save(v, first, y1, m1)->Ok_0.1,
        spec_save(spec_save(v, first, y1, m1)->Ok_0.0, second, y2, m2) is Ok,
    ensures
        ({
            let (v1, id) = spec_save(v, first, y1, m1)->Ok_0;
            let (v2, id2) = spec_save(v1, second, y2, m2)->Ok_0;
            &&& id2 == id
            &&& v2.quotes.len() == v1.quotes.len()
            &&& lookup(v2.quotes, id) is Some
            &&& lookup(v2.quotes, id)->Some_0.lines == second.items@.map_values(|fi: FullItem| line_of(fi))
            &&& lookup(v2.quotes, id)->Some_0.extras == second.extra@.map_values(|e: DevisExtra| extra_of(e))
        }),
{
    let (v1, id) = spec_save(v, first, y1, m1)->Ok_0;
    let t = v.quotes;
    if saves_existing(v, first) {
        let k = doc_index(t, id);
        assert(t[k].header.id == id);
        lemma_update_unique(t, k, v1.quotes[k]);
        assert(v1.quotes[k].header.id == id);
        assert(id != 0);
    } else {
        let last = max_of(doc_keys(t));
        assert(seq_fits(last, y1, m1));
        lemma_compose_parts(y1, m1, next_seq(last, y1, m1));
        lemma_push_unique(t, v1.quotes.last());
        assert(v1.quotes[t.len() as int].header.id == id);
        assert(id != 0);
    }
    let j = if saves_existing(v, first) { doc_index(t, id) } else { t.len() as int };
    assert(v1.quotes[j].header.id == id);
    assert(saves_existing(v1, second));
    let k2 = doc_index(v1.quotes, id);
    lemma_lookup_at(v1.quotes, j);
    let (v2, id2) = spec_save(v1, second, y2, m2)->Ok_0;
    lemma_update_unique(v1.quotes, k2, v2.quotes[k2]);
    lemma_lookup_at(v2.quotes, k2);
}

/// Once a document is added under the identifier that the month gives, and
/// no identifier of the table is above it, the month gives the next
/// sequence number: the trailing two digits grow by one.
pub proof fn law_next_id_after_insert(t: Seq<DocView>, d: DocView, year: int, month: int)
    requires
        valid_year_month(year, month),
        seq_fits(max_of(doc_keys(t)), year, month),
        d.header.id == spec_next_id(max_of(doc_keys(t)), year, month),
        all_below(t, d.header.id),
    ensures
        next_seq(max_of(doc_keys(t.push(d))), year, month) == next_seq(max_of(doc_keys(t)), year, month) + 1,
        spec_next_id(max_of(doc_keys(t.push(d))), year, month) == spec_next_id(
            max_of(doc_keys(t)),
            year,
            month,
        ) + 1,
{
    let s = doc_keys(t);
    let x = d.header.id;
    lemma_compose_parts(year, month, next_seq(max_of(s), year, month));
    assert(doc_keys(t.push(d)).drop_last() =~= s);
    lemma_max_of(s);
    if let Some(m) = max_of(s) {
        let i = choose|i: int| 0 <= i < s.len() && s[i] == m;
        assert(t[i].header.id < x);
    }
    assert(max_of(doc_keys(t.push(d))) == Some(x));
}

/// A save that creates a quote, when no quote identifier is above the one
/// it receives, leaves the month's next identifier one above it.
pub proof fn law_next_id_after_save(v: DbView, p: FullDevis, year: int, month: int)
    requires
        wf(v),
        valid_year_month(year, month),
        spec_save(v, p, year, month) is Ok,
        !saves_existing(v, p),
        all_below(v.quotes, spec_save(v, p, year, month)->Ok_0.1),
    ensures
        spec_next_id(max_of(doc_keys(spec_save(v, p, year, month)->Ok_0.0.quotes)), year, month)
            == spec_save(v, p, year, month)->Ok_0.1 + 1,
{
    let (v1, id) = spec_save(v, p, year, month)->Ok_0;
    let last = max_of(doc_keys(v.quotes));
    assert(seq_fits(last, year, month));
    lemma_compose_parts(year, month, next_seq(last, year, month));
    assert(v1.quotes == v.quotes.push(v1.quotes.last()));
    law_next_id_after_insert(v.quotes, v1.quotes.last(), year, month);
}

/// In a month other than that of the table's highest identifier, the
/// sequence starts again at 1, whatever the earlier month reached.
pub proof fn law_new_month_resets(last: i32, year: int, month: int)
    requires
        valid_year_month(year, month),
        id_year(last as int) != year || id_month(last as int) != month,
    ensures
        next_seq(Some(last), year, month) == 1,
        spec_next_id(Some(last), year, month) == compose_id(year, month, 1),
{
}

/// A duplicate gets an identifier other than its source's, holds the same
/// line items and extra charges, and leaves the source as it was.
pub proof fn law_duplicate(v: DbView, w: DbView, id: i32, year: int, month: int, r: Result<i32, StoreError>)
    requires
        wf(v),
        duplicated(v, w, id, year, month, r),
        r is Ok,
    ensures
        r->Ok_0 != id,
        lookup(v.quotes, id) is Some,
        lookup(w.quotes, id) == lookup(v.quotes, id),
        lookup(w.quotes, r->Ok_0) is Some,
        lookup(w.quotes, r->Ok_0)->Some_0.lines == lookup(v.quotes, id)->Some_0.lines,
        lookup(w.quotes, r->Ok_0)->Some_0.extras == lookup(v.quotes, id)->Some_0.extras,
{
    let t = v.quotes;
    let nid = r->Ok_0;
    let k = doc_index(t, id);
    assert(t[k].header.id == id);
    assert(alloc_id(t, year, month) == Ok::<i32, StoreError>(nid));
    assert(!has_doc(t, nid));
    let d = w.quotes.last();
    assert(w.quotes == t.push(d));
    lemma_push_unique(t, d);
    assert(w.quotes[k] == t[k]);
    lemma_lookup_at(t, k);
    lemma_lookup_at(w.quotes, k);
    lemma_lookup_at(w.quotes, t.len() as int);
}

/// Converting a quote adds an invoice under an identifier of the invoice
/// table, with the invoice marker as its status whatever the quote's, and
/// the quote's line items and extra charges; the quotes are left as they
/// were.
pub proof fn law_convert(v: DbView, w: DbView, id: i64, year: int, month: int, r: Result<i32, StoreError>)
    requires
        wf(v),
        valid_year_month(year, month),
        converted(v, w, id, year, month, r),
        r is Ok,
    ensures
        w.quotes == v.quotes,
        r->Ok_0 == spec_next_id(max_of(doc_keys(v.invoices)), year, month),
        issued_in(r->Ok_0 as int, year, month),
        !has_doc(v.invoices, r->Ok_0),
        lookup(w.invoices, r->Ok_0) is Some,
        lookup(w.invoices, r->Ok_0)->Some_0.header.etat@ == invoice_marker(),
        lookup(w.invoices, r->Ok_0)->Some_0.lines == lookup(v.quotes, id as i32)->Some_0.lines,
        lookup(w.invoices, r->Ok_0)->Some_0.extras == lookup(v.quotes, id as i32)->Some_0.extras,
{
    let t = v.invoices;
    let nid = r->Ok_0;
    let last = max_of(doc_keys(t));
    assert(alloc_id(t, year, month) == Ok::<i32, StoreError>(nid));
    assert(seq_fits(last, year, month));
    lemma_compose_parts(year, month, next_seq(last, year, month));
    let d = w.invoices.last();
    assert(w.invoices == t.push(d));
    lemma_push_unique(t, d);
    lemma_lookup_at(w.invoices, t.len() as int);
}

/// After a document is deleted, its table no longer holds it, so neither
/// its line items nor its extra charges can be reached; every other
/// document of the table is left as it was.
pub proof fn law_delete_removes(v: DbView, w: DbView, is_invoice: bool, id: i32, r: Result<(), StoreError>)
    requires
        wf(v),
        deleted(v, w, is_invoice, id, true, r),
        r is Ok,
    ensures
        lookup(w.table(is_invoice), id) is None,
        forall|j: i32| j != id ==> #[trigger] lookup(w.table(is_invoice), j) == lookup(v.table(is_invoice), j),
{
    let t = v.table(is_invoice);
    let k = doc_index(t, id);
    assert(t[k].header.id == id);
    let u = t.remove(k);
    assert(w.table(is_invoice) == u);
    assert forall|i: int| 0 <= i < u.len() implies #[trigger] u[i].header.id != id by {
        let a = if i < k { i } else { i + 1 };
        assert(u[i] == t[a]);
    }
    assert forall|i: int, j: int| 0 <= i < u.len() && 0 <= j < u.len() && i != j implies
        #[trigger] u[i].header.id != #[trigger] u[j].header.id by {
        let a = if i < k { i } else { i + 1 };
        let b = if j < k { j } else { j + 1 };
        assert(u[i] == t[a] && u[j] == t[b]);
    }
    assert forall|j: i32| j != id implies #[trigger] lookup(u, j) == lookup(t, j) by {
        if has_doc(t, j) {
            let a = doc_index(t, j);
            assert(t[a].header.id == j);
            lemma_lookup_at(t, a);
            assert(a != k);
            let b = if a < k { a } else { a - 1 };
            assert(u[b] == t[a]);
            lemma_lookup_at(u, b);
        } else {
            assert forall|i: int| 0 <= i < u.len() implies #[trigger] u[i].header.id != j by {
                let a = if i < k { i } else { i + 1 };
                assert(u[i] == t[a]);
            }
        }
    }
}

} // verus!
