//! The document store: clients, the item catalog, and the quote and invoice
//! tables, with the operations that change them as one step each.
//!
//! Every operation checks all that can fail before it changes anything, so a
//! failed operation leaves the store as it was.
use vstd::prelude::*;
use crate::calendar::{day_number, iso_day};
use crate::ident::{next_id_from, seq_fits, spec_next_id, valid_year_month};
use crate::model::{
    Client, Devis, DevisExtra, DocRecord, ExtraCharge, FullDevis, FullItem, Item, LineItem,
    copy_extras, copy_lines, extra_of, extras_from, line_of, lines_from,
};
use crate::tables::{
    DocView, client_ids_unique, client_index, client_keys, client_names_unique, doc_ids_unique,
    doc_index, doc_keys, find_client, find_doc, find_item, find_named, has_client, has_doc,
    has_item, has_named, highest_client_id, highest_doc_id, item_ids_unique, item_index,
    lemma_client_at, lemma_item_at, lemma_lookup_at, lemma_max_of, lemma_named_at, lookup, max_of,
    named_index, next_row_id, table_view,
};

verus! {

/// Why an operation of the store failed.
#[derive(PartialEq, Eq, Structural, Debug, Clone, Copy)]
pub enum StoreError {
    /// No document, item or client has this identifier.
    NotFound(i64),
    /// A catalog or document change was asked for without the capability.
    Unauthorized,
    /// A line item names an item that the catalog lacks.
    UnknownItem(i32),
    /// A line item reserves a negative quantity, or more than the catalog
    /// total of its item.
    InvalidQuantity(i32),
    /// A date is not a calendar date written `YYYY-MM-DD`.
    InvalidDate,
    /// The current month already holds 99 documents of this kind.
    MonthFull,
    /// The identifier that the current month gives is already taken (the
    /// table holds a document of a later month).
    IdInUse(i32),
    /// The table has no identifier left for a new row.
    TableFull,
}

/// The store.
pub struct Database {
    pub clients: Vec<Client>,
    pub items: Vec<Item>,
    pub quotes: Vec<DocRecord>,
    pub invoices: Vec<DocRecord>,
}

/// The store as values.
pub ghost struct DbView {
    pub clients: Seq<Client>,
    pub items: Seq<Item>,
    pub quotes: Seq<DocView>,
    pub invoices: Seq<DocView>,
}

impl View for Database {
    type V = DbView;

    open spec fn view(&self) -> DbView {
        DbView {
            clients: self.clients@,
            items: self.items@,
            quotes: table_view(self.quotes@),
            invoices: table_view(self.invoices@),
        }
    }
}

impl DbView {
    /// The invoice table when `is_invoice`, else the quote table.
    pub open spec fn table(self, is_invoice: bool) -> Seq<DocView> {
        if is_invoice {
            self.invoices
        } else {
            self.quotes
        }
    }
}

/// No stored line item reserves a negative quantity.
pub open spec fn lines_nonneg(t: Seq<DocView>) -> bool {
    forall|i: int, k: int|
        0 <= i < t.len() && 0 <= k < t[i].lines.len() ==> #[trigger] t[i].lines[k].quantite >= 0
}

/// Keys are unique in every table: what reading the store relies on.
pub open spec fn keys_unique(v: DbView) -> bool {
    &&& doc_ids_unique(v.quotes)
    &&& doc_ids_unique(v.invoices)
    &&& item_ids_unique(v.items)
    &&& client_ids_unique(v.clients)
}

/// The invariant of the store: keys are unique in every table, a client is
/// named once, and no line item reserves a negative quantity.
pub open spec fn wf(v: DbView) -> bool {
    &&& keys_unique(v)
    &&& lines_nonneg(v.quotes)
    &&& lines_nonneg(v.invoices)
    &&& client_names_unique(v.clients)
}

/// What is wrong with one reserved item of a document, if anything.
pub open spec fn line_check(items: Seq<Item>, fi: FullItem) -> Option<StoreError> {
    if !has_item(items, fi.item.id) {
        Some(StoreError::UnknownItem(fi.item.id))
    } else if fi.quantite < 0 || fi.quantite > items[item_index(items, fi.item.id)].total {
        Some(StoreError::InvalidQuantity(fi.item.id))
    } else {
        None
    }
}

/// What is wrong with the first faulty reserved item, if any.
pub open spec fn lines_check(items: Seq<Item>, fis: Seq<FullItem>) -> Option<StoreError>
    decreases fis.len(),
{
    if fis.len() == 0 {
        None
    } else {
        match lines_check(items, fis.drop_last()) {
            Some(e) => Some(e),
            None => line_check(items, fis.last()),
        }
    }
}

/// The identifier that a new document of table `t` receives in the month
/// (`year`, `month`).
pub open spec fn alloc_id(t: Seq<DocView>, year: int, month: int) -> Result<i32, StoreError> {
    let last = max_of(doc_keys(t));
    if !seq_fits(last, year, month) {
        Err(StoreError::MonthFull)
    } else {
        let v = spec_next_id(last, year, month) as i32;
        if has_doc(t, v) {
            Err(StoreError::IdInUse(v))
        } else {
            Ok(v)
        }
    }
}

/// The clients after recording `c`, with the identifier of its row: a
/// client of the same name and event has its contact fields overwritten;
/// otherwise `c` is added under a new identifier.
pub open spec fn upsert_client(cs: Seq<Client>, c: Client) -> Result<(Seq<Client>, i32), StoreError> {
    if has_named(cs, c) {
        let k = named_index(cs, c);
        Ok((cs.update(k, Client { adresse: c.adresse, tel: c.tel, mail: c.mail, ..cs[k] }), cs[k].id))
    } else if max_of(client_keys(cs)) == Some(i32::MAX) {
        Err(StoreError::TableFull)
    } else {
        let id = next_row_id(client_keys(cs)) as i32;
        Ok((cs.push(Client { id, ..c }), id))
    }
}

/// The stored form of the document `p` under identifier `id` and client
/// `client_id`.
pub open spec fn saved_record(p: FullDevis, id: i32, client_id: i32) -> DocView {
    DocView {
        header: Devis { id, client_id, ..p.devis },
        lines: p.items@.map_values(|fi: FullItem| line_of(fi)),
        extras: p.extra@.map_values(|e: DevisExtra| extra_of(e)),
    }
}

/// Whether saving `p` updates a stored quote rather than creating one.
pub open spec fn saves_existing(v: DbView, p: FullDevis) -> bool {
    p.devis.id != 0 && has_doc(v.quotes, p.devis.id)
}

/// The store after saving the quote `p` in the month (`year`, `month`), with
/// the quote's identifier; or why it cannot be saved. A quote whose date is
/// not a calendar date written `YYYY-MM-DD` is refused first.
pub open spec fn spec_save(v: DbView, p: FullDevis, year: int, month: int) -> Result<(DbView, i32), StoreError> {
    if iso_day(p.devis.date@) is None {
        Err(StoreError::InvalidDate)
    } else {
        save_checked(v, p, year, month)
    }
}

/// Saving a quote whose date is a calendar date.
pub open spec fn save_checked(v: DbView, p: FullDevis, year: int, month: int) -> Result<(DbView, i32), StoreError> {
    match lines_check(v.items, p.items@) {
        Some(e) => Err(e),
        None => {
            let existing = saves_existing(v, p);
            let id_r = if existing {
                Ok(p.devis.id)
            } else {
                alloc_id(v.quotes, year, month)
            };
            match id_r {
                Err(e) => Err(e),
                Ok(id) => match upsert_client(v.clients, p.client) {
                    Err(e) => Err(e),
                    Ok((cs, cid)) => {
                        let rec = saved_record(p, id, cid);
                        let quotes = if existing {
                            v.quotes.update(doc_index(v.quotes, id), rec)
                        } else {
                            v.quotes.push(rec)
                        };
                        Ok((DbView { clients: cs, quotes, ..v }, id))
                    },
                },
            }
        },
    }
}

proof fn lemma_check_prefix(items: Seq<Item>, s: Seq<FullItem>, n: int)
    requires
        0 <= n <= s.len(),
        lines_check(items, s.take(n)) is Some,
    ensures
        lines_check(items, s) == lines_check(items, s.take(n)),
    decreases s.len(),
{
    if n < s.len() {
        let p = s.drop_last();
        assert(p.take(n) =~= s.take(n));
        lemma_check_prefix(items, p, n);
    } else {
        assert(s.take(n) =~= s);
    }
}

proof fn lemma_check_none(items: Seq<Item>, s: Seq<FullItem>)
    requires
        lines_check(items, s) is None,
    ensures
        forall|k: int| 0 <= k < s.len() ==> line_check(items, #[trigger] s[k]) is None,
    decreases s.len(),
{
    if s.len() > 0 {
        let p = s.drop_last();
        lemma_check_none(items, p);
        assert forall|k: int| 0 <= k < s.len() implies line_check(items, #[trigger] s[k]) is None by {
            if k < p.len() {
                assert(s[k] == p[k]);
            }
        }
    }
}

/// The identifier for a new document of table `t`.
fn allocate(t: &Vec<DocRecord>, year: i32, month: u32) -> (r: Result<i32, StoreError>)
    requires
        valid_year_month(year as int, month as int),
    ensures
        r == alloc_id(table_view(t@), year as int, month as int),
{
    let last = highest_doc_id(t);
    match next_id_from(last, year, month) {
        None => Err(StoreError::MonthFull),
        Some(v) => {
            proof {
                assert(spec_next_id(last, year as int, month as int) as i32 == v);
            }
            let found = find_doc(t, v);
            proof {
                if let Some(k) = found {
                    assert(table_view(t@)[k as int].header.id == v);
                }
            }
            if found.is_some() {
                Err(StoreError::IdInUse(v))
            } else {
                Ok(v)
            }
        },
    }
}

impl Database {
    /// An empty store.
    pub fn new() -> (r: Database)
        ensures
            r@.clients.len() == 0,
            r@.items.len() == 0,
            r@.quotes.len() == 0,
            r@.invoices.len() == 0,
            wf(r@),
    {
        let r = Database { clients: Vec::new(), items: Vec::new(), quotes: Vec::new(), invoices: Vec::new() };
        proof {
            assert(r@.quotes =~= Seq::<DocView>::empty());
            assert(r@.invoices =~= Seq::<DocView>::empty());
        }
        r
    }

    /// The identifier that the next document of the invoice table (when
    /// `is_invoice`) or of the quote table receives in the month (`year`,
    /// `month`): the month's next sequence number after the table's highest
    /// identifier. `None` when the month already holds 99 identifiers.
    pub fn generate_new_id(&self, is_invoice: bool, year: i32, month: u32) -> (r: Option<i32>)
        requires
            valid_year_month(year as int, month as int),
        ensures
            r is Some <==> seq_fits(max_of(doc_keys(self@.table(is_invoice))), year as int, month as int),
            r matches Some(v) ==> v as int == spec_next_id(
                max_of(doc_keys(self@.table(is_invoice))),
                year as int,
                month as int,
            ),
    {
        let last = if is_invoice {
            highest_doc_id(&self.invoices)
        } else {
            highest_doc_id(&self.quotes)
        };
        next_id_from(last, year, month)
    }

    /// Saves the quote `full` in the month (`year`, `month`): a quote whose
    /// identifier is 0 or unknown gets a new identifier, a known one is
    /// replaced whole, line items and extra charges included. The client is
    /// recorded by name and event. A date that is not `YYYY-MM-DD`, an
    /// unknown item or a quantity out of range is refused before any change.
    /// Returns the quote's identifier.
    pub fn save_devis(&mut self, full: &FullDevis, year: i32, month: u32) -> (r: Result<i64, StoreError>)
        requires
            wf(old(self)@),
            valid_year_month(year as int, month as int),
        ensures
            wf(final(self)@),
            match spec_save(old(self)@, *full, year as int, month as int) {
                Ok((v, id)) => r == Ok::<i64, StoreError>(id as i64) && final(self)@ == v,
                Err(e) => r == Err::<i64, StoreError>(e) && final(self)@ == old(self)@,
            },
    {
        let ghost v0 = self@;
        if day_number(full.devis.date.as_str()).is_none() {
            return Err(StoreError::InvalidDate);
        }
        // every reserved item must exist and fit in the catalog
        let mut i: usize = 0;
        while i < full.items.len()
            invariant
                0 <= i <= full.items@.len(),
                self@ == v0,
                wf(v0),
                iso_day(full.devis.date@) is Some,
                lines_check(v0.items, full.items@.take(i as int)) is None,
            decreases full.items@.len() - i,
        {
            let fi = &full.items[i];
            proof {
                let a = full.items@.take(i + 1);
                assert(a.drop_last() =~= full.items@.take(i as int));
                assert(a.last() == full.items@[i as int]);
            }
            match find_item(&self.items, fi.item.id) {
                None => {
                    proof {
                        lemma_check_prefix(v0.items, full.items@, i + 1);
                    }
                    return Err(StoreError::UnknownItem(fi.item.id));
                },
                Some(k) => {
                    proof {
                        lemma_item_at(v0.items, k as int);
                    }
                    if fi.quantite < 0 || fi.quantite > self.items[k].total {
                        proof {
                            lemma_check_prefix(v0.items, full.items@, i + 1);
                        }
                        return Err(StoreError::InvalidQuantity(fi.item.id));
                    }
                },
            }
            i = i + 1;
        }
        proof {
            assert(full.items@.take(full.items@.len() as int) =~= full.items@);
            lemma_check_none(v0.items, full.items@);
        }
        // the document's identifier
        let pos = if full.devis.id != 0 {
            find_doc(&self.quotes, full.devis.id)
        } else {
            None
        };
        let id = match pos {
            Some(_) => full.devis.id,
            None => match allocate(&self.quotes, year, month) {
                Ok(v) => v,
                Err(e) => {
                    return Err(e);
                },
            },
        };
        proof {
            if let Some(p) = pos {
                lemma_lookup_at(v0.quotes, p as int);
            }
            assert(pos is Some <==> saves_existing(v0, *full));
        }
        // the client's row
        let named = find_named(&self.clients, &full.client);
        let client_id = match named {
            Some(k) => {
                proof {
                    lemma_named_at(v0.clients, k as int, full.client);
                }
                self.clients[k].id
            },
            None => {
                let top = highest_client_id(&self.clients);
                match top {
                    Some(m) => {
                        if m == i32::MAX {
                            return Err(StoreError::TableFull);
                        }
                        m + 1
                    },
                    None => 1,
                }
            },
        };
        // from here on nothing fails
        match named {
            Some(k) => {
                let old_c = &self.clients[k];
                let c = Client {
                    id: old_c.id,
                    nom: old_c.nom.clone(),
                    evenement: old_c.evenement.clone(),
                    adresse: full.client.adresse.clone(),
                    tel: full.client.tel.clone(),
                    mail: full.client.mail.clone(),
                };
                self.clients.set(k, c);
            },
            None => {
                let mut c = full.client.copied();
                c.id = client_id;
                proof {
                    lemma_max_of(client_keys(v0.clients));
                    assert forall|j: int| 0 <= j < v0.clients.len() implies #[trigger] v0.clients[j].id
                        < client_id by {
                        assert(client_keys(v0.clients)[j] == v0.clients[j].id);
                    }
                }
                self.clients.push(c);
            },
        }
        let rec = DocRecord {
            header: full.devis.renumbered(id, client_id),
            lines: lines_from(&full.items),
            extras: extras_from(&full.extra),
        };
        proof {
            assert(rec@ == saved_record(*full, id, client_id));
        }
        match pos {
            Some(p) => {
                self.quotes.set(p, rec);
                proof {
                    assert(table_view(self.quotes@) =~= v0.quotes.update(p as int, saved_record(*full, id, client_id)));
                }
            },
            None => {
                self.quotes.push(rec);
                proof {
                    assert(table_view(self.quotes@) =~= v0.quotes.push(saved_record(*full, id, client_id)));
                }
            },
        }
        proof {
            let v1 = self@;
            assert(v1.clients == upsert_client(v0.clients, full.client)->Ok_0.0);
            assert forall|k: int| 0 <= k < full.items@.len() implies (#[trigger] full.items@[k]).quantite >= 0 by {
                assert(line_check(v0.items, full.items@[k]) is None);
            }
            assert(lines_nonneg(v1.quotes));
        }
        Ok(id as i64)
    }

    /// The document `id` of the invoice table (when `is_invoice`) or of the
    /// quote table, with its client, its line items joined with the current
    /// catalog rows, and its extra charges.
    fn load_doc(&self, is_invoice: bool, id: i32) -> (r: Result<FullDevis, StoreError>)
        requires
            keys_unique(self@),
        ensures
            loaded(self@, self@.table(is_invoice), id, r),
    {
        let t = if is_invoice {
            &self.invoices
        } else {
            &self.quotes
        };
        let pos = find_doc(t, id);
        let p = match pos {
            None => {
                return Err(StoreError::NotFound(id as i64));
            },
            Some(p) => p,
        };
        proof {
            lemma_lookup_at(self@.table(is_invoice), p as int);
        }
        let rec = &t[p];
        let cpos = find_client(&self.clients, rec.header.client_id);
        let client = match cpos {
            None => {
                return Err(StoreError::NotFound(rec.header.client_id as i64));
            },
            Some(k) => {
                proof {
                    lemma_client_at(self@.clients, k as int);
                }
                self.clients[k].copied()
            },
        };
        let mut items: Vec<FullItem> = Vec::new();
        let mut i: usize = 0;
        while i < rec.lines.len()
            invariant
                0 <= i <= rec.lines@.len(),
                keys_unique(self@),
                items@ == joined(self@.items, rec.lines@.take(i as int)),
            decreases rec.lines@.len() - i,
        {
            let l = &rec.lines[i];
            proof {
                let a = rec.lines@.take(i + 1);
                assert(a.drop_last() =~= rec.lines@.take(i as int));
                assert(a.last() == rec.lines@[i as int]);
            }
            match find_item(&self.items, l.materiel_id) {
                Some(k) => {
                    proof {
                        lemma_item_at(self@.items, k as int);
                    }
                    items.push(
                        FullItem {
                            item: self.items[k].copied(),
                            quantite: l.quantite,
                            duree: l.duree,
                            etat: l.etat.clone(),
                        },
                    );
                },
                None => {},
            }
            i = i + 1;
        }
        proof {
            assert(rec.lines@.take(rec.lines@.len() as int) =~= rec.lines@);
        }
        let mut extra: Vec<DevisExtra> = Vec::new();
        let mut j: usize = 0;
        while j < rec.extras.len()
            invariant
                0 <= j <= rec.extras@.len(),
                extra@ =~= Seq::new(j as nat, |k: int| extra_out(rec.extras@[k], k, id)),
            decreases rec.extras@.len() - j,
        {
            let e = &rec.extras[j];
            extra.push(DevisExtra { id: (j + 1) as i32, devis_id: id, nom: e.nom.clone(), prix: e.prix });
            j = j + 1;
        }
        Ok(FullDevis { client, devis: rec.header.copied(), items, extra })
    }

    /// The quote `devis_id`, with its client, reserved items and extra
    /// charges.
    pub fn load_devis(&self, devis_id: i32) -> (r: Result<FullDevis, StoreError>)
        requires
            keys_unique(self@),
        ensures
            loaded(self@, self@.quotes, devis_id, r),
    {
        self.load_doc(false, devis_id)
    }

    /// The invoice `facture_id`, with its client, reserved items and extra
    /// charges.
    pub fn load_facture(&self, facture_id: i32) -> (r: Result<FullDevis, StoreError>)
        requires
            keys_unique(self@),
        ensures
            loaded(self@, self@.invoices, facture_id, r),
    {
        self.load_doc(true, facture_id)
    }

    /// Removes the document `id` from the invoice table (when `is_invoice`)
    /// or the quote table, with its line items and extra charges.
    fn delete_doc(&mut self, is_invoice: bool, id: i32, authorized: bool) -> (r: Result<(), StoreError>)
        requires
            wf(old(self)@),
        ensures
            wf(final(self)@),
            deleted(old(self)@, final(self)@, is_invoice, id, authorized, r),
    {
        if !authorized {
            return Err(StoreError::Unauthorized);
        }
        let pos = if is_invoice {
            find_doc(&self.invoices, id)
        } else {
            find_doc(&self.quotes, id)
        };
        match pos {
            None => Err(StoreError::NotFound(id as i64)),
            Some(p) => {
                let ghost v0 = self@;
                proof {
                    lemma_lookup_at(v0.table(is_invoice), p as int);
                }
                if is_invoice {
                    let _gone = self.invoices.remove(p);
                    proof {
                        assert(table_view(self.invoices@) =~= v0.invoices.remove(p as int));
                    }
                } else {
                    let _gone = self.quotes.remove(p);
                    proof {
                        assert(table_view(self.quotes@) =~= v0.quotes.remove(p as int));
                    }
                }
                proof {
                    let t = v0.table(is_invoice);
                    let u = t.remove(p as int);
                    assert forall|i: int, k: int| 0 <= i < u.len() && 0 <= k < u[i].lines.len() implies
                        #[trigger] u[i].lines[k].quantite >= 0 by {
                        if i < p {
                            assert(u[i] == t[i]);
                        } else {
                            assert(u[i] == t[i + 1]);
                        }
                    }
                    assert forall|i: int, j: int| 0 <= i < u.len() && 0 <= j < u.len() && i != j implies
                        #[trigger] u[i].header.id != #[trigger] u[j].header.id by {
                        let a = if i < p { i } else { i + 1 };
                        let b = if j < p { j } else { j + 1 };
                        assert(u[i] == t[a] && u[j] == t[b]);
                    }
                }
                Ok(())
            },
        }
    }

    /// Removes the quote `devis_id` with its line items and extra charges.
    pub fn delete_devis(&mut self, devis_id: i32, authorized: bool) -> (r: Result<(), StoreError>)
        requires
            wf(old(self)@),
        ensures
            wf(final(self)@),
            deleted(old(self)@, final(self)@, false, devis_id, authorized, r),
    {
        self.delete_doc(false, devis_id, authorized)
    }

    /// Removes the invoice `facture_id` with its line items and extra
    /// charges.
    pub fn delete_facture(&mut self, facture_id: i32, authorized: bool) -> (r: Result<(), StoreError>)
        requires
            wf(old(self)@),
        ensures
            wf(final(self)@),
            deleted(old(self)@, final(self)@, true, facture_id, authorized, r),
    {
        self.delete_doc(true, facture_id, authorized)
    }

    /// Copies the quote `devis_id` under a new quote identifier of the month
    /// (`year`, `month`): same header with the name marked as a copy, same
    /// line items and extra charges. The source is left as it was.
    pub fn duplicate_devis(&mut self, devis_id: i32, year: i32, month: u32) -> (r: Result<i32, StoreError>)
        requires
            wf(old(self)@),
            valid_year_month(year as int, month as int),
        ensures
            wf(final(self)@),
            duplicated(old(self)@, final(self)@, devis_id, year as int, month as int, r),
    {
        let ghost v0 = self@;
        let p = match find_doc(&self.quotes, devis_id) {
            None => {
                return Err(StoreError::NotFound(devis_id as i64));
            },
            Some(p) => p,
        };
        proof {
            lemma_lookup_at(v0.quotes, p as int);
        }
        let nid = match allocate(&self.quotes, year, month) {
            Err(e) => {
                return Err(e);
            },
            Ok(v) => v,
        };
        let src = &self.quotes[p];
        let mut header = src.header.renumbered(nid, src.header.client_id);
        header.nom = src.header.nom.clone().concat(" (copie)");
        proof {
            reveal_strlit(" (copie)");
            assert(header.nom@ =~= src.header.nom@ + copy_suffix());
        }
        let rec = DocRecord { header, lines: copy_lines(&src.lines), extras: copy_extras(&src.extras) };
        let ghost nr = rec@;
        self.quotes.push(rec);
        proof {
            assert(table_view(self.quotes@) =~= v0.quotes.push(nr));
            lemma_append_keeps_wf(v0.quotes, v0.quotes[p as int], nr);
        }
        Ok(nid)
    }

    /// Turns the quote `devis_id` into an invoice under a new invoice
    /// identifier of the month (`year`, `month`): same header with the status
    /// set to the invoice marker, same line items and extra charges. The
    /// quote is left as it was.
    pub fn facture_from_devis(&mut self, devis_id: i64, year: i32, month: u32) -> (r: Result<i32, StoreError>)
        requires
            wf(old(self)@),
            valid_year_month(year as int, month as int),
        ensures
            wf(final(self)@),
            converted(old(self)@, final(self)@, devis_id, year as int, month as int, r),
    {
        let ghost v0 = self@;
        if devis_id < i32::MIN as i64 || devis_id > i32::MAX as i64 {
            return Err(StoreError::NotFound(devis_id));
        }
        let qid = devis_id as i32;
        let p = match find_doc(&self.quotes, qid) {
            None => {
                return Err(StoreError::NotFound(devis_id));
            },
            Some(p) => p,
        };
        proof {
            lemma_lookup_at(v0.quotes, p as int);
        }
        let nid = match allocate(&self.invoices, year, month) {
            Err(e) => {
                return Err(e);
            },
            Ok(v) => v,
        };
        let src = &self.quotes[p];
        let mut header = src.header.renumbered(nid, src.header.client_id);
        header.etat = String::from_str("facture");
        proof {
            reveal_strlit("facture");
            assert(header.etat@ =~= invoice_marker());
        }
        let rec = DocRecord { header, lines: copy_lines(&src.lines), extras: copy_extras(&src.extras) };
        let ghost nr = rec@;
        self.invoices.push(rec);
        proof {
            assert(table_view(self.invoices@) =~= v0.invoices.push(nr));
            assert(nr.lines == v0.quotes[p as int].lines);
            assert forall|k: int| 0 <= k < nr.lines.len() implies #[trigger] nr.lines[k].quantite >= 0 by {
                assert(v0.quotes[p as int].lines[k].quantite >= 0);
            }
            lemma_append_keeps_wf(v0.invoices, nr, nr);
        }
        Ok(nid)
    }
}

/// The reserved items of a document as a load hands them out: each line
/// item whose item is in the catalog, with the catalog's current row.
pub open spec fn joined(items: Seq<Item>, lines: Seq<LineItem>) -> Seq<FullItem>
    decreases lines.len(),
{
    if lines.len() == 0 {
        Seq::empty()
    } else {
        let rest = joined(items, lines.drop_last());
        let l = lines.last();
        if has_item(items, l.materiel_id) {
            rest.push(
                FullItem {
                    item: items[item_index(items, l.materiel_id)],
                    quantite: l.quantite,
                    duree: l.duree,
                    etat: l.etat,
                },
            )
        } else {
            rest
        }
    }
}

/// The `k`-th extra charge of document `doc` as a load hands it out.
pub open spec fn extra_out(e: ExtraCharge, k: int, doc: i32) -> DevisExtra {
    DevisExtra { id: (k + 1) as i32, devis_id: doc, nom: e.nom, prix: e.prix }
}

/// `r` is what loading document `id` of table `t` of the store `v` gives:
/// not found when the table or the clients lack it, else the document.
pub open spec fn loaded(v: DbView, t: Seq<DocView>, id: i32, r: Result<FullDevis, StoreError>) -> bool {
    match lookup(t, id) {
        None => r == Err::<FullDevis, StoreError>(StoreError::NotFound(id as i64)),
        Some(d) => if !has_client(v.clients, d.header.client_id) {
            r == Err::<FullDevis, StoreError>(StoreError::NotFound(d.header.client_id as i64))
        } else {
            &&& r is Ok
            &&& r->Ok_0.client == v.clients[client_index(v.clients, d.header.client_id)]
            &&& r->Ok_0.devis == d.header
            &&& r->Ok_0.items@ == joined(v.items, d.lines)
            &&& r->Ok_0.extra@ == Seq::new(d.extras.len(), |k: int| extra_out(d.extras[k], k, id))
        },
    }
}

/// `w` and `r` are what deleting document `id` from the invoice table (when
/// `is_invoice`) or the quote table of `v` gives.
pub open spec fn deleted(v: DbView, w: DbView, is_invoice: bool, id: i32, authorized: bool, r: Result<(), StoreError>) -> bool {
    if !authorized {
        r == Err::<(), StoreError>(StoreError::Unauthorized) && w == v
    } else if !has_doc(v.table(is_invoice), id) {
        r == Err::<(), StoreError>(StoreError::NotFound(id as i64)) && w == v
    } else {
        let t = v.table(is_invoice);
        let u = t.remove(doc_index(t, id));
        &&& r == Ok::<(), StoreError>(())
        &&& w == if is_invoice {
            DbView { invoices: u, ..v }
        } else {
            DbView { quotes: u, ..v }
        }
    }
}

/// The mark appended to the name of a copied quote.
pub open spec fn copy_suffix() -> Seq<char> {
    seq![' ', '(', 'c', 'o', 'p', 'i', 'e', ')']
}

/// The status of every invoice made from a quote.
pub open spec fn invoice_marker() -> Seq<char> {
    seq!['f', 'a', 'c', 't', 'u', 'r', 'e']
}

/// `d` is the copy of `src` under identifier `id`: the same header but for
/// the identifier and the name, which gets the copy mark, and the same line
/// items and extra charges.
pub open spec fn is_duplicate(src: DocView, d: DocView, id: i32) -> bool {
    &&& d.header == Devis { id, nom: d.header.nom, ..src.header }
    &&& d.header.nom@ == src.header.nom@ + copy_suffix()
    &&& d.lines == src.lines
    &&& d.extras == src.extras
}

/// `d` is the invoice made from the quote `src` under identifier `id`: the
/// same header but for the identifier and the status, which is the invoice
/// marker, and the same line items and extra charges.
pub open spec fn is_conversion(src: DocView, d: DocView, id: i32) -> bool {
    &&& d.header == Devis { id, etat: d.header.etat, ..src.header }
    &&& d.header.etat@ == invoice_marker()
    &&& d.lines == src.lines
    &&& d.extras == src.extras
}

/// `w` and `r` are what duplicating the quote `id` of `v` in the month
/// (`year`, `month`) gives: the copy is added at the end of the quotes.
pub open spec fn duplicated(v: DbView, w: DbView, id: i32, year: int, month: int, r: Result<i32, StoreError>) -> bool {
    match lookup(v.quotes, id) {
        None => r == Err::<i32, StoreError>(StoreError::NotFound(id as i64)) && w == v,
        Some(src) => match alloc_id(v.quotes, year, month) {
            Err(e) => r == Err::<i32, StoreError>(e) && w == v,
            Ok(nid) => {
                &&& r == Ok::<i32, StoreError>(nid)
                &&& w.quotes.len() > 0
                &&& w == DbView { quotes: v.quotes.push(w.quotes.last()), ..v }
                &&& is_duplicate(src, w.quotes.last(), nid)
            },
        },
    }
}

/// The quote that identifier `id` names in `v`, if any.
pub open spec fn quote_of(v: DbView, id: i64) -> Option<DocView> {
    if i32::MIN <= id <= i32::MAX {
        lookup(v.quotes, id as i32)
    } else {
        None
    }
}

/// `w` and `r` are what converting the quote `id` of `v` into an invoice in
/// the month (`year`, `month`) gives: the invoice is added at the end of the
/// invoices.
pub open spec fn converted(v: DbView, w: DbView, id: i64, year: int, month: int, r: Result<i32, StoreError>) -> bool {
    match quote_of(v, id) {
        None => r == Err::<i32, StoreError>(StoreError::NotFound(id)) && w == v,
        Some(src) => match alloc_id(v.invoices, year, month) {
            Err(e) => r == Err::<i32, StoreError>(e) && w == v,
            Ok(nid) => {
                &&& r == Ok::<i32, StoreError>(nid)
                &&& w.invoices.len() > 0
                &&& w == DbView { invoices: v.invoices.push(w.invoices.last()), ..v }
                &&& is_conversion(src, w.invoices.last(), nid)
            },
        },
    }
}

/// Adding to a table a document whose identifier it lacks and whose line
/// items reserve no negative quantity keeps keys unique and quantities
/// non-negative.
proof fn lemma_append_keeps_wf(t: Seq<DocView>, src: DocView, d: DocView)
    requires
        doc_ids_unique(t),
        lines_nonneg(t),
        !has_doc(t, d.header.id),
        d.lines == src.lines,
        forall|k: int| 0 <= k < src.lines.len() ==> #[trigger] src.lines[k].quantite >= 0,
    ensures
        doc_ids_unique(t.push(d)),
        lines_nonneg(t.push(d)),
{
    let u = t.push(d);
    assert forall|i: int, j: int| 0 <= i < u.len() && 0 <= j < u.len() && i != j implies
        #[trigger] u[i].header.id != #[trigger] u[j].header.id by {
        if i < t.len() && j < t.len() {
            assert(u[i] == t[i] && u[j] == t[j]);
        } else if i < t.len() {
            assert(u[i] == t[i]);
        } else if j < t.len() {
            assert(u[j] == t[j]);
        }
    }
    assert forall|i: int, k: int| 0 <= i < u.len() && 0 <= k < u[i].lines.len() implies
        #[trigger] u[i].lines[k].quantite >= 0 by {
        if i < t.len() {
            assert(u[i] == t[i]);
        } else {
            assert(u[i] == d);
        }
    }
}

} // verus!
