//! Rows of the catalog, client, document and line-item tables.
//!
//! Money amounts and rates are IEEE-754 single-precision values; the library
//! never computes with them and carries their bit patterns unchanged.
use vstd::prelude::*;

verus! {

/// A client, identified by its name together with its event.
pub struct Client {
    pub id: i32,
    pub nom: String,
    pub evenement: String,
    pub adresse: String,
    pub tel: String,
    pub mail: String,
}

/// A rentable catalog item; `total` is the number of units owned.
pub struct Item {
    pub id: i32,
    pub nom: String,
    pub item_type: String,
    pub total: i32,
    /// Bit pattern of the unit value.
    pub valeur: u32,
    /// Bit pattern of the contribution margin.
    pub contribution: u32,
    pub nb_sorties: i32,
    /// Bit pattern of the lifetime profit.
    pub benef: u32,
}

/// The header of a document (a quote or an invoice).
pub struct Devis {
    pub id: i32,
    pub client_id: i32,
    pub nom: String,
    /// Target date, `YYYY-MM-DD`.
    pub date: String,
    pub date_crea: String,
    pub duree: i32,
    pub nb_tech: i32,
    /// Bit pattern of the technician rate.
    pub taux_tech: u32,
    pub nb_km: i32,
    /// Bit pattern of the distance rate.
    pub taux_km: u32,
    pub adhesion: bool,
    /// Bit pattern of the promotional discount.
    pub promo: u32,
    pub etat: String,
}

/// A catalog item as reserved by a document.
pub struct FullItem {
    pub item: Item,
    pub quantite: i32,
    pub duree: i32,
    pub etat: String,
}

/// An extra charge of a document, as handed out by a load: `id` is its
/// position in the document, counted from 1.
pub struct DevisExtra {
    pub id: i32,
    pub devis_id: i32,
    pub nom: String,
    /// Bit pattern of the price.
    pub prix: u32,
}

/// A document with its client, reserved items and extra charges.
pub struct FullDevis {
    pub client: Client,
    pub devis: Devis,
    pub items: Vec<FullItem>,
    pub extra: Vec<DevisExtra>,
}

/// One line of a document listing.
pub struct SummDevis {
    pub id: i32,
    pub nom: String,
    pub date: String,
    pub client_nom: String,
    pub evenement: String,
    pub etat: String,
}

/// An invoice that reserves a given item, with what it reserves.
pub struct SummFactureItem {
    pub id: i32,
    pub nom: String,
    pub date: String,
    pub quantite: i32,
    pub duree: i32,
}

/// A stored line item: `quantite` units of item `materiel_id` for `duree`
/// days, with the workflow status it was reserved under.
pub struct LineItem {
    pub materiel_id: i32,
    pub quantite: i32,
    pub duree: i32,
    pub etat: String,
}

/// A stored extra charge.
pub struct ExtraCharge {
    pub nom: String,
    /// Bit pattern of the price.
    pub prix: u32,
}

/// A stored document: its header with its line items and extra charges.
pub struct DocRecord {
    pub header: Devis,
    pub lines: Vec<LineItem>,
    pub extras: Vec<ExtraCharge>,
}

impl Client {
    pub fn copied(&self) -> (r: Client)
        ensures
            r == *self,
    {
        Client {
            id: self.id,
            nom: self.nom.clone(),
            evenement: self.evenement.clone(),
            adresse: self.adresse.clone(),
            tel: self.tel.clone(),
            mail: self.mail.clone(),
        }
    }
}

impl Item {
    pub fn copied(&self) -> (r: Item)
        ensures
            r == *self,
    {
        Item {
            id: self.id,
            nom: self.nom.clone(),
            item_type: self.item_type.clone(),
            total: self.total,
            valeur: self.valeur,
            contribution: self.contribution,
            nb_sorties: self.nb_sorties,
            benef: self.benef,
        }
    }
}

impl Devis {
    pub fn copied(&self) -> (r: Devis)
        ensures
            r == *self,
    {
        self.renumbered(self.id, self.client_id)
    }

    /// This header under document `id` and client `client_id`.
    pub fn renumbered(&self, id: i32, client_id: i32) -> (r: Devis)
        ensures
            r == (Devis { id, client_id, ..*self }),
    {
        Devis {
            id,
            client_id,
            nom: self.nom.clone(),
            date: self.date.clone(),
            date_crea: self.date_crea.clone(),
            duree: self.duree,
            nb_tech: self.nb_tech,
            taux_tech: self.taux_tech,
            nb_km: self.nb_km,
            taux_km: self.taux_km,
            adhesion: self.adhesion,
            promo: self.promo,
            etat: self.etat.clone(),
        }
    }
}

impl LineItem {
    pub fn copied(&self) -> (r: LineItem)
        ensures
            r == *self,
    {
        LineItem {
            materiel_id: self.materiel_id,
            quantite: self.quantite,
            duree: self.duree,
            etat: self.etat.clone(),
        }
    }
}

impl ExtraCharge {
    pub fn copied(&self) -> (r: ExtraCharge)
        ensures
            r == *self,
    {
        ExtraCharge { nom: self.nom.clone(), prix: self.prix }
    }
}

/// A copy of a list of line items.
pub fn copy_lines(v: &Vec<LineItem>) -> (r: Vec<LineItem>)
    ensures
        r@ == v@,
{
    let mut r: Vec<LineItem> = Vec::new();
    let mut i: usize = 0;
    while i < v.len()
        invariant
            0 <= i <= v@.len(),
            r@ == v@.take(i as int),
        decreases v@.len() - i,
    {
        r.push(v[i].copied());
        proof {
            assert(r@ =~= v@.take(i + 1));
        }
        i = i + 1;
    }
    proof {
        assert(v@.take(v@.len() as int) =~= v@);
    }
    r
}

/// A copy of a list of extra charges.
pub fn copy_extras(v: &Vec<ExtraCharge>) -> (r: Vec<ExtraCharge>)
    ensures
        r@ == v@,
{
    let mut r: Vec<ExtraCharge> = Vec::new();
    let mut i: usize = 0;
    while i < v.len()
        invariant
            0 <= i <= v@.len(),
            r@ == v@.take(i as int),
        decreases v@.len() - i,
    {
        r.push(v[i].copied());
        proof {
            assert(r@ =~= v@.take(i + 1));
        }
        i = i + 1;
    }
    proof {
        assert(v@.take(v@.len() as int) =~= v@);
    }
    r
}

/// The stored form of a reserved item: the item's identifier with the
/// reservation.
pub open spec fn line_of(fi: FullItem) -> LineItem {
    LineItem { materiel_id: fi.item.id, quantite: fi.quantite, duree: fi.duree, etat: fi.etat }
}

/// The stored form of an extra charge: its label and price.
pub open spec fn extra_of(e: DevisExtra) -> ExtraCharge {
    ExtraCharge { nom: e.nom, prix: e.prix }
}

/// The stored forms of a document's reserved items.
pub fn lines_from(v: &Vec<FullItem>) -> (r: Vec<LineItem>)
    ensures
        r@ == v@.map_values(|fi: FullItem| line_of(fi)),
{
    let mut r: Vec<LineItem> = Vec::new();
    let mut i: usize = 0;
    while i < v.len()
        invariant
            0 <= i <= v@.len(),
            r@ == v@.take(i as int).map_values(|fi: FullItem| line_of(fi)),
        decreases v@.len() - i,
    {
        let fi = &v[i];
        r.push(
            LineItem {
                materiel_id: fi.item.id,
                quantite: fi.quantite,
                duree: fi.duree,
                etat: fi.etat.clone(),
            },
        );
        proof {
            assert(r@ =~= v@.take(i + 1).map_values(|fi: FullItem| line_of(fi)));
        }
        i = i + 1;
    }
    proof {
        assert(v@.take(v@.len() as int) =~= v@);
    }
    r
}

/// The stored forms of a document's extra charges.
pub fn extras_from(v: &Vec<DevisExtra>) -> (r: Vec<ExtraCharge>)
    ensures
        r@ == v@.map_values(|e: DevisExtra| extra_of(e)),
{
    let mut r: Vec<ExtraCharge> = Vec::new();
    let mut i: usize = 0;
    while i < v.len()
        invariant
            0 <= i <= v@.len(),
            r@ == v@.take(i as int).map_values(|e: DevisExtra| extra_of(e)),
        decreases v@.len() - i,
    {
        let e = &v[i];
        r.push(ExtraCharge { nom: e.nom.clone(), prix: e.prix });
        proof {
            assert(r@ =~= v@.take(i + 1).map_values(|e: DevisExtra| extra_of(e)));
        }
        i = i + 1;
    }
    proof {
        assert(v@.take(v@.len() as int) =~= v@);
    }
    r
}

} // verus!
