use rental_core::model::{Client, Devis, DevisExtra, FullDevis, FullItem, Item};
use rental_core::store::{Database, StoreError};

fn item(id: i32, nom: &str, total: i32) -> Item {
    Item {
        id,
        nom: nom.to_string(),
        item_type: "son".to_string(),
        total,
        valeur: 100.0f32.to_bits(),
        contribution: 5.0f32.to_bits(),
        nb_sorties: 2,
        benef: 40.0f32.to_bits(),
    }
}

fn client(nom: &str, evenement: &str, tel: &str) -> Client {
    Client {
        id: 0,
        nom: nom.to_string(),
        evenement: evenement.to_string(),
        adresse: "1 rue du Port".to_string(),
        tel: tel.to_string(),
        mail: "a@b.fr".to_string(),
    }
}

fn header(id: i32, nom: &str, date: &str, etat: &str) -> Devis {
    Devis {
        id,
        client_id: 0,
        nom: nom.to_string(),
        date: date.to_string(),
        date_crea: "2024-05-01".to_string(),
        duree: 3,
        nb_tech: 1,
        taux_tech: 25.5f32.to_bits(),
        nb_km: 12,
        taux_km: 0.4f32.to_bits(),
        adhesion: true,
        promo: 0.0f32.to_bits(),
        etat: etat.to_string(),
    }
}

fn line(it: &Item, quantite: i32, duree: i32, etat: &str) -> FullItem {
    FullItem { item: item(it.id, &it.nom, it.total), quantite, duree, etat: etat.to_string() }
}

fn extra(nom: &str, prix: f32) -> DevisExtra {
    DevisExtra { id: 0, devis_id: 0, nom: nom.to_string(), prix: prix.to_bits() }
}

fn doc(id: i32, date: &str, etat: &str, items: Vec<FullItem>, extras: Vec<DevisExtra>) -> FullDevis {
    FullDevis {
        client: client("Durand", "Fete", "0102"),
        devis: header(id, "Mariage", date, etat),
        items,
        extra: extras,
    }
}

/// A store with one item of the given total, as item 1.
fn store_with_item(total: i32) -> (Database, Item) {
    let mut db = Database::new();
    let id = db.add_item(item(0, "Enceinte", total), true).unwrap();
    assert_eq!(id, 1);
    let it = db.get_item_data(1).unwrap();
    (db, it)
}

#[test]
fn end_to_end_availability_follows_saves() {
    let (mut db, it) = store_with_item(10);
    let a = db
        .save_devis(&doc(0, "2024-06-01", "validee", vec![line(&it, 5, 3, "validee")], vec![]), 2024, 6)
        .unwrap();
    assert_eq!(a, 20240601);
    let b: i32 = 20240699;
    assert_eq!(db.get_item_dispo(1, b, "2024-06-02".to_string(), 1), Ok(5));
    let again = db
        .save_devis(&doc(a as i32, "2024-06-01", "validee", vec![line(&it, 0, 3, "validee")], vec![]), 2024, 6)
        .unwrap();
    assert_eq!(again, a);
    assert_eq!(db.get_item_dispo(1, b, "2024-06-02".to_string(), 1), Ok(10));
}

#[test]
fn availability_excludes_the_document_itself() {
    let (mut db, it) = store_with_item(10);
    let a = db
        .save_devis(&doc(0, "2024-06-01", "validee", vec![line(&it, 5, 3, "validee")], vec![]), 2024, 6)
        .unwrap();
    assert_eq!(db.get_item_dispo(1, a as i32, "2024-06-02".to_string(), 1), Ok(10));
}

#[test]
fn availability_ignores_drafts_and_distant_dates() {
    let (mut db, it) = store_with_item(10);
    db.save_devis(&doc(0, "2024-06-01", "draft", vec![line(&it, 5, 3, "draft")], vec![]), 2024, 6)
        .unwrap();
    db.save_devis(&doc(0, "2024-06-10", "validee", vec![line(&it, 4, 2, "validee")], vec![]), 2024, 6)
        .unwrap();
    assert_eq!(db.get_item_dispo(1, 0, "2024-06-02".to_string(), 1), Ok(10));
    assert_eq!(db.get_item_dispo(1, 0, "2024-06-11".to_string(), 1), Ok(6));
    // the reservation of 2024-06-10 for two days ends before 2024-06-12
    assert_eq!(db.get_item_dispo(1, 0, "2024-06-12".to_string(), 5), Ok(10));
}

#[test]
fn availability_rejects_malformed_date_and_unknown_item() {
    let (db, _it) = store_with_item(10);
    assert_eq!(db.get_item_dispo(1, 0, "2024-02-30".to_string(), 1), Err(StoreError::InvalidDate));
    assert_eq!(db.get_item_dispo(1, 0, "demain".to_string(), 1), Err(StoreError::InvalidDate));
    assert_eq!(db.get_item_dispo(7, 0, "2024-06-01".to_string(), 1), Err(StoreError::NotFound(7)));
}

#[test]
fn resave_replaces_line_items_and_extras() {
    let mut db = Database::new();
    db.add_item(item(0, "Enceinte", 10), true).unwrap();
    db.add_item(item(0, "Micro", 4), true).unwrap();
    let i1 = db.get_item_data(1).unwrap();
    let i2 = db.get_item_data(2).unwrap();
    let first = doc(
        0,
        "2024-06-01",
        "draft",
        vec![line(&i1, 2, 1, "draft"), line(&i2, 1, 1, "draft")],
        vec![extra("Livraison", 30.0), extra("Montage", 50.0)],
    );
    let id = db.save_devis(&first, 2024, 6).unwrap() as i32;
    let second = doc(id, "2024-06-01", "validee", vec![line(&i2, 3, 2, "validee")], vec![extra("Nettoyage", 15.0)]);
    assert_eq!(db.save_devis(&second, 2024, 6), Ok(id as i64));
    assert_eq!(db.quotes.len(), 1);
    let loaded = db.load_devis(id).unwrap();
    assert_eq!(loaded.items.len(), 1);
    assert_eq!(loaded.items[0].item.id, 2);
    assert_eq!(loaded.items[0].quantite, 3);
    assert_eq!(loaded.items[0].duree, 2);
    assert_eq!(loaded.items[0].etat, "validee");
    assert_eq!(loaded.extra.len(), 1);
    assert_eq!(loaded.extra[0].nom, "Nettoyage");
    assert_eq!(loaded.extra[0].prix, 15.0f32.to_bits());
    assert_eq!(loaded.extra[0].id, 1);
    assert_eq!(loaded.extra[0].devis_id, id);
    assert_eq!(loaded.devis.etat, "validee");
}

#[test]
fn save_with_unknown_id_allocates_new_one() {
    let (mut db, it) = store_with_item(10);
    let id = db.save_devis(&doc(12345, "2024-06-01", "draft", vec![line(&it, 1, 1, "draft")], vec![]), 2024, 6);
    assert_eq!(id, Ok(20240601));
    assert_eq!(db.load_devis(12345).err(), Some(StoreError::NotFound(12345)));
}

#[test]
fn next_id_after_insert_and_in_new_month() {
    let (mut db, it) = store_with_item(10);
    assert_eq!(db.generate_new_id(false, 2024, 6), Some(20240601));
    assert_eq!(db.generate_new_id(false, 2024, 6), Some(20240601));
    db.save_devis(&doc(0, "2024-06-01", "draft", vec![line(&it, 1, 1, "draft")], vec![]), 2024, 6)
        .unwrap();
    assert_eq!(db.generate_new_id(false, 2024, 6), Some(20240602));
    assert_eq!(db.generate_new_id(false, 2024, 7), Some(20240701));
    assert_eq!(db.generate_new_id(true, 2024, 6), Some(20240601));
}

#[test]
fn save_rejects_bad_quantities_without_change() {
    let (mut db, it) = store_with_item(10);
    let too_many = doc(0, "2024-06-01", "draft", vec![line(&it, 11, 1, "draft")], vec![]);
    assert_eq!(db.save_devis(&too_many, 2024, 6), Err(StoreError::InvalidQuantity(1)));
    let negative = doc(0, "2024-06-01", "draft", vec![line(&it, -1, 1, "draft")], vec![]);
    assert_eq!(db.save_devis(&negative, 2024, 6), Err(StoreError::InvalidQuantity(1)));
    let ghost_item = item(9, "Fantome", 3);
    let unknown = doc(0, "2024-06-01", "draft", vec![line(&ghost_item, 1, 1, "draft")], vec![]);
    assert_eq!(db.save_devis(&unknown, 2024, 6), Err(StoreError::UnknownItem(9)));
    assert_eq!(db.quotes.len(), 0);
    assert_eq!(db.clients.len(), 0);
    let exact = doc(0, "2024-06-01", "draft", vec![line(&it, 10, 1, "draft")], vec![]);
    assert!(db.save_devis(&exact, 2024, 6).is_ok());
}

#[test]
fn save_fails_when_month_is_full() {
    let (mut db, it) = store_with_item(10);
    let mut last = 0;
    for _ in 0..99 {
        last = db
            .save_devis(&doc(0, "2024-06-01", "draft", vec![line(&it, 1, 1, "draft")], vec![]), 2024, 6)
            .unwrap();
    }
    assert_eq!(last, 20240699);
    let one_more = doc(0, "2024-06-01", "draft", vec![], vec![]);
    assert_eq!(db.save_devis(&one_more, 2024, 6), Err(StoreError::MonthFull));
    assert_eq!(db.generate_new_id(false, 2024, 6), None);
    assert_eq!(db.save_devis(&one_more, 2024, 7), Ok(20240701));
}

#[test]
fn save_refuses_identifier_already_taken() {
    let (mut db, _it) = store_with_item(10);
    db.save_devis(&doc(0, "2024-07-01", "draft", vec![], vec![]), 2024, 7).unwrap();
    // the clock went back a month: its first identifier is free
    assert_eq!(db.save_devis(&doc(0, "2024-06-01", "draft", vec![], vec![]), 2024, 6), Ok(20240601));
    // the highest identifier is of July, so June starts again at 1
    assert_eq!(db.save_devis(&doc(0, "2024-06-01", "draft", vec![], vec![]), 2024, 6), Err(StoreError::IdInUse(20240601)));
}

#[test]
fn clients_are_upserted_by_name_and_event() {
    let (mut db, _it) = store_with_item(10);
    let mut d = doc(0, "2024-06-01", "draft", vec![], vec![]);
    db.save_devis(&d, 2024, 6).unwrap();
    d.client = client("Durand", "Fete", "0999");
    db.save_devis(&d, 2024, 6).unwrap();
    let clients = db.get_client_infos();
    assert_eq!(clients.len(), 1);
    assert_eq!(clients[0].tel, "0999");
    assert_eq!(clients[0].id, 1);
    d.client = client("Durand", "Concert", "0999");
    db.save_devis(&d, 2024, 6).unwrap();
    let clients = db.get_client_infos();
    assert_eq!(clients.len(), 2);
    assert_eq!(clients[1].id, 2);
    let loaded = db.load_devis(20240603).unwrap();
    assert_eq!(loaded.client.evenement, "Concert");
    assert_eq!(loaded.devis.client_id, 2);
}

#[test]
fn load_joins_current_catalog_rows() {
    let (mut db, it) = store_with_item(10);
    let id = db.save_devis(&doc(0, "2024-06-01", "draft", vec![line(&it, 2, 1, "draft")], vec![]), 2024, 6).unwrap();
    let mut changed = item(1, "Enceinte XL", 12);
    changed.nb_sorties = 9;
    db.update_item(changed, true).unwrap();
    let loaded = db.load_devis(id as i32).unwrap();
    assert_eq!(loaded.items[0].item.nom, "Enceinte XL");
    assert_eq!(loaded.items[0].item.total, 12);
    assert_eq!(loaded.items[0].item.nb_sorties, 9);
    db.delete_item(1, true).unwrap();
    let loaded = db.load_devis(id as i32).unwrap();
    assert_eq!(loaded.items.len(), 0);
}

#[test]
fn load_unknown_document_fails() {
    let db = Database::new();
    assert_eq!(db.load_devis(20240601).err(), Some(StoreError::NotFound(20240601)));
    assert_eq!(db.load_facture(20240601).err(), Some(StoreError::NotFound(20240601)));
}

#[test]
fn duplicate_copies_children_and_keeps_source() {
    let (mut db, it) = store_with_item(10);
    let src = doc(0, "2024-06-01", "validee", vec![line(&it, 2, 3, "validee")], vec![extra("Livraison", 30.0)]);
    let id = db.save_devis(&src, 2024, 6).unwrap() as i32;
    let before = db.load_devis(id).unwrap();
    let copy = db.duplicate_devis(id, 2024, 6).unwrap();
    assert_eq!(copy, 20240602);
    assert_ne!(copy, id);
    let after = db.load_devis(id).unwrap();
    assert_eq!(after.devis.nom, before.devis.nom);
    assert_eq!(after.items.len(), 1);
    let dup = db.load_devis(copy).unwrap();
    assert_eq!(dup.devis.nom, "Mariage (copie)");
    assert_eq!(dup.devis.etat, "validee");
    assert_eq!(dup.devis.date, "2024-06-01");
    assert_eq!(dup.devis.taux_tech, 25.5f32.to_bits());
    assert_eq!(dup.items.len(), 1);
    assert_eq!(dup.items[0].quantite, 2);
    assert_eq!(dup.items[0].duree, 3);
    assert_eq!(dup.extra.len(), 1);
    assert_eq!(dup.extra[0].nom, "Livraison");
    assert_eq!(dup.extra[0].prix, 30.0f32.to_bits());
    assert_eq!(dup.extra[0].devis_id, copy);
}

#[test]
fn duplicate_of_unknown_quote_fails() {
    let mut db = Database::new();
    assert_eq!(db.duplicate_devis(20240601, 2024, 6), Err(StoreError::NotFound(20240601)));
    assert_eq!(db.quotes.len(), 0);
}

#[test]
fn convert_makes_invoice_and_keeps_quote() {
    let (mut db, it) = store_with_item(10);
    let src = doc(0, "2024-06-01", "validee", vec![line(&it, 2, 3, "validee")], vec![extra("Livraison", 30.0)]);
    let qid = db.save_devis(&src, 2024, 6).unwrap();
    db.save_devis(&doc(0, "2024-06-05", "draft", vec![], vec![]), 2024, 6).unwrap();
    let fid = db.facture_from_devis(qid, 2024, 6).unwrap();
    assert_eq!(fid, 20240601);
    let quote = db.load_devis(qid as i32).unwrap();
    assert_eq!(quote.devis.etat, "validee");
    let inv = db.load_facture(fid).unwrap();
    assert_eq!(inv.devis.etat, "facture");
    assert_eq!(inv.devis.nom, "Mariage");
    assert_eq!(inv.items.len(), 1);
    assert_eq!(inv.items[0].quantite, 2);
    assert_eq!(inv.extra[0].nom, "Livraison");
    let fid2 = db.facture_from_devis(20240602, 2024, 6).unwrap();
    assert_eq!(fid2, 20240602);
    assert_eq!(db.load_facture(fid2).unwrap().devis.etat, "facture");
    assert_eq!(db.quotes.len(), 2);
}

#[test]
fn convert_of_unknown_quote_fails() {
    let mut db = Database::new();
    assert_eq!(db.facture_from_devis(5, 2024, 6), Err(StoreError::NotFound(5)));
    assert_eq!(db.facture_from_devis(1i64 << 40, 2024, 6), Err(StoreError::NotFound(1i64 << 40)));
}

#[test]
fn delete_removes_document_and_children() {
    let (mut db, it) = store_with_item(10);
    let a = db.save_devis(&doc(0, "2024-06-01", "validee", vec![line(&it, 5, 3, "validee")], vec![extra("X", 1.0)]), 2024, 6).unwrap() as i32;
    let b = db.save_devis(&doc(0, "2024-06-01", "validee", vec![line(&it, 1, 3, "validee")], vec![]), 2024, 6).unwrap() as i32;
    assert_eq!(db.get_item_dispo(1, 0, "2024-06-01".to_string(), 1), Ok(4));
    assert_eq!(db.delete_devis(a, true), Ok(()));
    assert_eq!(db.load_devis(a).err(), Some(StoreError::NotFound(a as i64)));
    assert_eq!(db.get_item_dispo(1, 0, "2024-06-01".to_string(), 1), Ok(9));
    assert!(db.load_devis(b).is_ok());
    assert_eq!(db.delete_devis(a, true), Err(StoreError::NotFound(a as i64)));
}

#[test]
fn delete_needs_capability() {
    let (mut db, _it) = store_with_item(10);
    let a = db.save_devis(&doc(0, "2024-06-01", "draft", vec![], vec![]), 2024, 6).unwrap() as i32;
    assert_eq!(db.delete_devis(a, false), Err(StoreError::Unauthorized));
    assert!(db.load_devis(a).is_ok());
    let f = db.facture_from_devis(a as i64, 2024, 6).unwrap();
    assert_eq!(db.delete_facture(f, false), Err(StoreError::Unauthorized));
    assert_eq!(db.delete_facture(f, true), Ok(()));
    assert_eq!(db.load_facture(f).err(), Some(StoreError::NotFound(f as i64)));
}

#[test]
fn summaries_list_documents_with_clients() {
    let (mut db, _it) = store_with_item(10);
    db.save_devis(&doc(0, "2024-06-01", "draft", vec![], vec![]), 2024, 6).unwrap();
    db.save_devis(&doc(0, "2024-06-09", "validee", vec![], vec![]), 2024, 6).unwrap();
    db.facture_from_devis(20240602, 2024, 6).unwrap();
    let quotes = db.get_devis_summaries();
    assert_eq!(quotes.len(), 2);
    assert_eq!(quotes[1].id, 20240602);
    assert_eq!(quotes[1].date, "2024-06-09");
    assert_eq!(quotes[1].client_nom, "Durand");
    assert_eq!(quotes[1].evenement, "Fete");
    assert_eq!(quotes[1].etat, "validee");
    let invoices = db.get_factures_summaries();
    assert_eq!(invoices.len(), 1);
    assert_eq!(invoices[0].etat, "facture");
    assert_eq!(invoices[0].nom, "Mariage");
}

#[test]
fn invoices_reserving_an_item() {
    let (mut db, it) = store_with_item(10);
    db.add_item(item(0, "Micro", 4), true).unwrap();
    let mic = db.get_item_data(2).unwrap();
    db.save_devis(&doc(0, "2024-06-01", "validee", vec![line(&it, 3, 2, "validee")], vec![]), 2024, 6).unwrap();
    db.save_devis(&doc(0, "2024-06-04", "validee", vec![line(&mic, 1, 1, "validee")], vec![]), 2024, 6).unwrap();
    db.facture_from_devis(20240601, 2024, 6).unwrap();
    db.facture_from_devis(20240602, 2024, 6).unwrap();
    let found = db.get_factures_from_item(1);
    assert_eq!(found.len(), 1);
    assert_eq!(found[0].id, 20240601);
    assert_eq!(found[0].quantite, 3);
    assert_eq!(found[0].duree, 2);
    assert_eq!(found[0].date, "2024-06-01");
    assert_eq!(db.get_factures_from_item(3).len(), 0);
}

#[test]
fn catalog_changes_need_capability() {
    let (mut db, _it) = store_with_item(10);
    assert_eq!(db.add_item(item(0, "Micro", 4), false), Err(StoreError::Unauthorized));
    assert_eq!(db.update_item(item(1, "Autre", 4), false), Err(StoreError::Unauthorized));
    assert_eq!(db.delete_item(1, false), Err(StoreError::Unauthorized));
    assert_eq!(db.get_materiel_data().len(), 1);
    assert_eq!(db.get_item_data(1).unwrap().nom, "Enceinte");
}

#[test]
fn catalog_add_update_delete() {
    let (mut db, _it) = store_with_item(10);
    assert_eq!(db.add_item(item(77, "Micro", 4), true), Ok(2));
    let mic = db.get_item_data(2).unwrap();
    assert_eq!(mic.nb_sorties, 0);
    assert_eq!(mic.benef, 0);
    assert_eq!(mic.contribution, 5.0f32.to_bits());
    assert_eq!(db.update_item(item(2, "Micro HF", 6), true), Ok("Objet modifié".to_string()));
    assert_eq!(db.get_item_data(2).unwrap().total, 6);
    assert_eq!(db.update_item(item(5, "Rien", 6), true), Err(StoreError::NotFound(5)));
    assert_eq!(db.delete_item(1, true), Ok("Objet supprimé".to_string()));
    assert_eq!(db.get_item_data(1).err(), Some(StoreError::NotFound(1)));
    assert_eq!(db.delete_item(1, true), Err(StoreError::NotFound(1)));
    assert_eq!(db.add_item(item(0, "Pied", 2), true), Ok(3));
    let all = db.get_materiel_data();
    assert_eq!(all.len(), 2);
    assert_eq!(all[0].id, 2);
    assert_eq!(all[1].id, 3);
}

#[test]
fn well_formed_store_is_recognised() {
    let (mut db, it) = store_with_item(10);
    db.save_devis(&doc(0, "2024-06-01", "draft", vec![line(&it, 1, 1, "draft")], vec![]), 2024, 6).unwrap();
    assert!(db.is_well_formed());
    assert!(Database::new().is_well_formed());
}

#[test]
fn broken_stores_are_recognised() {
    let (mut db, it) = store_with_item(10);
    db.save_devis(&doc(0, "2024-06-01", "draft", vec![line(&it, 1, 1, "draft")], vec![]), 2024, 6).unwrap();
    db.save_devis(&doc(0, "2024-06-01", "draft", vec![], vec![]), 2024, 6).unwrap();
    let mut twice = db.get_client_infos();
    twice.push(client("Durand", "Fete", "0"));
    twice[1].id = 9;
    let mut bad_clients = Database::new();
    bad_clients.clients = twice;
    assert!(!bad_clients.is_well_formed());
    db.quotes[1].header.id = db.quotes[0].header.id;
    assert!(!db.is_well_formed());
    db.quotes[1].header.id = 1;
    assert!(db.is_well_formed());
    db.quotes[0].lines[0].quantite = -2;
    assert!(!db.is_well_formed());
    let mut items = Database::new();
    items.items = vec![item(1, "A", 1), item(1, "B", 1)];
    assert!(!items.is_well_formed());
}

#[test]
fn save_refuses_malformed_date() {
    let (mut db, it) = store_with_item(10);
    let bad = doc(0, "01/06/2024", "validee", vec![line(&it, 1, 1, "validee")], vec![]);
    assert_eq!(db.save_devis(&bad, 2024, 6), Err(StoreError::InvalidDate));
    let impossible = doc(0, "2024-02-30", "validee", vec![line(&it, 1, 1, "validee")], vec![]);
    assert_eq!(db.save_devis(&impossible, 2024, 6), Err(StoreError::InvalidDate));
    // the date is refused before the line items are looked at
    let both = doc(0, "", "draft", vec![line(&it, 99, 1, "draft")], vec![]);
    assert_eq!(db.save_devis(&both, 2024, 6), Err(StoreError::InvalidDate));
    assert_eq!(db.quotes.len(), 0);
    assert_eq!(db.clients.len(), 0);
}

#[test]
fn invoices_of_item_newest_first() {
    let (mut db, it) = store_with_item(10);
    for date in ["2024-06-03", "2024-06-10", "2024-05-28", "2024-06-10", "2024-06-01"] {
        db.save_devis(&doc(0, date, "validee", vec![line(&it, 1, 1, "validee")], vec![]), 2024, 6).unwrap();
    }
    for q in 20240601..=20240605i64 {
        db.facture_from_devis(q, 2024, 6).unwrap();
    }
    let found = db.get_factures_from_item(1);
    let dates: Vec<&str> = found.iter().map(|f| f.date.as_str()).collect();
    assert_eq!(dates, vec!["2024-06-10", "2024-06-10", "2024-06-03", "2024-06-01", "2024-05-28"]);
    // invoices of the same date keep the table's order
    assert_eq!(found[0].id, 20240602);
    assert_eq!(found[1].id, 20240604);
}

#[test]
fn reading_needs_only_unique_keys() {
    let (mut db, it) = store_with_item(10);
    db.save_devis(&doc(0, "2024-06-01", "draft", vec![line(&it, 1, 1, "draft")], vec![]), 2024, 6).unwrap();
    assert!(db.has_unique_keys());
    assert!(db.quote_quantities_nonneg());
    db.quotes[0].lines[0].quantite = -1;
    assert!(db.has_unique_keys());
    assert!(!db.quote_quantities_nonneg());
    assert!(!db.is_well_formed());
    assert_eq!(db.load_devis(20240601).unwrap().items[0].quantite, -1);
    let mut twice = db.get_client_infos();
    twice.push(client("Durand", "Fete", "0"));
    twice[1].id = 9;
    db.clients = twice;
    assert!(db.has_unique_keys());
    twice = db.get_client_infos();
    twice[1].id = 1;
    db.clients = twice;
    assert!(!db.has_unique_keys());
}
