//! The item catalog: reads for everyone, changes only with the capability.
use vstd::prelude::*;
use crate::model::Item;
use crate::store::{Database, DbView, StoreError, keys_unique, wf};
use crate::tables::{
    find_item, has_item, highest_item_id, item_index, item_keys, lemma_item_at, lemma_max_of,
    max_of, next_row_id,
};

verus! {

/// The row that adding `item` under identifier `id` creates: the item's
/// name, type, total, value and margin, with no rental and no profit yet.
pub open spec fn new_item_row(item: Item, id: i32) -> Item {
    Item { id, nb_sorties: 0, benef: 0, ..item }
}

impl Database {
    /// Every catalog item.
    pub fn get_materiel_data(&self) -> (r: Vec<Item>)
        ensures
            r@ == self@.items,
    {
        let mut out: Vec<Item> = Vec::new();
        let mut i: usize = 0;
        while i < self.items.len()
            invariant
                0 <= i <= self.items@.len(),
                out@ == self.items@.take(i as int),
            decreases self.items@.len() - i,
        {
            out.push(self.items[i].copied());
            proof {
                assert(out@ =~= self.items@.take(i + 1));
            }
            i = i + 1;
        }
        proof {
            assert(self.items@.take(self.items@.len() as int) =~= self.items@);
        }
        out
    }

    /// The catalog item `id`.
    pub fn get_item_data(&self, id: i32) -> (r: Result<Item, StoreError>)
        requires
            keys_unique(self@),
        ensures
            has_item(self@.items, id) ==> r == Ok::<Item, StoreError>(self@.items[item_index(self@.items, id)]),
            !has_item(self@.items, id) ==> r == Err::<Item, StoreError>(StoreError::NotFound(id as i64)),
    {
        match find_item(&self.items, id) {
            None => Err(StoreError::NotFound(id as i64)),
            Some(k) => {
                proof {
                    lemma_item_at(self@.items, k as int);
                }
                Ok(self.items[k].copied())
            },
        }
    }

    /// Replaces the catalog row of `item.id` by `item`.
    pub fn update_item(&mut self, item: Item, authorized: bool) -> (r: Result<String, StoreError>)
        requires
            wf(old(self)@),
        ensures
            wf(final(self)@),
            !authorized ==> r == Err::<String, StoreError>(StoreError::Unauthorized) && final(self)@ == old(self)@,
            authorized && !has_item(old(self)@.items, item.id) ==> r == Err::<String, StoreError>(
                StoreError::NotFound(item.id as i64),
            ) && final(self)@ == old(self)@,
            authorized && has_item(old(self)@.items, item.id) ==> r is Ok && final(self)@ == (DbView {
                items: old(self)@.items.update(item_index(old(self)@.items, item.id), item),
                ..old(self)@
            }),
    {
        if !authorized {
            return Err(StoreError::Unauthorized);
        }
        match find_item(&self.items, item.id) {
            None => Err(StoreError::NotFound(item.id as i64)),
            Some(k) => {
                let ghost v0 = self@;
                proof {
                    lemma_item_at(v0.items, k as int);
                }
                self.items.set(k, item);
                proof {
                    let u = self@.items;
                    assert(u =~= v0.items.update(k as int, item));
                    assert forall|i: int, j: int| 0 <= i < u.len() && 0 <= j < u.len() && i != j implies
                        #[trigger] u[i].id != #[trigger] u[j].id by {
                        assert(u[i].id == v0.items[i].id && u[j].id == v0.items[j].id);
                    }
                }
                Ok(String::from_str("Objet modifié"))
            },
        }
    }

    /// Adds `item` to the catalog under a new identifier, one above the
    /// highest, and returns it.
    pub fn add_item(&mut self, item: Item, authorized: bool) -> (r: Result<i64, StoreError>)
        requires
            wf(old(self)@),
        ensures
            wf(final(self)@),
            !authorized ==> r == Err::<i64, StoreError>(StoreError::Unauthorized) && final(self)@ == old(self)@,
            authorized && max_of(item_keys(old(self)@.items)) == Some(i32::MAX) ==> r == Err::<i64, StoreError>(
                StoreError::TableFull,
            ) && final(self)@ == old(self)@,
            authorized && max_of(item_keys(old(self)@.items)) != Some(i32::MAX) ==> {
                let id = next_row_id(item_keys(old(self)@.items));
                &&& r == Ok::<i64, StoreError>(id as i64)
                &&& final(self)@ == (DbView {
                    items: old(self)@.items.push(new_item_row(item, id as i32)),
                    ..old(self)@
                })
            },
    {
        if !authorized {
            return Err(StoreError::Unauthorized);
        }
        let id: i32 = match highest_item_id(&self.items) {
            None => 1,
            Some(m) => {
                if m == i32::MAX {
                    return Err(StoreError::TableFull);
                }
                m + 1
            },
        };
        let ghost v0 = self@;
        proof {
            lemma_max_of(item_keys(v0.items));
            assert forall|j: int| 0 <= j < v0.items.len() implies #[trigger] v0.items[j].id < id by {
                assert(item_keys(v0.items)[j] == v0.items[j].id);
            }
        }
        let row = Item {
            id,
            nom: item.nom,
            item_type: item.item_type,
            total: item.total,
            valeur: item.valeur,
            contribution: item.contribution,
            nb_sorties: 0,
            benef: 0,
        };
        self.items.push(row);
        proof {
            let u = self@.items;
            assert forall|i: int, j: int| 0 <= i < u.len() && 0 <= j < u.len() && i != j implies
                #[trigger] u[i].id != #[trigger] u[j].id by {
                if i < v0.items.len() {
                    assert(u[i] == v0.items[i]);
                }
                if j < v0.items.len() {
                    assert(u[j] == v0.items[j]);
                }
            }
        }
        Ok(id as i64)
    }

    /// Removes the catalog item `id`.
    pub fn delete_item(&mut self, id: i32, authorized: bool) -> (r: Result<String, StoreError>)
        requires
            wf(old(self)@),
        ensures
            wf(final(self)@),
            !authorized ==> r == Err::<String, StoreError>(StoreError::Unauthorized) && final(self)@ == old(self)@,
            authorized && !has_item(old(self)@.items, id) ==> r == Err::<String, StoreError>(
                StoreError::NotFound(id as i64),
            ) && final(self)@ == old(self)@,
            authorized && has_item(old(self)@.items, id) ==> r is Ok && final(self)@ == (DbView {
                items: old(self)@.items.remove(item_index(old(self)@.items, id)),
                ..old(self)@
            }),
    {
        if !authorized {
            return Err(StoreError::Unauthorized);
        }
        match find_item(&self.items, id) {
            None => Err(StoreError::NotFound(id as i64)),
            Some(k) => {
                let ghost v0 = self@;
                proof {
                    lemma_item_at(v0.items, k as int);
                }
                let _gone = self.items.remove(k);
                proof {
                    let u = self@.items;
                    assert forall|i: int, j: int| 0 <= i < u.len() && 0 <= j < u.len() && i != j implies
                        #[trigger] u[i].id != #[trigger] u[j].id by {
                        let a = if i < k { i } else { i + 1 };
                        let b = if j < k { j } else { j + 1 };
                        assert(u[i] == v0.items[a] && u[j] == v0.items[b]);
                    }
                }
                Ok(String::from_str("Objet supprimé"))
            },
        }
    }
}

} // verus!
