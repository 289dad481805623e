//! Checking the store's invariant on rows read from outside.
use vstd::prelude::*;
use crate::model::{Client, DocRecord, Item};
use crate::store::{Database, keys_unique, lines_nonneg, wf};
use crate::tables::{
    client_ids_unique, client_names_unique, doc_ids_unique, item_ids_unique, same_client,
    table_view,
};

verus! {

/// No two positions of `s` hold the same key.
pub open spec fn distinct(s: Seq<i32>) -> bool {
    forall|i: int, j: int|
        #![trigger s[i], s[j]]
        0 <= i < s.len() && 0 <= j < s.len() && i != j ==> s[i] != s[j]
}

fn all_distinct(s: &Vec<i32>) -> (r: bool)
    ensures
        r == distinct(s@),
{
    let n = s.len();
    let mut i: usize = 0;
    while i < n
        invariant
            n == s@.len(),
            0 <= i <= n,
            forall|a: int, b: int|
                #![trigger s@[a], s@[b]]
                0 <= a < i && 0 <= b < n && a != b ==> s@[a] != s@[b],
        decreases n - i,
    {
        let mut j: usize = 0;
        while j < n
            invariant
                n == s@.len(),
                0 <= i < n,
                0 <= j <= n,
                forall|a: int, b: int|
                    #![trigger s@[a], s@[b]]
                    0 <= a < i && 0 <= b < n && a != b ==> s@[a] != s@[b],
                forall|b: int| 0 <= b < j && b != i ==> s@[i as int] != #[trigger] s@[b],
            decreases n - j,
        {
            if j != i && s[i] == s[j] {
                proof {
                    assert(s@[i as int] == s@[j as int]);
                }
                return false;
            }
            j = j + 1;
        }
        i = i + 1;
    }
    true
}

fn doc_ids_distinct(t: &Vec<DocRecord>) -> (r: bool)
    ensures
        r == doc_ids_unique(table_view(t@)),
{
    let mut keys: Vec<i32> = Vec::new();
    let mut i: usize = 0;
    while i < t.len()
        invariant
            0 <= i <= t@.len(),
            keys@.len() == i,
            forall|k: int| 0 <= k < i ==> #[trigger] keys@[k] == t@[k].header.id,
        decreases t@.len() - i,
    {
        keys.push(t[i].header.id);
        i = i + 1;
    }
    let r = all_distinct(&keys);
    proof {
        let tv = table_view(t@);
        if r {
            assert forall|a: int, b: int| 0 <= a < tv.len() && 0 <= b < tv.len() && a != b implies
                #[trigger] tv[a].header.id != #[trigger] tv[b].header.id by {
                assert(keys@[a] != keys@[b]);
            }
        } else {
            assert forall|a: int, b: int| 0 <= a < keys@.len() && 0 <= b < keys@.len() && a != b
                && doc_ids_unique(tv) implies #[trigger] keys@[a] != #[trigger] keys@[b] by {
                assert(tv[a].header.id != tv[b].header.id);
            }
        }
    }
    r
}

fn item_ids_distinct(s: &Vec<Item>) -> (r: bool)
    ensures
        r == item_ids_unique(s@),
{
    let mut keys: Vec<i32> = Vec::new();
    let mut i: usize = 0;
    while i < s.len()
        invariant
            0 <= i <= s@.len(),
            keys@.len() == i,
            forall|k: int| 0 <= k < i ==> #[trigger] keys@[k] == s@[k].id,
        decreases s@.len() - i,
    {
        keys.push(s[i].id);
        i = i + 1;
    }
    let r = all_distinct(&keys);
    proof {
        if r {
            assert forall|a: int, b: int| 0 <= a < s@.len() && 0 <= b < s@.len() && a != b implies
                #[trigger] s@[a].id != #[trigger] s@[b].id by {
                assert(keys@[a] != keys@[b]);
            }
        } else {
            assert forall|a: int, b: int| 0 <= a < keys@.len() && 0 <= b < keys@.len() && a != b
                && item_ids_unique(s@) implies #[trigger] keys@[a] != #[trigger] keys@[b] by {
                assert(s@[a].id != s@[b].id);
            }
        }
    }
    r
}

fn client_ids_distinct(s: &Vec<Client>) -> (r: bool)
    ensures
        r == client_ids_unique(s@),
{
    let mut keys: Vec<i32> = Vec::new();
    let mut i: usize = 0;
    while i < s.len()
        invariant
            0 <= i <= s@.len(),
            keys@.len() == i,
            forall|k: int| 0 <= k < i ==> #[trigger] keys@[k] == s@[k].id,
        decreases s@.len() - i,
    {
        keys.push(s[i].id);
        i = i + 1;
    }
    let r = all_distinct(&keys);
    proof {
        if r {
            assert forall|a: int, b: int| 0 <= a < s@.len() && 0 <= b < s@.len() && a != b implies
                #[trigger] s@[a].id != #[trigger] s@[b].id by {
                assert(keys@[a] != keys@[b]);
            }
        } else {
            assert forall|a: int, b: int| 0 <= a < keys@.len() && 0 <= b < keys@.len() && a != b
                && client_ids_unique(s@) implies #[trigger] keys@[a] != #[trigger] keys@[b] by {
                assert(s@[a].id != s@[b].id);
            }
        }
    }
    r
}

fn client_names_distinct(s: &Vec<Client>) -> (r: bool)
    ensures
        r == client_names_unique(s@),
{
    let n = s.len();
    let mut i: usize = 0;
    while i < n
        invariant
            n == s@.len(),
            0 <= i <= n,
            forall|a: int, b: int|
                #![trigger s@[a], s@[b]]
                0 <= a < i && 0 <= b < n && a != b ==> !same_client(s@[a], s@[b]),
        decreases n - i,
    {
        let mut j: usize = 0;
        while j < n
            invariant
                n == s@.len(),
                0 <= i < n,
                0 <= j <= n,
                forall|a: int, b: int|
                    #![trigger s@[a], s@[b]]
                    0 <= a < i && 0 <= b < n && a != b ==> !same_client(s@[a], s@[b]),
                forall|b: int| 0 <= b < j && b != i ==> !same_client(s@[i as int], #[trigger] s@[b]),
            decreases n - j,
        {
            if j != i && s[i].nom == s[j].nom && s[i].evenement == s[j].evenement {
                proof {
                    assert(same_client(s@[i as int], s@[j as int]));
                }
                return false;
            }
            j = j + 1;
        }
        i = i + 1;
    }
    true
}

fn quantities_ok(t: &Vec<DocRecord>) -> (r: bool)
    ensures
        r == lines_nonneg(table_view(t@)),
{
    let ghost tv = table_view(t@);
    let mut i: usize = 0;
    while i < t.len()
        invariant
            0 <= i <= t@.len(),
            tv == table_view(t@),
            forall|a: int, k: int| 0 <= a < i && 0 <= k < tv[a].lines.len() ==> #[trigger] tv[a].lines[k].quantite >= 0,
        decreases t@.len() - i,
    {
        let rec = &t[i];
        let mut j: usize = 0;
        while j < rec.lines.len()
            invariant
                0 <= i < t@.len(),
                rec == &t@[i as int],
                tv == table_view(t@),
                0 <= j <= rec.lines@.len(),
                forall|a: int, k: int| 0 <= a < i && 0 <= k < tv[a].lines.len() ==> #[trigger] tv[a].lines[k].quantite >= 0,
                forall|k: int| 0 <= k < j ==> #[trigger] tv[i as int].lines[k].quantite >= 0,
            decreases rec.lines@.len() - j,
        {
            if rec.lines[j].quantite < 0 {
                proof {
                    assert(tv[i as int].lines[j as int].quantite < 0);
                }
                return false;
            }
            j = j + 1;
        }
        i = i + 1;
    }
    true
}

impl Database {
    /// Whether keys are unique in every table, all that reading the store
    /// asks for.
    pub fn has_unique_keys(&self) -> (r: bool)
        ensures
            r == keys_unique(self@),
    {
        doc_ids_distinct(&self.quotes) && doc_ids_distinct(&self.invoices) && item_ids_distinct(
            &self.items,
        ) && client_ids_distinct(&self.clients)
    }

    /// Whether no stored quote line reserves a negative quantity, which
    /// availability asks for.
    pub fn quote_quantities_nonneg(&self) -> (r: bool)
        ensures
            r == lines_nonneg(self@.quotes),
    {
        quantities_ok(&self.quotes)
    }

    /// Whether the store meets its invariant: unique keys in every table, a
    /// client named once, no negative reserved quantity.
    pub fn is_well_formed(&self) -> (r: bool)
        ensures
            r == wf(self@),
    {
        doc_ids_distinct(&self.quotes) && doc_ids_distinct(&self.invoices) && quantities_ok(&self.quotes)
            && quantities_ok(&self.invoices) && item_ids_distinct(&self.items) && client_ids_distinct(
            &self.clients,
        ) && client_names_distinct(&self.clients)
    }
}

} // verus!
