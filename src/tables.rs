//! Tables as sequences of rows: lookups by key, the highest key, and the
//! uniqueness of keys.
use vstd::prelude::*;
use crate::model::{Client, Devis, DocRecord, ExtraCharge, Item, LineItem};

verus! {

/// A stored document as a value: header, line items and extra charges.
pub ghost struct DocView {
    pub header: Devis,
    pub lines: Seq<LineItem>,
    pub extras: Seq<ExtraCharge>,
}

impl View for DocRecord {
    type V = DocView;

    open spec fn view(&self) -> DocView {
        DocView { header: self.header, lines: self.lines@, extras: self.extras@ }
    }
}

/// A document table as values.
pub open spec fn table_view(t: Seq<DocRecord>) -> Seq<DocView> {
    t.map_values(|r: DocRecord| r@)
}

/// The largest value of `s`, `None` when `s` is empty.
pub open spec fn max_of(s: Seq<i32>) -> Option<i32>
    decreases s.len(),
{
    if s.len() == 0 {
        None
    } else {
        match max_of(s.drop_last()) {
            None => Some(s.last()),
            Some(m) => Some(if m < s.last() { s.last() } else { m }),
        }
    }
}

pub proof fn lemma_max_of(s: Seq<i32>)
    ensures
        max_of(s) is None <==> s.len() == 0,
        max_of(s) matches Some(m) ==> (forall|i: int| 0 <= i < s.len() ==> s[i] <= m),
        max_of(s) matches Some(m) ==> (exists|i: int| 0 <= i < s.len() && s[i] == m),
    decreases s.len(),
{
    if s.len() > 0 {
        let p = s.drop_last();
        lemma_max_of(p);
        assert forall|i: int| 0 <= i < p.len() implies p[i] == s[i] by {}
        if p.len() > 0 {
            let j = choose|j: int| 0 <= j < p.len() && p[j] == max_of(p)->Some_0;
            assert(s[j] == p[j]);
        }
        assert(s[s.len() - 1] == s.last());
    }
}

/// The identifier that a new row of a table with keys `ids` receives: one
/// more than the highest, 1 for an empty table.
pub open spec fn next_row_id(ids: Seq<i32>) -> int {
    match max_of(ids) {
        None => 1,
        Some(m) => m + 1,
    }
}

// ---- documents ----

pub open spec fn doc_keys(t: Seq<DocView>) -> Seq<i32> {
    t.map_values(|d: DocView| d.header.id)
}

pub open spec fn doc_ids_unique(t: Seq<DocView>) -> bool {
    forall|i: int, j: int|
        #![trigger t[i], t[j]]
        0 <= i < t.len() && 0 <= j < t.len() && i != j ==> t[i].header.id != t[j].header.id
}

pub open spec fn has_doc(t: Seq<DocView>, id: i32) -> bool {
    exists|i: int| 0 <= i < t.len() && #[trigger] t[i].header.id == id
}

pub open spec fn doc_index(t: Seq<DocView>, id: i32) -> int {
    choose|i: int| 0 <= i < t.len() && #[trigger] t[i].header.id == id
}

/// The document of identifier `id`, if the table holds one.
pub open spec fn lookup(t: Seq<DocView>, id: i32) -> Option<DocView> {
    if has_doc(t, id) {
        Some(t[doc_index(t, id)])
    } else {
        None
    }
}

pub proof fn lemma_lookup_at(t: Seq<DocView>, k: int)
    requires
        doc_ids_unique(t),
        0 <= k < t.len(),
    ensures
        has_doc(t, t[k].header.id),
        doc_index(t, t[k].header.id) == k,
        lookup(t, t[k].header.id) == Some(t[k]),
{
    assert(t[k].header.id == t[k].header.id);
    let j = doc_index(t, t[k].header.id);
    assert(t[j].header.id == t[k].header.id);
}

/// Every key of a table is below `id`.
pub open spec fn all_below(t: Seq<DocView>, id: i32) -> bool {
    forall|i: int| 0 <= i < t.len() ==> #[trigger] t[i].header.id < id
}

/// Where the document `id` stands in `t`.
pub fn find_doc(t: &Vec<DocRecord>, id: i32) -> (r: Option<usize>)
    ensures
        r matches Some(k) ==> k < t@.len() && t@[k as int].header.id == id,
        r is None ==> !has_doc(table_view(t@), id),
{
    let mut i: usize = 0;
    while i < t.len()
        invariant
            0 <= i <= t@.len(),
            forall|j: int| 0 <= j < i ==> #[trigger] t@[j].header.id != id,
        decreases t@.len() - i,
    {
        if t[i].header.id == id {
            return Some(i);
        }
        i = i + 1;
    }
    proof {
        let tv = table_view(t@);
        assert forall|j: int| 0 <= j < tv.len() implies #[trigger] tv[j].header.id != id by {
            assert(t@[j].header.id != id);
        }
    }
    None
}

/// The highest document identifier of a table.
pub fn highest_doc_id(t: &Vec<DocRecord>) -> (r: Option<i32>)
    ensures
        r == max_of(doc_keys(table_view(t@))),
{
    let mut m: Option<i32> = None;
    let mut i: usize = 0;
    while i < t.len()
        invariant
            0 <= i <= t@.len(),
            m == max_of(doc_keys(table_view(t@.take(i as int)))),
        decreases t@.len() - i,
    {
        let id = t[i].header.id;
        proof {
            let a = doc_keys(table_view(t@.take(i + 1)));
            let b = doc_keys(table_view(t@.take(i as int)));
            assert(a.drop_last() =~= b);
            assert(a.last() == id);
        }
        m = match m {
            None => Some(id),
            Some(x) => Some(if x < id { id } else { x }),
        };
        i = i + 1;
    }
    proof {
        assert(t@.take(t@.len() as int) =~= t@);
    }
    m
}

// ---- catalog items ----

pub open spec fn item_keys(s: Seq<Item>) -> Seq<i32> {
    s.map_values(|it: Item| it.id)
}

pub open spec fn item_ids_unique(s: Seq<Item>) -> bool {
    forall|i: int, j: int|
        #![trigger s[i], s[j]]
        0 <= i < s.len() && 0 <= j < s.len() && i != j ==> s[i].id != s[j].id
}

pub open spec fn has_item(s: Seq<Item>, id: i32) -> bool {
    exists|i: int| 0 <= i < s.len() && #[trigger] s[i].id == id
}

pub open spec fn item_index(s: Seq<Item>, id: i32) -> int {
    choose|i: int| 0 <= i < s.len() && #[trigger] s[i].id == id
}

pub proof fn lemma_item_at(s: Seq<Item>, k: int)
    requires
        item_ids_unique(s),
        0 <= k < s.len(),
    ensures
        has_item(s, s[k].id),
        item_index(s, s[k].id) == k,
{
    assert(s[k].id == s[k].id);
    let j = item_index(s, s[k].id);
    assert(s[j].id == s[k].id);
}

/// Where the item `id` stands in the catalog.
pub fn find_item(s: &Vec<Item>, id: i32) -> (r: Option<usize>)
    ensures
        r matches Some(k) ==> k < s@.len() && s@[k as int].id == id,
        r is None ==> !has_item(s@, id),
{
    let mut i: usize = 0;
    while i < s.len()
        invariant
            0 <= i <= s@.len(),
            forall|j: int| 0 <= j < i ==> #[trigger] s@[j].id != id,
        decreases s@.len() - i,
    {
        if s[i].id == id {
            return Some(i);
        }
        i = i + 1;
    }
    None
}

/// The highest item identifier of the catalog.
pub fn highest_item_id(s: &Vec<Item>) -> (r: Option<i32>)
    ensures
        r == max_of(item_keys(s@)),
{
    let mut m: Option<i32> = None;
    let mut i: usize = 0;
    while i < s.len()
        invariant
            0 <= i <= s@.len(),
            m == max_of(item_keys(s@.take(i as int))),
        decreases s@.len() - i,
    {
        let id = s[i].id;
        proof {
            let a = item_keys(s@.take(i + 1));
            assert(a.drop_last() =~= item_keys(s@.take(i as int)));
            assert(a.last() == id);
        }
        m = match m {
            None => Some(id),
            Some(x) => Some(if x < id { id } else { x }),
        };
        i = i + 1;
    }
    proof {
        assert(s@.take(s@.len() as int) =~= s@);
    }
    m
}

// ---- clients ----

pub open spec fn client_keys(s: Seq<Client>) -> Seq<i32> {
    s.map_values(|c: Client| c.id)
}

pub open spec fn client_ids_unique(s: Seq<Client>) -> bool {
    forall|i: int, j: int|
        #![trigger s[i], s[j]]
        0 <= i < s.len() && 0 <= j < s.len() && i != j ==> s[i].id != s[j].id
}

pub open spec fn has_client(s: Seq<Client>, id: i32) -> bool {
    exists|i: int| 0 <= i < s.len() && #[trigger] s[i].id == id
}

pub open spec fn client_index(s: Seq<Client>, id: i32) -> int {
    choose|i: int| 0 <= i < s.len() && #[trigger] s[i].id == id
}

pub proof fn lemma_client_at(s: Seq<Client>, k: int)
    requires
        client_ids_unique(s),
        0 <= k < s.len(),
    ensures
        has_client(s, s[k].id),
        client_index(s, s[k].id) == k,
{
    assert(s[k].id == s[k].id);
    let j = client_index(s, s[k].id);
    assert(s[j].id == s[k].id);
}

/// Two client rows name the same client: same name and same event.
pub open spec fn same_client(a: Client, b: Client) -> bool {
    a.nom@ == b.nom@ && a.evenement@ == b.evenement@
}

pub open spec fn client_names_unique(s: Seq<Client>) -> bool {
    forall|i: int, j: int|
        #![trigger s[i], s[j]]
        0 <= i < s.len() && 0 <= j < s.len() && i != j ==> !same_client(s[i], s[j])
}

pub open spec fn has_named(s: Seq<Client>, c: Client) -> bool {
    exists|i: int| 0 <= i < s.len() && same_client(#[trigger] s[i], c)
}

pub open spec fn named_index(s: Seq<Client>, c: Client) -> int {
    choose|i: int| 0 <= i < s.len() && same_client(#[trigger] s[i], c)
}

pub proof fn lemma_named_at(s: Seq<Client>, k: int, c: Client)
    requires
        client_names_unique(s),
        0 <= k < s.len(),
        same_client(s[k], c),
    ensures
        has_named(s, c),
        named_index(s, c) == k,
{
    let j = named_index(s, c);
    assert(same_client(s[j], c));
}

/// Where the client with the id `id` stands.
pub fn find_client(s: &Vec<Client>, id: i32) -> (r: Option<usize>)
    ensures
        r matches Some(k) ==> k < s@.len() && s@[k as int].id == id,
        r is None ==> !has_client(s@, id),
{
    let mut i: usize = 0;
    while i < s.len()
        invariant
            0 <= i <= s@.len(),
            forall|j: int| 0 <= j < i ==> #[trigger] s@[j].id != id,
        decreases s@.len() - i,
    {
        if s[i].id == id {
            return Some(i);
        }
        i = i + 1;
    }
    None
}

/// Where the client with the name and event of `c` stands.
pub fn find_named(s: &Vec<Client>, c: &Client) -> (r: Option<usize>)
    ensures
        r matches Some(k) ==> k < s@.len() && same_client(s@[k as int], *c),
        r is None ==> !has_named(s@, *c),
{
    let mut i: usize = 0;
    while i < s.len()
        invariant
            0 <= i <= s@.len(),
            forall|j: int| 0 <= j < i ==> !same_client(#[trigger] s@[j], *c),
        decreases s@.len() - i,
    {
        if s[i].nom == c.nom && s[i].evenement == c.evenement {
            return Some(i);
        }
        i = i + 1;
    }
    None
}

/// The highest client identifier.
pub fn highest_client_id(s: &Vec<Client>) -> (r: Option<i32>)
    ensures
        r == max_of(client_keys(s@)),
{
    let mut m: Option<i32> = None;
    let mut i: usize = 0;
    while i < s.len()
        invariant
            0 <= i <= s@.len(),
            m == max_of(client_keys(s@.take(i as int))),
        decreases s@.len() - i,
    {
        let id = s[i].id;
        proof {
            let a = client_keys(s@.take(i + 1));
            assert(a.drop_last() =~= client_keys(s@.take(i as int)));
            assert(a.last() == id);
        }
        m = match m {
            None => Some(id),
            Some(x) => Some(if x < id { id } else { x }),
        };
        i = i + 1;
    }
    proof {
        assert(s@.take(s@.len() as int) =~= s@);
    }
    m
}

} // verus!
