use vstd::prelude::*;

verus! {

/// A stored product row.
pub struct Product {
    pub id: i32,
    pub uuid: u128,
    pub title: String,
    pub body: String,
    pub img: String,
    pub duration: i32,
    pub kind: String,
    pub user_id: i32,
}

/// The caller-supplied fields of a product, keyed by its external identifier.
pub struct NewProduct {
    pub title: String,
    pub body: String,
    pub img: String,
    pub duration: i32,
    pub kind: String,
    pub user_id: i32,
    pub uuid: u128,
}

pub struct ProductView {
    pub id: i32,
    pub uuid: u128,
    pub title: Seq<char>,
    pub body: Seq<char>,
    pub img: Seq<char>,
    pub duration: i32,
    pub kind: Seq<char>,
    pub user_id: i32,
}

pub struct NewProductView {
    pub title: Seq<char>,
    pub body: Seq<char>,
    pub img: Seq<char>,
    pub duration: i32,
    pub kind: Seq<char>,
    pub user_id: i32,
    pub uuid: u128,
}

impl View for Product {
    type V = ProductView;

    open spec fn view(&self) -> ProductView {
        ProductView {
            id: self.id,
            uuid: self.uuid,
            title: self.title@,
            body: self.body@,
            img: self.img@,
            duration: self.duration,
            kind: self.kind@,
            user_id: self.user_id,
        }
    }
}

impl View for NewProduct {
    type V = NewProductView;

    open spec fn view(&self) -> NewProductView {
        NewProductView {
            title: self.title@,
            body: self.body@,
            img: self.img@,
            duration: self.duration,
            kind: self.kind@,
            user_id: self.user_id,
            uuid: self.uuid,
        }
    }
}

impl Product {
    /// A field-by-field copy.
    pub fn duplicate(&self) -> (r: Product)
        ensures
            r == *self,
    {
        Product {
            id: self.id,
            uuid: self.uuid,
            title: self.title.clone(),
            body: self.body.clone(),
            img: self.img.clone(),
            duration: self.duration,
            kind: self.kind.clone(),
            user_id: self.user_id,
        }
    }
}

/// Why a catalog operation did not take effect.
#[derive(PartialEq, Eq, Structural, Debug, Clone, Copy)]
pub enum StoreError {
    /// No product has the given external identifier.
    NotFound,
    /// The external identifier is already taken.
    Conflict,
    /// The internal id sequence is used up.
    Exhausted,
}

/// Product rows and their (product id, tag id) association rows.
pub struct CatalogStore {
    products: Vec<Product>,
    links: Vec<(i32, i32)>,
    next_id: i32,
}

pub struct CatalogView {
    pub rows: Seq<ProductView>,
    pub links: Set<(i32, i32)>,
    pub next_id: i32,
}

impl View for CatalogStore {
    type V = CatalogView;

    closed spec fn view(&self) -> CatalogView {
        CatalogView {
            rows: self.products@.map_values(|p: Product| p@),
            links: Set::new(|l: (i32, i32)| self.links@.contains(l)),
            next_id: self.next_id,
        }
    }
}

/// The association rows that tie product `id` to each tag of `tags`.
pub open spec fn links_for(id: i32, tags: Seq<i32>) -> Set<(i32, i32)> {
    Set::new(|l: (i32, i32)| l.0 == id && tags.contains(l.1))
}

/// The tag ids associated with product `id`.
pub open spec fn tag_set(s: CatalogView, id: i32) -> Set<i32> {
    Set::new(|t: i32| s.links.contains((id, t)))
}

pub open spec fn has_uuid(s: CatalogView, uuid: u128) -> bool {
    exists|i: int| 0 <= i < s.rows.len() && s.rows[i].uuid == uuid
}

/// The row position of the product with external identifier `uuid`.
pub open spec fn position(s: CatalogView, uuid: u128) -> int {
    choose|i: int| 0 <= i < s.rows.len() && s.rows[i].uuid == uuid
}

/// The product with external identifier `uuid`, if any.
pub open spec fn lookup(s: CatalogView, uuid: u128) -> Option<ProductView> {
    if has_uuid(s, uuid) {
        Some(s.rows[position(s, uuid)])
    } else {
        None
    }
}

/// The row that `np` becomes under internal id `id`.
pub open spec fn row_of(np: NewProductView, id: i32) -> ProductView {
    ProductView {
        id,
        uuid: np.uuid,
        title: np.title,
        body: np.body,
        img: np.img,
        duration: np.duration,
        kind: np.kind,
        user_id: np.user_id,
    }
}

pub open spec fn wf(s: CatalogView) -> bool {
    &&& s.next_id >= 0
    &&& forall|i: int| 0 <= i < s.rows.len() ==> 0 <= #[trigger] s.rows[i].id < s.next_id
    &&& forall|l: (i32, i32)| #[trigger] s.links.contains(l) ==> l.0 < s.next_id
    &&& forall|i: int, j: int|
        0 <= i < s.rows.len() && 0 <= j < s.rows.len() && i != j ==> s.rows[i].uuid
            != s.rows[j].uuid && s.rows[i].id != s.rows[j].id
}

/// The store after `np` is inserted with tags `tags`.
pub open spec fn inserted(s: CatalogView, np: NewProductView, tags: Seq<i32>) -> CatalogView {
    CatalogView {
        rows: s.rows.push(row_of(np, s.next_id)),
        links: s.links.union(links_for(s.next_id, tags)),
        next_id: (s.next_id + 1) as i32,
    }
}

/// The store after the product with `np.uuid` takes the fields of `np` and the tags `tags`.
pub open spec fn updated(s: CatalogView, np: NewProductView, tags: Seq<i32>) -> CatalogView {
    let i = position(s, np.uuid);
    let id = s.rows[i].id;
    CatalogView {
        rows: s.rows.update(i, row_of(np, id)),
        links: s.links.filter(|l: (i32, i32)| l.0 != id).union(links_for(id, tags)),
        next_id: s.next_id,
    }
}

/// The store after the product with external identifier `uuid` and its associations are gone.
pub open spec fn removed(s: CatalogView, uuid: u128) -> CatalogView {
    if has_uuid(s, uuid) {
        let i = position(s, uuid);
        let id = s.rows[i].id;
        CatalogView {
            rows: s.rows.remove(i),
            links: s.links.filter(|l: (i32, i32)| l.0 != id),
            next_id: s.next_id,
        }
    } else {
        s
    }
}

/// Relies on uuid::Uuid::new_v4: a random version-4 identifier, as its 128-bit value.
#[verifier::external_body]
fn fresh_uuid() -> (r: u128) {
    uuid::Uuid::new_v4().as_u128()
}

proof fn lemma_push_contains<A>(s: Seq<A>, x: A, m: A)
    ensures
        s.push(x).contains(m) <==> (s.contains(m) || m == x),
{
    if s.push(x).contains(m) {
        let k = choose|k: int| 0 <= k < s.push(x).len() && s.push(x)[k] == m;
        if k < s.len() {
            assert(s[k] == m);
        }
    }
    if s.contains(m) {
        let k = choose|k: int| 0 <= k < s.len() && s[k] == m;
        assert(s.push(x)[k] == m);
    }
    if m == x {
        assert(s.push(x)[s.len() as int] == m);
    }
}

impl CatalogStore {
    pub open spec fn inv(&self) -> bool {
        wf(self@)
    }

    /// An empty catalog.
    pub fn new() -> (r: CatalogStore)
        ensures
            r.inv(),
            r@.rows.len() == 0,
            r@.links.is_empty(),
            r@.next_id == 0,
    {
        let r = CatalogStore { products: Vec::new(), links: Vec::new(), next_id: 0 };
        assert(r@.links =~= Set::empty());
        r
    }

    fn index_of(&self, uuid: u128) -> (r: Option<usize>)
        requires
            self.inv(),
        ensures
            match r {
                Some(i) => has_uuid(self@, uuid) && i == position(self@, uuid),
                None => !has_uuid(self@, uuid),
            },
    {
        let mut i: usize = 0;
        while i < self.products.len()
            invariant
                i <= self.products@.len(),
                self.inv(),
                forall|j: int| 0 <= j < i ==> self@.rows[j].uuid != uuid,
            decreases self.products@.len() - i,
        {
            if self.products[i].uuid == uuid {
                assert(self@.rows[i as int].uuid == uuid);
                proof {
                    let p = position(self@, uuid);
                    assert(self@.rows[p].uuid == uuid);
                    if p != i as int {
                        assert(self@.rows[p].uuid != self@.rows[i as int].uuid);
                    }
                }
                return Some(i);
            }
            i += 1;
        }
        None
    }

    /// Removes every association row of product `id`.
    fn drop_links(&mut self, id: i32)
        ensures
            final(self).products == old(self).products,
            final(self).next_id == old(self).next_id,
            final(self)@.links == old(self)@.links.filter(|l: (i32, i32)| l.0 != id),
    {
        let mut kept: Vec<(i32, i32)> = Vec::new();
        let mut i: usize = 0;
        while i < self.links.len()
            invariant
                i <= self.links@.len(),
                forall|l: (i32, i32)|
                    kept@.contains(l) <==> (exists|j: int|
                        0 <= j < i && self.links@[j] == l && l.0 != id),
            decreases self.links@.len() - i,
        {
            let l = self.links[i];
            let ghost prev = kept@;
            if l.0 != id {
                kept.push(l);
            }
            proof {
                assert forall|m: (i32, i32)|
                    kept@.contains(m) <==> (exists|j: int|
                        0 <= j < i + 1 && self.links@[j] == m && m.0 != id) by {
                    if l.0 != id {
                        lemma_push_contains(prev, l, m);
                    }
                    if m == l && l.0 != id {
                        assert(self.links@[i as int] == m);
                    }
                    if exists|j: int| 0 <= j < i + 1 && self.links@[j] == m && m.0 != id {
                        let j = choose|j: int| 0 <= j < i + 1 && self.links@[j] == m && m.0 != id;
                        if j < i {
                            assert(prev.contains(m));
                        }
                    }
                }
            }
            i += 1;
        }
        let ghost before = self@.links;
        self.links = kept;
        assert(self@.links =~= before.filter(|l: (i32, i32)| l.0 != id));
    }

    /// Adds an association row between product `id` and each tag of `tags`.
    fn add_links(&mut self, id: i32, tags: &Vec<i32>)
        ensures
            final(self).products == old(self).products,
            final(self).next_id == old(self).next_id,
            final(self)@.links == old(self)@.links.union(links_for(id, tags@)),
    {
        let ghost start = self@.links;
        let mut i: usize = 0;
        while i < tags.len()
            invariant
                i <= tags@.len(),
                self.products == old(self).products,
                self.next_id == old(self).next_id,
                self@.links == start.union(links_for(id, tags@.take(i as int))),
            decreases tags@.len() - i,
        {
            let ghost prev = self.links@;
            let ghost prev_set = self@.links;
            self.links.push((id, tags[i]));
            proof {
                let t = tags@[i as int];
                assert(tags@.take(i + 1) =~= tags@.take(i as int).push(t));
                assert forall|l: (i32, i32)|
                    self@.links.contains(l) <==> start.union(links_for(id, tags@.take(i + 1))).contains(l) by {
                    lemma_push_contains(prev, (id, t), l);
                    lemma_push_contains(tags@.take(i as int), t, l.1);
                    assert(prev_set.contains(l) == prev.contains(l));
                    assert(prev_set.contains(l) == start.union(links_for(id, tags@.take(i as int))).contains(l));
                }
                assert(self@.links =~= start.union(links_for(id, tags@.take(i + 1))));
            }
            i += 1;
        }
        assert(tags@.take(tags@.len() as int) =~= tags@);
    }

    /// Inserts `np` as a new product with a fresh internal id, associated with exactly `tags`.
    /// The store changes only when the whole insertion succeeds.
    pub fn insert_new(&mut self, np: NewProduct, tags: &Vec<i32>) -> (r: Result<Product, StoreError>)
        requires
            old(self).inv(),
        ensures
            final(self).inv(),
            match r {
                Ok(p) => {
                    &&& !has_uuid(old(self)@, np@.uuid)
                    &&& old(self)@.next_id < i32::MAX
                    &&& p@ == row_of(np@, old(self)@.next_id)
                    &&& final(self)@ == inserted(old(self)@, np@, tags@)
                },
                Err(e) => {
                    &&& final(self)@ == old(self)@
                    &&& (e == StoreError::Conflict <==> has_uuid(old(self)@, np@.uuid))
                    &&& (e == StoreError::Exhausted <==> !has_uuid(old(self)@, np@.uuid)
                        && old(self)@.next_id == i32::MAX)
                    &&& e != StoreError::NotFound
                },
            },
    {
        if self.index_of(np.uuid).is_some() {
            return Err(StoreError::Conflict);
        }
        if self.next_id == i32::MAX {
            return Err(StoreError::Exhausted);
        }
        let id = self.next_id;
        let ghost s0 = self@;
        let p = Product {
            id,
            uuid: np.uuid,
            title: np.title,
            body: np.body,
            img: np.img,
            duration: np.duration,
            kind: np.kind,
            user_id: np.user_id,
        };
        self.products.push(p.duplicate());
        self.next_id = id + 1;
        self.add_links(id, tags);
        assert(self@.rows =~= s0.rows.push(p@));
        proof {
            let s = self@;
            assert forall|x: int| 0 <= x < s.rows.len() implies 0 <= #[trigger] s.rows[x].id
                < s.next_id by {
                if x < s0.rows.len() {
                    assert(s.rows[x] == s0.rows[x]);
                }
            }
            assert forall|l: (i32, i32)| #[trigger] s.links.contains(l) implies l.0 < s.next_id by {
                if s0.links.contains(l) {
                }
            }
            assert forall|i: int, j: int|
                0 <= i < s.rows.len() && 0 <= j < s.rows.len() && i != j implies s.rows[i].uuid
                != s.rows[j].uuid && s.rows[i].id != s.rows[j].id by {
                if i == s0.rows.len() {
                    assert(s0.rows[j].uuid != np.uuid);
                } else if j == s0.rows.len() {
                    assert(s0.rows[i].uuid != np.uuid);
                }
            }
        }
        Ok(p)
    }

    /// The product with external identifier `uuid`.
    pub fn find(&self, uuid: u128) -> (r: Result<Product, StoreError>)
        requires
            self.inv(),
        ensures
            match r {
                Ok(p) => lookup(self@, uuid) == Some(p@),
                Err(e) => e == StoreError::NotFound && lookup(self@, uuid).is_none(),
            },
    {
        match self.index_of(uuid) {
            Some(i) => Ok(self.products[i].duplicate()),
            None => Err(StoreError::NotFound),
        }
    }

    /// Gives the product with `np.uuid` the fields of `np`, and exactly the tags `tags`.
    /// The store changes only when the product exists.
    pub fn replace(&mut self, np: NewProduct, tags: &Vec<i32>) -> (r: Result<Product, StoreError>)
        requires
            old(self).inv(),
        ensures
            final(self).inv(),
            match r {
                Ok(p) => {
                    &&& has_uuid(old(self)@, np@.uuid)
                    &&& p@ == row_of(np@, old(self)@.rows[position(old(self)@, np@.uuid)].id)
                    &&& final(self)@ == updated(old(self)@, np@, tags@)
                },
                Err(e) => e == StoreError::NotFound && !has_uuid(old(self)@, np@.uuid)
                    && final(self)@ == old(self)@,
            },
    {
        let i = match self.index_of(np.uuid) {
            Some(i) => i,
            None => return Err(StoreError::NotFound),
        };
        let ghost s0 = self@;
        let id = self.products[i].id;
        let p = Product {
            id,
            uuid: np.uuid,
            title: np.title,
            body: np.body,
            img: np.img,
            duration: np.duration,
            kind: np.kind,
            user_id: np.user_id,
        };
        self.products.set(i, p.duplicate());
        self.drop_links(id);
        self.add_links(id, tags);
        assert(self@.rows =~= s0.rows.update(i as int, p@));
        assert(self@.links =~= updated(s0, np@, tags@).links);
        Ok(p)
    }

    /// Removes the product with external identifier `uuid` and its associations;
    /// returns how many products were removed.
    pub fn remove(&mut self, uuid: u128) -> (r: usize)
        requires
            old(self).inv(),
        ensures
            final(self).inv(),
            final(self)@ == removed(old(self)@, uuid),
            r == (if has_uuid(old(self)@, uuid) { 1usize } else { 0usize }),
    {
        match self.index_of(uuid) {
            Some(i) => {
                let ghost s0 = self@;
                let p = self.products.remove(i);
                self.drop_links(p.id);
                assert(self@.rows =~= s0.rows.remove(i as int));
                assert(self@.links =~= removed(s0, uuid).links);
                proof {
                    let s = self@;
                    assert forall|a: int, b: int|
                        0 <= a < s.rows.len() && 0 <= b < s.rows.len() && a != b implies s.rows[a].uuid
                        != s.rows[b].uuid && s.rows[a].id != s.rows[b].id by {
                        let a0 = if a < i { a } else { a + 1 };
                        let b0 = if b < i { b } else { b + 1 };
                        assert(s.rows[a] == s0.rows[a0]);
                        assert(s.rows[b] == s0.rows[b0]);
                    }
                    assert forall|x: int| 0 <= x < s.rows.len() implies 0 <= #[trigger] s.rows[x].id
                        < s.next_id by {
                        let x0 = if x < i { x } else { x + 1 };
                        assert(s.rows[x] == s0.rows[x0]);
                    }
                }
                1
            },
            None => 0,
        }
    }

    /// The tag ids associated with product `id`.
    pub fn tags_of(&self, id: i32) -> (r: Vec<i32>)
        ensures
            r@.to_set() == tag_set(self@, id),
    {
        let mut out: Vec<i32> = Vec::new();
        let mut i: usize = 0;
        while i < self.links.len()
            invariant
                i <= self.links@.len(),
                forall|t: i32|
                    out@.contains(t) <==> (exists|j: int| 0 <= j < i && self.links@[j] == (id, t)),
            decreases self.links@.len() - i,
        {
            let l = self.links[i];
            let ghost prev = out@;
            if l.0 == id {
                out.push(l.1);
            }
            proof {
                assert forall|t: i32|
                    out@.contains(t) <==> (exists|j: int|
                        0 <= j < i + 1 && self.links@[j] == (id, t)) by {
                    if out@.contains(t) && !prev.contains(t) {
                        let k = choose|k: int| 0 <= k < out@.len() && out@[k] == t;
                        if k < prev.len() {
                            assert(prev[k] == t);
                        }
                    }
                    if prev.contains(t) {
                        let k = choose|k: int| 0 <= k < prev.len() && prev[k] == t;
                        assert(out@[k] == t);
                    }
                    if l == (id, t) {
                        assert(out@[out@.len() - 1] == t);
                    }
                }
            }
            i += 1;
        }
        assert(out@.to_set() =~= tag_set(self@, id));
        out
    }
}

/// Creates a product under a freshly drawn external identifier, associated with exactly `tags`.
pub fn create(
    store: &mut CatalogStore,
    title: &str,
    body: &str,
    img: &str,
    duration: i32,
    kind: &str,
    tags: &Vec<i32>,
    user_id: i32,
) -> (r: Result<Product, StoreError>)
    requires
        old(store).inv(),
    ensures
        final(store).inv(),
        match r {
            Ok(p) => {
                &&& p.id == old(store)@.next_id
                &&& p.title@ == title@ && p.body@ == body@ && p.img@ == img@
                &&& p.duration == duration && p.kind@ == kind@ && p.user_id == user_id
                &&& !has_uuid(old(store)@, p.uuid)
                &&& final(store)@ == inserted(
                    old(store)@,
                    NewProductView {
                        title: title@,
                        body: body@,
                        img: img@,
                        duration,
                        kind: kind@,
                        user_id,
                        uuid: p.uuid,
                    },
                    tags@,
                )
            },
            Err(e) => {
                &&& final(store)@ == old(store)@
                &&& (e == StoreError::Exhausted || e == StoreError::Conflict)
                &&& (e == StoreError::Exhausted ==> old(store)@.next_id == i32::MAX)
                &&& (e == StoreError::Conflict ==> old(store)@.rows.len() > 0)
                &&& (old(store)@.next_id < i32::MAX ==> e == StoreError::Conflict)
            },
        },
{
    let np = NewProduct {
        title: String::from_str(title),
        body: String::from_str(body),
        img: String::from_str(img),
        duration,
        kind: String::from_str(kind),
        user_id,
        uuid: fresh_uuid(),
    };
    store.insert_new(np, tags)
}

/// Updates the product with external identifier `uuid` to the given fields and exactly the tags `tags`.
pub fn update(
    store: &mut CatalogStore,
    title: &str,
    body: &str,
    img: &str,
    duration: i32,
    kind: &str,
    tags: &Vec<i32>,
    user_id: i32,
    uuid: u128,
) -> (r: Result<Product, StoreError>)
    requires
        old(store).inv(),
    ensures
        final(store).inv(),
        ({
            let np = NewProductView {
                title: title@,
                body: body@,
                img: img@,
                duration,
                kind: kind@,
                user_id,
                uuid,
            };
            match r {
                Ok(p) => {
                    &&& has_uuid(old(store)@, uuid)
                    &&& p@ == row_of(np, old(store)@.rows[position(old(store)@, uuid)].id)
                    &&& final(store)@ == updated(old(store)@, np, tags@)
                },
                Err(e) => e == StoreError::NotFound && !has_uuid(old(store)@, uuid)
                    && final(store)@ == old(store)@,
            }
        }),
{
    let np = NewProduct {
        title: String::from_str(title),
        body: String::from_str(body),
        img: String::from_str(img),
        duration,
        kind: String::from_str(kind),
        user_id,
        uuid,
    };
    store.replace(np, tags)
}

/// The product with external identifier `id`.
pub fn find(store: &CatalogStore, id: u128) -> (r: Result<Product, StoreError>)
    requires
        store.inv(),
    ensures
        match r {
            Ok(p) => lookup(store@, id) == Some(p@),
            Err(e) => e == StoreError::NotFound && lookup(store@, id).is_none(),
        },
{
    store.find(id)
}

/// Deletes the product with external identifier `id` and its associations;
/// returns the number of products removed, 0 or 1.
pub fn delete(store: &mut CatalogStore, id: u128) -> (r: Result<usize, StoreError>)
    requires
        old(store).inv(),
    ensures
        final(store).inv(),
        final(store)@ == removed(old(store)@, id),
        r == Ok::<usize, StoreError>(if has_uuid(old(store)@, id) { 1usize } else { 0usize }),
{
    Ok(store.remove(id))
}

/// A product inserted into a well-formed store is associated with exactly the tags it was inserted with.
pub proof fn law_inserted_tags(s: CatalogView, np: NewProductView, tags: Seq<i32>)
    requires
        wf(s),
    ensures
        tag_set(inserted(s, np, tags), s.next_id) == tags.to_set(),
{
    assert(tag_set(inserted(s, np, tags), s.next_id) =~= tags.to_set());
}

proof fn lemma_fresh_position(s: CatalogView, np: NewProductView, tags: Seq<i32>)
    requires
        wf(s),
        !has_uuid(s, np.uuid),
    ensures
        has_uuid(inserted(s, np, tags), np.uuid),
        position(inserted(s, np, tags), np.uuid) == s.rows.len(),
{
    let t = inserted(s, np, tags);
    assert(t.rows[s.rows.len() as int].uuid == np.uuid);
    let p = position(t, np.uuid);
    if p < s.rows.len() {
        assert(s.rows[p].uuid == np.uuid);
    }
}

/// Updating a freshly inserted product leaves it associated with exactly the new tags,
/// whatever tags it was inserted with.
pub proof fn law_update_replaces_tags(
    s: CatalogView,
    np: NewProductView,
    first: Seq<i32>,
    change: NewProductView,
    second: Seq<i32>,
)
    requires
        wf(s),
        !has_uuid(s, np.uuid),
        change.uuid == np.uuid,
    ensures
        tag_set(updated(inserted(s, np, first), change, second), s.next_id) == second.to_set(),
{
    lemma_fresh_position(s, np, first);
    assert(tag_set(updated(inserted(s, np, first), change, second), s.next_id) =~= second.to_set());
}

/// Looking up a freshly inserted product gives back its fields under the id it was given.
pub proof fn law_lookup_after_insert(s: CatalogView, np: NewProductView, tags: Seq<i32>)
    requires
        wf(s),
        !has_uuid(s, np.uuid),
    ensures
        lookup(inserted(s, np, tags), np.uuid) == Some(row_of(np, s.next_id)),
{
    lemma_fresh_position(s, np, tags);
}

/// After a removal the identifier is unknown and the product's associations are gone;
/// removing it again changes nothing.
pub proof fn law_lookup_after_remove(s: CatalogView, uuid: u128)
    requires
        wf(s),
    ensures
        lookup(removed(s, uuid), uuid).is_none(),
        !has_uuid(removed(s, uuid), uuid),
        removed(removed(s, uuid), uuid) == removed(s, uuid),
        has_uuid(s, uuid) ==> tag_set(removed(s, uuid), s.rows[position(s, uuid)].id).is_empty(),
{
    if has_uuid(s, uuid) {
        let i = position(s, uuid);
        let r = removed(s, uuid);
        assert forall|j: int| 0 <= j < r.rows.len() implies r.rows[j].uuid != uuid by {
            let j0 = if j < i { j } else { j + 1 };
            assert(r.rows[j] == s.rows[j0]);
        }
        assert(tag_set(r, s.rows[i].id) =~= Set::empty());
    }
}

} // verus!
