use vstd::prelude::*;

use crate::errors::StoreError;
use crate::ext;
use crate::models::{Product, ProductView, Transaction, TransactionType, TransactionView};

verus! {

/// There is a product with this identifier.
pub open spec fn has_product(ps: Seq<ProductView>, id: u128) -> bool {
    exists|i: int| 0 <= i < ps.len() && ps[i].id == id
}

/// The index of the product with this identifier; meaningful only under
/// [`unique_ids`], where at most one index qualifies.
pub open spec fn product_index(ps: Seq<ProductView>, id: u128) -> int {
    choose|i: int| 0 <= i < ps.len() && ps[i].id == id
}

/// The product stored under this identifier, if any.
pub open spec fn spec_get_product(ps: Seq<ProductView>, id: u128) -> Option<ProductView> {
    if has_product(ps, id) {
        Some(ps[product_index(ps, id)])
    } else {
        None
    }
}

/// No two products share an identifier.
pub open spec fn unique_ids(ps: Seq<ProductView>) -> bool {
    forall|i: int, j: int| 0 <= i < j < ps.len() ==> ps[i].id != ps[j].id
}

/// Every recorded transaction moved at least one unit.
pub open spec fn txs_wf(ts: Seq<TransactionView>) -> bool {
    forall|i: int| 0 <= i < ts.len() ==> 1 <= #[trigger] ts[i].quantity
}

/// What inserting a product means: overwrite in place when the identifier is
/// already present, append otherwise.
pub open spec fn spec_add_product(ps: Seq<ProductView>, p: ProductView) -> Seq<ProductView> {
    if has_product(ps, p.id) {
        ps.update(product_index(ps, p.id), p)
    } else {
        ps.push(p)
    }
}

/// Under unique identifiers, any index holding `id` is the one
/// [`product_index`] picks.
pub proof fn lemma_index_unique(ps: Seq<ProductView>, id: u128, i: int)
    requires
        unique_ids(ps),
        0 <= i < ps.len(),
        ps[i].id == id,
    ensures
        has_product(ps, id),
        product_index(ps, id) == i,
        spec_get_product(ps, id) == Some(ps[i]),
{
    assert(has_product(ps, id));
    let j = product_index(ps, id);
    if i < j {
        assert(ps[i].id != ps[j].id);
    } else if j < i {
        assert(ps[j].id != ps[i].id);
    }
}

/// The mathematical value of a [`Store`]: the products in insertion order
/// and the append-only transaction history.
pub struct StoreView {
    pub products: Seq<ProductView>,
    pub transactions: Seq<TransactionView>,
}

impl StoreView {
    /// The store's invariant: product identifiers are unique and every
    /// transaction's quantity is positive.
    pub open spec fn wf(self) -> bool {
        unique_ids(self.products) && txs_wf(self.transactions)
    }
}

/// The inventory store: the products on hand, keyed by identifier, and the
/// ordered history of sale and purchase transactions.
pub struct Store {
    pub(crate) products: Vec<Product>,
    pub(crate) transactions: Vec<Transaction>,
}

impl View for Store {
    type V = StoreView;

    closed spec fn view(&self) -> StoreView {
        (StoreView { products: self.products.deep_view(), transactions: self.transactions.deep_view() })
    }
}

impl Store {
    /// An empty store.
    pub fn new() -> (r: Self)
        ensures
            r@.products.len() == 0,
            r@.transactions.len() == 0,
            r@.wf(),
    {
        let r = Store { products: Vec::new(), transactions: Vec::new() };
        proof {
            assert(r@.products =~= Seq::<ProductView>::empty());
            assert(r@.transactions =~= Seq::<TransactionView>::empty());
        }
        r
    }

    /// The index at which the product with this identifier sits, if any.
    fn find_index(&self, id: u128) -> (r: Option<usize>)
        ensures
            (r matches Some(i) ==> i < self@.products.len() && self@.products[i as int].id == id),
            r is None ==> !has_product(self@.products, id),
    {
        let n = self.products.len();
        let mut i: usize = 0;
        while i < n
            invariant
                n == self@.products.len(),
                i <= n,
                forall|j: int| 0 <= j < i ==> self@.products[j].id != id,
            decreases n - i,
        {
            if self.products[i].id == id {
                return Some(i);
            }
            i += 1;
        }
        None
    }

    /// Inserts the product, overwriting any product with the same
    /// identifier; always succeeds.
    pub fn add_product(&mut self, product: Product) -> (r: Result<(), StoreError>)
        requires
            old(self)@.wf(),
        ensures
            final(self)@.wf(),
            r is Ok,
            final(self)@.products == spec_add_product(old(self)@.products, product@),
            final(self)@.transactions == old(self)@.transactions,
    {
        let ghost pv = product@;
        match self.find_index(product.id) {
            Some(i) => {
                proof {
                    lemma_index_unique(self@.products, pv.id, i as int);
                }
                self.products.set(i, product);
                proof {
                    assert(final(self)@.products =~= spec_add_product(old(self)@.products, pv));
                }
            },
            None => {
                self.products.push(product);
                proof {
                    assert(final(self)@.products =~= spec_add_product(old(self)@.products, pv));
                }
            },
        }
        proof {
            let ps = final(self)@.products;
            let old_ps = old(self)@.products;
            assert forall|i: int, j: int| 0 <= i < j < ps.len() implies ps[i].id != ps[j].id by {
                if has_product(old_ps, pv.id) {
                    let k = product_index(old_ps, pv.id);
                    assert(old_ps[k].id == pv.id);
                }
            }
        }
        Ok(())
    }

    /// Looks the product up by identifier; absence is no error.
    pub fn get_product(&self, id: u128) -> (r: Option<&Product>)
        requires
            self@.wf(),
        ensures
            (r matches Some(p) ==> spec_get_product(self@.products, id) == Some(p@)),
            r is None <==> spec_get_product(self@.products, id) is None,
    {
        match self.find_index(id) {
            Some(i) => {
                proof {
                    lemma_index_unique(self@.products, id, i as int);
                }
                Some(&self.products[i])
            },
            None => None,
        }
    }

    /// Replaces the product with the same identifier; fails with `NotFound`
    /// if no such product exists, leaving the store unchanged.
    pub fn update_product(&mut self, product: Product) -> (r: Result<(), StoreError>)
        requires
            old(self)@.wf(),
        ensures
            final(self)@.wf(),
            final(self)@.transactions == old(self)@.transactions,
            has_product(old(self)@.products, product@.id) ==> r is Ok
                && final(self)@.products == old(self)@.products.update(
                    product_index(old(self)@.products, product@.id), product@),
            !has_product(old(self)@.products, product@.id) ==> (r matches Err(e) && e is NotFound)
                && final(self)@ == old(self)@,
    {
        let ghost pv = product@;
        match self.find_index(product.id) {
            Some(i) => {
                proof {
                    lemma_index_unique(self@.products, pv.id, i as int);
                }
                self.products.set(i, product);
                proof {
                    let ps = final(self)@.products;
                    let old_ps = old(self)@.products;
                    assert forall|a: int, b: int| 0 <= a < b < ps.len() implies ps[a].id != ps[b].id by {
                        assert(old_ps[a].id != old_ps[b].id);
                    }
                }
                Ok(())
            },
            None => Err(StoreError::NotFound),
        }
    }

    /// Removes the product with this identifier; fails with `NotFound` if it
    /// is absent, leaving the store unchanged. Transactions that refer to the
    /// product stay: history is never rewritten.
    pub fn delete_product(&mut self, id: u128) -> (r: Result<(), StoreError>)
        requires
            old(self)@.wf(),
        ensures
            final(self)@.wf(),
            final(self)@.transactions == old(self)@.transactions,
            has_product(old(self)@.products, id) ==> r is Ok
                && final(self)@.products == old(self)@.products.remove(
                    product_index(old(self)@.products, id))
                && !has_product(final(self)@.products, id),
            !has_product(old(self)@.products, id) ==> (r matches Err(e) && e is NotFound)
                && final(self)@ == old(self)@,
    {
        match self.find_index(id) {
            Some(i) => {
                proof {
                    lemma_index_unique(self@.products, id, i as int);
                }
                self.products.remove(i);
                proof {
                    let ps = final(self)@.products;
                    let old_ps = old(self)@.products;
                    assert forall|a: int, b: int| 0 <= a < b < ps.len() implies ps[a].id != ps[b].id by {
                        let a0 = if a < i as int { a } else { a + 1 };
                        let b0 = if b < i as int { b } else { b + 1 };
                        assert(old_ps[a0].id != old_ps[b0].id);
                    }
                    assert forall|j: int| 0 <= j < ps.len() implies ps[j].id != id by {
                        let j0 = if j < i as int { j } else { j + 1 };
                        assert(ps[j] == old_ps[j0]);
                        if j0 != i as int {
                            lemma_index_unique(old_ps, id, i as int);
                            if old_ps[j0].id == id {
                                lemma_index_unique(old_ps, id, j0);
                            }
                        }
                    }
                }
                Ok(())
            },
            None => Err(StoreError::NotFound),
        }
    }

    /// Records a sale of `quantity` units: fails with `NotFound` when the
    /// product is absent and with `InsufficientInventory` when fewer units
    /// are on hand, both without changing anything; otherwise decrements the
    /// stock, appends a Sale transaction priced at the product's current unit
    /// price, and returns that transaction. The transaction's identifier is
    /// freshly drawn and its timestamp is the clock's, so neither is pinned.
    pub fn record_sale(&mut self, product_id: u128, quantity: i32) -> (r: Result<
        Transaction,
        StoreError,
    >)
        requires
            old(self)@.wf(),
            1 <= quantity,
        ensures
            final(self)@.wf(),
            spec_get_product(old(self)@.products, product_id) is None ==> (r matches Err(e)
                && e is NotFound) && final(self)@ == old(self)@,
            (spec_get_product(old(self)@.products, product_id) matches Some(p) && p.quantity
                < quantity) ==> (r matches Err(e) && e is InsufficientInventory) && final(self)@
                == old(self)@,
            spec_get_product(old(self)@.products, product_id) matches Some(p) ==> p.quantity
                >= quantity ==> (r matches Ok(t) && t@.product_id == product_id && t@.quantity
                == quantity && t@.price_cents == p.price_cents && t@.transaction_type is Sale
                && final(self)@.products == old(self)@.products.update(
                    product_index(old(self)@.products, product_id),
                    (ProductView { quantity: (p.quantity - quantity) as i32, ..p }),
                ) && final(self)@.transactions == old(self)@.transactions.push(t@)),
    {
        let i = match self.find_index(product_id) {
            Some(i) => i,
            None => {
                return Err(StoreError::NotFound);
            },
        };
        proof {
            lemma_index_unique(self@.products, product_id, i as int);
        }
        if self.products[i].quantity < quantity {
            return Err(StoreError::InsufficientInventory);
        }
        let pr = &self.products[i];
        let updated = Product {
            id: pr.id,
            name: pr.name.clone(),
            description: pr.description.clone(),
            price_cents: pr.price_cents,
            quantity: pr.quantity - quantity,
        };
        let transaction = Transaction {
            id: ext::fresh_uuid(),
            product_id,
            quantity,
            price_cents: pr.price_cents,
            transaction_type: TransactionType::Sale,
            timestamp: ext::now_iso(),
        };
        self.products.set(i, updated);
        self.transactions.push(transaction.clone());
        proof {
            let ps = final(self)@.products;
            let old_ps = old(self)@.products;
            assert forall|a: int, b: int| 0 <= a < b < ps.len() implies ps[a].id != ps[b].id by {
                assert(old_ps[a].id != old_ps[b].id);
            }
            assert(final(self)@.transactions =~= old(self)@.transactions.push(transaction@));
        }
        Ok(transaction)
    }

    /// Records a purchase of `quantity` units at the caller-supplied unit
    /// price: fails with `NotFound` when the product is absent, without
    /// changing anything; otherwise increments the stock (no upper bound
    /// beyond the machine's), appends a Purchase transaction carrying that
    /// price, and returns it. Identifier and timestamp are fresh, as for a
    /// sale.
    pub fn record_purchase(
        &mut self,
        product_id: u128,
        quantity: i32,
        price_cents: u64,
    ) -> (r: Result<Transaction, StoreError>)
        requires
            old(self)@.wf(),
            1 <= quantity,
            (spec_get_product(old(self)@.products, product_id) matches Some(p) ==> p.quantity
                + quantity <= i32::MAX),
        ensures
            final(self)@.wf(),
            spec_get_product(old(self)@.products, product_id) is None ==> (r matches Err(e)
                && e is NotFound) && final(self)@ == old(self)@,
            (spec_get_product(old(self)@.products, product_id) matches Some(p) ==> (r matches Ok(t)
                && t@.product_id == product_id && t@.quantity == quantity && t@.price_cents
                == price_cents && t@.transaction_type is Purchase
                && final(self)@.products == old(self)@.products.update(
                    product_index(old(self)@.products, product_id),
                    (ProductView { quantity: (p.quantity + quantity) as i32, ..p }),
                ) && final(self)@.transactions == old(self)@.transactions.push(t@))),
    {
        let i = match self.find_index(product_id) {
            Some(i) => i,
            None => {
                return Err(StoreError::NotFound);
            },
        };
        proof {
            lemma_index_unique(self@.products, product_id, i as int);
        }
        let pr = &self.products[i];
        let updated = Product {
            id: pr.id,
            name: pr.name.clone(),
            description: pr.description.clone(),
            price_cents: pr.price_cents,
            quantity: pr.quantity + quantity,
        };
        let transaction = Transaction {
            id: ext::fresh_uuid(),
            product_id,
            quantity,
            price_cents,
            transaction_type: TransactionType::Purchase,
            timestamp: ext::now_iso(),
        };
        self.products.set(i, updated);
        self.transactions.push(transaction.clone());
        proof {
            let ps = final(self)@.products;
            let old_ps = old(self)@.products;
            assert forall|a: int, b: int| 0 <= a < b < ps.len() implies ps[a].id != ps[b].id by {
                assert(old_ps[a].id != old_ps[b].id);
            }
            assert(final(self)@.transactions =~= old(self)@.transactions.push(transaction@));
        }
        Ok(transaction)
    }
    /// The canonical JSON text of the whole store: the products map and the
    /// transaction history as one compact document.
    pub fn to_json(&self) -> (r: String)
        requires
            self@.wf(),
        ensures
            r@ == crate::codec::store_json(self@),
    {
        crate::codec::render_store(&self.products, &self.transactions)
    }

    /// Replaces the store's contents with those read from a canonical
    /// inventory document, leaving it untouched when the text does not read
    /// back as a well-formed store. The last clause is the round trip: for
    /// every well-formed store value, loading exactly its canonical text
    /// yields exactly that value.
    pub fn load_json_as(&mut self, text: &str, expected: Ghost<StoreView>) -> (ok: bool)
        requires
            old(self)@.wf(),
        ensures
            final(self)@.wf(),
            !ok ==> final(self)@ == old(self)@,
            expected@.wf() && text@ == crate::codec::store_json(expected@) ==> ok && final(self)@
                == expected@,
    {
        let ghost hyp = expected@.wf() && text@ == crate::codec::store_json(expected@);
        match crate::parse::parse_store_doc(text, Ghost(expected@)) {
            None => false,
            Some((ps, ts)) => {
                if !ids_unique(&ps) {
                    return false;
                }
                self.products = ps;
                self.transactions = ts;
                true
            },
        }
    }

    /// Replaces the store's contents with those read from the text, if it is
    /// a canonical inventory document; on such a text this succeeds and the
    /// loaded store writes back exactly the same text.
    pub fn load_json(&mut self, text: &str) -> (ok: bool)
        requires
            old(self)@.wf(),
        ensures
            final(self)@.wf(),
            !ok ==> final(self)@ == old(self)@,
            (exists|v: StoreView| v.wf() && text@ == crate::codec::store_json(v)) ==> ok && text@
                == crate::codec::store_json(final(self)@),
    {
        let ghost w = choose|v: StoreView| v.wf() && text@ == crate::codec::store_json(v);
        self.load_json_as(text, Ghost(w))
    }

    /// The inventory report: one paragraph per product, in insertion order.
    pub fn generate_inventory_report(&self) -> (r: String)
        ensures
            r@ == crate::reports::inventory_report(self@.products),
    {
        crate::reports::render_inventory_report(&self.products)
    }

    /// The sales report: one paragraph per Sale transaction, in order, then
    /// the running total of price times quantity over them.
    pub fn generate_sales_report(&self) -> (r: String)
        requires
            self@.wf(),
        ensures
            r@ == crate::reports::sales_report(self@.transactions),
    {
        let r = crate::reports::render_tx_report(
            &self.transactions,
            TransactionType::Sale,
            "Sales Report\n============\n\n",
            "Total Sales: $",
        );
        proof {
            assert(r@ =~= crate::reports::sales_report(self@.transactions));
        }
        r
    }

    /// The purchase report: one paragraph per Purchase transaction, in
    /// order, then the running total of price times quantity over them.
    pub fn generate_purchase_report(&self) -> (r: String)
        requires
            self@.wf(),
        ensures
            r@ == crate::reports::purchase_report(self@.transactions),
    {
        let r = crate::reports::render_tx_report(
            &self.transactions,
            TransactionType::Purchase,
            "Purchase Report\n===============\n\n",
            "Total Purchases: $",
        );
        proof {
            assert(r@ =~= crate::reports::purchase_report(self@.transactions));
        }
        r
    }
}

/// Whether no two products of the vector share an identifier.
#[verifier::loop_isolation(false)]
fn ids_unique(ps: &Vec<Product>) -> (r: bool)
    ensures
        r == unique_ids(ps.deep_view()),
{
    let n = ps.len();
    let mut i: usize = 0;
    while i < n
        invariant
            i <= n,
            forall|a: int, b: int| 0 <= a < b < i ==> ps.deep_view()[a].id != ps.deep_view()[b].id,
        decreases n - i,
    {
        let mut j: usize = 0;
        while j < i
            invariant
                j <= i < n,
                forall|b: int| 0 <= b < j ==> ps.deep_view()[b].id != ps.deep_view()[i as int].id,
            decreases i - j,
        {
            if ps[j].id == ps[i].id {
                proof {
                    assert(ps.deep_view()[j as int] == ps[j as int]@);
                    assert(ps.deep_view()[i as int] == ps[i as int]@);
                }
                return false;
            }
            j += 1;
        }
        i += 1;
    }
    true
}

/// Adding a product and then looking the same identifier up returns exactly
/// the product that was added, whether the add was a fresh insert or an
/// overwrite of an earlier product with that identifier.
pub proof fn lemma_add_then_get(ps: Seq<ProductView>, p: ProductView)
    requires
        unique_ids(ps),
    ensures
        spec_get_product(spec_add_product(ps, p), p.id) == Some(p),
{
    let ps2 = spec_add_product(ps, p);
    if has_product(ps, p.id) {
        let i = product_index(ps, p.id);
        assert(ps2[i] == p);
        assert forall|a: int, b: int| 0 <= a < b < ps2.len() implies ps2[a].id != ps2[b].id by {
            if a != i && b != i {
                assert(ps[a].id != ps[b].id);
            } else {
                let other = if a == i { b } else { a };
                if ps[other].id == p.id {
                    lemma_index_unique(ps, p.id, other);
                }
            }
        }
        lemma_index_unique(ps2, p.id, i);
    } else {
        let i = ps.len() as int;
        assert(ps2[i] == p);
        assert forall|a: int, b: int| 0 <= a < b < ps2.len() implies ps2[a].id != ps2[b].id by {
            if b == i {
                assert(ps2[a] == ps[a]);
                assert(!has_product(ps, p.id));
            } else {
                assert(ps[a].id != ps[b].id);
            }
        }
        lemma_index_unique(ps2, p.id, i);
    }
}

/// After a successful delete of an identifier, a lookup of that identifier
/// finds nothing. The delete contract already states the absence; this spells
/// out that the lookup therefore returns `None`.
pub proof fn lemma_delete_then_get(ps: Seq<ProductView>, id: u128)
    requires
        !has_product(ps, id),
    ensures
        spec_get_product(ps, id) is None,
{
}

} // verus!
