//! The three read-only text reports. Each report's spec function is the
//! report text itself; the exec renderers return exactly it. The sales and
//! purchase totals are true mathematical sums, clamped only at the machine's
//! 128-bit ceiling.

use vstd::prelude::*;

use crate::fmt::{cents_str, dec_int, fmt_cents, fmt_cents_u128, fmt_i32, fmt_uuid, uuid_str};
use crate::models::{Product, ProductView, Transaction, TransactionType, TransactionView};
use crate::store::txs_wf;

verus! {

/// One product's paragraph in the inventory report.
pub open spec fn inventory_line(p: ProductView) -> Seq<char> {
    "Product: "@ + p.name + "\nQuantity: "@ + dec_int(p.quantity as int) + "\nPrice: $"@
        + cents_str(p.price_cents as nat) + "\n\n"@
}

/// The inventory report's body: one paragraph per product, in order.
pub open spec fn inventory_lines(ps: Seq<ProductView>) -> Seq<char>
    decreases ps.len(),
{
    if ps.len() == 0 {
        Seq::empty()
    } else {
        inventory_lines(ps.drop_last()) + inventory_line(ps.last())
    }
}

/// The whole inventory report.
pub open spec fn inventory_report(ps: Seq<ProductView>) -> Seq<char> {
    "Inventory Report\n================\n\n"@ + inventory_lines(ps)
}

/// What one transaction contributes in money: unit price times quantity, in
/// cents.
pub open spec fn tx_amount(t: TransactionView) -> int {
    (t.price_cents as int) * (t.quantity as int)
}

/// One transaction's paragraph in a sales or purchase report.
pub open spec fn tx_line(t: TransactionView) -> Seq<char> {
    (if t.transaction_type is Sale { "Sale ID: "@ } else { "Purchase ID: "@ }) + uuid_str(t.id)
        + "\nProduct ID: "@ + uuid_str(t.product_id) + "\nQuantity: "@ + dec_int(t.quantity as int)
        + (if t.transaction_type is Sale { "\nPrice: $"@ } else { "\nCost: $"@ })
        + cents_str(t.price_cents as nat) + "\nTotal: $"@
        + cents_str(if tx_amount(t) >= 0 { tx_amount(t) as nat } else { 0 }) + "\n\n"@
}

/// The paragraphs of the transactions of one kind, in order.
pub open spec fn tx_lines(ts: Seq<TransactionView>, kind: TransactionType) -> Seq<char>
    decreases ts.len(),
{
    if ts.len() == 0 {
        Seq::empty()
    } else {
        tx_lines(ts.drop_last(), kind) + (if ts.last().transaction_type == kind {
            tx_line(ts.last())
        } else {
            Seq::empty()
        })
    }
}

/// The running total over the transactions of one kind: the true sum of
/// price times quantity, in cents.
pub open spec fn tx_total(ts: Seq<TransactionView>, kind: TransactionType) -> int
    decreases ts.len(),
{
    if ts.len() == 0 {
        0
    } else {
        tx_total(ts.drop_last(), kind) + (if ts.last().transaction_type == kind {
            tx_amount(ts.last())
        } else {
            0
        })
    }
}

/// A non-negative total clamped to what 128 bits can hold.
pub open spec fn clamp_u128(x: int) -> nat {
    if x < 0 {
        0
    } else if x > u128::MAX {
        u128::MAX as nat
    } else {
        x as nat
    }
}

/// The whole sales report.
pub open spec fn sales_report(ts: Seq<TransactionView>) -> Seq<char> {
    "Sales Report\n============\n\n"@ + tx_lines(ts, TransactionType::Sale) + "Total Sales: $"@
        + cents_str(clamp_u128(tx_total(ts, TransactionType::Sale))) + "\n"@
}

/// The whole purchase report.
pub open spec fn purchase_report(ts: Seq<TransactionView>) -> Seq<char> {
    "Purchase Report\n===============\n\n"@ + tx_lines(ts, TransactionType::Purchase)
        + "Total Purchases: $"@ + cents_str(
        clamp_u128(tx_total(ts, TransactionType::Purchase))) + "\n"@
}

/// Under the store invariant every transaction moves at least one unit, so
/// every amount, and every running total, is non-negative.
pub proof fn lemma_tx_total_nonneg(ts: Seq<TransactionView>, kind: TransactionType)
    requires
        txs_wf(ts),
    ensures
        tx_total(ts, kind) >= 0,
    decreases ts.len(),
{
    if ts.len() > 0 {
        assert(txs_wf(ts.drop_last()));
        lemma_tx_total_nonneg(ts.drop_last(), kind);
        if ts.last().transaction_type == kind {
            let t = ts.last();
            assert(1 <= ts[ts.len() - 1].quantity);
            assert(tx_amount(t) >= 0) by (nonlinear_arith)
                requires t.quantity >= 1, t.price_cents >= 0;
        }
    }
}

/// Renders the paragraph of one transaction.
fn render_tx_line(t: &Transaction) -> (r: String)
    requires
        1 <= t.quantity,
    ensures
        r@ == tx_line(t@),
{
    let mut s = match t.transaction_type {
        TransactionType::Sale => String::from_str("Sale ID: "),
        TransactionType::Purchase => String::from_str("Purchase ID: "),
    };
    let idtext = fmt_uuid(t.id);
    s.append(idtext.as_str());
    s.append("\nProduct ID: ");
    let pidtext = fmt_uuid(t.product_id);
    s.append(pidtext.as_str());
    s.append("\nQuantity: ");
    let qtext = fmt_i32(t.quantity);
    s.append(qtext.as_str());
    match t.transaction_type {
        TransactionType::Sale => s.append("\nPrice: $"),
        TransactionType::Purchase => s.append("\nCost: $"),
    };
    let ctext = fmt_cents(t.price_cents);
    s.append(ctext.as_str());
    s.append("\nTotal: $");
    proof {
        assert((t.price_cents as int) * (t.quantity as int) <= (u64::MAX as int) * (i32::MAX as int)
            && (t.price_cents as int) * (t.quantity as int) >= 0) by (nonlinear_arith)
            requires 1 <= t.quantity <= i32::MAX, 0 <= t.price_cents <= u64::MAX;
    }
    let amount: u128 = (t.price_cents as u128) * (t.quantity as u128);
    let atext = fmt_cents_u128(amount);
    s.append(atext.as_str());
    s.append("\n\n");
    proof {
        assert(s@ =~= tx_line(t@));
    }
    s
}

/// Renders a sales or purchase report over the given transactions: the
/// paragraphs of the matching kind in order, then the clamped running total
/// after the given label.
pub(crate) fn render_tx_report(
    transactions: &Vec<Transaction>,
    kind: TransactionType,
    header: &str,
    total_label: &str,
) -> (r: String)
    requires
        txs_wf(transactions.deep_view()),
    ensures
        r@ == header@ + tx_lines(transactions.deep_view(), kind) + total_label@ + cents_str(
            clamp_u128(tx_total(transactions.deep_view(), kind))) + "\n"@,
{
    let ghost ts = transactions.deep_view();
    let mut s = String::from_str(header);
    let mut total: u128 = 0;
    let n = transactions.len();
    let mut i: usize = 0;
    while i < n
        invariant
            n == transactions.len(),
            transactions.deep_view() == ts,
            txs_wf(ts),
            i <= n,
            s@ == header@ + tx_lines(ts.take(i as int), kind),
            total == clamp_u128(tx_total(ts.take(i as int), kind)),
        decreases n - i,
    {
        let t = &transactions[i];
        proof {
            assert(ts[i as int] == t@);
            assert(ts.take(i as int + 1).drop_last() =~= ts.take(i as int));
            assert(ts.take(i as int + 1).last() == t@);
        }
        if t.transaction_type == kind {
            proof {
                assert(1 <= ts[i as int].quantity);
            }
            let line = render_tx_line(t);
            s.append(line.as_str());
            proof {
                assert(t@.transaction_type == kind);
                assert((t.price_cents as int) * (t.quantity as int) <= (u64::MAX as int) * (
                    i32::MAX as int) && (t.price_cents as int) * (t.quantity as int) >= 0)
                    by (nonlinear_arith)
                    requires 1 <= t.quantity <= i32::MAX, 0 <= t.price_cents <= u64::MAX;
            }
            let amount: u128 = (t.price_cents as u128) * (t.quantity as u128);
            proof {
                assert(txs_wf(ts.take(i as int)));
                lemma_tx_total_nonneg(ts.take(i as int), kind);
            }
            total = if total <= u128::MAX - amount {
                total + amount
            } else {
                u128::MAX
            };
        } else {
            proof {
                assert(t@.transaction_type != kind);
                assert(s@ =~= header@ + tx_lines(ts.take(i as int + 1), kind));
            }
        }
        proof {
            assert(s@ =~= header@ + tx_lines(ts.take(i as int + 1), kind));
        }
        i += 1;
    }
    proof {
        assert(ts.take(n as int) =~= ts);
    }
    s.append(total_label);
    let ttext = fmt_cents_u128(total);
    s.append(ttext.as_str());
    s.append("\n");
    proof {
        assert(s@ =~= header@ + tx_lines(ts, kind) + total_label@ + cents_str(
            clamp_u128(tx_total(ts, kind))) + "\n"@);
    }
    s
}

/// Renders the inventory report over the given products.
pub(crate) fn render_inventory_report(products: &Vec<Product>) -> (r: String)
    ensures
        r@ == inventory_report(products.deep_view()),
{
    let ghost ps = products.deep_view();
    let mut s = String::from_str("Inventory Report\n================\n\n");
    let n = products.len();
    let mut i: usize = 0;
    while i < n
        invariant
            n == products.len(),
            products.deep_view() == ps,
            i <= n,
            s@ == "Inventory Report\n================\n\n"@ + inventory_lines(ps.take(i as int)),
        decreases n - i,
    {
        let p = &products[i];
        proof {
            assert(ps[i as int] == p@);
            assert(ps.take(i as int + 1).drop_last() =~= ps.take(i as int));
            assert(ps.take(i as int + 1).last() == p@);
        }
        s.append("Product: ");
        s.append(p.name.as_str());
        s.append("\nQuantity: ");
        let qtext = fmt_i32(p.quantity);
        s.append(qtext.as_str());
        s.append("\nPrice: $");
        let ctext = fmt_cents(p.price_cents);
        s.append(ctext.as_str());
        s.append("\n\n");
        proof {
            assert(s@ =~= "Inventory Report\n================\n\n"@ + inventory_lines(
                ps.take(i as int + 1)));
        }
        i += 1;
    }
    proof {
        assert(ps.take(n as int) =~= ps);
    }
    s
}

} // verus!
