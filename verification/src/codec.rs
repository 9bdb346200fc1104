//! The canonical JSON text of the two persisted documents. The spec
//! functions give the exact text; the writers return it and the readers
//! invert it, so saving and reloading is proved to round-trip. A file that
//! is not in this canonical shape reads as corrupt, which the load path
//! treats as "start fresh", never as an error.

use vstd::prelude::*;

use crate::ext;
use crate::fmt::{
    cents_str, dec_digits, dec_int, fmt_cents, fmt_i32, fmt_uuid, uuid_str,
};
use crate::models::{
    Product, ProductView, Transaction, TransactionType, TransactionView, User, UserRole, UserView,
};

verus! {

/// A character as it appears inside a quoted JSON string: quotes and
/// backslashes get a backslash in front, everything else stands as itself.
pub open spec fn esc_char(c: char) -> Seq<char> {
    if c == '"' || c == '\\' {
        seq!['\\', c]
    } else {
        seq![c]
    }
}

/// A whole text escaped for a quoted JSON string.
pub open spec fn esc(s: Seq<char>) -> Seq<char>
    decreases s.len(),
{
    if s.len() == 0 {
        Seq::empty()
    } else {
        esc(s.drop_last()) + esc_char(s.last())
    }
}

/// A quoted JSON string.
pub open spec fn json_str(s: Seq<char>) -> Seq<char> {
    seq!['"'] + esc(s) + seq!['"']
}

/// Escaping distributes over concatenation.
pub proof fn lemma_esc_concat(a: Seq<char>, b: Seq<char>)
    ensures
        esc(a + b) == esc(a) + esc(b),
    decreases b.len(),
{
    if b.len() == 0 {
        assert(a + b =~= a);
        assert(esc(a) + esc(b) =~= esc(a));
    } else {
        lemma_esc_concat(a, b.drop_last());
        assert((a + b).drop_last() =~= a + b.drop_last());
        assert((a + b).last() == b.last());
        assert(esc(a + b) =~= esc(a) + esc(b));
    }
}

/// No character of an escaped text is an unescaped closing quote: wherever a
/// quote occurs in the escaped form, a backslash stands right before it, so
/// the first character of each escaped unit is never `"`.
pub proof fn lemma_esc_char_no_quote(c: char)
    ensures
        esc_char(c)[0] != '"',
        esc_char(c).len() == 1 || esc_char(c).len() == 2,
{
}

/// The first `k` comma-separated pieces, where piece `i` is `f(i)`.
pub open spec fn joined_upto(f: spec_fn(int) -> Seq<char>, k: int) -> Seq<char>
    decreases k,
{
    if k <= 0 {
        Seq::empty()
    } else if k == 1 {
        f(0)
    } else {
        joined_upto(f, k - 1) + seq![','] + f(k - 1)
    }
}

/// A shorter join is a prefix of a longer one over the same pieces.
pub proof fn lemma_joined_prefix(f: spec_fn(int) -> Seq<char>, m: int, n: int)
    requires
        0 <= m <= n,
    ensures
        joined_upto(f, m).len() <= joined_upto(f, n).len(),
        joined_upto(f, n).subrange(0, joined_upto(f, m).len() as int) == joined_upto(f, m),
    decreases n - m,
{
    if m == n {
        assert(joined_upto(f, n).subrange(0, joined_upto(f, m).len() as int) =~= joined_upto(
            f, m));
    } else {
        lemma_joined_prefix(f, m, n - 1);
        assert(joined_upto(f, n).subrange(0, joined_upto(f, n - 1).len() as int) =~= joined_upto(
            f, n - 1));
        assert(joined_upto(f, n).subrange(0, joined_upto(f, m).len() as int) =~= joined_upto(
            f, n - 1).subrange(0, joined_upto(f, m).len() as int));
    }
}

/// The canonical JSON object of one product.
pub open spec fn product_json(p: ProductView) -> Seq<char> {
    "{\"id\":\""@ + uuid_str(p.id) + "\",\"name\":"@ + json_str(p.name) + ",\"description\":"@
        + json_str(p.description) + ",\"price\":"@ + cents_str(p.price_cents as nat)
        + ",\"quantity\":"@ + dec_int(p.quantity as int) + "}"@
}

/// One entry of the products map: the identifier as the key, the product as
/// the value.
pub open spec fn product_entry(p: ProductView) -> Seq<char> {
    seq!['"'] + uuid_str(p.id) + "\":"@ + product_json(p)
}

/// The canonical JSON object mapping product identifiers to products, in
/// insertion order.
pub open spec fn products_json(ps: Seq<ProductView>) -> Seq<char> {
    seq!['{'] + joined_upto(|k: int| product_entry(ps[k]), ps.len() as int) + seq!['}']
}

/// The canonical JSON text of a transaction kind.
pub open spec fn tx_type_json(k: TransactionType) -> Seq<char> {
    if k is Sale {
        "\"Sale\""@
    } else {
        "\"Purchase\""@
    }
}

/// The canonical JSON object of one transaction.
pub open spec fn tx_json(t: TransactionView) -> Seq<char> {
    "{\"id\":\""@ + uuid_str(t.id) + "\",\"product_id\":\""@ + uuid_str(t.product_id)
        + "\",\"quantity\":"@ + dec_digits(t.quantity as nat) + ",\"price\":"@
        + cents_str(t.price_cents as nat) + ",\"transaction_type\":"@
        + tx_type_json(t.transaction_type) + ",\"timestamp\":"@ + json_str(t.timestamp) + "}"@
}

/// The canonical JSON array of the transaction history, in order.
pub open spec fn txs_json(ts: Seq<TransactionView>) -> Seq<char> {
    seq!['['] + joined_upto(|k: int| tx_json(ts[k]), ts.len() as int) + seq![']']
}

/// The whole canonical inventory document.
pub open spec fn store_json(v: crate::store::StoreView) -> Seq<char> {
    "{\"products\":"@ + products_json(v.products) + ",\"transactions\":"@ + txs_json(
        v.transactions) + "}"@
}

/// The canonical JSON text of a role.
pub open spec fn role_json(r: UserRole) -> Seq<char> {
    if r is Manager {
        "\"Manager\""@
    } else {
        "\"Employee\""@
    }
}

/// The canonical JSON object of one user.
pub open spec fn user_json(u: UserView) -> Seq<char> {
    "{\"id\":\""@ + uuid_str(u.id) + "\",\"username\":"@ + json_str(u.username)
        + ",\"password_hash\":"@ + json_str(u.password_hash) + ",\"role\":"@ + role_json(u.role)
        + "}"@
}

/// One entry of the users map: the username as the key, the user as the
/// value.
pub open spec fn user_entry(u: UserView) -> Seq<char> {
    json_str(u.username) + seq![':'] + user_json(u)
}

/// The whole canonical user document: a JSON object mapping usernames to
/// users, in registration order.
pub open spec fn users_json(us: Seq<UserView>) -> Seq<char> {
    seq!['{'] + joined_upto(|k: int| user_entry(us[k]), us.len() as int) + seq!['}']
}

fn append_json_str(out: &mut String, s: &str)
    ensures
        final(out)@ == old(out)@ + json_str(s@),
{
    proof {
        reveal_strlit("\"");
    }
    out.append("\"");
    let n = s.unicode_len();
    let mut i: usize = 0;
    while i < n
        invariant
            n == s@.len(),
            i <= n,
            out@ == old(out)@ + seq!['"'] + esc(s@.take(i as int)),
        decreases n - i,
    {
        let c = s.get_char(i);
        if c == '"' || c == '\\' {
            ext::push_char(out, '\\');
            ext::push_char(out, c);
        } else {
            ext::push_char(out, c);
        }
        proof {
            assert(s@.take(i as int + 1).drop_last() =~= s@.take(i as int));
            assert(s@.take(i as int + 1).last() == s@[i as int]);
            assert(out@ =~= old(out)@ + seq!['"'] + esc(s@.take(i as int + 1)));
        }
        i += 1;
    }
    out.append("\"");
    proof {
        assert(s@.take(n as int) =~= s@);
        assert(out@ =~= old(out)@ + json_str(s@));
    }
}

fn append_product(out: &mut String, p: &Product)
    ensures
        final(out)@ == old(out)@ + product_json(p@),
{
    out.append("{\"id\":\"");
    let u = fmt_uuid(p.id);
    out.append(u.as_str());
    out.append("\",\"name\":");
    append_json_str(out, p.name.as_str());
    out.append(",\"description\":");
    append_json_str(out, p.description.as_str());
    out.append(",\"price\":");
    let c = fmt_cents(p.price_cents);
    out.append(c.as_str());
    out.append(",\"quantity\":");
    let q = fmt_i32(p.quantity);
    out.append(q.as_str());
    out.append("}");
    proof {
        assert(out@ =~= old(out)@ + product_json(p@));
    }
}

/// Writes the canonical products object.
#[verifier::loop_isolation(false)]
pub(crate) fn append_products(out: &mut String, ps: &Vec<Product>)
    ensures
        final(out)@ == old(out)@ + products_json(ps.deep_view()),
{
    proof {
        reveal_strlit("{");
        reveal_strlit("}");
        reveal_strlit(",");
        reveal_strlit("\"");
        reveal_strlit("\":");
    }
    let ghost psv = ps.deep_view();
    let ghost f = |k: int| product_entry(psv[k]);
    out.append("{");
    let n = ps.len();
    let mut i: usize = 0;
    while i < n
        invariant
            n == ps.len(),
            ps.deep_view() == psv,
            i <= n,
            out@ == old(out)@ + seq!['{'] + joined_upto(f, i as int),
        decreases n - i,
    {
        if i > 0 {
            out.append(",");
        }
        out.append("\"");
        let u = fmt_uuid(ps[i].id);
        out.append(u.as_str());
        out.append("\":");
        append_product(out, &ps[i]);
        proof {
            assert(psv[i as int] == ps[i as int]@);
            assert(f(i as int) == product_entry(psv[i as int]));
            if i == 0 {
                assert(joined_upto(f, 1) == f(0));
            } else {
                assert(joined_upto(f, i as int + 1) == joined_upto(f, i as int) + seq![','] + f(
                    i as int));
            }
            assert(out@ =~= old(out)@ + seq!['{'] + joined_upto(f, i as int + 1));
        }
        i += 1;
    }
    out.append("}");
    proof {
        assert(out@ =~= old(out)@ + products_json(psv));
    }
}

fn append_tx(out: &mut String, t: &Transaction)
    requires
        1 <= t.quantity,
    ensures
        final(out)@ == old(out)@ + tx_json(t@),
{
    out.append("{\"id\":\"");
    let u = fmt_uuid(t.id);
    out.append(u.as_str());
    out.append("\",\"product_id\":\"");
    let pu = fmt_uuid(t.product_id);
    out.append(pu.as_str());
    out.append("\",\"quantity\":");
    let q = fmt_i32(t.quantity);
    out.append(q.as_str());
    out.append(",\"price\":");
    let c = fmt_cents(t.price_cents);
    out.append(c.as_str());
    out.append(",\"transaction_type\":");
    match t.transaction_type {
        TransactionType::Sale => out.append("\"Sale\""),
        TransactionType::Purchase => out.append("\"Purchase\""),
    };
    out.append(",\"timestamp\":");
    append_json_str(out, t.timestamp.as_str());
    out.append("}");
    proof {
        assert(dec_int(t.quantity as int) == dec_digits(t.quantity as nat));
        assert(out@ =~= old(out)@ + tx_json(t@));
    }
}

/// Writes the canonical transactions array.
#[verifier::loop_isolation(false)]
pub(crate) fn append_txs(out: &mut String, ts: &Vec<Transaction>)
    requires
        crate::store::txs_wf(ts.deep_view()),
    ensures
        final(out)@ == old(out)@ + txs_json(ts.deep_view()),
{
    proof {
        reveal_strlit("[");
        reveal_strlit("]");
        reveal_strlit(",");
    }
    let ghost tsv = ts.deep_view();
    let ghost f = |k: int| tx_json(tsv[k]);
    out.append("[");
    let n = ts.len();
    let mut i: usize = 0;
    while i < n
        invariant
            n == ts.len(),
            ts.deep_view() == tsv,
            crate::store::txs_wf(tsv),
            i <= n,
            out@ == old(out)@ + seq!['['] + joined_upto(f, i as int),
        decreases n - i,
    {
        if i > 0 {
            out.append(",");
        }
        proof {
            assert(1 <= tsv[i as int].quantity);
            assert(tsv[i as int] == ts[i as int]@);
        }
        append_tx(out, &ts[i]);
        proof {
            assert(f(i as int) == tx_json(tsv[i as int]));
            if i == 0 {
                assert(joined_upto(f, 1) == f(0));
            } else {
                assert(joined_upto(f, i as int + 1) == joined_upto(f, i as int) + seq![','] + f(
                    i as int));
            }
            assert(out@ =~= old(out)@ + seq!['['] + joined_upto(f, i as int + 1));
        }
        i += 1;
    }
    out.append("]");
    proof {
        assert(out@ =~= old(out)@ + txs_json(tsv));
    }
}

fn append_user(out: &mut String, u: &User)
    ensures
        final(out)@ == old(out)@ + user_json(u@),
{
    out.append("{\"id\":\"");
    let idtext = fmt_uuid(u.id);
    out.append(idtext.as_str());
    out.append("\",\"username\":");
    append_json_str(out, u.username.as_str());
    out.append(",\"password_hash\":");
    append_json_str(out, u.password_hash.as_str());
    out.append(",\"role\":");
    match u.role {
        UserRole::Manager => out.append("\"Manager\""),
        UserRole::Employee => out.append("\"Employee\""),
    };
    out.append("}");
    proof {
        assert(out@ =~= old(out)@ + user_json(u@));
    }
}

/// Writes the canonical user document.
#[verifier::loop_isolation(false)]
pub(crate) fn render_users(us: &Vec<User>) -> (r: String)
    ensures
        r@ == users_json(us.deep_view()),
{
    proof {
        reveal_strlit("{");
        reveal_strlit("}");
        reveal_strlit(",");
        reveal_strlit(":");
    }
    let ghost usv = us.deep_view();
    let ghost f = |k: int| user_entry(usv[k]);
    let mut out = String::from_str("{");
    let n = us.len();
    let mut i: usize = 0;
    while i < n
        invariant
            n == us.len(),
            us.deep_view() == usv,
            i <= n,
            out@ == seq!['{'] + joined_upto(f, i as int),
        decreases n - i,
    {
        if i > 0 {
            out.append(",");
        }
        append_json_str(&mut out, us[i].username.as_str());
        out.append(":");
        append_user(&mut out, &us[i]);
        proof {
            assert(usv[i as int] == us[i as int]@);
            assert(f(i as int) == user_entry(usv[i as int]));
            if i == 0 {
                assert(joined_upto(f, 1) == f(0));
            } else {
                assert(joined_upto(f, i as int + 1) == joined_upto(f, i as int) + seq![','] + f(
                    i as int));
            }
            assert(out@ =~= seq!['{'] + joined_upto(f, i as int + 1));
        }
        i += 1;
    }
    out.append("}");
    proof {
        assert(out@ =~= users_json(usv));
    }
    out
}

/// Writes the whole canonical inventory document.
pub(crate) fn render_store(ps: &Vec<Product>, ts: &Vec<Transaction>) -> (r: String)
    requires
        crate::store::txs_wf(ts.deep_view()),
    ensures
        r@ == store_json(
            (crate::store::StoreView { products: ps.deep_view(), transactions: ts.deep_view() }),
        ),
{
    let mut out = String::from_str("{\"products\":");
    append_products(&mut out, ps);
    out.append(",\"transactions\":");
    append_txs(&mut out, ts);
    out.append("}");
    proof {
        assert(out@ =~= store_json(
            (crate::store::StoreView { products: ps.deep_view(), transactions: ts.deep_view() }),
        ));
    }
    out
}

} // verus!
