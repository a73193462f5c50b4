use vstd::hash_map::StringHashMap;
use vstd::prelude::*;

use crate::report::{ProductSet, ProductView};
use crate::upc::{upc_text, Upc};

verus! {

/// Whether the product carries a UPC with the text `t`.
pub open spec fn carries(p: ProductView, t: Seq<char>) -> bool {
    exists|j: int| 0 <= j < p.upcs.len() && upc_text(p.upcs[j]) == t
}

/// Whether the product at position `i` carries `t` among the UPCs that a walk has reached when
/// it stands at the `j`-th UPC of the product at position `at`.
pub open spec fn carried_before(set: ProductSet, i: int, t: Seq<char>, at: int, j: int) -> bool {
    ||| (0 <= i < at && carries(set.product_at(i), t))
    ||| (i == at && exists|m: int|
        0 <= m < j && m < set.product_at(at).upcs.len() && upc_text(set.product_at(at).upcs[m])
            == t)
}

/// Whether `m` indexes the UPCs of `set`: it has an entry for exactly the UPC texts that some
/// product carries, each entry names the position of a product that carries it, and the entry
/// is flagged exactly when a product at another position carries it too.
pub open spec fn indexes(m: Map<Seq<char>, (bool, usize)>, set: ProductSet) -> bool {
    &&& forall|t: Seq<char>| #[trigger]
        m.contains_key(t) <==> exists|i: int| 0 <= i < set.spec_len() && carries(set.product_at(i), t)
    &&& forall|t: Seq<char>| #[trigger]
        m.contains_key(t) ==> m[t].1 < set.spec_len() && carries(set.product_at(m[t].1 as int), t)
    &&& forall|t: Seq<char>| #[trigger]
        m.contains_key(t) ==> (m[t].0 <==> exists|i: int|
            0 <= i < set.spec_len() && i != m[t].1 && carries(set.product_at(i), t))
}

/// For each UPC text, the position in the product set of a product that carries it, and
/// whether some other product carries it too.
pub struct IdentifierIndex {
    entries: StringHashMap<(bool, usize)>,
}

impl View for IdentifierIndex {
    type V = Map<Seq<char>, (bool, usize)>;

    closed spec fn view(&self) -> Map<Seq<char>, (bool, usize)> {
        self.entries@
    }
}

/// What a walk over the product set has built so far.
spec fn index_state(
    set: ProductSet,
    m: Map<Seq<char>, (bool, usize)>,
    dups: Seq<Upc>,
    at: int,
    j: int,
) -> bool {
    &&& forall|t: Seq<char>| #[trigger]
        m.contains_key(t) <==> exists|i: int| #[trigger] carried_before(set, i, t, at, j)
    &&& forall|t: Seq<char>| #[trigger]
        m.contains_key(t) ==> carried_before(set, m[t].1 as int, t, at, j)
    &&& forall|t: Seq<char>| #[trigger]
        m.contains_key(t) ==> (m[t].0 <==> exists|i: int|
            i != m[t].1 && #[trigger] carried_before(set, i, t, at, j))
    &&& forall|k: int| 0 <= k < dups.len() ==> m.contains_key(upc_text(#[trigger] dups[k]@))
        && m[upc_text(dups[k]@)].0
    &&& forall|t: Seq<char>| #[trigger]
        m.contains_key(t) && m[t].0 ==> exists|k: int| 0 <= k < dups.len() && upc_text(dups[k]@) == t
    &&& forall|k1: int, k2: int|
        0 <= k1 < k2 < dups.len() ==> upc_text(#[trigger] dups[k1]@) != upc_text(#[trigger] dups[k2]@)
}

impl IdentifierIndex {
    /// Indexes every UPC of every product. A UPC that two products carry is flagged and also
    /// returned, once, in the list of duplicates; the index still answers for it with one of
    /// those products, which one being left open.
    pub fn map_upcs(products: &ProductSet) -> (r: (IdentifierIndex, Vec<Upc>))
        requires
            products.wf(),
        ensures
            indexes(r.0@, *products),
            forall|k: int| 0 <= k < r.1@.len() ==> #[trigger] r.0@.contains_key(upc_text(r.1@[k]@))
                && r.0@[upc_text(r.1@[k]@)].0,
            forall|t: Seq<char>| #[trigger]
                r.0@.contains_key(t) ==> r.0@[t].0 ==> exists|k: int|
                    0 <= k < r.1@.len() && upc_text(r.1@[k]@) == t,
            forall|k1: int, k2: int|
                0 <= k1 < k2 < r.1@.len() ==> upc_text(#[trigger] r.1@[k1]@) != upc_text(
                    #[trigger] r.1@[k2]@,
                ),
    {
        let mut entries: StringHashMap<(bool, usize)> = StringHashMap::new();
        let mut dups: Vec<Upc> = Vec::new();
        let ghost set = *products;
        let n = products.len();
        let mut i: usize = 0;
        assert(entries@ =~= Map::empty());
        while i < n
            invariant
                set == *products,
                products.wf(),
                n == products.spec_len(),
                i <= n,
                index_state(set, entries@, dups@, i as int, 0),
            decreases n - i,
        {
            let (_key, product) = products.at(i);
            let count = product.upc_count();
            let mut j: usize = 0;
            while j < count
                invariant
                    set == *products,
                    products.wf(),
                    n == products.spec_len(),
                    i < n,
                    j <= count,
                    count == set.product_at(i as int).upcs.len(),
                    product@ == set.product_at(i as int),
                    index_state(set, entries@, dups@, i as int, j as int),
                decreases count - j,
            {
                let upc = product.upc_at(j);
                let text = upc.to_string();
                let ghost t = text@;
                let ghost old_m = entries@;
                let ghost old_d = dups@;
                let prior = match entries.get(text.as_str()) {
                    Some(e) => Some(*e),
                    None => None,
                };
                match prior {
                    Some((flag, holder)) => {
                        let dup = flag || holder != i;
                        entries.insert(text, (dup, i));
                        if dup && !flag {
                            dups.push(upc);
                            
                        }
                    },
                    None => {
                        entries.insert(text, (false, i));
                    },
                }
                proof {
                    lemma_index_step(set, old_m, entries@, old_d, dups@, i as int, j as int, upc, t);
                }
                j = j + 1;
            }
            proof {
                lemma_index_next_product(set, entries@, dups@, i as int, count as int);
            }
            i = i + 1;
        }
        proof {
            assert forall|t: Seq<char>, i: int| #[trigger] carried_before(set, i, t, n as int, 0) <==> (0 <= i < n
                && carries(set.product_at(i), t)) by {}
            assert forall|t: Seq<char>| #[trigger] entries@.contains_key(t) <==> exists|i: int|
                0 <= i < products.spec_len() && carries(products.product_at(i), t) by {
                if entries@.contains_key(t) {
                    let i = choose|i: int| #[trigger] carried_before(set, i, t, n as int, 0);
                    assert(0 <= i < products.spec_len() && carries(products.product_at(i), t));
                } else {
                    if exists|i: int| 0 <= i < products.spec_len() && carries(products.product_at(i), t) {
                        let i = choose|i: int| 0 <= i < products.spec_len() && carries(products.product_at(i), t);
                        assert(carried_before(set, i, t, n as int, 0));
                    }
                }
            }
            assert forall|t: Seq<char>| #[trigger] entries@.contains_key(t) implies (entries@[t].0 <==> exists|i: int|
                0 <= i < products.spec_len() && i != entries@[t].1 && carries(products.product_at(i), t)) by {
                if entries@[t].0 {
                    let i = choose|i: int| i != entries@[t].1 && #[trigger] carried_before(set, i, t, n as int, 0);
                    assert(0 <= i < products.spec_len() && i != entries@[t].1 && carries(products.product_at(i), t));
                }
                if exists|i: int| 0 <= i < products.spec_len() && i != entries@[t].1 && carries(products.product_at(i), t) {
                    let i = choose|i: int| 0 <= i < products.spec_len() && i != entries@[t].1 && carries(products.product_at(i), t);
                    assert(carried_before(set, i, t, n as int, 0));
                }
            }
            assert forall|t: Seq<char>| #[trigger] entries@.contains_key(t) implies entries@[t].1 < n by {
                assert(carried_before(set, entries@[t].1 as int, t, n as int, 0));
            }
        }
        let index = IdentifierIndex { entries };
        assert(index@ == entries@);
        let r = (index, dups);
        assert forall|t: Seq<char>| #[trigger] r.0@.contains_key(t) && r.0@[t].0 implies exists|k: int|
            0 <= k < r.1@.len() && upc_text(r.1@[k]@) == t by {
            let k = choose|k: int| 0 <= k < r.1@.len() && upc_text(r.1@[k]@) == t;
            assert(0 <= k < r.1@.len() && upc_text(r.1@[k]@) == t);
        }
        r
    }

    /// The position of a product carrying `upc`, and whether another product carries it too.
    pub fn lookup(&self, upc: &Upc) -> (r: Option<(bool, usize)>)
        ensures
            match r {
                Some(e) => self@.contains_key(upc_text(upc@)) && self@[upc_text(upc@)] == e,
                None => !self@.contains_key(upc_text(upc@)),
            },
    {
        let text = upc.to_string();
        match self.entries.get(text.as_str()) {
            Some(e) => Some(*e),
            None => None,
        }
    }
}

/// Whether the product carries `t` among its first `n` UPCs.
spec fn carries_within(p: ProductView, t: Seq<char>, n: int) -> bool {
    exists|j: int| 0 <= j < n && j < p.upcs.len() && upc_text(p.upcs[j]) == t
}

/// The positions, in increasing order, of every product that carries `upc`: for a UPC reported
/// as shared, the products that share it.
pub fn carriers(products: &ProductSet, upc: &Upc) -> (r: Vec<usize>)
    requires
        products.wf(),
    ensures
        forall|k: int|
            0 <= k < r@.len() ==> r@[k] < products.spec_len() && carries(
                products.product_at(r@[k] as int),
                upc_text(upc@),
            ),
        forall|i: int|
            0 <= i < products.spec_len() && carries(products.product_at(i), upc_text(upc@))
                ==> r@.contains(i as usize),
        forall|k1: int, k2: int| 0 <= k1 < k2 < r@.len() ==> r@[k1] < r@[k2],
{
    let text = upc.to_string();
    let ghost t = text@;
    let n = products.len();
    let mut out: Vec<usize> = Vec::new();
    for i in 0..n
        invariant
            products.wf(),
            n == products.spec_len(),
            t == upc_text(upc@),
            text@ == t,
            forall|k: int|
                0 <= k < out@.len() ==> out@[k] < i && carries(products.product_at(out@[k] as int), t),
            forall|q: int| 0 <= q < i && carries(products.product_at(q), t) ==> out@.contains(q as usize),
            forall|k1: int, k2: int| 0 <= k1 < k2 < out@.len() ==> out@[k1] < out@[k2],
    {
        let (_key, product) = products.at(i);
        let count = product.upc_count();
        let mut found = false;
        let mut j: usize = 0;
        while j < count && !found
            invariant
                j <= count,
                text@ == t,
                count == product@.upcs.len(),
                product@ == products.product_at(i as int),
                found ==> carries(product@, t),
                !found ==> !carries_within(product@, t, j as int),
            decreases count - j + if found { 0int } else { 1int },
        {
            let u = product.upc_at(j);
            let other = u.to_string();
            assert(other@ == upc_text(product@.upcs[j as int]));
            if other == text {
                assert(0 <= j < product@.upcs.len() && upc_text(product@.upcs[j as int]) == t);
                found = true;
            } else {
                proof {
                    assert forall|m: int| 0 <= m < j + 1 && m < product@.upcs.len() implies upc_text(product@.upcs[m]) != t by {
                        if m < j {
                            assert(!carries_within(product@, t, j as int));
                        }
                    }
                }
                j = j + 1;
            }
        }
        let ghost before = out@;
        if found {
            out.push(i);
            assert(out@[out@.len() - 1] == i);
        }
        proof {
            assert forall|q: int| 0 <= q < i + 1 && carries(products.product_at(q), t) implies out@.contains(q as usize) by {
                if q < i {
                    let k = choose|k: int| 0 <= k < before.len() && before[k] == q as usize;
                    assert(out@[k] == q as usize);
                } else {
                    if !found {
                        let m = choose|m: int| 0 <= m < product@.upcs.len() && upc_text(product@.upcs[m]) == t;
                        assert(carries_within(product@, t, j as int));
                    }
                    assert(out@[out@.len() - 1] == i);
                }
            }
        }
    }
    out
}

/// A UPC that two products with different keys both carry is indexed and flagged as shared.
pub proof fn lemma_shared_upc_flagged(
    set: ProductSet,
    m: Map<Seq<char>, (bool, usize)>,
    a: Seq<char>,
    b: Seq<char>,
    t: Seq<char>,
)
    requires
        set.wf(),
        indexes(m, set),
        a != b,
        set@.contains_key(a),
        set@.contains_key(b),
        carries(set@[a], t),
        carries(set@[b], t),
    ensures
        m.contains_key(t),
        m[t].0,
{
    set.lemma_positions();
    let i = choose|i: int| 0 <= i < set.spec_len() && set.key_at(i) == a;
    let j = choose|j: int| 0 <= j < set.spec_len() && set.key_at(j) == b;
    assert(set@[set.key_at(i)] == set.product_at(i));
    assert(set@[set.key_at(j)] == set.product_at(j));
    assert(0 <= i < set.spec_len() && carries(set.product_at(i), t));
    assert(m.contains_key(t));
    if m[t].1 == i {
        assert(0 <= j < set.spec_len() && j != m[t].1 && carries(set.product_at(j), t));
    } else {
        assert(0 <= i < set.spec_len() && i != m[t].1 && carries(set.product_at(i), t));
    }
}

/// Reaching the end of a product's UPCs is reaching the start of the next product.
proof fn lemma_index_next_product(
    set: ProductSet,
    m: Map<Seq<char>, (bool, usize)>,
    dups: Seq<Upc>,
    at: int,
    count: int,
)
    requires
        0 <= at,
        count == set.product_at(at).upcs.len(),
        index_state(set, m, dups, at, count),
    ensures
        index_state(set, m, dups, at + 1, 0),
{
    assert forall|i: int, t: Seq<char>|
        carried_before(set, i, t, at, count) <==> carried_before(set, i, t, at + 1, 0) by {
        let p = set.product_at(at);
        if i == at && carries(p, t) {
            let m = choose|m: int| 0 <= m < p.upcs.len() && upc_text(p.upcs[m]) == t;
            assert(0 <= m < count && m < p.upcs.len() && upc_text(p.upcs[m]) == t);
        }
        if i == at && carried_before(set, i, t, at, count) {
            let m = choose|m: int| 0 <= m < count && m < p.upcs.len() && upc_text(p.upcs[m]) == t;
            assert(0 <= m < p.upcs.len() && upc_text(p.upcs[m]) == t);
        }
    }
    assert forall|t: Seq<char>| #[trigger] m.contains_key(t) <==> exists|i: int|
        #[trigger] carried_before(set, i, t, at + 1, 0) by {
        if m.contains_key(t) {
            let i = choose|i: int| #[trigger] carried_before(set, i, t, at, count);
            assert(carried_before(set, i, t, at + 1, 0));
        } else if exists|i: int| #[trigger] carried_before(set, i, t, at + 1, 0) {
            let i = choose|i: int| #[trigger] carried_before(set, i, t, at + 1, 0);
            assert(carried_before(set, i, t, at, count));
        }
    }
    assert forall|t: Seq<char>| #[trigger] m.contains_key(t) implies carried_before(
        set,
        m[t].1 as int,
        t,
        at + 1,
        0,
    ) by {
        assert(carried_before(set, m[t].1 as int, t, at, count));
    }
    assert forall|t: Seq<char>| #[trigger] m.contains_key(t) implies (m[t].0 <==> exists|i: int|
        i != m[t].1 && #[trigger] carried_before(set, i, t, at + 1, 0)) by {
        if m[t].0 {
            let i = choose|i: int| i != m[t].1 && #[trigger] carried_before(set, i, t, at, count);
            assert(carried_before(set, i, t, at + 1, 0));
        }
        if exists|i: int| i != m[t].1 && #[trigger] carried_before(set, i, t, at + 1, 0) {
            let i = choose|i: int| i != m[t].1 && #[trigger] carried_before(set, i, t, at + 1, 0);
            assert(carried_before(set, i, t, at, count));
        }
    }
}

/// One UPC added to the index keeps the index true to the walk.
proof fn lemma_index_step(
    set: ProductSet,
    old_m: Map<Seq<char>, (bool, usize)>,
    m: Map<Seq<char>, (bool, usize)>,
    old_d: Seq<Upc>,
    d: Seq<Upc>,
    at: int,
    j: int,
    u: Upc,
    t: Seq<char>,
)
    requires
        0 <= j < set.product_at(at).upcs.len(),
        u@ == set.product_at(at).upcs[j],
        t == upc_text(u@),
        index_state(set, old_m, old_d, at, j),
        old_m.contains_key(t) ==> {
            let (flag, holder) = old_m[t];
            let dup = flag || holder != at;
            &&& m == old_m.insert(t, (dup, at as usize))
            &&& d == if dup && !flag {
                old_d.push(u)
            } else {
                old_d
            }
        },
        !old_m.contains_key(t) ==> m == old_m.insert(t, (false, at as usize)) && d == old_d,
        0 <= at,
        at <= usize::MAX,
    ensures
        index_state(set, m, d, at, j + 1),
{
    assert forall|i: int, s: Seq<char>|
        carried_before(set, i, s, at, j + 1) <==> (carried_before(set, i, s, at, j) || (i == at
            && s == t)) by {
        if i == at && s == t {
            assert(upc_text(set.product_at(at).upcs[j]) == t);
        }
        if carried_before(set, i, s, at, j + 1) && !carried_before(set, i, s, at, j) && i == at {
            let mm = choose|mm: int|
                0 <= mm < j + 1 && mm < set.product_at(at).upcs.len() && upc_text(
                    set.product_at(at).upcs[mm],
                ) == s;
            assert(mm == j);
        }
    }
    assert forall|s: Seq<char>| #[trigger] m.contains_key(s) <==> exists|i: int|
        #[trigger] carried_before(set, i, s, at, j + 1) by {
        if s == t {
            assert(carried_before(set, at, s, at, j + 1));
        } else {
            if exists|i: int| #[trigger] carried_before(set, i, s, at, j + 1) {
                let i = choose|i: int| #[trigger] carried_before(set, i, s, at, j + 1);
                assert(carried_before(set, i, s, at, j));
            }
        }
    }
    assert forall|s: Seq<char>| #[trigger] m.contains_key(s) implies carried_before(
        set,
        m[s].1 as int,
        s,
        at,
        j + 1,
    ) by {
        if s != t {
            assert(carried_before(set, old_m[s].1 as int, s, at, j));
        }
    }
    assert forall|s: Seq<char>| #[trigger] m.contains_key(s) implies (m[s].0 <==> exists|i: int|
        i != m[s].1 && #[trigger] carried_before(set, i, s, at, j + 1)) by {
        if s != t {
            if exists|i: int| i != m[s].1 && #[trigger] carried_before(set, i, s, at, j + 1) {
                let i = choose|i: int| i != m[s].1 && #[trigger] carried_before(set, i, s, at, j + 1);
                assert(carried_before(set, i, s, at, j));
            }
            if old_m[s].0 {
                let i = choose|i: int| i != old_m[s].1 && #[trigger] carried_before(set, i, s, at, j);
                assert(carried_before(set, i, s, at, j + 1));
            }
        } else if old_m.contains_key(t) {
            let (flag, holder) = old_m[t];
            if holder != at {
                assert(carried_before(set, holder as int, t, at, j));
                assert(carried_before(set, holder as int, t, at, j + 1));
            } else {
                if flag {
                    let i = choose|i: int| i != holder && #[trigger] carried_before(set, i, t, at, j);
                    assert(carried_before(set, i, t, at, j + 1));
                }
                if exists|i: int| i != at && #[trigger] carried_before(set, i, t, at, j + 1) {
                    let i = choose|i: int| i != at && #[trigger] carried_before(set, i, t, at, j + 1);
                    assert(carried_before(set, i, t, at, j));
                }
            }
        } else {
            if exists|i: int| i != at && #[trigger] carried_before(set, i, t, at, j + 1) {
                let i = choose|i: int| i != at && #[trigger] carried_before(set, i, t, at, j + 1);
                assert(carried_before(set, i, t, at, j));
            }
        }
    }
    assert forall|k: int| 0 <= k < d.len() implies #[trigger] m.contains_key(upc_text(d[k]@))
        && m[upc_text(d[k]@)].0 by {
        if k < old_d.len() {
            assert(d[k] == old_d[k]);
            let s = upc_text(old_d[k]@);
            assert(old_m.contains_key(s) && old_m[s].0);
            if s == t {
                assert(m[t].0);
            } else {
                assert(m[s] == old_m[s]);
            }
        } else {
            assert(d[k] == u);
            assert(m[t].0);
        }
    }
    assert forall|s: Seq<char>| #[trigger] m.contains_key(s) && m[s].0 implies exists|k: int|
        0 <= k < d.len() && upc_text(d[k]@) == s by {
        if s == t && !(old_m.contains_key(t) && old_m[t].0) {
            assert(d[d.len() - 1] == u);
        } else {
            let k = choose|k: int| 0 <= k < old_d.len() && upc_text(old_d[k]@) == s;
            assert(d[k] == old_d[k]);
        }
    }
    assert forall|k1: int, k2: int| 0 <= k1 < k2 < d.len() implies upc_text(#[trigger] d[k1]@)
        != upc_text(#[trigger] d[k2]@) by {
        if k2 == old_d.len() {
            assert(d[k1] == old_d[k1]);
        } else {
            assert(d[k1] == old_d[k1]);
            assert(d[k2] == old_d[k2]);
        }
    }
}

} // verus!
