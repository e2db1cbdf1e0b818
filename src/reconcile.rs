//! One-way projection of the registry into the companion tool's store: the
//! enabled servers are written under their names (without the `enabled`
//! flag), the disabled ones are taken out, and every entry whose name the
//! registry does not hold is left as it is.
use crate::json::{
    find_member, json_object_members, keys_unique, lookup, object_members, object_text,
    pairs_view, render_object,
};
use crate::registry::{
    descriptor_json, descriptor_text, has_key, keys_sorted, key_pos, lemma_key_pos,
    lemma_same_content_equal, put_spec, upsert_spec, value_of,
    DescriptorModel, Registry,
};
use vstd::prelude::*;

verus! {

/// The JSON text under which the companion tool finds a server.
pub open spec fn projection(d: DescriptorModel) -> Seq<char> {
    descriptor_text(d, false)
}

/// The existing entries after reconciliation, in their order: those the
/// registry holds enabled carry the registry's projection, those it holds
/// disabled are gone, the others are untouched.
pub open spec fn reconcile_kept(
    reg: Seq<(Seq<char>, DescriptorModel)>,
    s: Seq<(Seq<char>, Seq<char>)>,
) -> Seq<(Seq<char>, Seq<char>)>
    decreases s.len(),
{
    if s.len() == 0 {
        Seq::empty()
    } else {
        let rest = reconcile_kept(reg, s.drop_last());
        let e = s.last();
        if has_key(reg, e.0) {
            if value_of(reg, e.0).enabled {
                rest.push((e.0, projection(value_of(reg, e.0))))
            } else {
                rest
            }
        } else {
            rest.push(e)
        }
    }
}

/// The enabled servers that the store does not hold yet, in registry order,
/// which for a well-formed registry is the character order of their names.
pub open spec fn reconcile_added(
    reg: Seq<(Seq<char>, DescriptorModel)>,
    s: Seq<(Seq<char>, Seq<char>)>,
) -> Seq<(Seq<char>, Seq<char>)>
    decreases reg.len(),
{
    if reg.len() == 0 {
        Seq::empty()
    } else {
        let rest = reconcile_added(reg.drop_last(), s);
        let (k, d) = reg.last();
        if d.enabled && !has_key(s, k) {
            rest.push((k, projection(d)))
        } else {
            rest
        }
    }
}

/// The companion tool's servers after reconciliation with `reg`.
pub open spec fn reconcile_spec(
    reg: Seq<(Seq<char>, DescriptorModel)>,
    s: Seq<(Seq<char>, Seq<char>)>,
) -> Seq<(Seq<char>, Seq<char>)> {
    reconcile_kept(reg, s) + reconcile_added(reg, s)
}

// ---------------------------------------------------------------------------
// Lemmas on the two parts
proof fn lemma_has_key_append<V>(a: Seq<(Seq<char>, V)>, b: Seq<(Seq<char>, V)>, k: Seq<char>)
    ensures
        has_key(a + b, k) <==> (has_key(a, k) || has_key(b, k)),
{
    let c = a + b;
    if has_key(c, k) {
        let i = key_pos(c, k);
        if i < a.len() {
            assert(a[i].0 == k);
        } else {
            assert(b[i - a.len()].0 == k);
        }
    }
    if has_key(a, k) {
        let i = key_pos(a, k);
        assert(c[i].0 == k);
    }
    if has_key(b, k) {
        let i = key_pos(b, k);
        assert(c[i + a.len()].0 == k);
    }
}

proof fn lemma_has_key_push<V>(a: Seq<(Seq<char>, V)>, e: (Seq<char>, V), k: Seq<char>)
    ensures
        has_key(a.push(e), k) <==> (has_key(a, k) || e.0 == k),
{
    let c = a.push(e);
    if has_key(c, k) {
        let i = key_pos(c, k);
        if i < a.len() {
            assert(a[i].0 == k);
        }
    }
    if has_key(a, k) {
        let i = key_pos(a, k);
        assert(c[i].0 == k);
    }
    if e.0 == k {
        assert(c[a.len() as int].0 == k);
    }
}

proof fn lemma_has_key_drop_last<V>(a: Seq<(Seq<char>, V)>, k: Seq<char>)
    requires
        a.len() > 0,
    ensures
        has_key(a, k) <==> (has_key(a.drop_last(), k) || a.last().0 == k),
{
    assert(a == a.drop_last().push(a.last()));
    lemma_has_key_push(a.drop_last(), a.last(), k);
}

/// A name that the reconciled entries hold was in the store already.
proof fn lemma_kept_keys(
    reg: Seq<(Seq<char>, DescriptorModel)>,
    s: Seq<(Seq<char>, Seq<char>)>,
    k: Seq<char>,
)
    ensures
        has_key(reconcile_kept(reg, s), k) ==> has_key(s, k),
        has_key(reconcile_kept(reg, s), k) ==> !(has_key(reg, k) && !value_of(reg, k).enabled),
        has_key(s, k) && has_key(reg, k) && value_of(reg, k).enabled ==> has_key(
            reconcile_kept(reg, s),
            k,
        ),
        has_key(s, k) && !has_key(reg, k) ==> has_key(reconcile_kept(reg, s), k),
    decreases s.len(),
{
    if s.len() > 0 {
        lemma_kept_keys(reg, s.drop_last(), k);
        lemma_has_key_drop_last(s, k);
        let rest = reconcile_kept(reg, s.drop_last());
        let e = s.last();
        lemma_has_key_push(rest, (e.0, projection(value_of(reg, e.0))), k);
        lemma_has_key_push(rest, e, k);
    }
}

/// The entries kept hold unique names where the store did.
proof fn lemma_kept_unique(reg: Seq<(Seq<char>, DescriptorModel)>, s: Seq<(Seq<char>, Seq<char>)>)
    requires
        keys_unique(s),
    ensures
        keys_unique(reconcile_kept(reg, s)),
    decreases s.len(),
{
    if s.len() > 0 {
        let p = s.drop_last();
        assert(keys_unique(p)) by {
            assert forall|i: int, j: int| 0 <= i < j < p.len() implies p[i].0 != p[j].0 by {
                assert(s[i].0 != s[j].0);
            }
        }
        lemma_kept_unique(reg, p);
        let e = s.last();
        let rest = reconcile_kept(reg, p);
        assert(!has_key(p, e.0)) by {
            if has_key(p, e.0) {
                let i = key_pos(p, e.0);
                assert(s[i].0 != s[s.len() - 1].0);
            }
        }
        lemma_kept_keys(reg, p, e.0);
        let t = reconcile_kept(reg, s);
        if t.len() > rest.len() {
            assert forall|i: int, j: int| 0 <= i < j < t.len() implies t[i].0 != t[j].0 by {
                if j == rest.len() {
                    if t[i].0 == t[j].0 {
                        assert(rest[i].0 == e.0);
                        assert(has_key(rest, e.0));
                    }
                } else {
                    assert(rest[i].0 != rest[j].0);
                }
            }
        }
    }
}

/// What the added part holds: enabled registry names absent from the store.
proof fn lemma_added_keys(
    reg: Seq<(Seq<char>, DescriptorModel)>,
    s: Seq<(Seq<char>, Seq<char>)>,
    k: Seq<char>,
)
    ensures
        has_key(reconcile_added(reg, s), k) ==> !has_key(s, k) && has_key(reg, k),
        has_key(reconcile_added(reg, s), k) ==> exists|i: int|
            0 <= i < reg.len() && (#[trigger] reg[i]).0 == k && reg[i].1.enabled,
        (exists|i: int| 0 <= i < reg.len() && (#[trigger] reg[i]).0 == k && reg[i].1.enabled)
            && !has_key(s, k) ==> has_key(reconcile_added(reg, s), k),
    decreases reg.len(),
{
    if reg.len() > 0 {
        let p = reg.drop_last();
        lemma_added_keys(p, s, k);
        lemma_has_key_drop_last(reg, k);
        let rest = reconcile_added(p, s);
        let (kk, d) = reg.last();
        lemma_has_key_push(rest, (kk, projection(d)), k);
        if has_key(reconcile_added(reg, s), k) {
            if has_key(rest, k) {
                let i = choose|i: int| 0 <= i < p.len() && (#[trigger] p[i]).0 == k && p[i].1.enabled;
                assert(reg[i] == p[i]);
            } else {
                assert(reg[reg.len() - 1].0 == k);
            }
        }
        if (exists|i: int| 0 <= i < reg.len() && (#[trigger] reg[i]).0 == k && reg[i].1.enabled)
            && !has_key(s, k) {
            let i = choose|i: int| 0 <= i < reg.len() && (#[trigger] reg[i]).0 == k && reg[i].1.enabled;
            if i < p.len() {
                assert(p[i] == reg[i]);
            }
        }
    }
}

/// The added part holds unique names where the registry does.
proof fn lemma_added_unique(reg: Seq<(Seq<char>, DescriptorModel)>, s: Seq<(Seq<char>, Seq<char>)>)
    requires
        keys_unique(reg),
    ensures
        keys_unique(reconcile_added(reg, s)),
    decreases reg.len(),
{
    if reg.len() > 0 {
        let p = reg.drop_last();
        assert(keys_unique(p)) by {
            assert forall|i: int, j: int| 0 <= i < j < p.len() implies p[i].0 != p[j].0 by {
                assert(reg[i].0 != reg[j].0);
            }
        }
        lemma_added_unique(p, s);
        let rest = reconcile_added(p, s);
        let (k, d) = reg.last();
        lemma_added_keys(p, s, k);
        assert(!has_key(p, k)) by {
            if has_key(p, k) {
                let i = key_pos(p, k);
                assert(reg[i].0 != reg[reg.len() - 1].0);
            }
        }
        let t = reconcile_added(reg, s);
        if t.len() > rest.len() {
            assert forall|i: int, j: int| 0 <= i < j < t.len() implies t[i].0 != t[j].0 by {
                if j == rest.len() {
                    if t[i].0 == t[j].0 {
                        assert(rest[i].0 == k);
                        assert(has_key(rest, k));
                    }
                } else {
                    assert(rest[i].0 != rest[j].0);
                }
            }
        }
    }
}

/// Reconciliation keeps names unique.
pub proof fn lemma_reconcile_unique(
    reg: Seq<(Seq<char>, DescriptorModel)>,
    s: Seq<(Seq<char>, Seq<char>)>,
)
    requires
        keys_unique(reg),
        keys_unique(s),
    ensures
        keys_unique(reconcile_spec(reg, s)),
{
    let a = reconcile_kept(reg, s);
    let b = reconcile_added(reg, s);
    lemma_kept_unique(reg, s);
    lemma_added_unique(reg, s);
    let t = a + b;
    assert forall|i: int, j: int| 0 <= i < j < t.len() implies t[i].0 != t[j].0 by {
        if i < a.len() && j >= a.len() {
            let k = t[i].0;
            assert(a[i].0 == k);
            assert(has_key(a, k));
            lemma_kept_keys(reg, s, k);
            if b[j - a.len()].0 == k {
                assert(has_key(b, k));
                lemma_added_keys(reg, s, k);
            }
        } else if j < a.len() {
            assert(a[i].0 != a[j].0);
        } else {
            assert(b[i - a.len()].0 != b[j - a.len()].0);
        }
    }
}

proof fn lemma_kept_append(
    reg: Seq<(Seq<char>, DescriptorModel)>,
    a: Seq<(Seq<char>, Seq<char>)>,
    b: Seq<(Seq<char>, Seq<char>)>,
)
    ensures
        reconcile_kept(reg, a + b) == reconcile_kept(reg, a) + reconcile_kept(reg, b),
    decreases b.len(),
{
    if b.len() == 0 {
        assert(a + b == a);
        assert(reconcile_kept(reg, a) + reconcile_kept(reg, b) == reconcile_kept(reg, a));
    } else {
        lemma_kept_append(reg, a, b.drop_last());
        assert((a + b).drop_last() == a + b.drop_last());
        assert((a + b).last() == b.last());
        let x = reconcile_kept(reg, a);
        let y = reconcile_kept(reg, b.drop_last());
        let e = b.last();
        assert((x + y).push((e.0, projection(value_of(reg, e.0)))) == x + y.push(
            (e.0, projection(value_of(reg, e.0))),
        ));
        assert((x + y).push(e) == x + y.push(e));
    }
}

/// Reconciling entries that reconciliation produced changes nothing.
proof fn lemma_kept_fixed(reg: Seq<(Seq<char>, DescriptorModel)>, s: Seq<(Seq<char>, Seq<char>)>)
    ensures
        reconcile_kept(reg, reconcile_kept(reg, s)) == reconcile_kept(reg, s),
    decreases s.len(),
{
    if s.len() > 0 {
        lemma_kept_fixed(reg, s.drop_last());
        let rest = reconcile_kept(reg, s.drop_last());
        let e = s.last();
        let t = reconcile_kept(reg, s);
        if t.len() > rest.len() {
            assert(t.drop_last() == rest);
        }
    }
}

proof fn lemma_kept_of_added(
    reg: Seq<(Seq<char>, DescriptorModel)>,
    s: Seq<(Seq<char>, Seq<char>)>,
    n: int,
)
    requires
        keys_unique(reg),
        0 <= n <= reg.len(),
    ensures
        reconcile_kept(reg, reconcile_added(reg.subrange(0, n), s)) == reconcile_added(
            reg.subrange(0, n),
            s,
        ),
    decreases n,
{
    if n > 0 {
        lemma_kept_of_added(reg, s, n - 1);
        let p = reg.subrange(0, n);
        assert(p.drop_last() == reg.subrange(0, n - 1));
        let (k, d) = reg[n - 1];
        lemma_key_pos(reg, k, n - 1);
        let t = reconcile_added(p, s);
        let rest = reconcile_added(reg.subrange(0, n - 1), s);
        if t.len() > rest.len() {
            assert(t.drop_last() == rest);
        }
    }
}

proof fn lemma_nothing_added(
    reg: Seq<(Seq<char>, DescriptorModel)>,
    s: Seq<(Seq<char>, Seq<char>)>,
    n: int,
)
    requires
        0 <= n <= reg.len(),
        forall|i: int| 0 <= i < n && (#[trigger] reg[i]).1.enabled ==> has_key(s, reg[i].0),
    ensures
        reconcile_added(reg.subrange(0, n), s) == Seq::<(Seq<char>, Seq<char>)>::empty(),
    decreases n,
{
    if n > 0 {
        lemma_nothing_added(reg, s, n - 1);
        assert(reg.subrange(0, n).drop_last() == reg.subrange(0, n - 1));
    }
}

// ---------------------------------------------------------------------------
// Laws
/// Reconciling twice with the same registry gives what reconciling once gave:
/// the second run writes the store unchanged.
pub proof fn reconcile_idempotent(
    reg: Seq<(Seq<char>, DescriptorModel)>,
    s: Seq<(Seq<char>, Seq<char>)>,
)
    requires
        keys_unique(reg),
    ensures
        reconcile_spec(reg, reconcile_spec(reg, s)) == reconcile_spec(reg, s),
{
    let a = reconcile_kept(reg, s);
    let b = reconcile_added(reg, s);
    let s1 = a + b;
    assert(reg.subrange(0, reg.len() as int) == reg);
    lemma_kept_append(reg, a, b);
    lemma_kept_fixed(reg, s);
    lemma_kept_of_added(reg, s, reg.len() as int);
    assert forall|i: int| 0 <= i < reg.len() && (#[trigger] reg[i]).1.enabled implies has_key(
        s1,
        reg[i].0,
    ) by {
        let k = reg[i].0;
        lemma_key_pos(reg, k, i);
        lemma_kept_keys(reg, s, k);
        lemma_added_keys(reg, s, k);
        lemma_has_key_append(a, b, k);
    }
    lemma_nothing_added(reg, s1, reg.len() as int);
    assert(s1 + Seq::<(Seq<char>, Seq<char>)>::empty() == s1);
}

/// Reconciliation depends on what the registry holds, not on the order in
/// which its servers were added: two registries that hold the same names with
/// the same descriptors give the same store.
pub proof fn reconcile_ignores_registry_order(
    r1: Seq<(Seq<char>, DescriptorModel)>,
    r2: Seq<(Seq<char>, DescriptorModel)>,
    s: Seq<(Seq<char>, Seq<char>)>,
)
    requires
        keys_sorted(r1),
        keys_sorted(r2),
        forall|k: Seq<char>| has_key(r1, k) <==> has_key(r2, k),
        forall|k: Seq<char>| has_key(r1, k) ==> value_of(r1, k) == value_of(r2, k),
    ensures
        reconcile_spec(r1, s) == reconcile_spec(r2, s),
{
    lemma_same_content_equal(r1, r2);
}

/// An entry whose name the registry does not hold survives reconciliation
/// with its value, whatever the registry holds.
pub proof fn reconcile_keeps_foreign(
    reg: Seq<(Seq<char>, DescriptorModel)>,
    s: Seq<(Seq<char>, Seq<char>)>,
    k: Seq<char>,
)
    requires
        keys_unique(reg),
        keys_unique(s),
        has_key(s, k),
        !has_key(reg, k),
    ensures
        has_key(reconcile_spec(reg, s), k),
        value_of(reconcile_spec(reg, s), k) == value_of(s, k),
{
    lemma_kept_foreign_value(reg, s, k);
    let a = reconcile_kept(reg, s);
    let b = reconcile_added(reg, s);
    lemma_reconcile_unique(reg, s);
    let i = choose|i: int| 0 <= i < a.len() && (#[trigger] a[i]) == (k, value_of(s, k));
    assert((a + b)[i] == a[i]);
    lemma_key_pos(a + b, k, i);
}

proof fn lemma_kept_foreign_value(
    reg: Seq<(Seq<char>, DescriptorModel)>,
    s: Seq<(Seq<char>, Seq<char>)>,
    k: Seq<char>,
)
    requires
        keys_unique(s),
        has_key(s, k),
        !has_key(reg, k),
    ensures
        exists|i: int|
            0 <= i < reconcile_kept(reg, s).len() && (#[trigger] reconcile_kept(reg, s)[i]) == (
                k,
                value_of(s, k),
            ),
    decreases s.len(),
{
    let p = s.drop_last();
    let e = s.last();
    let rest = reconcile_kept(reg, p);
    lemma_key_pos(s, k, key_pos(s, k));
    if e.0 == k {
        lemma_key_pos(s, k, s.len() - 1);
        assert(reconcile_kept(reg, s)[rest.len() as int] == (k, value_of(s, k)));
    } else {
        assert(keys_unique(p)) by {
            assert forall|i: int, j: int| 0 <= i < j < p.len() implies p[i].0 != p[j].0 by {
                assert(s[i].0 != s[j].0);
            }
        }
        let i = key_pos(s, k);
        assert(i < p.len());
        assert(p[i].0 == k);
        lemma_key_pos(p, k, i);
        lemma_kept_foreign_value(reg, p, k);
        let j = choose|j: int| 0 <= j < rest.len() && (#[trigger] rest[j]) == (k, value_of(p, k));
        assert(reconcile_kept(reg, s)[j] == rest[j]);
    }
}

/// A server of the registry that is turned off is gone from the store after
/// reconciliation, while the registry still holds it with its transport.
pub proof fn disabled_server_leaves_store(
    reg: Seq<(Seq<char>, DescriptorModel)>,
    s: Seq<(Seq<char>, Seq<char>)>,
    name: Seq<char>,
)
    requires
        keys_sorted(reg),
        has_key(reg, name),
    ensures
        ({
            let off = put_spec(reg, name, DescriptorModel { enabled: false, ..value_of(reg, name) });
            &&& !has_key(reconcile_spec(off, s), name)
            &&& has_key(off, name)
            &&& value_of(off, name).transport == value_of(reg, name).transport
            &&& !value_of(off, name).enabled
        }),
{
    let d = DescriptorModel { enabled: false, ..value_of(reg, name) };
    let off = put_spec(reg, name, d);
    crate::registry::lemma_put(reg, name, d);
    lemma_kept_keys(off, s, name);
    lemma_added_keys(off, s, name);
    if has_key(reconcile_added(off, s), name) {
        let i = choose|i: int| 0 <= i < off.len() && (#[trigger] off[i]).0 == name && off[i].1.enabled;
        lemma_key_pos(off, name, i);
    }
    lemma_has_key_append(reconcile_kept(off, s), reconcile_added(off, s), name);
}

// ---------------------------------------------------------------------------
// Executable reconciliation
/// Reconciles the companion tool's servers (name and JSON text of each) with
/// the registry.
pub fn reconcile_servers(reg: &Registry, servers: &Vec<(String, String)>) -> (r: Vec<(String, String)>)
    requires
        reg.wf(),
    ensures
        pairs_view(r@) == reconcile_spec(reg@, pairs_view(servers@)),
{
    let ghost sv = pairs_view(servers@);
    let mut out: Vec<(String, String)> = Vec::new();
    let mut i: usize = 0;
    assert(sv.subrange(0, 0) == Seq::<(Seq<char>, Seq<char>)>::empty());
    while i < servers.len()
        invariant
            reg.wf(),
            sv == pairs_view(servers@),
            i <= servers@.len(),
            pairs_view(out@) == reconcile_kept(reg@, sv.subrange(0, i as int)),
        decreases servers@.len() - i,
    {
        let ghost old_out = out@;
        let ghost sub = sv.subrange(0, i + 1);
        assert(sub.drop_last() == sv.subrange(0, i as int));
        assert(sub.last() == (servers@[i as int].0@, servers@[i as int].1@));
        match reg.get(servers[i].0.as_str()) {
            Some(d) => {
                if d.enabled {
                    let t = descriptor_json(d, false);
                    let ghost tv = t@;
                    out.push((servers[i].0.clone(), t));
                    assert(pairs_view(out@) =~= pairs_view(old_out).push((sub.last().0, tv)));
                }
            },
            None => {
                out.push((servers[i].0.clone(), servers[i].1.clone()));
                assert(pairs_view(out@) =~= pairs_view(old_out).push(sub.last()));
            },
        }
        i += 1;
    }
    assert(sv.subrange(0, sv.len() as int) == sv);
    let ghost kept = pairs_view(out@);
    let mut j: usize = 0;
    assert(reg@.subrange(0, 0) == Seq::<(Seq<char>, DescriptorModel)>::empty());
    assert(kept + Seq::<(Seq<char>, Seq<char>)>::empty() == kept);
    while j < reg.len()
        invariant
            reg.wf(),
            sv == pairs_view(servers@),
            kept == reconcile_kept(reg@, sv),
            j <= reg@.len(),
            pairs_view(out@) == kept + reconcile_added(reg@.subrange(0, j as int), sv),
        decreases reg@.len() - j,
    {
        let ghost old_out = out@;
        let ghost sub = reg@.subrange(0, j + 1);
        assert(sub.drop_last() == reg@.subrange(0, j as int));
        let d = reg.descriptor_at(j);
        let name = reg.name_at(j);
        if d.enabled {
            match find_member(servers, name.as_str()) {
                Some(p) => {
                    assert(sv[p as int] == (servers@[p as int].0@, servers@[p as int].1@));
                    assert(has_key(sv, name@));
                },
                None => {
                    assert(!has_key(sv, name@)) by {
                        if has_key(sv, name@) {
                            let q = key_pos(sv, name@);
                            lemma_lookup_some(sv, name@, q);
                        }
                    }
                    let t = descriptor_json(d, false);
                    let ghost tv = t@;
                    out.push((name.clone(), t));
                    assert(pairs_view(out@) =~= pairs_view(old_out).push((name@, tv)));
                    assert(kept + reconcile_added(sub, sv) =~= (kept + reconcile_added(
                        reg@.subrange(0, j as int),
                        sv,
                    )).push((name@, tv)));
                },
            }
        }
        j += 1;
    }
    assert(reg@.subrange(0, reg@.len() as int) == reg@);
    out
}

/// A list in which some member is named `k` has a first member named `k`.
proof fn lemma_lookup_some(m: Seq<(Seq<char>, Seq<char>)>, k: Seq<char>, i: int)
    requires
        0 <= i < m.len(),
        m[i].0 == k,
    ensures
        lookup(m, k) is Some,
    decreases m.len(),
{
    if m[0].0 != k {
        assert(m.drop_first()[i - 1] == m[i]);
        lemma_lookup_some(m.drop_first(), k, i - 1);
    }
}

/// The key of the companion tool's document that holds its servers.
pub open spec fn servers_key() -> Seq<char> {
    "mcpServers"@
}

/// The servers a servers member holds: none where it is `null`, else the
/// members of the object it writes.
pub open spec fn servers_of(raw: Seq<char>) -> Option<Seq<(Seq<char>, Seq<char>)>> {
    if raw == "null"@ {
        Some(Seq::empty())
    } else {
        json_object_members(raw)
    }
}

/// The companion tool's document after reconciliation, from its top-level
/// members; `None` where the servers member is neither `null` nor a JSON
/// object.
pub open spec fn document_spec(
    reg: Seq<(Seq<char>, DescriptorModel)>,
    top: Seq<(Seq<char>, Seq<char>)>,
) -> Option<Seq<char>> {
    if has_key(top, servers_key()) {
        match servers_of(value_of(top, servers_key())) {
            None => None,
            Some(s) => Some(
                object_text(
                    upsert_spec(top, servers_key(), object_text(reconcile_spec(reg, s))),
                ),
            ),
        }
    } else {
        Some(object_text(upsert_spec(top, servers_key(), object_text(reconcile_spec(reg, Seq::empty())))))
    }
}

/// Why the companion tool's store could not be brought in line.
pub enum SyncError {
    /// The store could not be read or written; the cause.
    Io { message: String },
    /// The store is no JSON object; serde_json's message.
    Malformed { message: String },
    /// The servers member of the store is neither `null` nor a JSON object;
    /// serde_json's message.
    ServersMalformed { message: String },
}

/// Brings the companion tool's document in line with the registry. An absent
/// document (`None`) is taken as an empty object; all top-level members
/// other than the servers keep their place and text.
pub fn reconcile_document(reg: &Registry, existing: Option<&str>) -> (r: Result<String, SyncError>)
    requires
        reg.wf(),
    ensures
        existing is None ==> (r matches Ok(t) && Some(t@) == document_spec(reg@, Seq::empty())),
        existing matches Some(x) ==> match json_object_members(x@) {
            None => r matches Err(SyncError::Malformed { .. }),
            Some(top) => match document_spec(reg@, top) {
                Some(d) => r matches Ok(t) && t@ == d,
                None => r matches Err(SyncError::ServersMalformed { .. }),
            },
        },
{
    let mut top: Vec<(String, String)> = match existing {
        None => Vec::new(),
        Some(x) => match object_members(x) {
            Err(message) => return Err(SyncError::Malformed { message }),
            Ok(m) => m,
        },
    };
    let ghost tv = pairs_view(top@);
    assert(existing is None ==> tv =~= Seq::<(Seq<char>, Seq<char>)>::empty());
    assert(keys_unique(tv));
    let key = "mcpServers";
    match find_member(&top, key) {
        Some(i) => {
            proof {
                assert(tv[i as int] == (top@[i as int].0@, top@[i as int].1@));
                lemma_key_pos(tv, servers_key(), i as int);
            }
            let servers = if crate::text::same_text(top[i].1.as_str(), "null") {
                let none: Vec<(String, String)> = Vec::new();
                assert(pairs_view(none@) =~= Seq::<(Seq<char>, Seq<char>)>::empty());
                none
            } else {
                match object_members(top[i].1.as_str()) {
                    Err(message) => return Err(SyncError::ServersMalformed { message }),
                    Ok(s) => s,
                }
            };
            let text = render_object(&reconcile_servers(reg, &servers));
            let ghost textv = text@;
            let name = top[i].0.clone();
            top.set(i, (name, text));
            assert(pairs_view(top@) =~= tv.update(i as int, (servers_key(), textv)));
        },
        None => {
            assert(!has_key(tv, servers_key())) by {
                if has_key(tv, servers_key()) {
                    lemma_lookup_some(tv, servers_key(), key_pos(tv, servers_key()));
                }
            }
            let empty: Vec<(String, String)> = Vec::new();
            assert(pairs_view(empty@) =~= Seq::<(Seq<char>, Seq<char>)>::empty());
            let text = render_object(&reconcile_servers(reg, &empty));
            let ghost textv = text@;
            top.push((key.to_string(), text));
            assert(pairs_view(top@) =~= tv.push((servers_key(), textv)));
        },
    }
    Ok(render_object(&top))
}

} // verus!
