//! The order of variant streams bears on the order of the findings only.
use crate::checks::multivariant::{
    bandwidth_findings, bandwidths_of, codecs_findings, codecs_of, coded_like_uri,
    consistency_findings, is_first_uri, is_first_variant, like_variant, same_variant, uri_rule,
    variant_members, variant_rule, video_codec, video_codecs, video_findings,
};
use crate::gather::{disagree, gathered, lemma_picked, picked};
use crate::text::optional;
use crate::types::{named, CheckId, IssueView, MasterRendition, Severity};
use vstd::multiset::Multiset;
use vstd::prelude::*;

verus! {

/// How serious a finding is, the check that raised it, and its URI.
pub type Shape = (Severity, CheckId, Option<Seq<char>>);

pub open spec fn shape() -> spec_fn(IssueView) -> Shape {
    |i: IssueView| (i.severity, i.check_id, i.uri_a)
}

/// The shapes of the findings, whatever their order.
pub open spec fn shapes(s: Seq<IssueView>) -> Multiset<Shape> {
    s.map_values(shape()).to_multiset()
}

/// The shapes that `g` gives for each of the keys, together.
pub open spec fn shapes_of<K>(keys: Seq<K>, g: spec_fn(K) -> Multiset<Shape>) -> Multiset<Shape>
    decreases keys.len(),
{
    if keys.len() == 0 {
        Multiset::empty()
    } else {
        shapes_of(keys.drop_last(), g).add(g(keys.last()))
    }
}

/// The shapes of two lists are those of the one and those of the other.
proof fn lemma_shapes_add(a: Seq<IssueView>, b: Seq<IssueView>)
    ensures
        shapes(a + b) == shapes(a).add(shapes(b)),
{
    assert((a + b).map_values(shape()) =~= a.map_values(shape()) + b.map_values(shape()));
    vstd::seq_lib::lemma_multiset_commutative(a.map_values(shape()), b.map_values(shape()));
}

/// No findings have no shapes.
proof fn lemma_shapes_empty(s: Seq<IssueView>)
    requires
        s.len() == 0,
    ensures
        shapes(s) == Multiset::<Shape>::empty(),
{
    s.map_values(shape()).to_multiset_ensures();
    assert(shapes(s) =~= Multiset::<Shape>::empty());
}

/// One key can be taken out and its shapes added again.
proof fn lemma_take_out<K>(keys: Seq<K>, g: spec_fn(K) -> Multiset<Shape>, i: int)
    requires
        0 <= i < keys.len(),
    ensures
        shapes_of(keys, g) == shapes_of(keys.remove(i), g).add(g(keys[i])),
    decreases keys.len(),
{
    let rest = keys.drop_last();
    if i == keys.len() - 1 {
        assert(keys.remove(i) =~= rest);
    } else {
        lemma_take_out(rest, g, i);
        let less = keys.remove(i);
        assert(less.drop_last() =~= rest.remove(i));
        assert(less.last() == keys.last());
        assert(shapes_of(keys, g) =~= shapes_of(less, g).add(g(keys[i])));
    }
}

/// The same keys in another order have the same shapes.
proof fn lemma_any_order<K>(a: Seq<K>, b: Seq<K>, g: spec_fn(K) -> Multiset<Shape>)
    requires
        a.no_duplicates(),
        b.no_duplicates(),
        forall|k: K| a.contains(k) <==> b.contains(k),
    ensures
        shapes_of(a, g) == shapes_of(b, g),
    decreases a.len(),
{
    if a.len() == 0 {
        if b.len() > 0 {
            assert(b.contains(b[0]));
            assert(a.contains(b[0]));
        }
    } else {
        let x = a.last();
        assert(a.contains(x));
        let i = choose|i: int| 0 <= i < b.len() && b[i] == x;
        let rest = a.drop_last();
        let less = b.remove(i);
        assert(rest.no_duplicates());
        assert(less.no_duplicates()) by {
            assert forall|m: int, n: int| 0 <= m < n < less.len() implies less[m] != less[n] by {
                let p = if m < i {
                    m
                } else {
                    m + 1
                };
                let q = if n < i {
                    n
                } else {
                    n + 1
                };
                assert(less[m] == b[p] && less[n] == b[q] && p != q);
            }
        }
        assert forall|k: K| rest.contains(k) <==> less.contains(k) by {
            if rest.contains(k) {
                let m = choose|m: int| 0 <= m < rest.len() && rest[m] == k;
                assert(a[m] == k && a[a.len() - 1] == x);
                assert(a.contains(k));
                let n = choose|n: int| 0 <= n < b.len() && b[n] == k;
                assert(k != x);
                if n < i {
                    assert(less[n] == k);
                } else {
                    assert(less[n - 1] == k);
                }
            }
            if less.contains(k) {
                let m = choose|m: int| 0 <= m < less.len() && less[m] == k;
                let n = if m < i {
                    m
                } else {
                    m + 1
                };
                assert(b[n] == k && n != i);
                assert(b.contains(k));
                let p = choose|p: int| 0 <= p < a.len() && a[p] == k;
                assert(k != x);
                assert(rest[p] == k);
            }
        }
        lemma_any_order(rest, less, g);
        lemma_take_out(b, g, i);
    }
}

/// Whether no position before `i` has the key of position `i`.
pub open spec fn is_first_key<K>(key: spec_fn(int) -> K, i: int) -> bool {
    forall|j: int| 0 <= j < i ==> #[trigger] key(j) != key(i)
}

/// Whether a position below `n` has the key `k`.
pub open spec fn occurs<K>(n: nat, key: spec_fn(int) -> K, k: K) -> bool {
    exists|i: int| 0 <= i < n && #[trigger] key(i) == k
}

/// The keys of the positions below `n`, each once, in order of appearance.
pub open spec fn keys_of<K>(n: nat, key: spec_fn(int) -> K) -> Seq<K> {
    picked(n, |i: int| is_first_key(key, i)).map_values(key)
}

/// The keys are those of the positions, each once.
proof fn lemma_keys<K>(n: nat, key: spec_fn(int) -> K)
    ensures
        keys_of(n, key).no_duplicates(),
        forall|k: K| #[trigger] keys_of(n, key).contains(k) <==> occurs(n, key, k),
    decreases n,
{
    if n == 0 {
        assert(forall|k: K| !keys_of(n, key).contains(k));
    } else {
        let m = (n - 1) as nat;
        lemma_keys(m, key);
        let less = keys_of(m, key);
        let all = keys_of(n, key);
        let last = key(n - 1);
        if is_first_key(key, n - 1) {
            assert(all =~= less.push(last));
            assert(!occurs(m, key, last));
            assert(!less.contains(last));
        } else {
            assert(all =~= less);
            let j = choose|j: int| 0 <= j < n - 1 && #[trigger] key(j) == last;
            assert(occurs(m, key, last));
            assert(less.contains(last));
        }
        assert forall|k: K| #[trigger] all.contains(k) <==> occurs(n, key, k) by {
            if all.contains(k) {
                let p = choose|p: int| 0 <= p < all.len() && all[p] == k;
                if p < less.len() {
                    assert(less[p] == k);
                    assert(less.contains(k));
                    assert(occurs(m, key, k));
                } else {
                    assert(key(n - 1) == k);
                }
            }
            if occurs(n, key, k) {
                let i = choose|i: int| 0 <= i < n && #[trigger] key(i) == k;
                if i < n - 1 {
                    assert(occurs(m, key, k));
                    assert(less.contains(k));
                    let p = choose|p: int| 0 <= p < less.len() && less[p] == k;
                    assert(all[p] == k);
                } else if is_first_key(key, n - 1) {
                    assert(all[all.len() - 1] == k);
                }
            }
        }
    }
}

/// A rule that speaks up at the first position of each key has the shapes of
/// the keys.
proof fn lemma_shapes_by_key<K>(
    n: nat,
    rule: spec_fn(int) -> Seq<IssueView>,
    key: spec_fn(int) -> K,
    g: spec_fn(K) -> Multiset<Shape>,
)
    requires
        forall|i: int|
            0 <= i < n ==> shapes(#[trigger] rule(i)) == if is_first_key(key, i) {
                g(key(i))
            } else {
                Multiset::empty()
            },
    ensures
        shapes(gathered(n, rule)) == shapes_of(keys_of(n, key), g),
    decreases n,
{
    if n == 0 {
        lemma_shapes_empty(gathered(n, rule));
    } else {
        let m = (n - 1) as nat;
        lemma_shapes_by_key(m, rule, key, g);
        lemma_shapes_add(gathered(m, rule), rule(n - 1));
        assert(shapes(rule(n - 1)) == if is_first_key(key, n - 1) {
            g(key(n - 1))
        } else {
            Multiset::empty()
        });
        let less = keys_of(m, key);
        let all = keys_of(n, key);
        if is_first_key(key, n - 1) {
            assert(all =~= less.push(key(n - 1)));
            assert(all.drop_last() =~= less);
        } else {
            assert(all =~= less);
            assert(shapes(gathered(n, rule)) =~= shapes(gathered(m, rule)));
        }
    }
}

/// Rules of two lists that have the same keys, and speak up alike for each of
/// them, have the same shapes.
proof fn lemma_same_keys<K>(
    n: nat,
    rule: spec_fn(int) -> Seq<IssueView>,
    key: spec_fn(int) -> K,
    other: spec_fn(int) -> Seq<IssueView>,
    other_key: spec_fn(int) -> K,
    g: spec_fn(K) -> Multiset<Shape>,
)
    requires
        forall|i: int|
            0 <= i < n ==> shapes(#[trigger] rule(i)) == if is_first_key(key, i) {
                g(key(i))
            } else {
                Multiset::empty()
            },
        forall|i: int|
            0 <= i < n ==> shapes(#[trigger] other(i)) == if is_first_key(other_key, i) {
                g(other_key(i))
            } else {
                Multiset::empty()
            },
        forall|k: K| #[trigger] occurs(n, key, k) <==> occurs(n, other_key, k),
    ensures
        shapes(gathered(n, rule)) == shapes(gathered(n, other)),
{
    lemma_shapes_by_key(n, rule, key, g);
    lemma_shapes_by_key(n, other, other_key, g);
    lemma_keys(n, key);
    lemma_keys(n, other_key);
    assert forall|k: K| keys_of(n, key).contains(k) <==> keys_of(n, other_key).contains(k) by {
        assert(occurs(n, key, k) <==> occurs(n, other_key, k));
    }
    lemma_any_order(keys_of(n, key), keys_of(n, other_key), g);
}

/// What makes an entry a variant stream: its URI and its rendition groups.
pub type VariantKey = (
    Seq<char>,
    Option<Seq<char>>,
    Option<Seq<char>>,
    Option<Seq<char>>,
    Option<Seq<char>>,
);

pub open spec fn key_of(v: MasterRendition) -> VariantKey {
    (
        v.uri@,
        optional(v.audio_group),
        optional(v.subtitle_group),
        optional(v.closed_captions),
        optional(v.video_group),
    )
}

pub open spec fn variant_keys(vs: Seq<MasterRendition>) -> spec_fn(int) -> VariantKey {
    |i: int| key_of(vs[i])
}

pub open spec fn uri_keys(vs: Seq<MasterRendition>) -> spec_fn(int) -> Seq<char> {
    |i: int| vs[i].uri@
}

/// Whether two entries of a variant stream have different codecs.
pub open spec fn codecs_vary(vs: Seq<MasterRendition>, k: VariantKey) -> bool {
    exists|a: MasterRendition, b: MasterRendition|
        #![trigger vs.contains(a), vs.contains(b)]
        vs.contains(a) && vs.contains(b) && key_of(a) == k && key_of(b) == k && optional(a.codecs)
            != optional(b.codecs)
}

/// Whether two entries of a variant stream have different bandwidths.
pub open spec fn bandwidths_vary(vs: Seq<MasterRendition>, k: VariantKey) -> bool {
    exists|a: MasterRendition, b: MasterRendition|
        #![trigger vs.contains(a), vs.contains(b)]
        vs.contains(a) && vs.contains(b) && key_of(a) == k && key_of(b) == k && a.bandwidth
            != b.bandwidth
}

/// Whether two entries with a URI have different video codecs.
pub open spec fn video_varies(vs: Seq<MasterRendition>, uri: Seq<char>) -> bool {
    exists|a: MasterRendition, b: MasterRendition|
        #![trigger vs.contains(a), vs.contains(b)]
        vs.contains(a) && vs.contains(b) && a.uri@ == uri && b.uri@ == uri && a.codecs is Some
            && b.codecs is Some && video_codec((a.codecs->0)@) != video_codec((b.codecs->0)@)
}

/// A finding of the given severity on a URI, where there is one.
pub open spec fn one_if(found: bool, severity: Severity, uri: Seq<char>) -> Multiset<Shape> {
    if found {
        Multiset::singleton((severity, CheckId::Unassigned, Some(uri)))
    } else {
        Multiset::empty()
    }
}

pub open spec fn variant_shapes(vs: Seq<MasterRendition>) -> spec_fn(VariantKey) -> Multiset<
    Shape,
> {
    |k: VariantKey|
        one_if(codecs_vary(vs, k), Severity::Warn, k.0).add(
            one_if(bandwidths_vary(vs, k), Severity::Warn, k.0),
        )
}

pub open spec fn uri_shapes(vs: Seq<MasterRendition>) -> spec_fn(Seq<char>) -> Multiset<Shape> {
    |uri: Seq<char>| one_if(video_varies(vs, uri), Severity::Error, uri)
}

/// The shape of at most one finding.
proof fn lemma_one_if(s: Seq<IssueView>, found: bool, severity: Severity, uri: Seq<char>)
    requires
        found ==> s.len() == 1 && shape()(s[0]) == (severity, CheckId::Unassigned, Some(uri)),
        !found ==> s.len() == 0,
    ensures
        shapes(s) == one_if(found, severity, uri),
{
    if found {
        let x = shape()(s[0]);
        let empty = Seq::<Shape>::empty();
        assert(s.map_values(shape()) =~= empty.push(x));
        empty.to_multiset_ensures();
        assert(shapes(s) =~= one_if(found, severity, uri));
    } else {
        lemma_shapes_empty(s);
    }
}

/// The entries of a variant stream differ exactly when two entries with its
/// key do.
proof fn lemma_variant_varies(vs: Seq<MasterRendition>, i: int)
    requires
        0 <= i < vs.len(),
    ensures
        disagree(codecs_of(vs, variant_members(vs, i))) == codecs_vary(vs, key_of(vs[i])),
        disagree(bandwidths_of(vs, variant_members(vs, i))) == bandwidths_vary(vs, key_of(vs[i])),
{
    let p = like_variant(vs, i);
    let m = variant_members(vs, i);
    let k = key_of(vs[i]);
    lemma_picked(vs.len(), p);
    let codecs = codecs_of(vs, m);
    let bandwidths = bandwidths_of(vs, m);
    if disagree(codecs) {
        let (x, y) = choose|x: int, y: int|
            0 <= x < codecs.len() && 0 <= y < codecs.len() && codecs[x] != codecs[y];
        assert(p(m[x]) && p(m[y]));
        assert(vs.contains(vs[m[x]]) && vs.contains(vs[m[y]]));
    }
    if disagree(bandwidths) {
        let (x, y) = choose|x: int, y: int|
            0 <= x < bandwidths.len() && 0 <= y < bandwidths.len() && bandwidths[x]
                != bandwidths[y];
        assert(p(m[x]) && p(m[y]));
        assert(vs.contains(vs[m[x]]) && vs.contains(vs[m[y]]));
    }
    if codecs_vary(vs, k) {
        let (a, b) = choose|a: MasterRendition, b: MasterRendition|
            #![trigger vs.contains(a), vs.contains(b)]
            vs.contains(a) && vs.contains(b) && key_of(a) == k && key_of(b) == k && optional(
                a.codecs,
            ) != optional(b.codecs);
        let x = lemma_place(vs, p, a);
        let y = lemma_place(vs, p, b);
        assert(codecs[x] != codecs[y]);
    }
    if bandwidths_vary(vs, k) {
        let (a, b) = choose|a: MasterRendition, b: MasterRendition|
            #![trigger vs.contains(a), vs.contains(b)]
            vs.contains(a) && vs.contains(b) && key_of(a) == k && key_of(b) == k && a.bandwidth
                != b.bandwidth;
        let x = lemma_place(vs, p, a);
        let y = lemma_place(vs, p, b);
        assert(bandwidths[x] != bandwidths[y]);
    }
}

/// Where an entry stands among those picked.
proof fn lemma_place(vs: Seq<MasterRendition>, p: spec_fn(int) -> bool, a: MasterRendition) -> (x:
    int)
    requires
        vs.contains(a),
        forall|j: int| 0 <= j < vs.len() && vs[j] == a ==> #[trigger] p(j),
    ensures
        0 <= x < picked(vs.len(), p).len(),
        vs[picked(vs.len(), p)[x]] == a,
{
    let m = picked(vs.len(), p);
    lemma_picked(vs.len(), p);
    let j = choose|j: int| 0 <= j < vs.len() && vs[j] == a;
    assert(p(j));
    assert(m.contains(j));
    choose|x: int| 0 <= x < m.len() && m[x] == j
}

/// The entries with a URI differ in the video codec exactly when two of them
/// do.
proof fn lemma_video_varies(vs: Seq<MasterRendition>, i: int)
    requires
        0 <= i < vs.len(),
    ensures
        disagree(video_codecs(vs, i)) == video_varies(vs, vs[i].uri@),
{
    let p = coded_like_uri(vs, i);
    let m = picked(vs.len(), p);
    let uri = vs[i].uri@;
    lemma_picked(vs.len(), p);
    let codecs = video_codecs(vs, i);
    if disagree(codecs) {
        let (x, y) = choose|x: int, y: int|
            0 <= x < codecs.len() && 0 <= y < codecs.len() && codecs[x] != codecs[y];
        assert(p(m[x]) && p(m[y]));
        assert(vs.contains(vs[m[x]]) && vs.contains(vs[m[y]]));
    }
    if video_varies(vs, uri) {
        let (a, b) = choose|a: MasterRendition, b: MasterRendition|
            #![trigger vs.contains(a), vs.contains(b)]
            vs.contains(a) && vs.contains(b) && a.uri@ == uri && b.uri@ == uri && a.codecs is Some
                && b.codecs is Some && video_codec((a.codecs->0)@) != video_codec(
                (b.codecs->0)@,
            );
        let x = lemma_place(vs, p, a);
        let y = lemma_place(vs, p, b);
        assert(codecs[x] != codecs[y]);
    }
}

/// The shapes of the findings on one variant stream.
proof fn lemma_variant_shapes(vs: Seq<MasterRendition>, i: int)
    requires
        0 <= i < vs.len(),
    ensures
        shapes(variant_rule(vs)(i)) == if is_first_key(variant_keys(vs), i) {
            variant_shapes(vs)(variant_keys(vs)(i))
        } else {
            Multiset::empty()
        },
{
    let key = variant_keys(vs);
    let k = key_of(vs[i]);
    assert(is_first_variant(vs, i) == is_first_key(key, i)) by {
        if is_first_variant(vs, i) {
            assert forall|j: int| 0 <= j < i implies #[trigger] key(j) != key(i) by {
                assert(!same_variant(vs[j], vs[i]));
            }
        }
        if is_first_key(key, i) {
            assert forall|j: int| 0 <= j < i implies !same_variant(#[trigger] vs[j], vs[i]) by {
                assert(key(j) != key(i));
            }
        }
    }
    if is_first_variant(vs, i) {
        lemma_variant_varies(vs, i);
        lemma_one_if(codecs_findings(vs, i), codecs_vary(vs, k), Severity::Warn, k.0);
        lemma_one_if(bandwidth_findings(vs, i), bandwidths_vary(vs, k), Severity::Warn, k.0);
        lemma_shapes_add(codecs_findings(vs, i), bandwidth_findings(vs, i));
    } else {
        lemma_shapes_empty(variant_rule(vs)(i));
    }
}

/// The shapes of the findings on one URI.
proof fn lemma_uri_shapes(vs: Seq<MasterRendition>, i: int)
    requires
        0 <= i < vs.len(),
    ensures
        shapes(uri_rule(vs)(i)) == if is_first_key(uri_keys(vs), i) {
            uri_shapes(vs)(uri_keys(vs)(i))
        } else {
            Multiset::empty()
        },
{
    let key = uri_keys(vs);
    let uri = vs[i].uri@;
    assert(is_first_uri(vs, i) == is_first_key(key, i)) by {
        if is_first_uri(vs, i) {
            assert forall|j: int| 0 <= j < i implies #[trigger] key(j) != key(i) by {
                assert(vs[j].uri@ != vs[i].uri@);
            }
        }
        if is_first_key(key, i) {
            assert forall|j: int| 0 <= j < i implies (#[trigger] vs[j]).uri@ != vs[i].uri@ by {
                assert(key(j) != key(i));
            }
        }
    }
    if is_first_uri(vs, i) {
        lemma_video_varies(vs, i);
        lemma_one_if(video_findings(vs, i), video_varies(vs, uri), Severity::Error, uri);
    } else {
        lemma_shapes_empty(uri_rule(vs)(i));
    }
}

/// The same entries in another order have the same keys, and differ alike.
proof fn lemma_reordered(vs: Seq<MasterRendition>, ws: Seq<MasterRendition>)
    requires
        vs.to_multiset() == ws.to_multiset(),
    ensures
        vs.len() == ws.len(),
        forall|v: MasterRendition| vs.contains(v) <==> ws.contains(v),
        variant_shapes(vs) == variant_shapes(ws),
        uri_shapes(vs) == uri_shapes(ws),
{
    vs.to_multiset_ensures();
    ws.to_multiset_ensures();
    assert forall|v: MasterRendition| vs.contains(v) <==> ws.contains(v) by {
        assert(vs.contains(v) <==> vs.to_multiset().count(v) > 0);
        assert(ws.contains(v) <==> ws.to_multiset().count(v) > 0);
    }
    assert forall|k: VariantKey| codecs_vary(vs, k) == codecs_vary(ws, k) by {}
    assert forall|k: VariantKey| bandwidths_vary(vs, k) == bandwidths_vary(ws, k) by {}
    assert forall|u: Seq<char>| video_varies(vs, u) == video_varies(ws, u) by {}
    assert(variant_shapes(vs) =~= variant_shapes(ws));
    assert(uri_shapes(vs) =~= uri_shapes(ws));
}

/// Naming the producer gives each shape its check.
proof fn lemma_named_shapes(id: CheckId, s: Seq<IssueView>, t: Seq<IssueView>)
    requires
        shapes(s) == shapes(t),
    ensures
        shapes(named(id, s)) == shapes(named(id, t)),
    decreases s.len(),
{
    let f = shape();
    let x = s.map_values(f);
    let y = t.map_values(f);
    x.to_multiset_ensures();
    y.to_multiset_ensures();
    if s.len() == 0 {
        assert(named(id, s) =~= named(id, t));
    } else {
        let last = x.last();
        assert(x.contains(last));
        assert(x.to_multiset().count(last) > 0);
        assert(y.contains(last));
        let i = choose|i: int| 0 <= i < y.len() && y[i] == last;
        let rest = s.drop_last();
        let less = t.remove(i);
        assert(rest.map_values(f) =~= x.remove(x.len() - 1));
        assert(less.map_values(f) =~= y.remove(i));
        assert(shapes(rest) =~= x.to_multiset().remove(last));
        assert(shapes(less) =~= y.to_multiset().remove(last));
        lemma_named_shapes(id, rest, less);
        let p = named(id, s).map_values(f);
        let q = named(id, t).map_values(f);
        p.to_multiset_ensures();
        q.to_multiset_ensures();
        assert(named(id, rest).map_values(f) =~= p.remove(p.len() - 1));
        assert(named(id, less).map_values(f) =~= q.remove(i));
        assert(p[p.len() - 1] == q[i]);
        assert(p.contains(p[p.len() - 1]) && q.contains(q[i]));
        assert(p.to_multiset() =~= q.to_multiset()) by {
            let z = q[i];
            assert(p.to_multiset() =~= p.to_multiset().remove(z).insert(z));
            assert(q.to_multiset() =~= q.to_multiset().remove(z).insert(z));
        }
    }
}

/// The order of the entries bears on the order and the words of the findings
/// only: the same entries in another order have findings of the same severity,
/// of the same check and on the same URIs, each as many times.
pub proof fn law_entries_in_any_order(vs: Seq<MasterRendition>, ws: Seq<MasterRendition>)
    requires
        vs.to_multiset() == ws.to_multiset(),
    ensures
        shapes(consistency_findings(vs)) == shapes(consistency_findings(ws)),
        shapes(named(CheckId::StreamInfConsistency, consistency_findings(vs))) == shapes(
            named(CheckId::StreamInfConsistency, consistency_findings(ws)),
        ),
{
    let n = vs.len();
    lemma_reordered(vs, ws);
    assert forall|i: int| 0 <= i < n implies shapes(#[trigger] variant_rule(vs)(i)) == if is_first_key(
        variant_keys(vs),
        i,
    ) {
        variant_shapes(vs)(variant_keys(vs)(i))
    } else {
        Multiset::empty()
    } by {
        lemma_variant_shapes(vs, i);
    }
    assert forall|i: int| 0 <= i < n implies shapes(#[trigger] variant_rule(ws)(i)) == if is_first_key(
        variant_keys(ws),
        i,
    ) {
        variant_shapes(vs)(variant_keys(ws)(i))
    } else {
        Multiset::empty()
    } by {
        lemma_variant_shapes(ws, i);
    }
    assert forall|i: int| 0 <= i < n implies shapes(#[trigger] uri_rule(vs)(i)) == if is_first_key(
        uri_keys(vs),
        i,
    ) {
        uri_shapes(vs)(uri_keys(vs)(i))
    } else {
        Multiset::empty()
    } by {
        lemma_uri_shapes(vs, i);
    }
    assert forall|i: int| 0 <= i < n implies shapes(#[trigger] uri_rule(ws)(i)) == if is_first_key(
        uri_keys(ws),
        i,
    ) {
        uri_shapes(vs)(uri_keys(ws)(i))
    } else {
        Multiset::empty()
    } by {
        lemma_uri_shapes(ws, i);
    }
    lemma_keys_reordered(vs, ws);
    lemma_keys_reordered(ws, vs);
    lemma_same_keys(
        n,
        variant_rule(vs),
        variant_keys(vs),
        variant_rule(ws),
        variant_keys(ws),
        variant_shapes(vs),
    );
    lemma_same_keys(n, uri_rule(vs), uri_keys(vs), uri_rule(ws), uri_keys(ws), uri_shapes(vs));
    lemma_shapes_add(gathered(n, variant_rule(vs)), gathered(n, uri_rule(vs)));
    lemma_shapes_add(gathered(n, variant_rule(ws)), gathered(n, uri_rule(ws)));
    lemma_named_shapes(
        CheckId::StreamInfConsistency,
        consistency_findings(vs),
        consistency_findings(ws),
    );
}

/// Entries that are all in another list have their keys there.
proof fn lemma_keys_reordered(vs: Seq<MasterRendition>, ws: Seq<MasterRendition>)
    requires
        forall|v: MasterRendition| vs.contains(v) ==> ws.contains(v),
    ensures
        forall|k: VariantKey| #[trigger]
            occurs(vs.len(), variant_keys(vs), k) ==> occurs(ws.len(), variant_keys(ws), k),
        forall|k: Seq<char>| #[trigger]
            occurs(vs.len(), uri_keys(vs), k) ==> occurs(ws.len(), uri_keys(ws), k),
{
    assert forall|k: VariantKey| #[trigger] occurs(vs.len(), variant_keys(vs), k) implies occurs(
        ws.len(),
        variant_keys(ws),
        k,
    ) by {
        let i = choose|i: int| 0 <= i < vs.len() && #[trigger] variant_keys(vs)(i) == k;
        assert(vs.contains(vs[i]));
        let j = choose|j: int| 0 <= j < ws.len() && ws[j] == vs[i];
        assert(variant_keys(ws)(j) == k);
    }
    assert forall|k: Seq<char>| #[trigger] occurs(vs.len(), uri_keys(vs), k) implies occurs(
        ws.len(),
        uri_keys(ws),
        k,
    ) by {
        let i = choose|i: int| 0 <= i < vs.len() && #[trigger] uri_keys(vs)(i) == k;
        assert(vs.contains(vs[i]));
        let j = choose|j: int| 0 <= j < ws.len() && ws[j] == vs[i];
        assert(uri_keys(ws)(j) == k);
    }
}

} // verus!
