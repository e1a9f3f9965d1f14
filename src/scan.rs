use vstd::prelude::*;
use crate::blacklist::{Blacklist, Moron};
use crate::fuzzy::{ratio, score};
use crate::text::{char_count, normalize, normalized};

verus! {

/// One pairing of a detected line with a listed player.
#[derive(Clone, Debug)]
pub struct ScanInfo {
    /// The listed player's display name (not the recognized text).
    pub username: String,
    /// Similarity of the recognized text to that name, from 0 to 100.
    pub similarity: u8,
}

impl ScanInfo {
    pub open spec fn view(&self) -> (Seq<char>, u8) {
        (self.username@, self.similarity)
    }
}

/// Whether a detected line is kept: its key is longer than one character.
pub open spec fn survives(d: Seq<char>) -> bool {
    normalized(d).len() > 1
}

/// The results of one detected line: one per listed name, in order.
pub open spec fn line_results(d: Seq<char>, names: Seq<Seq<char>>) -> Seq<(Seq<char>, u8)> {
    names.map_values(|n: Seq<char>| (n, score(normalized(d), normalized(n))))
}

/// The results of the detected lines `ds` against the listed names: for each
/// surviving line in order, its results against every name.
pub open spec fn scan_results(ds: Seq<Seq<char>>, names: Seq<Seq<char>>) -> Seq<(Seq<char>, u8)>
    decreases ds.len(),
{
    if ds.len() == 0 {
        Seq::empty()
    } else if survives(ds.last()) {
        scan_results(ds.drop_last(), names) + line_results(ds.last(), names)
    } else {
        scan_results(ds.drop_last(), names)
    }
}

/// The number of surviving lines among `ds`.
pub open spec fn survivors(ds: Seq<Seq<char>>) -> nat
    decreases ds.len(),
{
    if ds.len() == 0 {
        0
    } else {
        survivors(ds.drop_last()) + if survives(ds.last()) { 1nat } else { 0nat }
    }
}

/// The views of a sequence of results.
pub open spec fn views(r: Seq<ScanInfo>) -> Seq<(Seq<char>, u8)> {
    r.map_values(|s: ScanInfo| s.view())
}

/// The views of a sequence of strings.
pub open spec fn texts(v: Seq<String>) -> Seq<Seq<char>> {
    v.map_values(|s: String| s@)
}

/// Scores every detected line against every listed player.
///
/// A line whose key has at most one character gives no result. Every other
/// line gives one result per listed player, in list order, with the player's
/// name and the score of the two keys. Nothing is merged or sorted.
pub fn aggregate(detections: &Vec<String>, blacklist: &Blacklist) -> (r: Vec<ScanInfo>)
    ensures
        views(r@) == scan_results(texts(detections@), blacklist.names()),
        forall|k: int| 0 <= k < r.len() ==> #[trigger] r[k].similarity <= 100,
{
    let mut r: Vec<ScanInfo> = Vec::new();
    let mut i: usize = 0;
    while i < detections.len()
        invariant
            i <= detections.len(),
            views(r@) == scan_results(texts(detections@.take(i as int)), blacklist.names()),
            forall|k: int| 0 <= k < r.len() ==> #[trigger] r[k].similarity <= 100,
        decreases detections.len() - i,
    {
        let key = normalize(detections[i].as_str());
        let ghost before = views(r@);
        proof {
            assert(texts(detections@.take(i + 1)).drop_last() == texts(detections@.take(i as int)));
            assert(texts(detections@.take(i + 1)).last() == detections@[i as int]@);
        }
        if char_count(key.as_str()) > 1 {
            let mut j: usize = 0;
            while j < blacklist.morons.len()
                invariant
                    i < detections.len(),
                    j <= blacklist.morons.len(),
                    key@ == normalized(detections@[i as int]@),
                    views(r@) == before + line_results(
                        detections@[i as int]@,
                        blacklist.names(),
                    ).take(j as int),
                    forall|k: int| 0 <= k < r.len() ==> #[trigger] r[k].similarity <= 100,
                decreases blacklist.morons.len() - j,
            {
                let m: &Moron = &blacklist.morons[j];
                let name_key = normalize(m.username.as_str());
                let similarity = ratio(key.as_str(), name_key.as_str());
                let ghost prev = r@;
                r.push(ScanInfo { username: m.username.clone(), similarity });
                proof {
                    let lr = line_results(detections@[i as int]@, blacklist.names());
                    assert(lr.take(j + 1) == lr.take(j as int).push(lr[j as int]));
                    assert(views(r@) == views(prev).push(r@[j as int + before.len()].view())) by {
                        assert(r@ == prev.push(r@[r@.len() - 1]));
                    }
                }
                j = j + 1;
            }
            proof {
                let lr = line_results(detections@[i as int]@, blacklist.names());
                assert(lr.take(lr.len() as int) == lr);
            }
        }
        i = i + 1;
    }
    assert(detections@.take(detections.len() as int) == detections@);
    r
}

/// A detected line whose key has at most one character adds no result.
pub proof fn lemma_short_line_adds_nothing(ds: Seq<Seq<char>>, d: Seq<char>, names: Seq<Seq<char>>)
    requires
        normalized(d).len() <= 1,
    ensures
        scan_results(ds.push(d), names) == scan_results(ds, names),
        scan_results(seq![d], names).len() == 0,
{
    assert(ds.push(d).drop_last() == ds);
    assert(seq![d].drop_last() == Seq::<Seq<char>>::empty());
    assert(seq![d].last() == d);
    assert(scan_results(Seq::<Seq<char>>::empty(), names).len() == 0);
}

/// Aggregation gives the full cross product: one result for each pair of a
/// surviving line and a listed name.
pub proof fn lemma_cross_product_count(ds: Seq<Seq<char>>, names: Seq<Seq<char>>)
    ensures
        scan_results(ds, names).len() == survivors(ds) * names.len(),
    decreases ds.len(),
{
    if ds.len() > 0 {
        lemma_cross_product_count(ds.drop_last(), names);
        let s = survivors(ds.drop_last());
        assert(line_results(ds.last(), names).len() == names.len());
        assert((s + 1) * names.len() == s * names.len() + names.len()) by (nonlinear_arith);
        if survives(ds.last()) {
            assert(survivors(ds) == s + 1);
        } else {
            assert(survivors(ds) == s);
        }
    } else {
        assert(survivors(ds) == 0);
        assert(0 * names.len() == 0);
    }
}

/// The results of the first lines of `ds` come first among the results of
/// all of them.
proof fn lemma_results_prefix(ds: Seq<Seq<char>>, names: Seq<Seq<char>>, m: int)
    requires
        0 <= m <= ds.len(),
    ensures
        scan_results(ds.take(m), names).len() <= scan_results(ds, names).len(),
        scan_results(ds.take(m), names) == scan_results(ds, names).take(
            scan_results(ds.take(m), names).len() as int,
        ),
    decreases ds.len(),
{
    let all = scan_results(ds, names);
    if m == ds.len() {
        assert(ds.take(m) == ds);
        assert(all.take(all.len() as int) == all);
    } else {
        lemma_results_prefix(ds.drop_last(), names, m);
        assert(ds.drop_last().take(m) == ds.take(m));
        let pre = scan_results(ds.drop_last(), names);
        let part = scan_results(ds.take(m), names);
        if survives(ds.last()) {
            assert(all == pre + line_results(ds.last(), names));
            assert(all.take(part.len() as int) == pre.take(part.len() as int));
        }
    }
}

/// A surviving line whose key equals a listed name's key scores 100 against
/// that name: the result for line `i` and name `j` stands at the position
/// that the cross product gives it, with the name and a similarity of 100.
pub proof fn lemma_equal_keys_score_full(ds: Seq<Seq<char>>, names: Seq<Seq<char>>, i: int, j: int)
    requires
        0 <= i < ds.len(),
        0 <= j < names.len(),
        survives(ds[i]),
        normalized(ds[i]) == normalized(names[j]),
    ensures
        ({
            let p = survivors(ds.take(i)) * names.len() + j;
            &&& 0 <= p < scan_results(ds, names).len()
            &&& scan_results(ds, names)[p] == (names[j], 100u8)
        }),
{
    let p = survivors(ds.take(i)) * names.len() + j;
    let upto = ds.take(i + 1);
    assert(upto.drop_last() == ds.take(i));
    assert(upto.last() == ds[i]);
    lemma_cross_product_count(ds.take(i), names);
    lemma_results_prefix(ds, names, i + 1);
    let lr = line_results(ds[i], names);
    assert(scan_results(upto, names) == scan_results(ds.take(i), names) + lr);
    assert(lr[j] == (names[j], 100u8));
    assert(scan_results(upto, names)[p] == lr[j]);
}

/// The similarity at or above which a result is shown.
pub const SHOW_THRESHOLD: u8 = 70;

/// The results of `v` whose similarity reaches `threshold`, in order.
pub open spec fn reaching(v: Seq<(Seq<char>, u8)>, threshold: u8) -> Seq<(Seq<char>, u8)> {
    v.filter(|p: (Seq<char>, u8)| p.1 >= threshold)
}

/// Whether the similarities of `v` never increase along it.
pub open spec fn descending(v: Seq<(Seq<char>, u8)>) -> bool {
    forall|i: int, j: int| 0 <= i < j < v.len() ==> v[i].1 >= v[j].1
}

/// Whether a result has similarity `s`.
pub open spec fn has_similarity(s: u8) -> spec_fn((Seq<char>, u8)) -> bool {
    |p: (Seq<char>, u8)| p.1 == s
}

/// The results of `v` with similarity `s`, in order.
pub open spec fn with_similarity(v: Seq<(Seq<char>, u8)>, s: u8) -> Seq<(Seq<char>, u8)> {
    v.filter(has_similarity(s))
}

/// No result of `v` has similarity `s`.
proof fn lemma_none_with_similarity(v: Seq<(Seq<char>, u8)>, s: u8)
    requires
        forall|k: int| 0 <= k < v.len() ==> v[k].1 != s,
    ensures
        with_similarity(v, s) == Seq::<(Seq<char>, u8)>::empty(),
    decreases v.len(),
{
    reveal(Seq::filter);
    if v.len() > 0 {
        lemma_none_with_similarity(v.drop_last(), s);
    }
}

/// Inserting `x` after every result at least as similar and before every
/// less similar one appends it to the results of its similarity.
proof fn lemma_insert_keeps_groups(q: Seq<(Seq<char>, u8)>, pos: int, x: (Seq<char>, u8), s: u8)
    requires
        0 <= pos <= q.len(),
        forall|k: int| 0 <= k < pos ==> q[k].1 >= x.1,
        forall|k: int| pos <= k < q.len() ==> q[k].1 < x.1,
    ensures
        with_similarity(q.insert(pos, x), s) == if x.1 == s {
            with_similarity(q, s).push(x)
        } else {
            with_similarity(q, s)
        },
{
    reveal(Seq::filter);
    let q0 = q.take(pos);
    let q1 = q.skip(pos);
    let f = has_similarity(s);
    assert(q == q0 + q1);
    assert(q.insert(pos, x) == q0 + seq![x] + q1);
    Seq::filter_distributes_over_add(q0, q1, f);
    Seq::filter_distributes_over_add(q0 + seq![x], q1, f);
    Seq::filter_distributes_over_add(q0, seq![x], f);
    let e = Seq::<(Seq<char>, u8)>::empty();
    assert(seq![x].drop_last() == e);
    assert(seq![x].last() == x);
    assert(e.filter(f) == e);
    assert(q.insert(pos, x).filter(f) == q0.filter(f) + seq![x].filter(f) + q1.filter(f));
    assert(q.filter(f) == q0.filter(f) + q1.filter(f));
    if x.1 == s {
        lemma_none_with_similarity(q1, s);
        assert(seq![x].filter(f) == seq![x]);
        assert(q1.filter(f) == e);
        assert(q0.filter(f) + seq![x] + e == (q0.filter(f) + e).push(x));
    } else {
        assert(seq![x].filter(f) == e);
        assert(q0.filter(f) + e + q1.filter(f) == q0.filter(f) + q1.filter(f));
    }
}

/// The results worth showing: those whose similarity reaches `threshold`,
/// from the most similar down. Results of equal similarity keep their order.
pub fn similar_scans(scans: &Vec<ScanInfo>, threshold: u8) -> (r: Vec<ScanInfo>)
    ensures
        views(r@).to_multiset() == reaching(views(scans@), threshold).to_multiset(),
        descending(views(r@)),
        forall|s: u8|
            #[trigger] with_similarity(views(r@), s) == with_similarity(
                reaching(views(scans@), threshold),
                s,
            ),
        forall|i: int| 0 <= i < r.len() ==> #[trigger] r[i].similarity >= threshold,
{
    let mut r: Vec<ScanInfo> = Vec::new();
    let mut i: usize = 0;
    proof {
        reveal(Seq::filter);
        assert(views(r@) == Seq::<(Seq<char>, u8)>::empty());
        assert(views(scans@.take(0)) == Seq::<(Seq<char>, u8)>::empty());
        assert(reaching(views(scans@.take(0)), threshold) == Seq::<(Seq<char>, u8)>::empty());
    }
    while i < scans.len()
        invariant
            i <= scans.len(),
            views(r@).to_multiset() == reaching(views(scans@.take(i as int)), threshold).to_multiset(),
            descending(views(r@)),
            forall|s: u8|
                #[trigger] with_similarity(views(r@), s) == with_similarity(
                    reaching(views(scans@.take(i as int)), threshold),
                    s,
                ),
            forall|k: int| 0 <= k < r.len() ==> #[trigger] r[k].similarity >= threshold,
        decreases scans.len() - i,
    {
        let sim = scans[i].similarity;
        proof {
            reveal(Seq::filter);
            assert(views(scans@.take(i + 1)).drop_last() == views(scans@.take(i as int)));
            assert(views(scans@.take(i + 1)).last() == scans@[i as int].view());
            if sim >= threshold {
                assert(reaching(views(scans@.take(i + 1)), threshold) == reaching(
                    views(scans@.take(i as int)),
                    threshold,
                ).push(scans@[i as int].view()));
            } else {
                assert(reaching(views(scans@.take(i + 1)), threshold) == reaching(
                    views(scans@.take(i as int)),
                    threshold,
                ));
            }
        }
        if sim >= threshold {
            let mut pos: usize = 0;
            while pos < r.len() && r[pos].similarity >= sim
                invariant
                    pos <= r.len(),
                    forall|k: int| 0 <= k < pos ==> #[trigger] r[k].similarity >= sim,
                decreases r.len() - pos,
            {
                pos = pos + 1;
            }
            let item = ScanInfo { username: scans[i].username.clone(), similarity: sim };
            assert(item.view() == scans@[i as int].view());
            let ghost prev = r@;
            r.insert(pos, item);
            proof {
                assert(views(r@) == views(prev).insert(pos as int, item.view()));
                let before = reaching(views(scans@.take(i as int)), threshold);
                vstd::seq_lib::to_multiset_insert(views(prev), pos as int, item.view());
                vstd::seq_lib::to_multiset_build(before, item.view());
                assert(views(prev).insert(pos as int, item.view()).to_multiset() == views(
                    prev,
                ).to_multiset().insert(item.view()));
                assert(before.push(item.view()).to_multiset() == before.to_multiset().insert(
                    item.view(),
                ));
                assert forall|k: int| pos <= k < views(prev).len() implies views(prev)[k].1
                    < item.view().1 by {
                    assert(prev[pos as int].similarity < sim);
                    assert(views(prev)[pos as int].1 >= views(prev)[k].1);
                }
                assert forall|k: int| 0 <= k < pos implies views(prev)[k].1 >= item.view().1 by {
                    assert(prev[k].similarity >= sim);
                }
                assert forall|t: u8| #[trigger] with_similarity(views(r@), t) == with_similarity(
                    reaching(views(scans@.take(i + 1)), threshold),
                    t,
                ) by {
                    lemma_insert_keeps_groups(views(prev), pos as int, item.view(), t);
                    reveal(Seq::filter);
                    assert(before.push(item.view()).drop_last() == before);
                }
                assert forall|a: int, b: int| 0 <= a < b < views(r@).len() implies views(r@)[a].1
                    >= views(r@)[b].1 by {
                    if a < pos && b > pos {
                        assert(prev[a].similarity >= sim);
                    }
                    if a == pos && b > pos {
                        assert(prev[pos as int].similarity < sim);
                        assert(views(prev)[pos as int].1 >= views(prev)[b - 1].1);
                    }
                }
            }
        }
        i = i + 1;
    }
    assert(scans@.take(scans.len() as int) == scans@);
    r
}

} // verus!
