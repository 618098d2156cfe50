//! Reading the download links out of a repack page: the hoster entry of
//! the page, the links hidden in its spoilers, and their order (by file
//! name, which is the URL fragment, compared naturally) with repeats
//! removed.

use vstd::prelude::*;
use crate::natural::{key_le, key_le_chars, lemma_key_antisym, lemma_key_refl, lemma_key_total, lemma_key_trans};
use crate::text::{chars_of, second_field, second_field_of};

verus! {

/// Lexicographic order of character sequences.  Since UTF-8 keeps the
/// order of code points, this is the order of `str::cmp` on the texts.
pub open spec fn lex_le(a: Seq<char>, b: Seq<char>) -> bool
    decreases a.len(),
{
    if a.len() == 0 {
        true
    } else if b.len() == 0 {
        false
    } else if a[0] != b[0] {
        (a[0] as int) < (b[0] as int)
    } else {
        lex_le(a.drop_first(), b.drop_first())
    }
}

/// The order is reflexive.
pub proof fn lemma_lex_refl(a: Seq<char>)
    ensures
        lex_le(a, a),
    decreases a.len(),
{
    if a.len() > 0 {
        lemma_lex_refl(a.drop_first());
    }
}

/// The order is total.
pub proof fn lemma_lex_total(a: Seq<char>, b: Seq<char>)
    ensures
        lex_le(a, b) || lex_le(b, a),
    decreases a.len(),
{
    if a.len() > 0 && b.len() > 0 && a[0] == b[0] {
        lemma_lex_total(a.drop_first(), b.drop_first());
    } else if a.len() > 0 && b.len() > 0 {
        assert(a[0] as int != b[0] as int);
    }
}

/// The order is transitive.
pub proof fn lemma_lex_trans(a: Seq<char>, b: Seq<char>, c: Seq<char>)
    requires
        lex_le(a, b),
        lex_le(b, c),
    ensures
        lex_le(a, c),
    decreases a.len(),
{
    if a.len() > 0 && b.len() > 0 && c.len() > 0 && a[0] == b[0] && b[0] == c[0] {
        lemma_lex_trans(a.drop_first(), b.drop_first(), c.drop_first());
    }
}

proof fn lemma_lex_skip(a: Seq<char>, b: Seq<char>, i: int)
    requires
        0 <= i <= a.len(),
        i <= b.len(),
        forall|j: int| 0 <= j < i ==> a[j] == b[j],
    ensures
        lex_le(a, b) == lex_le(a.skip(i), b.skip(i)),
    decreases i,
{
    if i > 0 {
        assert forall|j: int| 0 <= j < i - 1 implies a.drop_first()[j] == b.drop_first()[j] by {
            assert(a.drop_first()[j] == a[j + 1]);
            assert(b.drop_first()[j] == b[j + 1]);
        }
        lemma_lex_skip(a.drop_first(), b.drop_first(), i - 1);
        assert(a.drop_first().skip(i - 1) =~= a.skip(i));
        assert(b.drop_first().skip(i - 1) =~= b.skip(i));
    } else {
        assert(a.skip(0) =~= a);
        assert(b.skip(0) =~= b);
    }
}

/// Whether `a` comes no later than `b` in lexicographic order.
pub fn lex_le_chars(a: &[char], b: &[char]) -> (r: bool)
    ensures
        r == lex_le(a@, b@),
{
    let mut i: usize = 0;
    while i < a.len() && i < b.len() && a[i] == b[i]
        invariant
            i <= a@.len(),
            i <= b@.len(),
            forall|j: int| 0 <= j < i ==> a@[j] == b@[j],
        decreases a@.len() - i,
    {
        i = i + 1;
    }
    proof {
        lemma_lex_skip(a@, b@, i as int);
    }
    let r = if i == a.len() {
        true
    } else if i == b.len() {
        false
    } else {
        a[i] < b[i]
    };
    proof {
        let sa = a@.skip(i as int);
        let sb = b@.skip(i as int);
        if i < a.len() && i < b.len() {
            assert(sa[0] == a@[i as int]);
            assert(sb[0] == b@[i as int]);
        }
    }
    r
}

/// What a link is ordered by: its fragment (the text after `#`, which
/// names the file), or the whole link when it has none.
pub open spec fn sort_key(link: Seq<char>) -> Seq<char> {
    match second_field(link, '#') {
        Some(f) => f,
        None => link,
    }
}

/// The key a link is ordered by.
pub fn sort_key_of(link: &str) -> (r: Vec<char>)
    ensures
        r@ == sort_key(link@),
{
    let cs = chars_of(link);
    match second_field_of(cs.as_slice(), '#') {
        Some(f) => f,
        None => cs,
    }
}

/// The texts of a list of strings.
pub open spec fn views(v: Seq<String>) -> Seq<Seq<char>> {
    v.map_values(|s: String| s@)
}

/// Whether a list of links is in the natural order of their keys.
pub open spec fn sorted_by_key(s: Seq<Seq<char>>) -> bool {
    forall|i: int, j: int| 0 <= i < j < s.len() ==> key_le(sort_key(#[trigger] s[i]), sort_key(#[trigger] s[j]))
}

/// The links of a list whose key is `k`, in their order.
pub open spec fn with_key(s: Seq<Seq<char>>, k: Seq<char>) -> Seq<Seq<char>> {
    s.filter(|x: Seq<char>| sort_key(x) == k)
}

/// Whether a list of links is a stable reordering of another: for every
/// key, the links with that key come in the same order in both.
pub open spec fn stable_reorder(a: Seq<Seq<char>>, b: Seq<Seq<char>>) -> bool {
    forall|k: Seq<char>| #[trigger] with_key(a, k) == with_key(b, k)
}

proof fn lemma_insert_keeps_classes(out: Seq<Seq<char>>, p: int, x: Seq<char>, k: Seq<char>)
    requires
        0 <= p <= out.len(),
        forall|j: int| p <= j < out.len() ==> !key_le(sort_key(#[trigger] out[j]), sort_key(x)),
    ensures
        with_key(out.insert(p, x), k) == if sort_key(x) == k {
            with_key(out, k).push(x)
        } else {
            with_key(out, k)
        },
{
    let pred = |y: Seq<char>| sort_key(y) == k;
    let a = out.take(p);
    let b = out.skip(p);
    assert(out =~= a + b);
    assert(out.insert(p, x) =~= a + (seq![x] + b));
    Seq::filter_distributes_over_add(a, b, pred);
    Seq::filter_distributes_over_add(seq![x], b, pred);
    Seq::filter_distributes_over_add(a, seq![x] + b, pred);
    reveal_with_fuel(Seq::filter, 2);
    assert(seq![x].drop_last() =~= Seq::<Seq<char>>::empty());
    if sort_key(x) == k {
        assert forall|j: int| 0 <= j < b.len() implies !pred(#[trigger] b[j]) by {
            assert(b[j] == out[p + j]);
            lemma_key_refl(sort_key(x));
        }
        b.lemma_all_neg_filter_empty(pred);
        assert(with_key(out.insert(p, x), k) =~= with_key(out, k).push(x));
    } else {
        assert(seq![x].filter(pred) =~= Seq::<Seq<char>>::empty());
        assert(with_key(out.insert(p, x), k) =~= with_key(out, k));
    }
}

/// Orders links by their keys, keeping links with equal keys in the order
/// they came (what a stable `sort_by` on the keys does).
pub fn sort_by_key(links: &Vec<String>) -> (r: Vec<String>)
    ensures
        views(r@).len() == views(links@).len(),
        sorted_by_key(views(r@)),
        stable_reorder(views(r@), views(links@)),
{
    let mut out: Vec<String> = Vec::new();
    let mut n: usize = 0;
    while n < links.len()
        invariant
            n <= links@.len(),
            out@.len() == n,
            sorted_by_key(views(out@)),
            forall|k: Seq<char>| #[trigger] with_key(views(out@), k) == with_key(views(links@).take(n as int), k),
        decreases links@.len() - n,
    {
        let x = links[n].clone();
        let kx = sort_key_of(x.as_str());
        let mut p: usize = out.len();
        while p > 0
            invariant
                p <= out@.len(),
                kx@ == sort_key(x@),
                forall|j: int| p <= j < out@.len() ==> !key_le(sort_key(#[trigger] views(out@)[j]), sort_key(x@)),
            ensures
                p <= out@.len(),
                forall|j: int| p <= j < out@.len() ==> !key_le(sort_key(#[trigger] views(out@)[j]), sort_key(x@)),
                p == 0 || key_le(sort_key(views(out@)[p - 1]), sort_key(x@)),
            decreases p,
        {
            let kp = sort_key_of(out[p - 1].as_str());
            if key_le_chars(kp.as_slice(), kx.as_slice()) {
                break;
            }
            p = p - 1;
        }
        let ghost before = views(out@);
        proof {
            assert forall|k: Seq<char>| #[trigger] with_key(before.insert(p as int, x@), k)
                == with_key(views(links@).take(n + 1), k) by {
                lemma_insert_keeps_classes(before, p as int, x@, k);
                let t = views(links@).take(n + 1);
                assert(t =~= views(links@).take(n as int).push(x@));
                views(links@).take(n as int).lemma_filter_push(x@, |y: Seq<char>| sort_key(y) == k);
            }
        }
        out.insert(p, x);
        proof {
            assert(views(out@) =~= before.insert(p as int, x@));
            assert forall|i: int, j: int| 0 <= i < j < views(out@).len()
                implies key_le(sort_key(#[trigger] views(out@)[i]), sort_key(#[trigger] views(out@)[j])) by {
                let v = views(out@);
                let pp = p as int;
                if j < pp {
                    assert(v[i] == before[i] && v[j] == before[j]);
                } else if i > pp {
                    assert(v[i] == before[i - 1] && v[j] == before[j - 1]);
                } else if i == pp {
                    assert(v[j] == before[j - 1]);
                    lemma_key_total(sort_key(x@), sort_key(before[j - 1]));
                } else if j == pp {
                    assert(v[i] == before[i]);
                    if i < pp - 1 {
                        lemma_key_trans(sort_key(before[i]), sort_key(before[pp - 1]), sort_key(x@));
                    }
                } else {
                    assert(v[i] == before[i]);
                    assert(v[j] == before[j - 1]);
                    if i < j - 1 {
                    } else {
                        lemma_key_refl(sort_key(before[i]));
                    }
                }
            }
            assert forall|k: Seq<char>| #[trigger] with_key(views(out@), k) == with_key(views(links@).take(n + 1), k) by {
                assert(views(out@) =~= before.insert(p as int, x@));
            }
        }
        n = n + 1;
    }
    proof {
        assert(views(links@).take(n as int) =~= views(links@));
    }
    out
}

} // verus!

verus! {

/// A list with every element after its first occurrence removed: the
/// first occurrences, in their order.
pub open spec fn dedup_all(s: Seq<Seq<char>>) -> Seq<Seq<char>>
    decreases s.len(),
{
    if s.len() == 0 {
        s
    } else if dedup_all(s.drop_last()).contains(s.last()) {
        dedup_all(s.drop_last())
    } else {
        dedup_all(s.drop_last()).push(s.last())
    }
}

/// Whether `x` occurs among the links of `v`.
fn contains_link(v: &Vec<String>, x: &String) -> (r: bool)
    ensures
        r == views(v@).contains(x@),
{
    let mut j: usize = 0;
    while j < v.len()
        invariant
            j <= v@.len(),
            forall|m: int| 0 <= m < j ==> views(v@)[m] != x@,
        decreases v@.len() - j,
    {
        if v[j] == *x {
            assert(views(v@)[j as int] == x@);
            return true;
        }
        j = j + 1;
    }
    false
}

/// Removes from a list of links every link that occurred before, keeping
/// the first occurrences in their order.
pub fn dedup_links(v: &Vec<String>) -> (r: Vec<String>)
    ensures
        views(r@) == dedup_all(views(v@)),
{
    let mut out: Vec<String> = Vec::new();
    let mut i: usize = 0;
    while i < v.len()
        invariant
            i <= v@.len(),
            views(out@) == dedup_all(views(v@).take(i as int)),
        decreases v@.len() - i,
    {
        let ghost t = views(v@).take(i + 1);
        assert(t.drop_last() =~= views(v@).take(i as int));
        assert(t.last() == v@[i as int]@);
        if !contains_link(&out, &v[i]) {
            let ghost before = out@;
            out.push(v[i].clone());
            assert(views(out@) =~= views(before).push(v@[i as int]@));
        }
        i = i + 1;
    }
    assert(views(v@).take(i as int) =~= views(v@));
    out
}

/// No link occurs twice in a list.
pub open spec fn no_duplicates(s: Seq<Seq<char>>) -> bool {
    forall|i: int, j: int| 0 <= i < j < s.len() ==> #[trigger] s[i] != #[trigger] s[j]
}

/// After removing repeats, no link occurs twice, and the same links occur
/// as before.
pub proof fn lemma_dedup_all(s: Seq<Seq<char>>)
    ensures
        no_duplicates(dedup_all(s)),
        forall|x: Seq<char>| dedup_all(s).contains(x) <==> s.contains(x),
    decreases s.len(),
{
    if s.len() > 0 {
        let t = s.drop_last();
        let d0 = dedup_all(t);
        let d = dedup_all(s);
        lemma_dedup_all(t);
        assert forall|x: Seq<char>| d.contains(x) <==> s.contains(x) by {
            if s.contains(x) {
                let j = choose|j: int| 0 <= j < s.len() && s[j] == x;
                if j < s.len() - 1 {
                    assert(t[j] == x);
                    assert(t.contains(x));
                    let m = choose|m: int| 0 <= m < d0.len() && d0[m] == x;
                    assert(d[m] == x);
                } else if !d0.contains(s.last()) {
                    assert(d[d.len() - 1] == x);
                }
            }
            if d.contains(x) {
                let j = choose|j: int| 0 <= j < d.len() && d[j] == x;
                if j < d0.len() {
                    assert(d0[j] == x);
                    assert(d0.contains(x));
                    assert(t.contains(x));
                    let k = choose|k: int| 0 <= k < t.len() && t[k] == x;
                    assert(s[k] == x);
                } else {
                    assert(s[s.len() - 1] == x);
                }
            }
        }
        if !d0.contains(s.last()) {
            assert forall|i: int, j: int| 0 <= i < j < d.len() implies #[trigger] d[i] != #[trigger] d[j] by {
                if j < d.len() - 1 {
                    assert(d[i] == d0[i] && d[j] == d0[j]);
                } else {
                    assert(d[i] == d0[i]);
                    assert(d[j] == s.last());
                }
            }
        }
    }
}

/// Removing repeats keeps a list in key order.
pub proof fn lemma_dedup_sorted(s: Seq<Seq<char>>)
    requires
        sorted_by_key(s),
    ensures
        sorted_by_key(dedup_all(s)),
    decreases s.len(),
{
    if s.len() > 0 {
        let t = s.drop_last();
        assert(sorted_by_key(t)) by {
            assert forall|i: int, j: int| 0 <= i < j < t.len()
                implies key_le(sort_key(#[trigger] t[i]), sort_key(#[trigger] t[j])) by {
                assert(t[i] == s[i] && t[j] == s[j]);
            }
        }
        lemma_dedup_sorted(t);
        lemma_dedup_all(t);
        let d0 = dedup_all(t);
        let d = dedup_all(s);
        if !d0.contains(s.last()) {
            assert forall|i: int, j: int| 0 <= i < j < d.len()
                implies key_le(sort_key(#[trigger] d[i]), sort_key(#[trigger] d[j])) by {
                if j < d.len() - 1 {
                    assert(d[i] == d0[i] && d[j] == d0[j]);
                } else {
                    assert(d[i] == d0[i]);
                    assert(d0.contains(d0[i]));
                    assert(t.contains(d0[i]));
                    let k = choose|k: int| 0 <= k < t.len() && t[k] == d0[i];
                    assert(s[k] == d[i]);
                    assert(d[j] == s[s.len() - 1]);
                }
            }
        }
    }
}

/// The texts of the links that are present in a list of optional links.
pub open spec fn present(v: Seq<Option<Seq<char>>>) -> Seq<Seq<char>>
    decreases v.len(),
{
    if v.len() == 0 {
        Seq::empty()
    } else {
        match v.last() {
            Some(h) => present(v.drop_last()).push(h),
            None => present(v.drop_last()),
        }
    }
}

/// The links of all spoilers, spoiler by spoiler, skipping anchors
/// without an `href`.
pub open spec fn flatten_present(sp: Seq<Seq<Option<Seq<char>>>>) -> Seq<Seq<char>>
    decreases sp.len(),
{
    if sp.len() == 0 {
        Seq::empty()
    } else {
        flatten_present(sp.drop_last()) + present(sp.last())
    }
}

/// Whether some spoiler box of `sp` holds an anchor whose `href` is `x`.
pub open spec fn in_some_box(sp: Seq<Seq<Option<Seq<char>>>>, x: Seq<char>) -> bool {
    exists|i: int, j: int| 0 <= i < sp.len() && 0 <= j < sp[i].len() && #[trigger] sp[i][j] == Some(x)
}

proof fn lemma_present_contains(v: Seq<Option<Seq<char>>>, x: Seq<char>)
    ensures
        present(v).contains(x) <==> exists|j: int| 0 <= j < v.len() && #[trigger] v[j] == Some(x),
    decreases v.len(),
{
    if v.len() > 0 {
        let t = v.drop_last();
        lemma_present_contains(t, x);
        let p0 = present(t);
        if exists|j: int| 0 <= j < v.len() && #[trigger] v[j] == Some(x) {
            let j = choose|j: int| 0 <= j < v.len() && #[trigger] v[j] == Some(x);
            if j < v.len() - 1 {
                assert(t[j] == Some(x));
                let m = choose|m: int| 0 <= m < p0.len() && p0[m] == x;
                assert(present(v)[m] == x);
            } else {
                assert(present(v) == p0.push(x));
                assert(present(v)[p0.len() as int] == x);
            }
        }
        if present(v).contains(x) {
            let m = choose|m: int| 0 <= m < present(v).len() && present(v)[m] == x;
            match v.last() {
                Some(h) => {
                    if m < p0.len() {
                        assert(p0[m] == x);
                        assert(p0.contains(x));
                        let j = choose|j: int| 0 <= j < t.len() && #[trigger] t[j] == Some(x);
                        assert(v[j] == Some(x));
                    } else {
                        assert(v[v.len() - 1] == Some(x));
                    }
                },
                None => {
                    assert(p0.contains(x));
                    let j = choose|j: int| 0 <= j < t.len() && #[trigger] t[j] == Some(x);
                    assert(v[j] == Some(x));
                },
            }
        }
    }
}

/// The links of the spoilers keep every `href` of every box: a link is
/// among them exactly when some box holds an anchor with that `href`.
pub proof fn lemma_every_box_kept(sp: Seq<Seq<Option<Seq<char>>>>, x: Seq<char>)
    ensures
        flatten_present(sp).contains(x) <==> in_some_box(sp, x),
    decreases sp.len(),
{
    if sp.len() > 0 {
        let t = sp.drop_last();
        let last = sp.last();
        lemma_every_box_kept(t, x);
        lemma_present_contains(last, x);
        let (a, b) = (flatten_present(t), present(last));
        let f = flatten_present(sp);
        assert(f == a + b);
        if f.contains(x) {
            let m = choose|m: int| 0 <= m < f.len() && f[m] == x;
            if m < a.len() {
                assert(a[m] == x);
                assert(a.contains(x));
                let (i, j) = choose|i: int, j: int| 0 <= i < t.len() && 0 <= j < t[i].len() && #[trigger] t[i][j] == Some(x);
                assert(sp[i] == t[i]);
                assert(sp[i][j] == Some(x));
            } else {
                assert(b[m - a.len()] == x);
                assert(b.contains(x));
                let j = choose|j: int| 0 <= j < last.len() && #[trigger] last[j] == Some(x);
                assert(sp[sp.len() - 1][j] == Some(x));
            }
        }
        if in_some_box(sp, x) {
            let (i, j) = choose|i: int, j: int| 0 <= i < sp.len() && 0 <= j < sp[i].len() && #[trigger] sp[i][j] == Some(x);
            if i < sp.len() - 1 {
                assert(t[i][j] == Some(x));
                assert(in_some_box(t, x));
                let m = choose|m: int| 0 <= m < a.len() && a[m] == x;
                assert(f[m] == x);
            } else {
                assert(last[j] == Some(x));
                let m = choose|m: int| 0 <= m < b.len() && b[m] == x;
                assert(f[a.len() + m] == x);
            }
        }
    }
}

/// The view of a list of optional links.
pub open spec fn opt_views(v: Seq<Option<String>>) -> Seq<Option<Seq<char>>> {
    v.map_values(|o: Option<String>| match o {
        Some(s) => Some(s@),
        None => None,
    })
}

/// The view of the links of several spoilers.
pub open spec fn spoiler_views(sp: Seq<Vec<Option<String>>>) -> Seq<Seq<Option<Seq<char>>>> {
    sp.map_values(|v: Vec<Option<String>>| opt_views(v@))
}

/// Whether `result` is what the links of the spoilers `sp` become: put in
/// key order (stably) and with every repeat removed.
pub open spec fn spoiler_links_spec(sp: Seq<Seq<Option<Seq<char>>>>, result: Seq<Seq<char>>) -> bool {
    exists|t: Seq<Seq<char>>|
        #![trigger dedup_all(t)]
        sorted_by_key(t) && stable_reorder(t, flatten_present(sp)) && t.len()
            == flatten_present(sp).len() && result == dedup_all(t)
}

/// Gathers the links of the spoilers, in key order, without repeats.
pub fn collect_spoiler_links(spoilers: &Vec<Vec<Option<String>>>) -> (r: Vec<String>)
    ensures
        spoiler_links_spec(spoiler_views(spoilers@), views(r@)),
        sorted_by_key(views(r@)),
        no_duplicates(views(r@)),
        forall|x: Seq<char>| views(r@).contains(x) <==> flatten_present(spoiler_views(spoilers@)).contains(x),
        forall|x: Seq<char>| #[trigger] views(r@).contains(x) <==> in_some_box(spoiler_views(spoilers@), x),
{
    let mut all: Vec<String> = Vec::new();
    let mut s: usize = 0;
    while s < spoilers.len()
        invariant
            s <= spoilers@.len(),
            views(all@) == flatten_present(spoiler_views(spoilers@).take(s as int)),
        decreases spoilers@.len() - s,
    {
        let ghost start = views(all@);
        let links = &spoilers[s];
        let mut k: usize = 0;
        while k < links.len()
            invariant
                k <= links@.len(),
                views(all@) == start + present(opt_views(links@).take(k as int)),
            decreases links@.len() - k,
        {
            let ghost tk = opt_views(links@).take(k + 1);
            assert(tk.drop_last() =~= opt_views(links@).take(k as int));
            match &links[k] {
                Some(h) => {
                    let hc = h.clone();
                    assert(hc@ == h@);
                    let ghost before = all@;
                    all.push(hc);
                    assert(all@ == before.push(hc));
                    assert(views(all@) =~= views(before).push(h@));
                    assert(tk.last() == Some(h@));
                    assert(present(tk) == present(tk.drop_last()).push(h@));
                    assert(views(all@) =~= start + present(opt_views(links@).take(k as int)).push(h@));
                },
                None => {},
            }
            k = k + 1;
        }
        proof {
            let sv = spoiler_views(spoilers@);
            assert(opt_views(links@).take(k as int) =~= opt_views(links@));
            assert(sv.take(s + 1).drop_last() =~= sv.take(s as int));
            assert(sv.take(s + 1).last() == opt_views(links@));
        }
        s = s + 1;
    }
    proof {
        assert(spoiler_views(spoilers@).take(s as int) =~= spoiler_views(spoilers@));
    }
    let sorted = sort_by_key(&all);
    let r = dedup_links(&sorted);
    proof {
        lemma_dedup_all(views(sorted@));
        lemma_dedup_sorted(views(sorted@));
        lemma_stable_same_links(views(sorted@), views(all@));
        assert(dedup_all(views(sorted@)) == views(r@));
        assert forall|x: Seq<char>| #[trigger] views(r@).contains(x) <==> in_some_box(spoiler_views(spoilers@), x) by {
            lemma_every_box_kept(spoiler_views(spoilers@), x);
        }
    }
    r
}

} // verus!

verus! {

/// An anchor of the page's hoster list: its text and its `href`, if any.
pub struct Anchor {
    pub text: String,
    pub href: Option<String>,
}

/// An anchor as character sequences.
pub struct AnchorView {
    pub text: Seq<char>,
    pub href: Option<Seq<char>>,
}

impl View for Anchor {
    type V = AnchorView;

    open spec fn view(&self) -> AnchorView {
        AnchorView {
            text: self.text@,
            href: match self.href {
                Some(h) => Some(h@),
                None => None,
            },
        }
    }
}

/// The text that marks the anchor of the FuckingFast hoster.
pub open spec fn hoster_marker() -> Seq<char> {
    "Filehoster: FuckingFast"@
}

/// The text of a page without a FuckingFast hoster entry.
pub open spec fn no_hoster_text() -> Seq<char> {
    "fuckingfast linki bulunamad\u{131}"@
}

/// The text of a hoster entry without an address.
pub open spec fn no_href_text() -> Seq<char> {
    "href yok"@
}

/// The position of the first anchor whose text names the hoster, or the
/// number of anchors when none does.
pub open spec fn first_hoster(a: Seq<AnchorView>) -> int
    decreases a.len(),
{
    if a.len() == 0 {
        0
    } else if crate::text::contains_seq(a[0].text, hoster_marker()) {
        0
    } else {
        1 + first_hoster(a.drop_first())
    }
}

proof fn lemma_first_hoster(a: Seq<AnchorView>, i: int)
    requires
        0 <= i <= a.len(),
        forall|j: int| 0 <= j < i ==> !crate::text::contains_seq(#[trigger] a[j].text, hoster_marker()),
        i == a.len() || crate::text::contains_seq(a[i].text, hoster_marker()),
    ensures
        first_hoster(a) == i,
    decreases a.len(),
{
    if a.len() > 0 && !crate::text::contains_seq(a[0].text, hoster_marker()) {
        assert forall|j: int| 0 <= j < i - 1 implies !crate::text::contains_seq(
            #[trigger] a.drop_first()[j].text,
            hoster_marker(),
        ) by {
            assert(a.drop_first()[j] == a[j + 1]);
        }
        if i < a.len() {
            assert(a.drop_first()[i - 1] == a[i]);
        }
        lemma_first_hoster(a.drop_first(), i - 1);
    }
}

/// What the hoster entry gives: the address of the first anchor that
/// names the hoster, or the error of a page without one or of an anchor
/// without an address.
pub open spec fn hoster_href_spec(a: Seq<AnchorView>) -> Result<Seq<char>, Seq<char>> {
    let i = first_hoster(a);
    if i >= a.len() {
        Err(no_hoster_text())
    } else {
        match a[i].href {
            Some(h) => Ok(h),
            None => Err(no_href_text()),
        }
    }
}

/// The views of a list of anchors.
pub open spec fn anchor_views(a: Seq<Anchor>) -> Seq<AnchorView> {
    a.map_values(|x: Anchor| x@)
}

/// Finds the address of the hoster entry among the anchors of the list.
pub fn pick_hoster_href(anchors: &Vec<Anchor>) -> (r: Result<String, String>)
    ensures
        match r {
            Ok(h) => hoster_href_spec(anchor_views(anchors@)) == Ok::<Seq<char>, Seq<char>>(h@),
            Err(e) => hoster_href_spec(anchor_views(anchors@)) == Err::<Seq<char>, Seq<char>>(e@),
        },
{
    let marker = chars_of("Filehoster: FuckingFast");
    let ghost av = anchor_views(anchors@);
    let mut i: usize = 0;
    while i < anchors.len()
        invariant
            i <= anchors@.len(),
            av == anchor_views(anchors@),
            marker@ == hoster_marker(),
            forall|j: int| 0 <= j < i ==> !crate::text::contains_seq(#[trigger] av[j].text, hoster_marker()),
        decreases anchors@.len() - i,
    {
        let t = chars_of(anchors[i].text.as_str());
        if crate::text::contains(t.as_slice(), marker.as_slice()) {
            proof {
                lemma_first_hoster(av, i as int);
            }
            return match &anchors[i].href {
                Some(h) => Ok(h.clone()),
                None => Err(String::from_str("href yok")),
            };
        }
        i = i + 1;
    }
    proof {
        lemma_first_hoster(av, i as int);
    }
    Err(String::from_str("fuckingfast linki bulunamad\u{131}"))
}

} // verus!

verus! {

/// The hoster entry fails only with the text of a page without a hoster
/// anchor or of an anchor without an address.
pub proof fn lemma_hoster_errors(a: Seq<AnchorView>)
    ensures
        hoster_href_spec(a) matches Err(e) ==> e == no_hoster_text() || e == no_href_text(),
{
}

} // verus!

verus! {

/// The order is antisymmetric.
pub proof fn lemma_lex_antisym(a: Seq<char>, b: Seq<char>)
    requires
        lex_le(a, b),
        lex_le(b, a),
    ensures
        a == b,
    decreases a.len(),
{
    if a.len() > 0 && b.len() > 0 {
        assert(a[0] == b[0]);
        lemma_lex_antisym(a.drop_first(), b.drop_first());
        assert(a =~= seq![a[0]] + a.drop_first());
        assert(b =~= seq![b[0]] + b.drop_first());
    } else {
        assert(a.len() == 0 && b.len() == 0);
        assert(a =~= b);
    }
}

proof fn lemma_with_key_last(s: Seq<Seq<char>>, k: Seq<char>)
    requires
        s.len() > 0,
    ensures
        with_key(s, k) == if sort_key(s.last()) == k {
            with_key(s.drop_last(), k).push(s.last())
        } else {
            with_key(s.drop_last(), k)
        },
{
    reveal_with_fuel(Seq::filter, 1);
}

/// A stable reordering has the same links as the list it reorders.
pub proof fn lemma_stable_same_links(a: Seq<Seq<char>>, b: Seq<Seq<char>>)
    requires
        stable_reorder(a, b),
    ensures
        forall|x: Seq<char>| a.contains(x) <==> b.contains(x),
{
    assert forall|x: Seq<char>| a.contains(x) <==> b.contains(x) by {
        let k = sort_key(x);
        let pred = |y: Seq<char>| sort_key(y) == k;
        assert(with_key(a, k) == with_key(b, k));
        if a.contains(x) {
            let j = choose|j: int| 0 <= j < a.len() && a[j] == x;
            a.lemma_filter_contains(pred, j);
            b.lemma_filter_contains_rev(pred, x);
        }
        if b.contains(x) {
            let j = choose|j: int| 0 <= j < b.len() && b[j] == x;
            b.lemma_filter_contains(pred, j);
            a.lemma_filter_contains_rev(pred, x);
        }
    }
}

proof fn lemma_sorted_drop_last(s: Seq<Seq<char>>)
    requires
        sorted_by_key(s),
        s.len() > 0,
    ensures
        sorted_by_key(s.drop_last()),
{
    let t = s.drop_last();
    assert forall|i: int, j: int| 0 <= i < j < t.len()
        implies key_le(sort_key(#[trigger] t[i]), sort_key(#[trigger] t[j])) by {
        assert(t[i] == s[i] && t[j] == s[j]);
    }
}

proof fn lemma_class_bounds_last(s: Seq<Seq<char>>, k: Seq<char>)
    requires
        sorted_by_key(s),
        s.len() > 0,
        with_key(s, k).len() > 0,
    ensures
        key_le(k, sort_key(s.last())),
{
    lemma_class_member(s, k);
    let j = choose|j: int| 0 <= j < s.len() && sort_key(s[j]) == k;
    if j < s.len() - 1 {
        assert(key_le(sort_key(s[j]), sort_key(s[s.len() - 1])));
    } else {
        lemma_key_refl(k);
    }
}

proof fn lemma_class_member(s: Seq<Seq<char>>, k: Seq<char>)
    requires
        with_key(s, k).len() > 0,
    ensures
        exists|j: int| 0 <= j < s.len() && sort_key(s[j]) == k,
    decreases s.len(),
{
    if s.len() == 0 {
        reveal_with_fuel(Seq::filter, 1);
        assert(with_key(s, k).len() == 0);
    } else {
        lemma_with_key_last(s, k);
        if sort_key(s.last()) == k {
            assert(sort_key(s[s.len() - 1]) == k);
        } else {
            lemma_class_member(s.drop_last(), k);
            let j = choose|j: int| 0 <= j < s.drop_last().len() && sort_key(s.drop_last()[j]) == k;
            assert(s[j] == s.drop_last()[j]);
        }
    }
}

/// Two lists in key order with the same links under every key, and of the
/// same length, are the same list: a stable sort has one result.
pub proof fn lemma_sorted_classes_unique(a: Seq<Seq<char>>, b: Seq<Seq<char>>)
    requires
        sorted_by_key(a),
        sorted_by_key(b),
        a.len() == b.len(),
        stable_reorder(a, b),
    ensures
        a == b,
    decreases a.len(),
{
    if a.len() == 0 {
        assert(a =~= b);
    } else {
        let x = a.last();
        let y = b.last();
        let kx = sort_key(x);
        let ky = sort_key(y);
        lemma_with_key_last(a, kx);
        lemma_with_key_last(b, ky);
        lemma_with_key_last(a, ky);
        lemma_with_key_last(b, kx);
        assert(with_key(a, kx) == with_key(b, kx));
        assert(with_key(a, ky) == with_key(b, ky));
        lemma_class_bounds_last(b, kx);
        lemma_class_bounds_last(a, ky);
        lemma_key_antisym(kx, ky);
        assert(with_key(a, kx).last() == x);
        assert(with_key(b, kx).last() == y);
        assert(x == y);
        let a2 = a.drop_last();
        let b2 = b.drop_last();
        lemma_sorted_drop_last(a);
        lemma_sorted_drop_last(b);
        assert forall|k: Seq<char>| #[trigger] with_key(a2, k) == with_key(b2, k) by {
            lemma_with_key_last(a, k);
            lemma_with_key_last(b, k);
            assert(with_key(a, k) == with_key(b, k));
            if kx == k {
                assert(with_key(a2, k) =~= with_key(a, k).drop_last());
                assert(with_key(b2, k) =~= with_key(b, k).drop_last());
            }
        }
        lemma_sorted_classes_unique(a2, b2);
        assert(a =~= a2.push(x));
        assert(b =~= b2.push(y));
    }
}

/// The links a page's spoilers come to are determined by them: whatever
/// stable ordering produced them, the result is the same list.
pub proof fn lemma_spoiler_links_unique(
    sp: Seq<Seq<Option<Seq<char>>>>,
    r1: Seq<Seq<char>>,
    r2: Seq<Seq<char>>,
)
    requires
        spoiler_links_spec(sp, r1),
        spoiler_links_spec(sp, r2),
    ensures
        r1 == r2,
{
    let t1 = choose|t: Seq<Seq<char>>|
        #![trigger dedup_all(t)]
        sorted_by_key(t) && stable_reorder(t, flatten_present(sp)) && t.len()
            == flatten_present(sp).len() && r1 == dedup_all(t);
    let t2 = choose|t: Seq<Seq<char>>|
        #![trigger dedup_all(t)]
        sorted_by_key(t) && stable_reorder(t, flatten_present(sp)) && t.len()
            == flatten_present(sp).len() && r2 == dedup_all(t);
    assert forall|k: Seq<char>| #[trigger] with_key(t1, k) == with_key(t2, k) by {
        assert(with_key(t1, k) == with_key(flatten_present(sp), k));
        assert(with_key(t2, k) == with_key(flatten_present(sp), k));
    }
    lemma_sorted_classes_unique(t1, t2);
}

} // verus!

verus! {

/// A link that names its file orders by that name: its key is its
/// fragment, the name `download_filename` saves it under.
pub proof fn lemma_key_is_file_name(link: Seq<char>)
    ensures
        second_field(link, '#') matches Some(f) ==> sort_key(link) == f,
        second_field(link, '#') is None ==> sort_key(link) == link,
{
}

} // verus!
