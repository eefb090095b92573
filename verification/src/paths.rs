use vstd::prelude::*;
use vstd::string::*;
use crate::text::contains_char;

verus! {

// ---------------------------------------------------------------------------
// Path components
// ---------------------------------------------------------------------------

/// A usable path component: non-empty text without a separator.
pub open spec fn is_plain_component(c: Seq<char>) -> bool {
    c.len() > 0 && !contains_char(c, '/')
}

/// The `.` component: stay in the current directory.
pub open spec fn is_cur_dir(c: Seq<char>) -> bool {
    c.len() == 1 && c[0] == '.'
}

/// The `..` component: step to the parent directory.
pub open spec fn is_parent_dir(c: Seq<char>) -> bool {
    c.len() == 2 && c[0] == '.' && c[1] == '.'
}

/// A component of a fully resolved path: plain, and no dot navigation.
pub open spec fn is_clean_component(c: Seq<char>) -> bool {
    is_plain_component(c) && !is_cur_dir(c) && !is_parent_dir(c)
}

/// A fully resolved path: every component clean.
pub open spec fn is_clean_path(p: Seq<Seq<char>>) -> bool {
    forall|i: int| 0 <= i < p.len() ==> is_clean_component(#[trigger] p[i])
}

pub open spec fn parent_component() -> Seq<char> {
    seq!['.', '.']
}

pub open spec fn all_nonempty(ps: Seq<Seq<char>>) -> bool {
    forall|i: int| 0 <= i < ps.len() ==> (#[trigger] ps[i]).len() > 0
}

// ---------------------------------------------------------------------------
// Splitting on the separator, and joining with it
// ---------------------------------------------------------------------------

/// The components of `s` split on `/`. Splitting never loses text: empty
/// components record doubled or leading separators.
pub open spec fn spec_split(s: Seq<char>) -> Seq<Seq<char>>
    decreases s.len(),
{
    if s.len() == 0 {
        seq![Seq::<char>::empty()]
    } else {
        let sp = spec_split(s.drop_last());
        if s.last() == '/' {
            sp.push(Seq::<char>::empty())
        } else {
            sp.update(sp.len() - 1, sp.last().push(s.last()))
        }
    }
}

/// The components joined with `/` between them.
pub open spec fn spec_join(ps: Seq<Seq<char>>) -> Seq<char>
    decreases ps.len(),
{
    if ps.len() == 0 {
        Seq::empty()
    } else if ps.len() == 1 {
        ps[0]
    } else {
        spec_join(ps.drop_last()) + seq!['/'] + ps.last()
    }
}

pub proof fn lemma_split_len(s: Seq<char>)
    ensures
        spec_split(s).len() >= 1,
    decreases s.len(),
{
    if s.len() > 0 {
        lemma_split_len(s.drop_last());
    }
}

/// Appending separator-free text extends the final component of the split.
proof fn lemma_split_extend(s: Seq<char>, b: Seq<char>)
    requires
        !contains_char(b, '/'),
    ensures
        spec_split(s + b) == spec_split(s).update(
            spec_split(s).len() - 1,
            spec_split(s).last() + b,
        ),
    decreases b.len(),
{
    lemma_split_len(s);
    let sp = spec_split(s);
    if b.len() == 0 {
        assert(s + b =~= s);
        assert(sp.last() + b =~= sp.last());
        assert(sp.update(sp.len() - 1, sp.last()) =~= sp);
    } else {
        let b0 = b.drop_last();
        let c = b.last();
        assert(!contains_char(b0, '/')) by {
            if contains_char(b0, '/') {
                let j = choose|j: int| 0 <= j < b0.len() && b0[j] == '/';
                assert(b[j] == '/');
            }
        }
        assert(c != '/') by {
            if c == '/' {
                assert(b[b.len() - 1] == '/');
            }
        }
        lemma_split_extend(s, b0);
        let sp0 = spec_split(s + b0);
        assert((s + b).drop_last() =~= s + b0);
        assert((s + b).last() == c);
        assert(spec_split(s + b) == sp0.update(sp0.len() - 1, sp0.last().push(c)));
        assert(sp0.len() == sp.len());
        assert(sp0.last() == sp.last() + b0);
        assert((sp.last() + b0).push(c) =~= sp.last() + b);
        assert(sp0.update(sp0.len() - 1, sp0.last().push(c)) =~= sp.update(
            sp.len() - 1,
            sp.last() + b,
        ));
    }
}

/// Joining separator-free components and splitting again is the identity.
pub proof fn lemma_split_join(ps: Seq<Seq<char>>)
    requires
        ps.len() >= 1,
        forall|i: int| 0 <= i < ps.len() ==> !contains_char(#[trigger] ps[i], '/'),
    ensures
        spec_split(spec_join(ps)) == ps,
    decreases ps.len(),
{
    if ps.len() == 1 {
        lemma_split_extend(Seq::empty(), ps[0]);
        assert(Seq::<char>::empty() + ps[0] =~= ps[0]);
        assert(spec_split(Seq::<char>::empty()) == seq![Seq::<char>::empty()]);
        assert(Seq::<char>::empty() + ps[0] =~= ps[0]);
        assert(spec_split(ps[0]) =~= ps) by {
            assert(spec_split(ps[0]) == seq![Seq::<char>::empty()].update(
                0,
                Seq::<char>::empty() + ps[0],
            ));
            assert(Seq::<char>::empty() + ps[0] =~= ps[0]);
        }
    } else {
        let ps0 = ps.drop_last();
        assert(forall|i: int| 0 <= i < ps0.len() ==> !contains_char(#[trigger] ps0[i], '/'));
        lemma_split_join(ps0);
        let j0 = spec_join(ps0);
        let mid = j0 + seq!['/'];
        assert(spec_join(ps) == j0 + seq!['/'] + ps.last());
        assert(mid.drop_last() =~= j0);
        assert(mid.last() == '/');
        assert(mid.len() > 0);
        assert(spec_split(mid) == spec_split(j0).push(Seq::<char>::empty()));
        assert(spec_split(mid) == ps0.push(Seq::<char>::empty()));
        lemma_split_extend(mid, ps.last());
        assert(mid + ps.last() =~= spec_join(ps));
        let spm = ps0.push(Seq::<char>::empty());
        assert(spec_split(spec_join(ps)) == spm.update(spm.len() - 1, spm.last() + ps.last()));
        assert(spm.last() + ps.last() =~= ps.last());
        assert(spm.update(spm.len() - 1, spm.last() + ps.last()) =~= ps);
    }
}

// ---------------------------------------------------------------------------
// Resolving relative components against a directory
// ---------------------------------------------------------------------------

/// Walk `comps` starting from the directory `base`: `.` stays, `..` climbs
/// (and fails on the empty path), anything else descends.
pub open spec fn spec_resolve(base: Seq<Seq<char>>, comps: Seq<Seq<char>>) -> Option<
    Seq<Seq<char>>,
>
    decreases comps.len(),
{
    if comps.len() == 0 {
        Some(base)
    } else if is_cur_dir(comps[0]) {
        spec_resolve(base, comps.skip(1))
    } else if is_parent_dir(comps[0]) {
        if base.len() == 0 {
            None
        } else {
            spec_resolve(base.drop_last(), comps.skip(1))
        }
    } else {
        spec_resolve(base.push(comps[0]), comps.skip(1))
    }
}

pub open spec fn parents(n: nat) -> Seq<Seq<char>> {
    Seq::new(n, |i: int| parent_component())
}

/// Leading `..` components pop the base, one directory per step.
proof fn lemma_resolve_parents(base: Seq<Seq<char>>, ups: nat, rest: Seq<Seq<char>>)
    requires
        ups <= base.len(),
    ensures
        spec_resolve(base, parents(ups) + rest) == spec_resolve(
            base.take(base.len() - ups),
            rest,
        ),
    decreases ups,
{
    if ups == 0 {
        assert(parents(0) + rest =~= rest);
        assert(base.take(base.len() as int) =~= base);
    } else {
        let cs = parents(ups) + rest;
        assert(cs[0] == parent_component());
        assert(is_parent_dir(cs[0]));
        assert(!is_cur_dir(cs[0]));
        assert(base.len() > 0);
        assert(cs.skip(1) =~= parents((ups - 1) as nat) + rest);
        lemma_resolve_parents(base.drop_last(), (ups - 1) as nat, rest);
        assert(base.drop_last().take(base.len() - ups) =~= base.take(base.len() - ups));
    }
}

/// Clean components only descend: resolving appends them all.
proof fn lemma_resolve_clean(base: Seq<Seq<char>>, cs: Seq<Seq<char>>)
    requires
        is_clean_path(cs),
    ensures
        spec_resolve(base, cs) == Some(base + cs),
    decreases cs.len(),
{
    if cs.len() == 0 {
        assert(base + cs =~= base);
    } else {
        assert(is_clean_component(cs[0]));
        assert(is_clean_path(cs.skip(1)));
        lemma_resolve_clean(base.push(cs[0]), cs.skip(1));
        assert(base.push(cs[0]) + cs.skip(1) =~= base + cs);
    }
}

// ---------------------------------------------------------------------------
// Longest common prefix
// ---------------------------------------------------------------------------

pub open spec fn common_prefix_len(a: Seq<Seq<char>>, b: Seq<Seq<char>>) -> nat
    decreases a.len(),
{
    if a.len() == 0 || b.len() == 0 || a[0] != b[0] {
        0
    } else {
        1 + common_prefix_len(a.skip(1), b.skip(1))
    }
}

pub proof fn lemma_common_prefix(a: Seq<Seq<char>>, b: Seq<Seq<char>>)
    ensures
        common_prefix_len(a, b) <= a.len(),
        common_prefix_len(a, b) <= b.len(),
        forall|i: int| 0 <= i < common_prefix_len(a, b) ==> a[i] == b[i],
    decreases a.len(),
{
    if !(a.len() == 0 || b.len() == 0 || a[0] != b[0]) {
        lemma_common_prefix(a.skip(1), b.skip(1));
        assert forall|i: int| 0 <= i < common_prefix_len(a, b) implies a[i] == b[i] by {
            if i > 0 {
                assert(a.skip(1)[i - 1] == b.skip(1)[i - 1]);
            }
        }
    }
}

// ---------------------------------------------------------------------------
// Locating a module from a path literal, and rewriting the literal
// ---------------------------------------------------------------------------

/// Resolve a `/`-separated path literal found in the file `source`: the
/// components are walked from the file's directory, and when the result does
/// not name a file (no dot in its last component) the conventional module
/// folder file is appended. `None` when a component is empty, when `..`
/// climbs past the root, or when the result is empty.
pub open spec fn spec_locate(folder: Seq<char>, source: Seq<Seq<char>>, lit: Seq<char>) -> Option<
    Seq<Seq<char>>,
> {
    if source.len() == 0 {
        None
    } else {
        let comps = spec_split(lit);
        if !all_nonempty(comps) {
            None
        } else {
            match spec_resolve(source.drop_last(), comps) {
                None => None,
                Some(p) => {
                    if p.len() == 0 {
                        None
                    } else if contains_char(p.last(), '.') {
                        Some(p)
                    } else {
                        Some(p.push(folder))
                    }
                },
            }
        }
    }
}

/// The path a rewritten literal should spell out: the target's directory when
/// the target is the conventional module folder file, else the target itself
/// (which must look like a file). `None` when neither form re-resolves.
pub open spec fn spec_rewrite_target(folder: Seq<char>, target: Seq<Seq<char>>) -> Option<
    Seq<Seq<char>>,
> {
    if target.len() >= 2 && target.last() == folder && !contains_char(
        target[target.len() - 2],
        '.',
    ) {
        Some(target.drop_last())
    } else if target.len() >= 1 && contains_char(target.last(), '.') {
        Some(target)
    } else {
        None
    }
}

/// The rewritten path literal for a module moved to `target`, as seen from
/// the file `source`: climb out of the unshared part of the source's
/// directory with `..` steps, then descend to the target.
pub open spec fn spec_rewrite(
    folder: Seq<char>,
    source: Seq<Seq<char>>,
    target: Seq<Seq<char>>,
) -> Option<Seq<char>> {
    if source.len() == 0 || !is_clean_path(target) {
        None
    } else {
        match spec_rewrite_target(folder, target) {
            None => None,
            Some(t) => {
                let base = source.drop_last();
                let k = common_prefix_len(base, t);
                let rel = parents((base.len() - k) as nat) + t.skip(k as int);
                if rel.len() == 0 {
                    None
                } else {
                    Some(spec_join(rel))
                }
            },
        }
    }
}

/// Rewriting is stable under resolution: whenever a rewritten literal exists,
/// resolving it from the same file yields exactly the target it was made for.
pub proof fn lemma_rewrite_round_trip(
    folder: Seq<char>,
    source: Seq<Seq<char>>,
    target: Seq<Seq<char>>,
    lit: Seq<char>,
)
    requires
        spec_rewrite(folder, source, target) == Some(lit),
    ensures
        spec_locate(folder, source, lit) == Some(target),
{
    let t = spec_rewrite_target(folder, target).unwrap();
    let base = source.drop_last();
    let k = common_prefix_len(base, t);
    let ups = (base.len() - k) as nat;
    let rel = parents(ups) + t.skip(k as int);
    lemma_common_prefix(base, t);
    assert(is_clean_path(t)) by {
        assert(forall|i: int| 0 <= i < t.len() ==> t[i] == #[trigger] target[i]);
    }
    assert(t.len() >= 1);
    assert(rel.len() >= 1);
    assert(lit == spec_join(rel));
    assert(!contains_char(parent_component(), '/')) by {
        if contains_char(parent_component(), '/') {
            let j = choose|j: int| 0 <= j < 2 && parent_component()[j] == '/';
        }
    }
    assert forall|i: int| 0 <= i < rel.len() implies !contains_char(#[trigger] rel[i], '/')
        && rel[i].len() > 0 by {
        if i < ups {
            assert(rel[i] == parent_component());
        } else {
            assert(rel[i] == t[i - ups + k]);
            assert(is_clean_component(t[i - ups + k]));
        }
    }
    lemma_split_join(rel);
    assert(all_nonempty(rel));
    lemma_resolve_parents(base, ups, t.skip(k as int));
    assert(base.take(base.len() - ups) =~= t.take(k as int)) by {
        assert(forall|i: int| 0 <= i < k ==> base[i] == #[trigger] t[i]);
    }
    assert(is_clean_path(t.skip(k as int))) by {
        assert(forall|i: int| 0 <= i < t.skip(k as int).len() ==> t.skip(k as int)[i]
            == #[trigger] t[i + k]);
    }
    lemma_resolve_clean(t.take(k as int), t.skip(k as int));
    assert(t.take(k as int) + t.skip(k as int) =~= t);
    assert(spec_resolve(base, rel) == Some(t));
    if target.len() >= 2 && target.last() == folder && !contains_char(
        target[target.len() - 2],
        '.',
    ) {
        assert(t == target.drop_last());
        assert(t.last() == target[target.len() - 2]);
        assert(!contains_char(t.last(), '.'));
        assert(t.push(folder) =~= target);
    } else {
        assert(t == target);
        assert(contains_char(t.last(), '.'));
    }
}

/// A maximal matching prefix is what `common_prefix_len` computes.
proof fn lemma_common_prefix_char(a: Seq<Seq<char>>, b: Seq<Seq<char>>, k: int)
    requires
        0 <= k <= a.len(),
        k <= b.len(),
        forall|i: int| 0 <= i < k ==> a[i] == b[i],
        k == a.len() || k == b.len() || a[k] != b[k],
    ensures
        common_prefix_len(a, b) == k,
    decreases k,
{
    if k == 0 {
        if a.len() != 0 && b.len() != 0 {
            assert(a[0] != b[0]);
        }
    } else {
        assert(a[0] == b[0]);
        assert forall|i: int| 0 <= i < k - 1 implies a.skip(1)[i] == b.skip(1)[i] by {
            assert(a[i + 1] == b[i + 1]);
        }
        if k < a.len() && k < b.len() {
            assert(a.skip(1)[k - 1] != b.skip(1)[k - 1]);
        }
        lemma_common_prefix_char(a.skip(1), b.skip(1), k - 1);
    }
}

// ---------------------------------------------------------------------------
// Executable path plumbing
// ---------------------------------------------------------------------------

/// Split a path literal on `/`.
pub fn split_literal(s: &str) -> (r: Vec<String>)
    ensures
        r.deep_view() == spec_split(s@),
{
    let n = s.unicode_len();
    let mut components: Vec<String> = Vec::new();
    let mut start: usize = 0;
    let mut i: usize = 0;
    proof {
        assert(s@.take(0) =~= Seq::<char>::empty());
        assert(s@.subrange(0, 0) =~= Seq::<char>::empty());
        assert(components.deep_view() =~= Seq::<Seq<char>>::empty());
        assert(components.deep_view().push(s@.subrange(0, 0)) =~= seq![Seq::<char>::empty()]);
    }
    while i < n
        invariant
            0 <= start <= i <= n,
            n == s@.len(),
            spec_split(s@.take(i as int)) == components.deep_view().push(
                s@.subrange(start as int, i as int),
            ),
        decreases n - i,
    {
        let c = s.get_char(i);
        proof {
            assert(s@.take(i + 1).drop_last() =~= s@.take(i as int));
            assert(s@.take(i + 1).last() == s@[i as int]);
        }
        if c == '/' {
            let ghost st = start as int;
            let comp = s.substring_char(start, i).to_owned();
            proof {
                assert(comp@ =~= s@.subrange(st, i as int));
            }
            let ghost dv_old = components.deep_view();
            components.push(comp);
            start = i + 1;
            proof {
                assert(components.deep_view() =~= dv_old.push(s@.subrange(st, i as int)));
                assert(s@.subrange(start as int, i + 1) =~= Seq::<char>::empty());
                let sp = spec_split(s@.take(i as int));
                assert(spec_split(s@.take(i + 1)) == sp.push(Seq::<char>::empty()));
                assert(spec_split(s@.take(i + 1)) =~= components.deep_view().push(s@.subrange(
                    start as int,
                    i + 1,
                )));
            }
        } else {
            proof {
                let sp = spec_split(s@.take(i as int));
                let dv = components.deep_view();
                assert(spec_split(s@.take(i + 1)) == sp.update(
                    sp.len() - 1,
                    sp.last().push(s@[i as int]),
                ));
                assert(sp.last() == s@.subrange(start as int, i as int));
                assert(sp.last().push(s@[i as int]) =~= s@.subrange(start as int, i + 1));
                assert(sp.update(sp.len() - 1, s@.subrange(start as int, i + 1)) =~= dv.push(
                    s@.subrange(start as int, i + 1),
                ));
            }
        }
        i += 1;
    }
    let comp = s.substring_char(start, n).to_owned();
    proof {
        assert(comp@ =~= s@.subrange(start as int, n as int));
    }
    let ghost dv_old = components.deep_view();
    components.push(comp);
    proof {
        assert(s@.take(n as int) =~= s@);
        assert(components.deep_view() =~= dv_old.push(s@.subrange(start as int, n as int)));
    }
    components
}

/// Join components with `/` between them.
pub fn join_components(v: &Vec<String>) -> (r: String)
    requires
        v.len() >= 1,
    ensures
        r@ == spec_join(v.deep_view()),
{
    proof {
        reveal_strlit("/");
    }
    let mut out = v[0].clone();
    proof {
        assert(out@ == v.deep_view()[0]);
        assert(spec_join(v.deep_view().take(1)) == v.deep_view().take(1)[0]);
    }
    let mut i: usize = 1;
    while i < v.len()
        invariant
            1 <= i <= v.len(),
            out@ == spec_join(v.deep_view().take(i as int)),
        decreases v.len() - i,
    {
        out.append("/");
        out.append(v[i].as_str());
        proof {
            reveal_strlit("/");
            let dv = v.deep_view();
            assert(dv.take(i + 1).drop_last() =~= dv.take(i as int));
            assert(dv.take(i + 1).last() == dv[i as int]);
            assert(out@ =~= spec_join(dv.take(i as int)) + seq!['/'] + dv[i as int]);
        }
        i += 1;
    }
    proof {
        assert(v.deep_view().take(v.len() as int) =~= v.deep_view());
    }
    out
}

/// Does the component contain a dot (an extension marker)?
pub fn component_has_dot(s: &String) -> (b: bool)
    ensures
        b == contains_char(s@, '.'),
{
    match crate::text::find_char(s.as_str(), '.') {
        Some(_) => true,
        None => false,
    }
}

/// Walk relative components from the directory `base`, as `spec_resolve`
/// describes.
pub fn resolve_components(base: &Vec<String>, comps: &Vec<String>) -> (r: Option<Vec<String>>)
    ensures
        (match r {
            Some(p) => spec_resolve(base.deep_view(), comps.deep_view()) == Some(p.deep_view()),
            None => spec_resolve(base.deep_view(), comps.deep_view()) is None,
        }),
{
    let mut cur: Vec<String> = Vec::new();
    let mut bi: usize = 0;
    while bi < base.len()
        invariant
            0 <= bi <= base.len(),
            cur.deep_view() == base.deep_view().take(bi as int),
        decreases base.len() - bi,
    {
        let ghost dv_old = cur.deep_view();
        cur.push(base[bi].clone());
        bi += 1;
        proof {
            assert(cur.deep_view() =~= dv_old.push(base.deep_view()[bi - 1]));
            assert(cur.deep_view() =~= base.deep_view().take(bi as int));
        }
    }
    proof {
        assert(base.deep_view().take(base.len() as int) =~= base.deep_view());
        assert(comps.deep_view().skip(0) =~= comps.deep_view());
    }
    let mut i: usize = 0;
    while i < comps.len()
        invariant
            0 <= i <= comps.len(),
            spec_resolve(base.deep_view(), comps.deep_view()) == spec_resolve(
                cur.deep_view(),
                comps.deep_view().skip(i as int),
            ),
        decreases comps.len() - i,
    {
        let c = &comps[i];
        let cl = c.as_str().unicode_len();
        proof {
            assert(comps.deep_view().skip(i as int)[0] == comps.deep_view()[i as int]);
            assert(comps.deep_view().skip(i as int).skip(1) =~= comps.deep_view().skip(i + 1));
        }
        if cl == 1 && c.as_str().get_char(0) == '.' {
            proof {
                assert(is_cur_dir(c@));
            }
        } else if cl == 2 && c.as_str().get_char(0) == '.' && c.as_str().get_char(1) == '.' {
            proof {
                assert(is_parent_dir(c@));
                assert(!is_cur_dir(c@));
            }
            if cur.len() == 0 {
                return None;
            }
            let ghost dv_old = cur.deep_view();
            cur.pop();
            proof {
                assert(cur.deep_view() =~= dv_old.drop_last());
            }
        } else {
            proof {
                assert(!is_cur_dir(c@));
                assert(!is_parent_dir(c@));
            }
            let ghost dv_old = cur.deep_view();
            cur.push(c.clone());
            proof {
                assert(cur.deep_view() =~= dv_old.push(c@));
            }
        }
        i += 1;
    }
    proof {
        assert(comps.deep_view().skip(comps.len() as int) =~= Seq::<Seq<char>>::empty());
    }
    Some(cur)
}

/// Are all components non-empty?
pub fn check_all_nonempty(v: &Vec<String>) -> (b: bool)
    ensures
        b == all_nonempty(v.deep_view()),
{
    let mut i: usize = 0;
    while i < v.len()
        invariant
            0 <= i <= v.len(),
            forall|k: int| 0 <= k < i ==> (#[trigger] v.deep_view()[k]).len() > 0,
        decreases v.len() - i,
    {
        if v[i].as_str().unicode_len() == 0 {
            proof {
                assert(v.deep_view()[i as int].len() == 0);
            }
            return false;
        }
        i += 1;
    }
    true
}

/// Is every component clean: plain text, no separator, no dot navigation?
pub fn check_clean_path(v: &Vec<String>) -> (b: bool)
    ensures
        b == is_clean_path(v.deep_view()),
{
    let mut i: usize = 0;
    while i < v.len()
        invariant
            0 <= i <= v.len(),
            forall|k: int| 0 <= k < i ==> is_clean_component(#[trigger] v.deep_view()[k]),
        decreases v.len() - i,
    {
        let c = &v[i];
        let cl = c.as_str().unicode_len();
        proof {
            assert(c@ == v.deep_view()[i as int]);
        }
        if cl == 0 {
            return false;
        }
        match crate::text::find_char(c.as_str(), '/') {
            Some(_) => {
                return false;
            },
            None => {},
        }
        if cl == 1 && c.as_str().get_char(0) == '.' {
            proof {
                assert(is_cur_dir(c@));
            }
            return false;
        }
        if cl == 2 && c.as_str().get_char(0) == '.' && c.as_str().get_char(1) == '.' {
            proof {
                assert(is_parent_dir(c@));
            }
            return false;
        }
        proof {
            assert(is_clean_component(c@));
        }
        i += 1;
    }
    true
}

/// Copy a component vector.
pub fn clone_components(v: &Vec<String>) -> (r: Vec<String>)
    ensures
        r.deep_view() == v.deep_view(),
{
    let mut out: Vec<String> = Vec::new();
    let mut i: usize = 0;
    proof {
        assert(out.deep_view() =~= v.deep_view().take(0));
    }
    while i < v.len()
        invariant
            0 <= i <= v.len(),
            out.deep_view() == v.deep_view().take(i as int),
        decreases v.len() - i,
    {
        let ghost dv_old = out.deep_view();
        out.push(v[i].clone());
        i += 1;
        proof {
            assert(out.deep_view() =~= dv_old.push(v.deep_view()[i - 1]));
            assert(out.deep_view() =~= v.deep_view().take(i as int));
        }
    }
    proof {
        assert(v.deep_view().take(v.len() as int) =~= v.deep_view());
    }
    out
}

/// Copy all components but the last: the directory holding a file.
pub fn parent_components(v: &Vec<String>) -> (r: Vec<String>)
    requires
        v.len() >= 1,
    ensures
        r.deep_view() == v.deep_view().drop_last(),
{
    let mut out: Vec<String> = Vec::new();
    let mut i: usize = 0;
    proof {
        assert(out.deep_view() =~= v.deep_view().take(0));
    }
    while i < v.len() - 1
        invariant
            v.len() >= 1,
            0 <= i <= v.len() - 1,
            out.deep_view() == v.deep_view().take(i as int),
        decreases v.len() - i,
    {
        let ghost dv_old = out.deep_view();
        out.push(v[i].clone());
        i += 1;
        proof {
            assert(out.deep_view() =~= dv_old.push(v.deep_view()[i - 1]));
            assert(out.deep_view() =~= v.deep_view().take(i as int));
        }
    }
    proof {
        assert(v.deep_view().take(v.len() - 1) =~= v.deep_view().drop_last());
    }
    out
}

/// The length of the longest common prefix of two component sequences.
pub fn common_prefix(a: &Vec<String>, b: &Vec<String>) -> (k: usize)
    ensures
        k as nat == common_prefix_len(a.deep_view(), b.deep_view()),
{
    let mut k: usize = 0;
    while k < a.len() && k < b.len() && a[k] == b[k]
        invariant
            0 <= k <= a.len(),
            k <= b.len(),
            forall|i: int| 0 <= i < k ==> a.deep_view()[i] == b.deep_view()[i],
        decreases a.len() - k,
    {
        k += 1;
    }
    proof {
        lemma_common_prefix_char(a.deep_view(), b.deep_view(), k as int);
    }
    k
}

} // verus!
