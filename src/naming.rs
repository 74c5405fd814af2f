//! Short, flat, collision-free identifiers for hierarchical type paths.
use vstd::prelude::*;
use vstd::string::*;
use crate::text::{compare_str, seq_lt, lemma_seq_lt_transitive, lemma_seq_lt_irreflexive};
use crate::registry::{ascending, lemma_ascending_eq};

verus! {

/// What `char::to_uppercase` makes of a character, as text.
pub uninterp spec fn upper_of(c: char) -> Seq<char>;

/// Relies on `char::to_uppercase`: the upper-case mapping of one character,
/// which may be several characters long.
#[verifier::external_body]
fn char_to_upper(c: char) -> (r: String)
    ensures
        r@ == upper_of(c),
{
    c.to_uppercase().to_string()
}

/// `s` with its first character in upper case.
pub open spec fn upper_first(s: Seq<char>) -> Seq<char> {
    if s.len() == 0 {
        s
    } else {
        upper_of(s[0]) + s.drop_first()
    }
}

/// Puts the first character of `data` in upper case.
pub fn uppercase_first(data: &str) -> (r: String)
    ensures
        r@ == upper_first(data@),
{
    let n = data.unicode_len();
    if n == 0 {
        return String::new();
    }
    let mut out = char_to_upper(data.get_char(0));
    out.append(data.substring_char(1, n));
    assert(data@.subrange(1, n as int) =~= data@.drop_first());
    out
}

/// The strings, with `sep` between each two.
pub open spec fn join_spec(ss: Seq<Seq<char>>, sep: Seq<char>) -> Seq<char>
    decreases ss.len(),
{
    if ss.len() == 0 {
        Seq::empty()
    } else if ss.len() == 1 {
        ss[0]
    } else {
        join_spec(ss.drop_last(), sep) + sep + ss.last()
    }
}

pub open spec fn views(ss: Seq<String>) -> Seq<Seq<char>> {
    ss.map_values(|s: String| s@)
}

/// Joins the strings with `separator` between each two.
pub fn join(strings: &Vec<String>, separator: &str) -> (r: String)
    ensures
        r@ == join_spec(views(strings@), separator@),
{
    let mut out = String::new();
    let mut i: usize = 0;
    while i < strings.len()
        invariant
            i <= strings@.len(),
            out@ == join_spec(views(strings@).subrange(0, i as int), separator@),
        decreases strings@.len() - i,
    {
        let ghost prev = views(strings@).subrange(0, i as int);
        let ghost next = views(strings@).subrange(0, i + 1);
        proof {
            assert(next.drop_last() =~= prev);
            assert(next.last() == strings@[i as int]@);
        }
        if i > 0 {
            out.append(separator);
        } else {
            assert(out@ =~= Seq::<char>::empty());
        }
        out.append(strings[i].as_str());
        i = i + 1;
    }
    assert(views(strings@).subrange(0, strings@.len() as int) =~= views(strings@));
    out
}

/// `r` with `cur` put in front of its first part.
pub open spec fn prepend(cur: Seq<char>, r: Seq<Seq<char>>) -> Seq<Seq<char>> {
    r.update(0, cur + r[0])
}

/// The parts of `s` between the `::` separators, read left to right.
pub open spec fn split_path(s: Seq<char>) -> Seq<Seq<char>>
    decreases s.len(),
{
    if s.len() == 0 {
        seq![Seq::<char>::empty()]
    } else if s.len() >= 2 && s[0] == ':' && s[1] == ':' {
        seq![Seq::<char>::empty()] + split_path(s.subrange(2, s.len() as int))
    } else {
        prepend(seq![s[0]], split_path(s.drop_first()))
    }
}

proof fn lemma_split_nonempty(s: Seq<char>)
    ensures
        split_path(s).len() >= 1,
    decreases s.len(),
{
    if s.len() >= 2 && s[0] == ':' && s[1] == ':' {
        lemma_split_nonempty(s.subrange(2, s.len() as int));
    } else if s.len() > 0 {
        lemma_split_nonempty(s.drop_first());
    }
}

/// A part without its raw-identifier prefix `r#`, once.
pub open spec fn strip_raw_once(s: Seq<char>) -> Seq<char> {
    if s.len() >= 2 && s[0] == 'r' && s[1] == '#' {
        s.subrange(2, s.len() as int)
    } else {
        s
    }
}

/// The segments of a path: its parts, each without a raw prefix.
pub open spec fn segments(s: Seq<char>) -> Seq<Seq<char>> {
    split_path(s).map_values(|p: Seq<char>| strip_raw_once(p))
}

fn push_segment(out: &mut Vec<String>, s: &str, from: usize, to: usize)
    requires
        from <= to <= s@.len(),
    ensures
        views(final(out)@) == views(old(out)@).push(strip_raw_once(s@.subrange(from as int, to as int))),
{
    let part = s.substring_char(from, to);
    let seg = if to - from >= 2 && part.get_char(0) == 'r' && part.get_char(1) == '#' {
        part.substring_char(2, to - from)
    } else {
        part
    };
    out.push(String::from_str(seg));
    assert(views(final(out)@) =~= views(old(out)@).push(strip_raw_once(s@.subrange(from as int, to as int))));
}

/// Splits a path at each `::` and strips a raw prefix from each segment.
pub fn path_segments(s: &str) -> (r: Vec<String>)
    ensures
        views(r@) == segments(s@),
        r@.len() >= 1,
{
    let n = s.unicode_len();
    let mut out: Vec<String> = Vec::new();
    let mut start: usize = 0;
    let mut i: usize = 0;
    let ghost done: Seq<Seq<char>> = Seq::empty();
    proof {
        assert(s@.subrange(0, 0) =~= Seq::<char>::empty());
        assert(s@.subrange(0, n as int) =~= s@);
        lemma_split_nonempty(s@);
        assert(prepend(Seq::<char>::empty(), split_path(s@)) =~= split_path(s@));
    }
    while i < n
        invariant
            n == s@.len(),
            start <= i <= n,
            views(out@) == done.map_values(|p: Seq<char>| strip_raw_once(p)),
            split_path(s@) == done + prepend(s@.subrange(start as int, i as int), split_path(s@.subrange(i as int, n as int))),
        decreases n - i,
    {
        let ghost rest = s@.subrange(i as int, n as int);
        let ghost cur = s@.subrange(start as int, i as int);
        proof { lemma_split_nonempty(rest); }
        if i + 1 < n && s.get_char(i) == ':' && s.get_char(i + 1) == ':' {
            push_segment(&mut out, s, start, i);
            proof {
                let rest2 = s@.subrange(i + 2, n as int);
                assert(rest.subrange(2, rest.len() as int) =~= rest2);
                lemma_split_nonempty(rest2);
                assert(prepend(Seq::<char>::empty(), split_path(rest2)) =~= split_path(rest2));
                assert(s@.subrange(i + 2, i + 2) =~= Seq::<char>::empty());
                assert(prepend(cur, split_path(rest)) =~= seq![cur] + split_path(rest2));
                assert(split_path(s@) =~= done.push(cur) + prepend(Seq::<char>::empty(), split_path(rest2)));
                assert(done.push(cur).map_values(|p: Seq<char>| strip_raw_once(p))
                    =~= done.map_values(|p: Seq<char>| strip_raw_once(p)).push(strip_raw_once(cur)));
                done = done.push(cur);
            }
            i = i + 2;
            start = i;
        } else {
            proof {
                let rest2 = s@.subrange(i + 1, n as int);
                assert(rest.drop_first() =~= rest2);
                lemma_split_nonempty(rest2);
                assert(s@.subrange(start as int, i + 1) =~= cur + seq![s@[i as int]]);
                let r0 = split_path(rest2)[0];
                assert(cur + (seq![s@[i as int]] + r0) =~= (cur + seq![s@[i as int]]) + r0);
                assert(prepend(cur, prepend(seq![s@[i as int]], split_path(rest2)))
                    =~= prepend(s@.subrange(start as int, i + 1), split_path(rest2)));
            }
            i = i + 1;
        }
    }
    push_segment(&mut out, s, start, n);
    proof {
        assert(s@.subrange(n as int, n as int) =~= Seq::<char>::empty());
        let cur = s@.subrange(start as int, n as int);
        assert(prepend(cur, split_path(Seq::<char>::empty())) =~= seq![cur]);
        assert(split_path(s@) =~= done.push(cur));
        assert(done.push(cur).map_values(|p: Seq<char>| strip_raw_once(p))
            =~= done.map_values(|p: Seq<char>| strip_raw_once(p)).push(strip_raw_once(cur)));
    }
    out
}


/// The identifier made of the segments from `k` to the last, each with its
/// first character in upper case, joined by `_`.
pub open spec fn candidate(segs: Seq<Seq<char>>, k: int) -> Seq<char>
    decreases segs.len() - k,
{
    if k >= segs.len() - 1 {
        upper_first(segs.last())
    } else {
        upper_first(segs[k]) + seq!['_'] + candidate(segs, k + 1)
    }
}

/// Whether some path already has the identifier `id`.
pub open spec fn claimed(s: Seq<Option<Seq<char>>>, id: Seq<char>) -> bool {
    exists|j: int| 0 <= j < s.len() && s[j] == Some(id)
}

/// The first candidate, from segment `k` outwards, that is not claimed.
pub open spec fn pick(segs: Seq<Seq<char>>, s: Seq<Option<Seq<char>>>, k: int) -> Option<Seq<char>>
    decreases k + 1,
{
    if k < 0 {
        None
    } else if !claimed(s, candidate(segs, k)) {
        Some(candidate(segs, k))
    } else {
        pick(segs, s, k - 1)
    }
}

/// The identifiers after every path with fewer than `level` segments, and the
/// first `i` paths with exactly `level`, have been named, in that order; `None`
/// once some path runs out of segments.
pub open spec fn assign(segss: Seq<Seq<Seq<char>>>, level: nat, i: nat) -> Option<Seq<Option<Seq<char>>>>
    decreases level, i,
{
    if level == 0 {
        Some(Seq::new(segss.len(), |j: int| None::<Seq<char>>))
    } else if i == 0 {
        assign(segss, (level - 1) as nat, segss.len())
    } else {
        let j = i - 1;
        match assign(segss, level, j as nat) {
            None => None,
            Some(s) => if j >= segss.len() || segss[j].len() != level {
                Some(s)
            } else {
                match pick(segss[j], s, segss[j].len() - 1) {
                    None => None,
                    Some(id) => Some(s.update(j, Some(id))),
                }
            },
        }
    }
}

/// The largest number of segments.
pub open spec fn max_len(segss: Seq<Seq<Seq<char>>>) -> nat
    decreases segss.len(),
{
    if segss.len() == 0 {
        0
    } else {
        let m = max_len(segss.drop_last());
        if segss.last().len() > m { segss.last().len() } else { m }
    }
}

proof fn lemma_max_len(segss: Seq<Seq<Seq<char>>>)
    ensures
        forall|j: int| 0 <= j < segss.len() ==> (#[trigger] segss[j]).len() <= max_len(segss),
    decreases segss.len(),
{
    if segss.len() > 0 {
        lemma_max_len(segss.drop_last());
        assert forall|j: int| 0 <= j < segss.len() implies (#[trigger] segss[j]).len() <= max_len(segss) by {
            if j < segss.len() - 1 {
                assert(segss[j] == segss.drop_last()[j]);
            }
        }
    }
}

/// The segments of every path.
pub open spec fn all_segments(paths: Seq<Seq<char>>) -> Seq<Seq<Seq<char>>> {
    paths.map_values(|p: Seq<char>| segments(p))
}

/// The identifiers that naming `paths` gives, each path in turn: fewer
/// segments first, then in the given order; each takes its last segment, and
/// while that is taken, the next segment outwards in front, with `_`.
pub open spec fn identifiers(paths: Seq<Seq<char>>) -> Option<Seq<Option<Seq<char>>>> {
    assign(all_segments(paths), max_len(all_segments(paths)), paths.len())
}

proof fn lemma_pick_fresh(segs: Seq<Seq<char>>, s: Seq<Option<Seq<char>>>, k: int)
    ensures
        pick(segs, s, k) matches Some(id) ==> !claimed(s, id),
    decreases k + 1,
{
    if k >= 0 && claimed(s, candidate(segs, k)) {
        lemma_pick_fresh(segs, s, k - 1);
    }
}

/// Once a path runs out of segments the naming stays failed.
proof fn lemma_assign_none_stays(segss: Seq<Seq<Seq<char>>>, l1: nat, i1: nat, l2: nat, i2: nat)
    requires
        assign(segss, l1, i1) is None,
        i1 <= segss.len(),
        i2 <= segss.len(),
        l1 < l2 || (l1 == l2 && i1 <= i2),
    ensures
        assign(segss, l2, i2) is None,
    decreases l2, i2,
{
    if l1 == l2 && i1 == i2 {
    } else if i2 == 0 {
        lemma_assign_none_stays(segss, l1, i1, (l2 - 1) as nat, segss.len());
    } else {
        lemma_assign_none_stays(segss, l1, i1, l2, (i2 - 1) as nat);
    }
}

/// While naming succeeds, the named paths are those already reached, and no
/// two of them share an identifier.
proof fn lemma_assign_shape(segss: Seq<Seq<Seq<char>>>, level: nat, i: nat)
    requires
        i <= segss.len(),
    ensures
        assign(segss, level, i) matches Some(s) ==> {
            &&& s.len() == segss.len()
            &&& forall|j: int| 0 <= j < s.len() ==> ((#[trigger] s[j]) is Some <==>
                (1 <= segss[j].len() < level || (segss[j].len() == level && level >= 1 && j < i)))
            &&& forall|a: int, b: int| 0 <= a < s.len() && 0 <= b < s.len() && a != b && (#[trigger] s[a]) is Some
                ==> s[a] != #[trigger] s[b]
        },
    decreases level, i,
{
    if level == 0 {
    } else if i == 0 {
        lemma_assign_shape(segss, (level - 1) as nat, segss.len());
    } else {
        let j = i - 1;
        lemma_assign_shape(segss, level, j as nat);
        if let Some(s) = assign(segss, level, j as nat) {
            if j < segss.len() && segss[j].len() == level {
                lemma_pick_fresh(segss[j], s, segss[j].len() - 1);
                if let Some(id) = pick(segss[j], s, segss[j].len() - 1) {
                    let t = s.update(j, Some(id));
                    assert forall|a: int, b: int| 0 <= a < t.len() && 0 <= b < t.len() && a != b && (#[trigger] t[a]) is Some
                        implies t[a] != #[trigger] t[b] by {
                        if a == j {
                            if t[b] == t[a] {
                                assert(s[b] == Some(id));
                            }
                        } else if b == j {
                            if t[b] == t[a] {
                                assert(s[a] == Some(id));
                            }
                        }
                    }
                }
            }
        }
    }
}

/// Naming distinct paths, where it succeeds, names every path, and no two
/// paths get the same identifier. The identifiers are a function of the
/// paths and their order alone, so naming the same list again gives the same
/// identifiers.
pub proof fn lemma_identifiers_distinct(paths: Seq<Seq<char>>)
    requires
        identifiers(paths) is Some,
    ensures
        identifiers(paths)->Some_0.len() == paths.len(),
        forall|j: int| 0 <= j < paths.len() ==> (#[trigger] identifiers(paths)->Some_0[j]) is Some,
        forall|a: int, b: int| 0 <= a < paths.len() && 0 <= b < paths.len() && a != b
            ==> #[trigger] identifiers(paths)->Some_0[a] != #[trigger] identifiers(paths)->Some_0[b],
{
    let segss = all_segments(paths);
    lemma_assign_shape(segss, max_len(segss), paths.len());
    lemma_max_len(segss);
    let s = identifiers(paths)->Some_0;
    assert forall|j: int| 0 <= j < paths.len() implies (#[trigger] s[j]) is Some by {
        lemma_split_nonempty(paths[j]);
        assert(segss[j].len() >= 1);
        assert(segss[j].len() <= max_len(segss));
    }
    assert forall|a: int, b: int| 0 <= a < paths.len() && 0 <= b < paths.len() && a != b
        implies #[trigger] s[a] != #[trigger] s[b] by {
        assert(s[a] is Some);
    }
}

pub open spec fn opt_view(o: Option<String>) -> Option<Seq<char>> {
    match o {
        Some(s) => Some(s@),
        None => None,
    }
}

pub open spec fn idents_view(v: Seq<Option<String>>) -> Seq<Option<Seq<char>>> {
    v.map_values(|o: Option<String>| opt_view(o))
}

pub open spec fn segss_view(v: Seq<Vec<String>>) -> Seq<Seq<Seq<char>>> {
    v.map_values(|x: Vec<String>| views(x@))
}

fn is_claimed(idents: &Vec<Option<String>>, id: &String) -> (r: bool)
    ensures
        r == claimed(idents_view(idents@), id@),
{
    let mut j: usize = 0;
    while j < idents.len()
        invariant
            j <= idents@.len(),
            forall|k: int| 0 <= k < j ==> idents_view(idents@)[k] != Some(id@),
        decreases idents@.len() - j,
    {
        match &idents[j] {
            Some(s) => {
                if *s == *id {
                    assert(idents_view(idents@)[j as int] == Some(id@));
                    return true;
                }
            },
            None => {},
        }
        j = j + 1;
    }
    false
}

/// Names one path against what is claimed.
fn pick_ident(segs: &Vec<String>, idents: &Vec<Option<String>>) -> (r: Option<String>)
    requires
        segs@.len() >= 1,
    ensures
        opt_view(r) == pick(views(segs@), idents_view(idents@), segs@.len() - 1),
{
    let ghost sv = views(segs@);
    let mut k: usize = segs.len() - 1;
    let mut entry = uppercase_first(segs[k].as_str());
    proof {
        assert(sv.last() == segs@[k as int]@);
    }
    while is_claimed(idents, &entry)
        invariant
            k < segs@.len(),
            sv == views(segs@),
            entry@ == candidate(sv, k as int),
            pick(sv, idents_view(idents@), segs@.len() - 1) == pick(sv, idents_view(idents@), k as int),
        decreases k,
    {
        if k == 0 {
            assert(pick(sv, idents_view(idents@), -1) is None);
            return None;
        }
        k = k - 1;
        let mut e = uppercase_first(segs[k].as_str());
        e.append("_");
        e.append(entry.as_str());
        proof {
            reveal_strlit("_");
            assert(sv[k as int] == segs@[k as int]@);
        }
        entry = e;
    }
    Some(entry)
}

/// The identifier given to `path` in a list of (path, identifier) pairs: the
/// first pair with that path.
pub open spec fn lookup(entries: Seq<(String, String)>, path: Seq<char>) -> Option<Seq<char>>
    decreases entries.len(),
{
    if entries.len() == 0 {
        None
    } else if entries[0].0@ == path {
        Some(entries[0].1@)
    } else {
        lookup(entries.drop_first(), path)
    }
}


/// The paths of a set in strictly ascending order.
pub open spec fn ascending_of(set: Set<Seq<char>>) -> Seq<Seq<char>> {
    choose|s: Seq<Seq<char>>| ascending(s) && s.to_set() == set
}

/// The identifier that naming the set `set` gives the path `p`.
pub open spec fn ident_in(set: Set<Seq<char>>, p: Seq<char>) -> Option<Seq<char>> {
    identifiers(ascending_of(set))->Some_0[ascending_of(set).index_of(p)]
}

proof fn lemma_ascending_of(set: Set<Seq<char>>, s: Seq<Seq<char>>)
    requires
        ascending(s),
        s.to_set() == set,
    ensures
        ascending_of(set) == s,
{
    let t = ascending_of(set);
    assert(ascending(t) && t.to_set() == set);
    lemma_ascending_eq(t, s);
}

proof fn lemma_index_in_ascending(s: Seq<Seq<char>>, k: int)
    requires
        ascending(s),
        0 <= k < s.len(),
    ensures
        s.index_of(s[k]) == k,
{
    let i = s.index_of(s[k]);
    assert(0 <= i < s.len() && s[i] == s[k]);
    lemma_seq_lt_irreflexive(s[k]);
    if i < k {
        assert(seq_lt(s[i], s[k]));
    } else if i > k {
        assert(seq_lt(s[k], s[i]));
    }
}

/// Naming a set of paths, where it succeeds, names every path of the set,
/// and no two paths get the same identifier. The identifiers depend on the
/// set alone: lists that hold the same paths, in any order and with any
/// repeats, give each path the same identifier.
pub proof fn lemma_set_identifiers(set: Set<Seq<char>>, p: Seq<char>, q: Seq<char>)
    requires
        identifiers(ascending_of(set)) is Some,
        exists|s: Seq<Seq<char>>| ascending(s) && s.to_set() == set,
        set.contains(p),
        set.contains(q),
        p != q,
    ensures
        ident_in(set, p) is Some,
        ident_in(set, p) != ident_in(set, q),
{
    let s = ascending_of(set);
    assert(ascending(s) && s.to_set() == set);
    assert(s.to_set().contains(p));
    assert(s.to_set().contains(q));
    let i = s.index_of(p);
    let j = s.index_of(q);
    lemma_identifiers_distinct(s);
}

/// The paths of the list in strictly ascending order, without repeats.
fn sort_paths(paths: &Vec<String>) -> (r: Vec<String>)
    ensures
        ascending(views(r@)),
        views(r@).to_set() == views(paths@).to_set(),
{
    let mut out: Vec<String> = Vec::new();
    let mut i: usize = 0;
    while i < paths.len()
        invariant
            i <= paths@.len(),
            ascending(views(out@)),
            views(out@).to_set() == views(paths@).subrange(0, i as int).to_set(),
        decreases paths@.len() - i,
    {
        let ghost p = paths@[i as int]@;
        let ghost before = views(out@);
        let mut k: usize = 0;
        let mut dup = false;
        while k < out.len()
            invariant_except_break
                !dup,
            invariant
                i < paths@.len(),
                k <= out@.len(),
                before == views(out@),
                p == paths@[i as int]@,
                forall|j: int| 0 <= j < k ==> seq_lt(#[trigger] before[j], p),
            ensures
                k <= out@.len(),
                forall|j: int| 0 <= j < k ==> seq_lt(#[trigger] before[j], p),
                dup ==> k < out@.len() && before[k as int] == p,
                !dup && k < out@.len() ==> seq_lt(p, before[k as int]),
            decreases out@.len() - k,
        {
            let c = compare_str(out[k].as_str(), paths[i].as_str());
            proof { assert(before[k as int] == out@[k as int]@); }
            if c == 0 {
                dup = true;
                break;
            }
            if c == 1 {
                break;
            }
            k = k + 1;
        }
        proof {
            assert(views(paths@).subrange(0, i + 1) =~= views(paths@).subrange(0, i as int).push(p));
        }
        if dup {
            proof {
                assert(before[k as int] == p);
                assert(views(paths@).subrange(0, i + 1).to_set() =~= views(out@).to_set());
            }
        } else {
            proof {
                if k < out@.len() {
                    assert(seq_lt(p, before[k as int]));
                    assert forall|j: int| k <= j < before.len() implies seq_lt(p, #[trigger] before[j]) by {
                        if j > k {
                            assert(seq_lt(before[k as int], before[j]));
                            lemma_seq_lt_transitive(p, before[k as int], before[j]);
                        }
                    }
                }
            }
            out.insert(k, paths[i].clone());
            proof {
                let now = views(out@);
                assert(now =~= before.insert(k as int, p));
                assert forall|a: int, b: int| 0 <= a < b < now.len() implies seq_lt(#[trigger] now[a], #[trigger] now[b]) by {
                    if a < k && b > k {
                        lemma_seq_lt_transitive(before[a], p, before[b - 1]);
                    } else if a < k && b < k {
                        assert(seq_lt(before[a], before[b]));
                    } else if a > k {
                        assert(seq_lt(before[a - 1], before[b - 1]));
                    }
                }
                assert forall|x: Seq<char>| now.to_set().contains(x) <==> views(paths@).subrange(0, i + 1).to_set().contains(x) by {
                    if now.to_set().contains(x) {
                        let a = choose|a: int| 0 <= a < now.len() && now[a] == x;
                        if a < k {
                            assert(before.to_set().contains(before[a]));
                        } else if a > k {
                            assert(before.to_set().contains(before[a - 1]));
                        } else {
                            assert(views(paths@).subrange(0, i + 1)[i as int] == p);
                        }
                    }
                    if views(paths@).subrange(0, i + 1).to_set().contains(x) {
                        let ps = views(paths@).subrange(0, i + 1);
                        let a = choose|a: int| 0 <= a < ps.len() && ps[a] == x;
                        if a < i {
                            assert(views(paths@).subrange(0, i as int).to_set().contains(views(paths@).subrange(0, i as int)[a]));
                            let b = choose|b: int| 0 <= b < before.len() && before[b] == x;
                            if b < k {
                                assert(now[b] == x);
                            } else {
                                assert(now[b + 1] == x);
                            }
                        } else {
                            assert(now[k as int] == x);
                        }
                    }
                }
                assert(now.to_set() =~= views(paths@).subrange(0, i + 1).to_set());
            }
        }
        i = i + 1;
    }
    proof { assert(views(paths@).subrange(0, paths@.len() as int) =~= views(paths@)); }
    out
}

/// The identifier of each type path.
#[derive(Debug)]
pub struct IdentMap {
    entries: Vec<(String, String)>,
}

impl IdentMap {
    pub closed spec fn entries(&self) -> Seq<(String, String)> {
        self.entries@
    }

    /// Names a set of paths, given as a list in any order, possibly with
    /// repeats: the paths are taken in ascending order, so that the
    /// identifiers depend on the set alone. `None` where some path runs out of
    /// segments before it finds an identifier that no path with fewer
    /// segments, or with as many and sorting before it, has taken.
    pub fn new(paths: &Vec<String>) -> (r: Option<Self>)
        ensures
            r is None <==> identifiers(ascending_of(views(paths@).to_set())) is None,
            r matches Some(m) ==> m.entries().len() == paths@.len()
                && forall|j: int| 0 <= j < paths@.len() ==> (#[trigger] m.entries()[j]).0@ == paths@[j]@
                    && ident_in(views(paths@).to_set(), paths@[j]@) == Some(m.entries()[j].1@),
    {
        let ghost set = views(paths@).to_set();
        let sorted = sort_paths(paths);
        proof { lemma_ascending_of(set, views(sorted@)); }
        let named = match Self::name_in_order(&sorted) {
            Some(named) => named,
            None => return None,
        };
        let ghost order = ascending_of(set);
        let mut entries: Vec<(String, String)> = Vec::new();
        let mut j: usize = 0;
        while j < paths.len()
            invariant
                j <= paths@.len(),
                set == views(paths@).to_set(),
                order == ascending_of(set),
                order == views(sorted@),
                ascending(order),
                order.to_set() == set,
                named@.len() == sorted@.len(),
                identifiers(order) is Some,
                forall|k: int| 0 <= k < named@.len() ==> (#[trigger] named@[k]).0@ == sorted@[k]@
                    && identifiers(order)->Some_0[k] == Some(named@[k].1@),
                entries@.len() == j,
                forall|k: int| 0 <= k < j ==> (#[trigger] entries@[k]).0@ == paths@[k]@
                    && ident_in(set, paths@[k]@) == Some(entries@[k].1@),
            decreases paths@.len() - j,
        {
            proof {
                assert(views(paths@)[j as int] == paths@[j as int]@);
                assert(set.contains(paths@[j as int]@));
            }
            let ghost target = paths@[j as int]@;
            let mut k: usize = 0;
            while k < named.len() && compare_str(named[k].0.as_str(), paths[j].as_str()) != 0
                invariant
                    j < paths@.len(),
                    k <= named@.len(),
                    named@.len() == sorted@.len(),
                    order == views(sorted@),
                    target == paths@[j as int]@,
                    forall|i: int| 0 <= i < named@.len() ==> (#[trigger] named@[i]).0@ == sorted@[i]@,
                    forall|i: int| 0 <= i < k ==> order[i] != target,
                decreases named@.len() - k,
            {
                proof { assert(order[k as int] == sorted@[k as int]@); }
                k = k + 1;
            }
            if k == named.len() {
                proof {
                    assert(order.to_set().contains(target));
                    let i = choose|i: int| 0 <= i < order.len() && order[i] == target;
                    assert(false);
                }
                return None;
            }
            proof {
                assert(order[k as int] == target);
                lemma_index_in_ascending(order, k as int);
            }
            entries.push((paths[j].clone(), named[k].1.clone()));
            j = j + 1;
        }
        Some(IdentMap { entries })
    }

    /// Names the paths in the order given, with ties among paths of as many
    /// segments broken by that order.
    fn name_in_order(paths: &Vec<String>) -> (r: Option<Vec<(String, String)>>)
        ensures
            r is None <==> identifiers(views(paths@)) is None,
            r matches Some(m) ==> m@.len() == paths@.len()
                && forall|j: int| 0 <= j < paths@.len() ==> (#[trigger] m@[j]).0@ == paths@[j]@
                    && identifiers(views(paths@))->Some_0[j] == Some(m@[j].1@),
    {
        let n = paths.len();
        let ghost pv = views(paths@);
        let mut segss: Vec<Vec<String>> = Vec::new();
        let mut idents: Vec<Option<String>> = Vec::new();
        let mut max_level: usize = 0;
        let mut i: usize = 0;
        while i < n
            invariant
                n == paths@.len(),
                pv == views(paths@),
                i <= n,
                segss@.len() == i,
                idents@.len() == i,
                segss_view(segss@) == all_segments(pv).subrange(0, i as int),
                forall|j: int| 0 <= j < i ==> (#[trigger] segss@[j])@.len() >= 1,
                forall|j: int| 0 <= j < i ==> idents@[j] is None,
                max_level == max_len(all_segments(pv).subrange(0, i as int)),
            decreases n - i,
        {
            let segs = path_segments(paths[i].as_str());
            proof {
                let a = all_segments(pv).subrange(0, i + 1);
                assert(a.drop_last() =~= all_segments(pv).subrange(0, i as int));
                assert(a.last() == segments(paths@[i as int]@));
            }
            if segs.len() > max_level {
                max_level = segs.len();
            }
            segss.push(segs);
            idents.push(None);
            proof {
                assert(segss_view(segss@) =~= all_segments(pv).subrange(0, i + 1));
            }
            i = i + 1;
        }
        let ghost sv = all_segments(pv);
        proof {
            assert(all_segments(pv).subrange(0, n as int) =~= sv);
            assert(idents_view(idents@) =~= Seq::new(n as nat, |j: int| None::<Seq<char>>));
            lemma_max_len(sv);
        }
        let mut level: usize = 0;
        while level < max_level
            invariant
                n == paths@.len(),
                sv == all_segments(views(paths@)),
                segss_view(segss@) == sv,
                sv.len() == n,
                idents@.len() == n,
                forall|j: int| 0 <= j < n ==> (#[trigger] segss@[j])@.len() >= 1,
                level <= max_level,
                max_level == max_len(sv),
                assign(sv, level as nat, n as nat) == Some(idents_view(idents@)),
            decreases max_level - level,
        {
            level = level + 1;
            let mut i: usize = 0;
            while i < n
                invariant
                    n == paths@.len(),
                    sv == all_segments(views(paths@)),
                    segss_view(segss@) == sv,
                    sv.len() == n,
                    idents@.len() == n,
                    forall|j: int| 0 <= j < n ==> (#[trigger] segss@[j])@.len() >= 1,
                    1 <= level <= max_level,
                    max_level == max_len(sv),
                    i <= n,
                    assign(sv, level as nat, i as nat) == Some(idents_view(idents@)),
                decreases n - i,
            {
                proof { assert(sv[i as int] == views(segss@[i as int]@)); }
                if segss[i].len() == level {
                    match pick_ident(&segss[i], &idents) {
                        None => {
                            proof {
                                lemma_assign_none_stays(sv, level as nat, (i + 1) as nat, max_level as nat, n as nat);
                            }
                            return None;
                        },
                        Some(id) => {
                            let ghost before = idents@;
                            let ghost idv = id@;
                            idents.set(i, Some(id));
                            proof {
                                assert(idents_view(idents@) =~= idents_view(before).update(i as int, Some(idv)));
                            }
                        },
                    }
                }
                i = i + 1;
            }
        }
        proof {
            lemma_assign_shape(sv, max_level as nat, n as nat);
            lemma_max_len(sv);
            assert forall|k: int| 0 <= k < n implies (#[trigger] idents@[k]) is Some by {
                assert(sv[k] == views(segss@[k]@));
                assert(sv[k].len() == segss@[k]@.len());
                assert(idents_view(idents@)[k] == opt_view(idents@[k]));
            }
        }
        let mut entries: Vec<(String, String)> = Vec::new();
        let mut j: usize = 0;
        while j < n
            invariant
                n == paths@.len(),
                sv == all_segments(views(paths@)),
                idents@.len() == n,
                j <= n,
                entries@.len() == j,
                identifiers(views(paths@)) == Some(idents_view(idents@)),
                forall|k: int| 0 <= k < n ==> (#[trigger] idents@[k]) is Some,
                forall|k: int| 0 <= k < j ==> (#[trigger] entries@[k]).0@ == paths@[k]@
                    && identifiers(views(paths@))->Some_0[k] == Some(entries@[k].1@),
            decreases n - j,
        {
            match &idents[j] {
                Some(id) => {
                    entries.push((paths[j].clone(), id.clone()));
                    proof { assert(idents_view(idents@)[j as int] == Some(id@)); }
                },
                None => {},
            }
            j = j + 1;
        }
        Some(entries)
    }

    /// The identifier of `path`, if it was named.
    pub fn get(&self, path: &str) -> (r: Option<&String>)
        ensures
            r is None <==> lookup(self.entries(), path@) is None,
            r matches Some(id) ==> lookup(self.entries(), path@) == Some(id@),
    {
        let mut j: usize = 0;
        assert(self.entries@.subrange(0, self.entries@.len() as int) =~= self.entries@);
        while j < self.entries.len()
            invariant
                j <= self.entries@.len(),
                lookup(self.entries@, path@) == lookup(self.entries@.subrange(j as int, self.entries@.len() as int), path@),
            decreases self.entries@.len() - j,
        {
            let ghost rest = self.entries@.subrange(j as int, self.entries@.len() as int);
            assert(rest.drop_first() =~= self.entries@.subrange(j + 1, self.entries@.len() as int));
            if compare_str(self.entries[j].0.as_str(), path) == 0 {
                return Some(&self.entries[j].1);
            }
            j = j + 1;
        }
        None
    }
}

} // verus!
