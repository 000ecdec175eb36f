//! The cell hierarchy: which cells a cell places, and an order of the
//! cells under the top cell in which each cell comes after the cells it
//! places.
use vstd::prelude::*;
use crate::cell::{Cell, CellView, Layout, has_cell, str_views, strictly_sorted};
use crate::order::{lemma_text_less_irreflexive, lemma_text_less_transitive};
use crate::bundle::name_views;
use crate::order::text_less;

verus! {

/// The cell named `a` places the cell named `b`.
pub open spec fn places(cells: Seq<CellView>, a: Seq<char>, b: Seq<char>) -> bool {
    exists|k: int| 0 <= k < cells.len() && #[trigger] cells[k].name == a && cells[k].references(b)
}

/// `p` is a walk down the hierarchy: each name places the next.
pub open spec fn is_walk(cells: Seq<CellView>, p: Seq<Seq<char>>) -> bool {
    &&& p.len() >= 1
    &&& forall|i: int| 0 <= i < p.len() - 1 ==> places(cells, #[trigger] p[i], p[i + 1])
}

/// The cell named `b` is `a` or lies under it.
pub open spec fn reaches(cells: Seq<CellView>, a: Seq<char>, b: Seq<char>) -> bool {
    exists|p: Seq<Seq<char>>| #[trigger] is_walk(cells, p) && p[0] == a && p.last() == b
}

/// No cell lies under itself.
pub open spec fn acyclic(cells: Seq<CellView>) -> bool {
    forall|p: Seq<Seq<char>>| #[trigger] is_walk(cells, p) && p.len() >= 2 ==> p[0] != p.last()
}

/// The names from which the order starts: the top cell, or, without one,
/// every cell.
pub open spec fn order_roots(cells: Seq<CellView>, top: Option<Seq<char>>) -> Seq<Seq<char>> {
    match top {
        Some(t) => seq![t],
        None => cells.map_values(|c: CellView| c.name),
    }
}

/// The name lies under one of the roots (or is one).
pub open spec fn under_roots(cells: Seq<CellView>, roots: Seq<Seq<char>>, n: Seq<char>) -> bool {
    exists|r: int| 0 <= r < roots.len() && reaches(cells, #[trigger] roots[r], n)
}

/// Every name that some cell places.
pub open spec fn placed_names(cells: Seq<CellView>) -> Seq<Seq<char>>
    decreases cells.len(),
{
    if cells.len() == 0 {
        Seq::empty()
    } else {
        let c = cells.last();
        placed_names(cells.drop_last()) + c.srefs.map_values(|r: crate::cell::SrefView| r.cell_name)
            + c.arefs.map_values(|a: crate::cell::ArefView| a.cell_name)
    }
}

proof fn lemma_placed_names(cells: Seq<CellView>, k: int, b: Seq<char>)
    requires
        0 <= k < cells.len(),
        cells[k].references(b),
    ensures
        placed_names(cells).contains(b),
    decreases cells.len(),
{
    let c = cells.last();
    let s = c.srefs.map_values(|r: crate::cell::SrefView| r.cell_name);
    let a = c.arefs.map_values(|a: crate::cell::ArefView| a.cell_name);
    let rest = placed_names(cells.drop_last());
    assert(placed_names(cells) == rest + s + a);
    if k < cells.len() - 1 {
        assert(cells.drop_last()[k] == cells[k]);
        lemma_placed_names(cells.drop_last(), k, b);
        let w = choose|w: int| 0 <= w < rest.len() && rest[w] == b;
        assert((rest + s + a)[w] == b);
    } else {
        if exists|i: int| 0 <= i < c.srefs.len() && #[trigger] c.srefs[i].cell_name == b {
            let i = choose|i: int| 0 <= i < c.srefs.len() && #[trigger] c.srefs[i].cell_name == b;
            assert((rest + s + a)[rest.len() + i] == b);
        } else {
            let i = choose|i: int| 0 <= i < c.arefs.len() && #[trigger] c.arefs[i].cell_name == b;
            assert((rest + s + a)[rest.len() + s.len() + i] == b);
        }
    }
}

/// How many entries of `u` are not in `vis`.
spec fn unvisited(u: Seq<Seq<char>>, vis: Seq<Seq<char>>) -> nat
    decreases u.len(),
{
    if u.len() == 0 {
        0
    } else {
        unvisited(u.drop_last(), vis) + if vis.contains(u.last()) { 0nat } else { 1nat }
    }
}

proof fn lemma_unvisited_monotone(u: Seq<Seq<char>>, v1: Seq<Seq<char>>, v2: Seq<Seq<char>>)
    requires
        forall|x: Seq<char>| #[trigger] v1.contains(x) ==> v2.contains(x),
    ensures
        unvisited(u, v2) <= unvisited(u, v1),
    decreases u.len(),
{
    if u.len() > 0 {
        lemma_unvisited_monotone(u.drop_last(), v1, v2);
    }
}

proof fn lemma_unvisited_strict(u: Seq<Seq<char>>, v1: Seq<Seq<char>>, v2: Seq<Seq<char>>, x: Seq<char>)
    requires
        forall|y: Seq<char>| #[trigger] v1.contains(y) ==> v2.contains(y),
        u.contains(x),
        !v1.contains(x),
        v2.contains(x),
    ensures
        unvisited(u, v2) < unvisited(u, v1),
    decreases u.len(),
{
    if u.last() == x {
        lemma_unvisited_monotone(u.drop_last(), v1, v2);
    } else {
        let w = choose|w: int| 0 <= w < u.len() && u[w] == x;
        assert(u.drop_last()[w] == x);
        lemma_unvisited_strict(u.drop_last(), v1, v2, x);
    }
}

/// `s` lists the names that cell `c` places, each once, in the order of
/// strings.
pub open spec fn lists_dependencies(c: CellView, s: Seq<Seq<char>>) -> bool {
    &&& strictly_sorted(s)
    &&& forall|x: Seq<char>| #[trigger] s.contains(x) <==> c.references(x)
}

/// The names that cell `c` places, each once, in the order of strings.
pub open spec fn sorted_dependencies(c: CellView) -> Seq<Seq<char>> {
    choose|s: Seq<Seq<char>>| lists_dependencies(c, s)
}

/// The cell named `n` (the names are distinct).
pub open spec fn cell_named(cells: Seq<CellView>, n: Seq<char>) -> CellView {
    cells[choose|i: int| 0 <= i < cells.len() && #[trigger] cells[i].name == n]
}

/// The depth-first walk from `n`, given the names visited and those
/// finished so far: a name already visited is skipped; otherwise it is
/// marked, the cells it places are walked in order, and then it is
/// finished. Each nested visit spends one unit of `fuel`; the walk of
/// `dependency_walk` gives more than it can spend, since each nested visit
/// marks a new name.
pub open spec fn walk_node(
    cells: Seq<CellView>,
    fuel: nat,
    vis: Seq<Seq<char>>,
    ord: Seq<Seq<char>>,
    n: Seq<char>,
) -> (Seq<Seq<char>>, Seq<Seq<char>>)
    decreases fuel, 0nat, 0nat,
{
    if vis.contains(n) || fuel == 0 {
        (vis, ord)
    } else if has_cell(cells, n) {
        let r = walk_list(cells, (fuel - 1) as nat, vis.push(n), ord, sorted_dependencies(cell_named(cells, n)));
        (r.0, r.1.push(n))
    } else {
        (vis.push(n), ord.push(n))
    }
}

/// The depth-first walk from each of `ns` in turn.
pub open spec fn walk_list(
    cells: Seq<CellView>,
    fuel: nat,
    vis: Seq<Seq<char>>,
    ord: Seq<Seq<char>>,
    ns: Seq<Seq<char>>,
) -> (Seq<Seq<char>>, Seq<Seq<char>>)
    decreases fuel, 1nat, ns.len(),
{
    if ns.len() == 0 {
        (vis, ord)
    } else {
        let r = walk_node(cells, fuel, vis, ord, ns[0]);
        walk_list(cells, fuel, r.0, r.1, ns.drop_first())
    }
}

/// The order of `dependency_order`: the names finished by the depth-first
/// walk from the top cell (or, without one, from every cell in turn), each
/// cell's placed cells walked in the order of strings before the cell is
/// finished, a name visited again skipped.
pub open spec fn dependency_walk(cells: Seq<CellView>, top: Option<Seq<char>>) -> Seq<Seq<char>> {
    let roots = order_roots(cells, top);
    walk_list(cells, (placed_names(cells).len() + roots.len() + 1) as nat, Seq::empty(), Seq::empty(), roots).1
}

/// Two lists of the same names, each strictly sorted, are the same list.
proof fn lemma_sorted_unique(s1: Seq<Seq<char>>, s2: Seq<Seq<char>>)
    requires
        strictly_sorted(s1),
        strictly_sorted(s2),
        forall|x: Seq<char>| #[trigger] s1.contains(x) <==> s2.contains(x),
    ensures
        s1 == s2,
    decreases s1.len(),
{
    if s1.len() == 0 {
        if s2.len() > 0 {
            assert(s2.contains(s2[0]));
            assert(s1.contains(s2[0]));
        }
        assert(s1 =~= s2);
    } else if s2.len() == 0 {
        assert(s1.contains(s1[0]));
    } else {
        assert(s1.contains(s1[0]));
        assert(s2.contains(s2[0]));
        assert(s1.contains(s2[0]));
        assert(s2.contains(s1[0]));
        let k = choose|k: int| 0 <= k < s2.len() && s2[k] == s1[0];
        let m = choose|m: int| 0 <= m < s1.len() && s1[m] == s2[0];
        if k > 0 {
            assert(text_less(s2[0], s2[k]));
            if m == 0 {
                lemma_text_less_irreflexive(s2[0]);
            } else {
                assert(text_less(s1[0], s1[m]));
                lemma_text_less_transitive(s1[0], s2[0], s1[0]);
                lemma_text_less_irreflexive(s1[0]);
            }
        }
        assert(s1[0] == s2[0]);
        let t1 = s1.drop_first();
        let t2 = s2.drop_first();
        assert forall|x: Seq<char>| #[trigger] t1.contains(x) implies t2.contains(x) by {
            let i = choose|i: int| 0 <= i < t1.len() && t1[i] == x;
            assert(s1[i + 1] == x);
            assert(text_less(s1[0], s1[i + 1]));
            lemma_text_less_irreflexive(x);
            assert(s1.contains(x));
            assert(s2.contains(x));
            let j = choose|j: int| 0 <= j < s2.len() && s2[j] == x;
            assert(j != 0);
            assert(t2[j - 1] == x);
        }
        assert forall|x: Seq<char>| #[trigger] t2.contains(x) implies t1.contains(x) by {
            let i = choose|i: int| 0 <= i < t2.len() && t2[i] == x;
            assert(s2[i + 1] == x);
            assert(text_less(s2[0], s2[i + 1]));
            lemma_text_less_irreflexive(x);
            assert(s1.contains(x));
            let j = choose|j: int| 0 <= j < s1.len() && s1[j] == x;
            assert(j != 0);
            assert(t1[j - 1] == x);
        }
        assert forall|i: int, j: int| 0 <= i < j < t1.len() implies text_less(#[trigger] t1[i], #[trigger] t1[j]) by {
            assert(t1[i] == s1[i + 1] && t1[j] == s1[j + 1]);
        }
        assert forall|i: int, j: int| 0 <= i < j < t2.len() implies text_less(#[trigger] t2[i], #[trigger] t2[j]) by {
            assert(t2[i] == s2[i + 1] && t2[j] == s2[j + 1]);
        }
        lemma_sorted_unique(t1, t2);
        assert(s1 =~= seq![s1[0]] + t1);
        assert(s2 =~= seq![s2[0]] + t2);
    }
}

proof fn lemma_unvisited_le(u: Seq<Seq<char>>, vis: Seq<Seq<char>>)
    ensures
        unvisited(u, vis) <= u.len(),
    decreases u.len(),
{
    if u.len() > 0 {
        lemma_unvisited_le(u.drop_last(), vis);
    }
}

proof fn lemma_walk_extend(cells: Seq<CellView>, p: Seq<Seq<char>>, b: Seq<char>)
    requires
        is_walk(cells, p),
        places(cells, p.last(), b),
    ensures
        is_walk(cells, p.push(b)),
{
    let q = p.push(b);
    assert forall|i: int| 0 <= i < q.len() - 1 implies places(cells, #[trigger] q[i], q[i + 1]) by {
        assert(q[i] == p[i]);
        if i < p.len() - 1 {
            assert(q[i + 1] == p[i + 1]);
        }
    }
}

proof fn lemma_reaches_extend(cells: Seq<CellView>, a: Seq<char>, m: Seq<char>, b: Seq<char>)
    requires
        reaches(cells, a, m),
        places(cells, m, b),
    ensures
        reaches(cells, a, b),
{
    let p = choose|p: Seq<Seq<char>>| #[trigger] is_walk(cells, p) && p[0] == a && p.last() == m;
    lemma_walk_extend(cells, p, b);
    assert(p.push(b)[0] == a);
}

proof fn lemma_reaches_self(cells: Seq<CellView>, a: Seq<char>)
    ensures
        reaches(cells, a, a),
{
    let p = seq![a];
    assert(is_walk(cells, p));
}

/// A walk from `y` to `x` and a step from `x` to `y` make a cycle.
proof fn lemma_cycle(cells: Seq<CellView>, y: Seq<char>, x: Seq<char>)
    requires
        reaches(cells, y, x),
        places(cells, x, y),
    ensures
        !acyclic(cells),
{
    let p = choose|p: Seq<Seq<char>>| #[trigger] is_walk(cells, p) && p[0] == y && p.last() == x;
    lemma_walk_extend(cells, p, y);
    let q = p.push(y);
    assert(q[0] == y && q.last() == y && q.len() >= 2);
}

/// A name placed from a listed cell is listed too: walks from listed names
/// stay among them.
proof fn lemma_closed_holds_walks(cells: Seq<CellView>, listed: Seq<Seq<char>>, p: Seq<Seq<char>>)
    requires
        is_walk(cells, p),
        listed.contains(p[0]),
        forall|x: Seq<char>, y: Seq<char>| listed.contains(x) && #[trigger] places(cells, x, y) ==> listed.contains(y),
    ensures
        listed.contains(p.last()),
    decreases p.len(),
{
    if p.len() > 1 {
        let q = p.drop_last();
        assert forall|i: int| 0 <= i < q.len() - 1 implies places(cells, #[trigger] q[i], q[i + 1]) by {
            assert(q[i] == p[i]);
            assert(q[i + 1] == p[i + 1]);
        }
        lemma_closed_holds_walks(cells, listed, q);
        assert(places(cells, p[p.len() - 2], p[p.len() - 1]));
    }
}

fn contains_name(v: &Vec<String>, n: &String) -> (b: bool)
    ensures
        b == name_views(v@).contains(n@),
{
    let mut i: usize = 0;
    while i < v.len()
        invariant
            i <= v@.len(),
            forall|j: int| 0 <= j < i ==> #[trigger] name_views(v@)[j] != n@,
        decreases v@.len() - i,
    {
        if v[i] == *n {
            assert(name_views(v@)[i as int] == n@);
            return true;
        }
        i = i + 1;
    }
    false
}

/// The invariant of the depth-first walk: `vis` are the names visited,
/// `ord` those finished, in order.
spec fn walk_inv(cells: Seq<CellView>, roots: Seq<Seq<char>>, vis: Seq<Seq<char>>, ord: Seq<Seq<char>>) -> bool {
    &&& forall|z: Seq<char>| #[trigger] vis.contains(z) ==> under_roots(cells, roots, z)
    &&& forall|z: Seq<char>| #[trigger] ord.contains(z) ==> vis.contains(z)
    &&& forall|j: int, y: Seq<char>| 0 <= j < ord.len() && #[trigger] places(cells, ord[j], y) ==> vis.contains(y)
    &&& forall|j: int, y: Seq<char>|
        0 <= j < ord.len() && #[trigger] places(cells, ord[j], y) ==> (exists|i: int| 0 <= i < j && ord[i] == y)
            || reaches(cells, y, ord[j])
    &&& forall|a: int, b: int| 0 <= a < b < ord.len() ==> ord[a] != ord[b]
}

proof fn lemma_walk_inv_visit(
    cells: Seq<CellView>,
    roots: Seq<Seq<char>>,
    v0: Seq<Seq<char>>,
    v1: Seq<Seq<char>>,
    ord: Seq<Seq<char>>,
)
    requires
        walk_inv(cells, roots, v0, ord),
        forall|z: Seq<char>| #[trigger] v0.contains(z) ==> v1.contains(z),
        forall|z: Seq<char>| #[trigger] v1.contains(z) ==> under_roots(cells, roots, z),
    ensures
        walk_inv(cells, roots, v1, ord),
{
    assert forall|j: int, y: Seq<char>| 0 <= j < ord.len() && #[trigger] places(cells, ord[j], y) implies v1.contains(y) by {
        assert(v0.contains(y));
    }
    assert forall|z: Seq<char>| #[trigger] ord.contains(z) implies v1.contains(z) by {
        assert(v0.contains(z));
    }
}

/// Visits `name` and, first, the cells it places; finished names go to
/// `ordered`.
fn visit(
    layout: &Layout,
    name: &String,
    visited: &mut Vec<String>,
    ordered: &mut Vec<String>,
    Ghost(u): Ghost<Seq<Seq<char>>>,
    Ghost(roots): Ghost<Seq<Seq<char>>>,
    Ghost(fuel): Ghost<nat>,
)
    requires
        layout.wf(),
        fuel > unvisited(u, name_views(old(visited)@)),
        forall|x: Seq<char>| #[trigger] placed_names(layout@.cells).contains(x) ==> u.contains(x),
        u.contains(name@),
        under_roots(layout@.cells, roots, name@),
        walk_inv(layout@.cells, roots, name_views(old(visited)@), name_views(old(ordered)@)),
        forall|z: Seq<char>|
            #[trigger] name_views(old(visited)@).contains(z) && !name_views(old(ordered)@).contains(z)
                ==> reaches(layout@.cells, z, name@),
    ensures
        (name_views(final(visited)@), name_views(final(ordered)@)) == walk_node(
            layout@.cells,
            fuel,
            name_views(old(visited)@),
            name_views(old(ordered)@),
            name@,
        ),
        walk_inv(layout@.cells, roots, name_views(final(visited)@), name_views(final(ordered)@)),
        name_views(final(visited)@).contains(name@),
        forall|z: Seq<char>| #[trigger] name_views(old(visited)@).contains(z) ==> name_views(final(visited)@).contains(z),
        name_views(final(ordered)@).take(old(ordered)@.len() as int) == name_views(old(ordered)@),
        old(ordered)@.len() <= final(ordered)@.len(),
        forall|z: Seq<char>|
            (#[trigger] name_views(final(visited)@).contains(z) && !name_views(final(ordered)@).contains(z))
                <==> (name_views(old(visited)@).contains(z) && !name_views(old(ordered)@).contains(z)),
    decreases unvisited(u, name_views(old(visited)@)),
{
    let ghost cells = layout@.cells;
    let ghost v0 = name_views(visited@);
    let ghost o0 = name_views(ordered@);
    if contains_name(visited, name) {
        return;
    }
    visited.push(name.clone());
    proof {
        let v1 = name_views(visited@);
        assert(v1 =~= v0.push(name@));
        assert forall|z: Seq<char>| #[trigger] v0.contains(z) implies v1.contains(z) by {
            let w = choose|w: int| 0 <= w < v0.len() && v0[w] == z;
            assert(v1[w] == z);
        }
        assert(v1[v0.len() as int] == name@);
        assert(!o0.contains(name@));
        assert forall|z: Seq<char>| #[trigger] v1.contains(z) implies under_roots(cells, roots, z) by {
            let w = choose|w: int| 0 <= w < v1.len() && v1[w] == z;
            if w < v0.len() {
                assert(v0[w] == z);
                assert(v0.contains(z));
            }
        }
        lemma_walk_inv_visit(cells, roots, v0, v1, o0);
    }
    let ghost v1 = name_views(visited@);
    match layout.cell(name.as_str()) {
        Some(cell) => {
            let deps = cell.direct_dependencies();
            let ghost ds = str_views(deps@);
            proof {
                let i = choose|i: int| 0 <= i < cells.len() && cells[i] == cell@;
                let j = choose|j: int| 0 <= j < cells.len() && #[trigger] cells[j].name == name@;
                crate::cell::lemma_cell_index_unique(cells, i, j);
                assert(cell_named(cells, name@) == cell@);
                assert(lists_dependencies(cell@, ds));
                let sd = sorted_dependencies(cell@);
                lemma_sorted_unique(sd, ds);
                assert(ds.skip(0) =~= ds);
            }
            let mut k: usize = 0;
            while k < deps.len()
                invariant
                    k <= deps@.len(),
                    layout.wf(),
                    cells == layout@.cells,
                    forall|x: Seq<char>| #[trigger] placed_names(cells).contains(x) ==> u.contains(x),
                    u.contains(name@),
                    v0 == name_views(old(visited)@),
                    !v0.contains(name@),
                    under_roots(cells, roots, name@),
                    forall|x: Seq<char>| #![trigger str_views(deps@).contains(x)]
                        str_views(deps@).contains(x) <==> cell@.references(x),
                    cell@.name == name@,
                    exists|i: int| 0 <= i < cells.len() && cells[i] == cell@,
                    walk_inv(cells, roots, name_views(visited@), name_views(ordered@)),
                    name_views(visited@).contains(name@),
                    !name_views(ordered@).contains(name@),
                    forall|z: Seq<char>| #[trigger] v0.contains(z) ==> name_views(visited@).contains(z),
                    name_views(ordered@).take(o0.len() as int) == o0,
                    o0.len() <= ordered@.len(),
                    forall|z: Seq<char>|
                        (#[trigger] name_views(visited@).contains(z) && !name_views(ordered@).contains(z))
                            <==> ((v0.contains(z) && !o0.contains(z)) || z == name@),
                    forall|j: int| 0 <= j < k ==> name_views(visited@).contains(#[trigger] str_views(deps@)[j]),
                    forall|z: Seq<char>|
                        #[trigger] v0.contains(z) && !o0.contains(z) ==> reaches(cells, z, name@),
                    fuel > unvisited(u, v0),
                    v1 == v0.push(name@),
                    ds == str_views(deps@),
                    ds == sorted_dependencies(cell_named(cells, name@)),
                    has_cell(cells, name@),
                    walk_list(cells, (fuel - 1) as nat, v1, o0, ds) == walk_list(
                        cells,
                        (fuel - 1) as nat,
                        name_views(visited@),
                        name_views(ordered@),
                        ds.skip(k as int),
                    ),
                decreases deps@.len() - k,
            {
                let d = String::from_str(deps[k]);
                let ghost vk = name_views(visited@);
                proof {
                    assert(str_views(deps@)[k as int] == d@);
                    assert(str_views(deps@).contains(d@));
                    let i = choose|i: int| 0 <= i < cells.len() && cells[i] == cell@;
                    assert(places(cells, name@, d@));
                    lemma_placed_names(cells, i, d@);
                    lemma_unvisited_strict(u, v0, vk, name@);
                    assert forall|z: Seq<char>| #[trigger] vk.contains(z) && !name_views(ordered@).contains(z)
                        implies reaches(cells, z, d@) by {
                        if z == name@ {
                            lemma_reaches_self(cells, name@);
                        }
                        lemma_reaches_extend(cells, z, name@, d@);
                    }
                    lemma_reaches_extend(cells, roots[choose|r: int| 0 <= r < roots.len() && reaches(cells, #[trigger] roots[r], name@)], name@, d@);
                    let r = choose|r: int| 0 <= r < roots.len() && reaches(cells, #[trigger] roots[r], name@);
                    lemma_reaches_extend(cells, roots[r], name@, d@);
                    assert(under_roots(cells, roots, d@));
                }
                assert(unvisited(u, name_views(visited@)) < unvisited(u, v0));
                let ghost ok0 = name_views(ordered@);
                proof {
                    assert(ds.skip(k as int)[0] == d@);
                    assert(ds.skip(k as int).drop_first() =~= ds.skip(k + 1));
                }
                visit(layout, &d, visited, ordered, Ghost(u), Ghost(roots), Ghost((fuel - 1) as nat));
                proof {
                    assert forall|j: int| 0 <= j < k + 1 implies name_views(visited@).contains(#[trigger] str_views(deps@)[j]) by {
                        if j < k {
                            assert(vk.contains(str_views(deps@)[j]));
                        }
                    }
                    let ok = name_views(ordered@);
                    assert forall|z: Seq<char>| #[trigger] o0.contains(z) implies ok.contains(z) by {
                        let w = choose|w: int| 0 <= w < o0.len() && o0[w] == z;
                        assert(ok.take(o0.len() as int)[w] == z);
                        assert(ok[w] == z);
                    }
                }
                k = k + 1;
            }
            proof {
                assert forall|y: Seq<char>| #[trigger] places(cells, name@, y) implies name_views(visited@).contains(y) by {
                    let i = choose|i: int| 0 <= i < cells.len() && cells[i] == cell@;
                    let kk = choose|kk: int| 0 <= kk < cells.len() && #[trigger] cells[kk].name == name@ && cells[kk].references(y);
                    crate::cell::lemma_cell_index_unique(cells, i, kk);
                    assert(str_views(deps@).contains(y));
                    let j = choose|j: int| 0 <= j < str_views(deps@).len() && str_views(deps@)[j] == y;
                }
            }
        },
        None => {
            proof {
                assert(!has_cell(cells, name@));
                assert forall|y: Seq<char>| !#[trigger] places(cells, name@, y) by {
                    if places(cells, name@, y) {
                        let kk = choose|kk: int| 0 <= kk < cells.len() && #[trigger] cells[kk].name == name@ && cells[kk].references(y);
                    }
                }
            }
        },
    }
    let ghost vb = name_views(visited@);
    let ghost ob = name_views(ordered@);
    ordered.push(name.clone());
    proof {
        let o2 = name_views(ordered@);
        assert(o2 =~= ob.push(name@));
        if has_cell(cells, name@) {
            let dl = sorted_dependencies(cell_named(cells, name@));
            assert(dl.skip(dl.len() as int) =~= Seq::<Seq<char>>::empty());
            assert(walk_list(cells, (fuel - 1) as nat, v1, o0, dl) == (vb, ob));
        } else {
            assert(vb == v1 && ob == o0);
        }
        let j0 = ob.len() as int;
        assert(o2[j0] == name@);
        assert forall|z: Seq<char>| #[trigger] ob.contains(z) implies o2.contains(z) by {
            let w = choose|w: int| 0 <= w < ob.len() && ob[w] == z;
            assert(o2[w] == z);
        }
        assert forall|z: Seq<char>| #[trigger] o2.contains(z) implies ob.contains(z) || z == name@ by {
            let w = choose|w: int| 0 <= w < o2.len() && o2[w] == z;
            if w < j0 {
                assert(ob[w] == z);
            }
        }
        assert(o2.take(o0.len() as int) =~= ob.take(o0.len() as int));
        // the invariant of the walk, for the longer list
        assert forall|z: Seq<char>| #[trigger] o2.contains(z) implies vb.contains(z) by {}
        assert forall|j: int, y: Seq<char>| 0 <= j < o2.len() && #[trigger] places(cells, o2[j], y) implies vb.contains(y) by {
            if j < j0 {
                assert(o2[j] == ob[j]);
            }
        }
        assert forall|j: int, y: Seq<char>| 0 <= j < o2.len() && #[trigger] places(cells, o2[j], y) implies
            (exists|i: int| 0 <= i < j && o2[i] == y) || reaches(cells, y, o2[j]) by {
            if j < j0 {
                assert(o2[j] == ob[j]);
                if exists|i: int| 0 <= i < j && ob[i] == y {
                    let i = choose|i: int| 0 <= i < j && ob[i] == y;
                    assert(o2[i] == y);
                }
            } else {
                assert(vb.contains(y));
                if ob.contains(y) {
                    let i = choose|i: int| 0 <= i < ob.len() && ob[i] == y;
                    assert(o2[i] == y);
                } else if y == name@ {
                    lemma_reaches_self(cells, name@);
                } else {
                    assert(v0.contains(y) && !o0.contains(y));
                }
            }
        }
        assert forall|a: int, b: int| 0 <= a < b < o2.len() implies o2[a] != o2[b] by {
            if b == j0 {
                assert(ob.contains(o2[a]));
            }
        }
    }
}

impl Layout {
    /// The names under the top cell (or, without one, under every cell),
    /// each once, depth first: a cell comes after the cells it places,
    /// where the hierarchy has no cycle. The order is that of the walk
    /// `dependency_walk`.
    pub fn dependency_order(&self) -> (ordered: Vec<String>)
        requires
            self.wf(),
        ensures
            name_views(ordered@) == dependency_walk(self@.cells, self@.top_cell),
            forall|a: int, b: int| 0 <= a < b < ordered@.len() ==> ordered@[a]@ != ordered@[b]@,
            forall|n: Seq<char>|
                #![trigger name_views(ordered@).contains(n)]
                name_views(ordered@).contains(n) <==> under_roots(
                    self@.cells,
                    order_roots(self@.cells, self@.top_cell),
                    n,
                ),
            acyclic(self@.cells) ==> forall|j: int, y: Seq<char>|
                0 <= j < ordered@.len() && #[trigger] places(self@.cells, ordered@[j]@, y) ==> exists|i: int|
                    0 <= i < j && ordered@[i]@ == y,
    {
        let ghost cells = self@.cells;
        let ghost roots = order_roots(cells, self@.top_cell);
        let ghost u = placed_names(cells) + roots;
        let ghost fuel: nat = (placed_names(cells).len() + roots.len() + 1) as nat;
        let mut root_names: Vec<String> = Vec::new();
        match self.top_cell() {
            Some(t) => {
                root_names.push(t.clone());
                assert(name_views(root_names@) =~= roots);
            },
            None => {
                let cs = self.cells();
                let mut i: usize = 0;
                while i < cs.len()
                    invariant
                        i <= cs@.len(),
                        cs@.map_values(|c: Cell| c@) == cells,
                        name_views(root_names@) =~= cells.map_values(|c: CellView| c.name).take(i as int),
                    decreases cs@.len() - i,
                {
                    assert(cells[i as int] == cs@[i as int]@);
                    let ghost before = name_views(root_names@);
                    root_names.push(cs[i].name.clone());
                    proof {
                        let after = name_views(root_names@);
                        let target = cells.map_values(|c: CellView| c.name).take(i + 1);
                        assert(cells.len() == cs@.len());
                        assert(before.len() == i);
                        assert(after.len() == target.len());
                        assert forall|j: int| 0 <= j < after.len() implies after[j] == target[j] by {
                            if j < i {
                                assert(after[j] == before[j]);
                            } else {
                                assert(after[j] == cs@[i as int].name@);
                            }
                        }
                        assert(after =~= target);
                    }
                    i = i + 1;
                }
                assert(cells.map_values(|c: CellView| c.name).take(i as int) =~= roots);
            },
        }
        let mut visited: Vec<String> = Vec::new();
        let mut ordered: Vec<String> = Vec::new();
        assert(name_views(visited@) =~= Seq::<Seq<char>>::empty());
        assert(name_views(ordered@) =~= Seq::<Seq<char>>::empty());
        assert(roots.skip(0) =~= roots);
        let mut r: usize = 0;
        while r < root_names.len()
            invariant
                r <= root_names@.len(),
                self.wf(),
                cells == self@.cells,
                name_views(root_names@) == roots,
                u == placed_names(cells) + roots,
                walk_inv(cells, roots, name_views(visited@), name_views(ordered@)),
                forall|z: Seq<char>| #[trigger] name_views(visited@).contains(z) ==> name_views(ordered@).contains(z),
                forall|j: int| 0 <= j < r ==> name_views(ordered@).contains(#[trigger] roots[j]),
                fuel == placed_names(cells).len() + roots.len() + 1,
                walk_list(cells, fuel, Seq::empty(), Seq::empty(), roots) == walk_list(
                    cells,
                    fuel,
                    name_views(visited@),
                    name_views(ordered@),
                    roots.skip(r as int),
                ),
            decreases root_names@.len() - r,
        {
            let ghost ob = name_views(ordered@);
            proof {
                assert(roots[r as int] == root_names@[r as int]@);
                assert(u[placed_names(cells).len() + r] == roots[r as int]);
                assert forall|x: Seq<char>| #[trigger] placed_names(cells).contains(x) implies u.contains(x) by {
                    let w = choose|w: int| 0 <= w < placed_names(cells).len() && placed_names(cells)[w] == x;
                    assert(u[w] == x);
                }
                lemma_reaches_self(cells, roots[r as int]);
                lemma_unvisited_le(u, name_views(visited@));
                assert(roots.skip(r as int)[0] == roots[r as int]);
                assert(roots.skip(r as int).drop_first() =~= roots.skip(r + 1));
            }
            visit(self, &root_names[r], &mut visited, &mut ordered, Ghost(u), Ghost(roots), Ghost(fuel));
            proof {
                let oa = name_views(ordered@);
                assert forall|j: int| 0 <= j < r + 1 implies oa.contains(#[trigger] roots[j]) by {
                    if j < r {
                        let w = choose|w: int| 0 <= w < ob.len() && ob[w] == roots[j];
                        assert(oa.take(ob.len() as int)[w] == roots[j]);
                        assert(oa[w] == roots[j]);
                    }
                }
            }
            r = r + 1;
        }
        proof {
            let ov = name_views(ordered@);
            assert(roots.skip(r as int) =~= Seq::<Seq<char>>::empty());
            assert(root_names@.len() == roots.len());
            assert(ov == dependency_walk(cells, self@.top_cell));
            assert forall|n: Seq<char>| #![trigger ov.contains(n)] ov.contains(n) <==> under_roots(cells, roots, n) by {
                if under_roots(cells, roots, n) {
                    let r = choose|r: int| 0 <= r < roots.len() && reaches(cells, #[trigger] roots[r], n);
                    let p = choose|p: Seq<Seq<char>>| #[trigger] is_walk(cells, p) && p[0] == roots[r] && p.last() == n;
                    assert forall|x: Seq<char>, y: Seq<char>| ov.contains(x) && #[trigger] places(cells, x, y) implies ov.contains(y) by {
                        let j = choose|j: int| 0 <= j < ov.len() && ov[j] == x;
                    }
                    lemma_closed_holds_walks(cells, ov, p);
                }
            }
            assert forall|a: int, b: int| 0 <= a < b < ordered@.len() implies ordered@[a]@ != ordered@[b]@ by {
                assert(ov[a] == ordered@[a]@);
                assert(ov[b] == ordered@[b]@);
            }
            if acyclic(cells) {
                assert forall|j: int, y: Seq<char>| 0 <= j < ordered@.len() && #[trigger] places(cells, ordered@[j]@, y)
                    implies exists|i: int| 0 <= i < j && ordered@[i]@ == y by {
                    assert(ov[j] == ordered@[j]@);
                    if reaches(cells, y, ov[j]) {
                        lemma_cycle(cells, y, ov[j]);
                    }
                    let i = choose|i: int| 0 <= i < j && ov[i] == y;
                    assert(ordered@[i]@ == y);
                }
            }
        }
        ordered
    }
}

} // verus!
