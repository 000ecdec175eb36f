//! Which cell definitions an answer carries: the cells that the placements
//! in view lead to, through cells the client does not have at the level of
//! detail of the answer.
use vstd::prelude::*;
use crate::cell::{Cell, CellView, Layout, has_cell};
use crate::query::LodLevel;

verus! {

/// A cell that the client has, and at which level of detail.
pub struct KnownCell {
    pub name: String,
    pub lod: LodLevel,
}

pub struct KnownView {
    pub name: Seq<char>,
    pub lod: LodLevel,
}

impl View for KnownCell {
    type V = KnownView;

    open spec fn view(&self) -> KnownView {
        KnownView { name: self.name@, lod: self.lod }
    }
}

pub open spec fn name_views(v: Seq<String>) -> Seq<Seq<char>> {
    v.map_values(|s: String| s@)
}

pub open spec fn known_views(v: Seq<KnownCell>) -> Seq<KnownView> {
    v.map_values(|k: KnownCell| k@)
}

/// The client lacks the cell named `name` at level `lod`: it does not have
/// it, or only at a lower level.
pub open spec fn needs_definition(known: Seq<KnownView>, lod: LodLevel, name: Seq<char>) -> bool {
    forall|i: int| 0 <= i < known.len() && #[trigger] known[i].name == name ==> known[i].lod.rank() < lod.rank()
}

/// `p` is a chain of cells (by position), each lacked by the client: the
/// first is placed in view, each next is placed by the one before.
pub open spec fn is_chain(
    cells: Seq<CellView>,
    required: Seq<Seq<char>>,
    known: Seq<KnownView>,
    lod: LodLevel,
    p: Seq<int>,
) -> bool {
    &&& p.len() > 0
    &&& required.contains(cells[p[0]].name)
    &&& forall|k: int| 0 <= k < p.len() ==> 0 <= #[trigger] p[k] < cells.len()
    &&& forall|k: int| 0 <= k < p.len() ==> needs_definition(known, lod, cells[#[trigger] p[k]].name)
    &&& forall|k: int| 0 <= k < p.len() - 1 ==> cells[#[trigger] p[k]].references(cells[p[k + 1]].name)
}

/// The cell at `j` is one whose definition goes with the answer.
pub open spec fn to_define(
    cells: Seq<CellView>,
    required: Seq<Seq<char>>,
    known: Seq<KnownView>,
    lod: LodLevel,
    j: int,
) -> bool {
    exists|p: Seq<int>| #[trigger] is_chain(cells, required, known, lod, p) && p.last() == j
}

proof fn lemma_chain_extend(
    cells: Seq<CellView>,
    required: Seq<Seq<char>>,
    known: Seq<KnownView>,
    lod: LodLevel,
    p: Seq<int>,
    k: int,
)
    requires
        is_chain(cells, required, known, lod, p),
        0 <= k < cells.len(),
        needs_definition(known, lod, cells[k].name),
        cells[p.last()].references(cells[k].name),
    ensures
        is_chain(cells, required, known, lod, p.push(k)),
{
    let q = p.push(k);
    assert(q[0] == p[0]);
    assert forall|i: int| 0 <= i < q.len() implies 0 <= #[trigger] q[i] < cells.len() by {
        if i < p.len() {
            assert(q[i] == p[i]);
        }
    }
    assert forall|i: int| 0 <= i < q.len() implies needs_definition(known, lod, cells[#[trigger] q[i]].name) by {
        if i < p.len() {
            assert(q[i] == p[i]);
        }
    }
    assert forall|i: int| 0 <= i < q.len() - 1 implies cells[#[trigger] q[i]].references(cells[q[i + 1]].name) by {
        assert(q[i] == p[i]);
        if i < p.len() - 1 {
            assert(q[i + 1] == p[i + 1]);
        }
    }
}

/// A set of cells that holds every cell in view that the client lacks, and
/// with each cell every cell it places that the client lacks, holds every
/// cell to define.
proof fn lemma_closed_holds_chains(
    cells: Seq<CellView>,
    required: Seq<Seq<char>>,
    known: Seq<KnownView>,
    lod: LodLevel,
    marked: Seq<bool>,
    p: Seq<int>,
)
    requires
        marked.len() == cells.len(),
        is_chain(cells, required, known, lod, p),
        forall|j: int|
            0 <= j < cells.len() && required.contains(cells[j].name) && needs_definition(
                known,
                lod,
                cells[j].name,
            ) ==> #[trigger] marked[j],
        forall|j: int, k: int|
            0 <= j < cells.len() && 0 <= k < cells.len() && #[trigger] marked[j] && cells[j].references(
                cells[k].name,
            ) && needs_definition(known, lod, cells[k].name) ==> #[trigger] marked[k],
    ensures
        marked[p.last()],
    decreases p.len(),
{
    assert(0 <= p[0] < cells.len());
    if p.len() > 1 {
        let q = p.drop_last();
        assert forall|i: int| 0 <= i < q.len() implies 0 <= #[trigger] q[i] < cells.len() by {
            assert(q[i] == p[i]);
        }
        assert forall|i: int| 0 <= i < q.len() implies needs_definition(known, lod, cells[#[trigger] q[i]].name) by {
            assert(q[i] == p[i]);
        }
        assert forall|i: int| 0 <= i < q.len() - 1 implies cells[#[trigger] q[i]].references(cells[q[i + 1]].name) by {
            assert(q[i] == p[i]);
            assert(q[i + 1] == p[i + 1]);
        }
        lemma_closed_holds_chains(cells, required, known, lod, marked, q);
        let a = p[p.len() - 2];
        let b = p.last();
        assert(0 <= b < cells.len());
        assert(needs_definition(known, lod, cells[b].name));
        assert(cells[a].references(cells[b].name));
        assert(marked[a]);
    }
}

/// The number of cells not yet marked.
spec fn unmarked(marked: Seq<bool>) -> nat
    decreases marked.len(),
{
    if marked.len() == 0 {
        0
    } else {
        unmarked(marked.drop_last()) + if marked.last() { 0nat } else { 1nat }
    }
}

proof fn lemma_mark_one(marked: Seq<bool>, j: int)
    requires
        0 <= j < marked.len(),
        !marked[j],
    ensures
        unmarked(marked.update(j, true)) + 1 == unmarked(marked),
    decreases marked.len(),
{
    let u = marked.update(j, true);
    if j == marked.len() - 1 {
        assert(u.drop_last() =~= marked.drop_last());
    } else {
        assert(u.drop_last() =~= marked.drop_last().update(j, true));
        lemma_mark_one(marked.drop_last(), j);
    }
}

/// Whether the client lacks the cell named `name` at level `lod`.
fn lacks(known: &Vec<KnownCell>, lod: LodLevel, name: &String) -> (b: bool)
    ensures
        b == needs_definition(known_views(known@), lod, name@),
{
    let ghost kv = known_views(known@);
    let mut i: usize = 0;
    while i < known.len()
        invariant
            i <= known@.len(),
            kv == known_views(known@),
            forall|m: int| 0 <= m < i && #[trigger] kv[m].name == name@ ==> kv[m].lod.rank() < lod.rank(),
        decreases known@.len() - i,
    {
        assert(kv[i as int] == known@[i as int]@);
        if known[i].name == *name && !known[i].lod.is_below(lod) {
            assert(kv[i as int].name == name@ && !(kv[i as int].lod.rank() < lod.rank()));
            return false;
        }
        i = i + 1;
    }
    true
}

/// Queues each cell that the cell at `j` places and the client lacks,
/// unless it is marked already.
fn queue_children(
    layout: &Layout,
    j: usize,
    known: &Vec<KnownCell>,
    lod: LodLevel,
    marked: &Vec<bool>,
    queue: &mut Vec<usize>,
    Ghost(rv): Ghost<Seq<Seq<char>>>,
)
    requires
        layout.wf(),
        j < layout@.cells.len(),
        marked@.len() == layout@.cells.len(),
        to_define(layout@.cells, rv, known_views(known@), lod, j as int),
        forall|q: int| 0 <= q < old(queue)@.len() ==> #[trigger] old(queue)@[q] < layout@.cells.len(),
    ensures
        forall|x: usize| old(queue)@.contains(x) ==> final(queue)@.contains(x),
        forall|q: int| 0 <= q < final(queue)@.len() ==> #[trigger] final(queue)@[q] < layout@.cells.len(),
        forall|q: int|
            0 <= q < final(queue)@.len() ==> old(queue)@.contains(#[trigger] final(queue)@[q]) || to_define(
                layout@.cells,
                rv,
                known_views(known@),
                lod,
                final(queue)@[q] as int,
            ),
        forall|k: int|
            0 <= k < layout@.cells.len() && layout@.cells[j as int].references(#[trigger] layout@.cells[k].name)
                && needs_definition(known_views(known@), lod, layout@.cells[k].name) ==> marked@[k]
                || final(queue)@.contains(k as usize),
{
    let ghost cv = layout@.cells;
    let ghost kv = known_views(known@);
    let ghost q0 = queue@;
    let cells = layout.cells();
    let cell = &cells[j];
    assert(cell@ == cv[j as int]);
    let ghost cj = cv[j as int];
    let mut i: usize = 0;
    while i < cell.srefs.len()
        invariant
            i <= cell.srefs@.len(),
            layout.wf(),
            cv == layout@.cells,
            cell@ == cj,
            cj == cv[j as int],
            kv == known_views(known@),
            marked@.len() == cv.len(),
            to_define(cv, rv, kv, lod, j as int),
            forall|x: usize| q0.contains(x) ==> queue@.contains(x),
            forall|q: int| 0 <= q < queue@.len() ==> #[trigger] queue@[q] < cv.len(),
            forall|q: int| 0 <= q < queue@.len() ==> q0.contains(#[trigger] queue@[q]) || to_define(
                cv,
                rv,
                kv,
                lod,
                queue@[q] as int,
            ),
            forall|k: int|
                0 <= k < cv.len() && (exists|w: int| 0 <= w < i && #[trigger] cj.srefs[w].cell_name == cv[k].name)
                    && needs_definition(kv, lod, cv[k].name) ==> marked@[k] || queue@.contains(k as usize),
        decreases cell.srefs@.len() - i,
    {
        let ghost qb = queue@;
        assert(cj.srefs[i as int] == cell.srefs@[i as int]@);
        let nm = &cell.srefs[i].cell_name;
        if lacks(known, lod, nm) {
            match layout.cell_index(nm) {
                Some(k) => {
                    if !marked[k] {
                        proof {
                            let p = choose|p: Seq<int>| #[trigger] is_chain(cv, rv, kv, lod, p) && p.last() == j as int;
                            assert(cj.srefs[i as int].cell_name == cv[k as int].name);
                            assert(cv[p.last()].references(cv[k as int].name));
                            lemma_chain_extend(cv, rv, kv, lod, p, k as int);
                            assert(p.push(k as int).last() == k as int);
                        }
                        queue.push(k);
                        proof {
                            assert forall|x: usize| qb.contains(x) implies queue@.contains(x) by {
                                let w = choose|w: int| 0 <= w < qb.len() && #[trigger] qb[w] == x;
                                assert(queue@[w] == x);
                            }
                            assert(queue@[queue@.len() - 1] == k);
                        }
                    }
                },
                None => {},
            }
        }
        proof {
            assert forall|k: int|
                0 <= k < cv.len() && (exists|w: int| 0 <= w < i + 1 && #[trigger] cj.srefs[w].cell_name == cv[k].name)
                    && needs_definition(kv, lod, cv[k].name) implies marked@[k] || queue@.contains(k as usize) by {
                let w = choose|w: int| 0 <= w < i + 1 && #[trigger] cj.srefs[w].cell_name == cv[k].name;
                if w < i {
                    if !marked@[k] {
                        assert(qb.contains(k as usize));
                        let x = choose|x: int| 0 <= x < qb.len() && #[trigger] qb[x] == k as usize;
                        assert(queue@[x] == k as usize);
                    }
                } else {
                    assert(has_cell(cv, cv[k].name));
                    if !marked@[k] {
                        let c = queue@.len() - 1;
                        crate::cell::lemma_cell_index_unique(cv, k, queue@[c] as int);
                    }
                }
            }
        }
        i = i + 1;
    }
    let ghost q1 = queue@;
    let mut i: usize = 0;
    while i < cell.arefs.len()
        invariant
            i <= cell.arefs@.len(),
            layout.wf(),
            cv == layout@.cells,
            cell@ == cj,
            cj == cv[j as int],
            kv == known_views(known@),
            marked@.len() == cv.len(),
            to_define(cv, rv, kv, lod, j as int),
            forall|x: usize| q0.contains(x) ==> queue@.contains(x),
            forall|x: usize| q1.contains(x) ==> queue@.contains(x),
            forall|q: int| 0 <= q < queue@.len() ==> #[trigger] queue@[q] < cv.len(),
            forall|q: int| 0 <= q < queue@.len() ==> q0.contains(#[trigger] queue@[q]) || to_define(
                cv,
                rv,
                kv,
                lod,
                queue@[q] as int,
            ),
            forall|k: int|
                0 <= k < cv.len() && (exists|w: int| 0 <= w < cj.srefs.len() && #[trigger] cj.srefs[w].cell_name == cv[k].name)
                    && needs_definition(kv, lod, cv[k].name) ==> marked@[k] || q1.contains(k as usize),
            forall|k: int|
                0 <= k < cv.len() && (exists|w: int| 0 <= w < i && #[trigger] cj.arefs[w].cell_name == cv[k].name)
                    && needs_definition(kv, lod, cv[k].name) ==> marked@[k] || queue@.contains(k as usize),
        decreases cell.arefs@.len() - i,
    {
        let ghost qb = queue@;
        assert(cj.arefs[i as int] == cell.arefs@[i as int]@);
        let nm = &cell.arefs[i].cell_name;
        if lacks(known, lod, nm) {
            match layout.cell_index(nm) {
                Some(k) => {
                    if !marked[k] {
                        proof {
                            let p = choose|p: Seq<int>| #[trigger] is_chain(cv, rv, kv, lod, p) && p.last() == j as int;
                            assert(cj.arefs[i as int].cell_name == cv[k as int].name);
                            assert(cv[p.last()].references(cv[k as int].name));
                            lemma_chain_extend(cv, rv, kv, lod, p, k as int);
                            assert(p.push(k as int).last() == k as int);
                        }
                        queue.push(k);
                        proof {
                            assert forall|x: usize| qb.contains(x) implies queue@.contains(x) by {
                                let w = choose|w: int| 0 <= w < qb.len() && #[trigger] qb[w] == x;
                                assert(queue@[w] == x);
                            }
                            assert(queue@[queue@.len() - 1] == k);
                        }
                    }
                },
                None => {},
            }
        }
        proof {
            assert forall|k: int|
                0 <= k < cv.len() && (exists|w: int| 0 <= w < i + 1 && #[trigger] cj.arefs[w].cell_name == cv[k].name)
                    && needs_definition(kv, lod, cv[k].name) implies marked@[k] || queue@.contains(k as usize) by {
                let w = choose|w: int| 0 <= w < i + 1 && #[trigger] cj.arefs[w].cell_name == cv[k].name;
                if w < i {
                    if !marked@[k] {
                        assert(qb.contains(k as usize));
                        let x = choose|x: int| 0 <= x < qb.len() && #[trigger] qb[x] == k as usize;
                        assert(queue@[x] == k as usize);
                    }
                } else {
                    assert(has_cell(cv, cv[k].name));
                    if !marked@[k] {
                        let c = queue@.len() - 1;
                        crate::cell::lemma_cell_index_unique(cv, k, queue@[c] as int);
                    }
                }
            }
        }
        i = i + 1;
    }
}

/// `name` is the name of a cell to define.
pub open spec fn names_cell_to_define(
    cells: Seq<CellView>,
    required: Seq<Seq<char>>,
    known: Seq<KnownView>,
    lod: LodLevel,
    name: Seq<char>,
) -> bool {
    exists|j: int| 0 <= j < cells.len() && cells[j].name == name && #[trigger] to_define(cells, required, known, lod, j)
}

/// The cell at `j` is in view and lacked by the client.
pub open spec fn is_seed(
    cells: Seq<CellView>,
    required: Seq<Seq<char>>,
    known: Seq<KnownView>,
    lod: LodLevel,
    j: int,
) -> bool {
    required.contains(cells[j].name) && needs_definition(known, lod, cells[j].name)
}

/// The names of the cells whose definitions go with an answer at level
/// `lod`: those of the cells placed in view (`required`) that the client
/// lacks, and, from each such cell on, those of the cells it places that
/// the client lacks. Each name comes once.
pub fn cells_to_define(
    layout: &Layout,
    required: &Vec<String>,
    known: &Vec<KnownCell>,
    lod: LodLevel,
) -> (names: Vec<String>)
    requires
        layout.wf(),
    ensures
        forall|a: int, b: int| 0 <= a < b < names@.len() ==> names@[a]@ != names@[b]@,
        forall|m: int| 0 <= m < names@.len() ==> names_cell_to_define(
            layout@.cells,
            name_views(required@),
            known_views(known@),
            lod,
            #[trigger] names@[m]@,
        ),
        forall|j: int|
            0 <= j < layout@.cells.len() && #[trigger] to_define(
                layout@.cells,
                name_views(required@),
                known_views(known@),
                lod,
                j,
            ) ==> exists|m: int| 0 <= m < names@.len() && names@[m]@ == layout@.cells[j].name,
{
    let ghost cv = layout@.cells;
    let ghost rv = name_views(required@);
    let ghost kv = known_views(known@);
    let cells = layout.cells();
    let n = cells.len();
    let mut marked: Vec<bool> = Vec::new();
    while marked.len() < n
        invariant
            marked@.len() <= n,
            forall|j: int| 0 <= j < marked@.len() ==> !marked@[j],
        decreases n - marked@.len(),
    {
        marked.push(false);
    }
    let mut queue: Vec<usize> = Vec::new();
    let mut i: usize = 0;
    while i < required.len()
        invariant
            i <= required@.len(),
            n == cv.len(),
            cells@.map_values(|c: Cell| c@) == cv,
            layout@.cells == cv,
            layout.wf(),
            rv == name_views(required@),
            kv == known_views(known@),
            marked@.len() == n,
            forall|j: int| 0 <= j < n ==> !marked@[j],
            forall|q: int| 0 <= q < queue@.len() ==> #[trigger] queue@[q] < n && is_seed(cv, rv, kv, lod, queue@[q] as int),
            forall|j: int|
                #![trigger is_seed(cv, rv, kv, lod, j)]
                0 <= j < n && is_seed(cv, rv, kv, lod, j) && rv.take(i as int).contains(cv[j].name)
                    ==> queue@.contains(j as usize),
        decreases required@.len() - i,
    {
        let ghost old_queue = queue@;
        if lacks(known, lod, &required[i]) {
            match layout.cell_index(&required[i]) {
                Some(j) => {
                    queue.push(j);
                    proof {
                        assert(rv[i as int] == required@[i as int]@);
                        assert(rv.contains(cv[j as int].name));
                        assert(queue@[queue@.len() - 1] == j);
                    }
                },
                None => {},
            }
        }
        proof {
            assert(rv[i as int] == required@[i as int]@);
            assert forall|j: int|
                #![trigger is_seed(cv, rv, kv, lod, j)]
                0 <= j < n && is_seed(cv, rv, kv, lod, j) && rv.take(i + 1).contains(cv[j].name)
                    implies queue@.contains(j as usize) by {
                let w = choose|w: int| 0 <= w < rv.take(i + 1).len() && #[trigger] rv.take(i + 1)[w] == cv[j].name;
                if w < i {
                    assert(rv.take(i as int)[w] == cv[j].name);
                    assert(rv.take(i as int).contains(cv[j].name));
                    let x = choose|x: int| 0 <= x < old_queue.len() && #[trigger] old_queue[x] == j as usize;
                    assert(queue@[x] == j as usize);
                } else {
                    assert(rv[i as int] == cv[j].name);
                    assert(has_cell(cv, rv[i as int]));
                    let c = queue@.len() - 1;
                    assert(queue@[c] < n);
                    crate::cell::lemma_cell_index_unique(cv, j, queue@[c] as int);
                }
            }
        }
        i = i + 1;
    }
    assert(rv.take(i as int) =~= rv);
    proof {
        assert forall|q: int| 0 <= q < queue@.len() implies to_define(cv, rv, kv, lod, #[trigger] queue@[q] as int) by {
            let p = seq![queue@[q] as int];
            assert(is_chain(cv, rv, kv, lod, p));
        }
    }
    let mut names: Vec<String> = Vec::new();
    let ghost mut order: Seq<int> = Seq::empty();
    while queue.len() > 0
        invariant
            n == cv.len(),
            cells@.map_values(|c: Cell| c@) == cv,
            layout@.cells == cv,
            layout.wf(),
            rv == name_views(required@),
            kv == known_views(known@),
            marked@.len() == n,
            forall|q: int| 0 <= q < queue@.len() ==> #[trigger] queue@[q] < n,
            forall|q: int| 0 <= q < queue@.len() ==> to_define(cv, rv, kv, lod, #[trigger] queue@[q] as int),
            forall|j: int| 0 <= j < n && #[trigger] marked@[j] ==> to_define(cv, rv, kv, lod, j),
            forall|j: int|
                #![trigger is_seed(cv, rv, kv, lod, j)]
                0 <= j < n && is_seed(cv, rv, kv, lod, j) ==> marked@[j] || queue@.contains(j as usize),
            forall|j: int, k: int|
                0 <= j < n && 0 <= k < n && #[trigger] marked@[j] && cv[j].references(cv[k].name)
                    && needs_definition(kv, lod, #[trigger] cv[k].name) ==> marked@[k] || queue@.contains(
                    k as usize,
                ),
            names@.len() == order.len(),
            forall|m: int| 0 <= m < order.len() ==> 0 <= #[trigger] order[m] < n,
            forall|m: int| 0 <= m < order.len() ==> #[trigger] names@[m]@ == cv[order[m]].name,
            forall|a: int, b: int| 0 <= a < b < order.len() ==> order[a] != order[b],
            forall|j: int| 0 <= j < n ==> (#[trigger] marked@[j] <==> order.contains(j)),
        decreases unmarked(marked@), queue@.len(),
    {
        let ghost q_before = queue@;
        let j = queue.pop().unwrap();
        let ghost q_popped = queue@;
        assert(j == q_before.last());
        assert(q_before[q_before.len() - 1] == j);
        proof {
            assert forall|x: usize| q_before.contains(x) && x != j implies q_popped.contains(x) by {
                let w = choose|w: int| 0 <= w < q_before.len() && #[trigger] q_before[w] == x;
                assert(w < q_before.len() - 1);
                assert(q_popped[w] == x);
            }
        }
        if !marked[j] {
            proof {
                lemma_mark_one(marked@, j as int);
            }
            let ghost m_before = marked@;
            marked.set(j, true);
            names.push(cells[j].name.clone());
            proof {
                assert(cv[j as int] == cells@[j as int]@);
                let old_order = order;
                order = order.push(j as int);
                assert forall|x: int| 0 <= x < n implies (#[trigger] marked@[x] <==> order.contains(x)) by {
                    if x == j as int {
                        assert(order[order.len() - 1] == x);
                    } else {
                        if old_order.contains(x) {
                            let w = choose|w: int| 0 <= w < old_order.len() && #[trigger] old_order[w] == x;
                            assert(order[w] == x);
                        }
                        if order.contains(x) {
                            let w = choose|w: int| 0 <= w < order.len() && #[trigger] order[w] == x;
                            assert(w < old_order.len());
                            assert(old_order[w] == x);
                        }
                    }
                }
                assert forall|a: int, b: int| 0 <= a < b < order.len() implies order[a] != order[b] by {
                    if b == order.len() - 1 {
                        assert(old_order.contains(order[a]));
                    }
                }
            }
            let ghost q_mid = queue@;
            queue_children(layout, j, known, lod, &marked, &mut queue, Ghost(rv));
            proof {
                assert forall|q: int| 0 <= q < queue@.len() implies to_define(cv, rv, kv, lod, #[trigger] queue@[q] as int) by {
                    if q_mid.contains(queue@[q]) {
                        let w = choose|w: int| 0 <= w < q_mid.len() && #[trigger] q_mid[w] == queue@[q];
                        assert(q_before[w] == q_mid[w]);
                    }
                }
            }
        }
        assert(forall|x: usize| q_popped.contains(x) ==> queue@.contains(x));
    }
    proof {
        assert forall|j: int|
            0 <= j < cv.len() && #[trigger] to_define(cv, rv, kv, lod, j)
                implies exists|m: int| 0 <= m < names@.len() && names@[m]@ == cv[j].name by {
            let p = choose|p: Seq<int>| #[trigger] is_chain(cv, rv, kv, lod, p) && p.last() == j;
            assert forall|a: int| 0 <= a < cv.len() && is_seed(cv, rv, kv, lod, a) implies #[trigger] marked@[a] by {
                assert(!queue@.contains(a as usize));
            }
            lemma_closed_holds_chains(cv, rv, kv, lod, marked@, p);
            let m = choose|m: int| 0 <= m < order.len() && order[m] == j;
            assert(names@[m]@ == cv[j].name);
        }
        assert forall|a: int, b: int| 0 <= a < b < names@.len() implies names@[a]@ != names@[b]@ by {
            if names@[a]@ == names@[b]@ {
                crate::cell::lemma_cell_index_unique(cv, order[a], order[b]);
            }
        }
        assert forall|m: int| 0 <= m < names@.len() implies names_cell_to_define(
            cv,
            rv,
            kv,
            lod,
            #[trigger] names@[m]@,
        ) by {
            assert(order.contains(order[m]));
            assert(marked@[order[m]]);
            let j = order[m];
            assert(0 <= j < cv.len() && cv[j].name == names@[m]@ && to_define(cv, rv, kv, lod, j));
        }
    }
    names
}

} // verus!
