//! Properties of the library that span its functions.
use vstd::prelude::*;
use crate::api::toggled;
use crate::cell::{
    BoundingBox, CellView, LayerView, ShapeView, box_holds, box_union, boxes_overlap, default_layer,
    has_cell, has_layer, ids_increasing, is_referenced, layer_slot, names_distinct, palette,
    top_cell_of, with_cell, with_layer, with_layers_of, first_root,
};
use crate::query::{ResponseView, ShapeDtoView, drawn, layer_shown, response_bytes, shapes_bytes, shown_ids};
use crate::bytes::be16;
use crate::reader::record_at;
use crate::parser::{Outcome, ParseView, Step, finished_layout, initial_parse, parse_outcome, run, step};
use crate::cell::LayoutView;
use crate::cell::Point;
use crate::parser::StateView;
use crate::bytes::int16;
use crate::types::{RT_DATATYPE, RT_ENDEL, RT_LAYER};
use crate::query::{InstanceDtoView, OUTLINE_LAYER, instance_bytes, le16, le32, le64, name_bytes, point_bytes, words_bytes};
use crate::text::decimal;

verus! {

/// The union of two boxes holds both of them, whatever their order.
pub proof fn law_union_holds_both(a: BoundingBox, b: BoundingBox)
    ensures
        box_holds(box_union(a, b), a),
        box_holds(box_union(a, b), b),
        box_union(a, b) == box_union(b, a),
{
}

/// Overlap does not depend on the order of the boxes, and a box overlaps
/// itself where it bounds anything.
pub proof fn law_overlap_symmetric(a: BoundingBox, b: BoundingBox)
    ensures
        boxes_overlap(a, b) == boxes_overlap(b, a),
        a.x1 <= a.x2 && a.y1 <= a.y2 ==> boxes_overlap(a, a),
{
}

/// After a cell is inserted, looking its name up gives that cell; every
/// other name gives what it gave before; names stay distinct.
pub proof fn law_lookup_after_insert(cells: Seq<CellView>, c: CellView, n: Seq<char>)
    requires
        names_distinct(cells),
    ensures
        names_distinct(with_cell(cells, c)),
        has_cell(with_cell(cells, c), c.name),
        forall|i: int| 0 <= i < with_cell(cells, c).len() && #[trigger] with_cell(cells, c)[i].name == c.name
            ==> with_cell(cells, c)[i] == c,
        n != c.name ==> (has_cell(with_cell(cells, c), n) <==> has_cell(cells, n)),
        n != c.name ==> forall|i: int| 0 <= i < with_cell(cells, c).len() && #[trigger] with_cell(cells, c)[i].name
            == n ==> exists|j: int| 0 <= j < cells.len() && cells[j] == with_cell(cells, c)[i],
{
    let r = with_cell(cells, c);
    if has_cell(cells, c.name) {
        let k = choose|i: int| 0 <= i < cells.len() && #[trigger] cells[i].name == c.name;
        assert(r == cells.update(k, c));
        assert(r[k] == c);
        assert forall|i: int, j: int| 0 <= i < j < r.len() implies #[trigger] r[i].name != #[trigger] r[j].name by {
            if i != k && j != k {
                assert(r[i] == cells[i] && r[j] == cells[j]);
            } else if i == k {
                assert(r[j] == cells[j]);
                assert(cells[k].name != cells[j].name);
            } else {
                assert(r[i] == cells[i]);
                assert(cells[i].name != cells[k].name);
            }
        }
        assert forall|i: int| 0 <= i < r.len() && #[trigger] r[i].name == c.name implies r[i] == c by {
            if i != k {
                assert(r[i] == cells[i]);
                crate::cell::lemma_cell_index_unique(cells, i, k);
            }
        }
        if n != c.name {
            if has_cell(cells, n) {
                let w = choose|i: int| 0 <= i < cells.len() && #[trigger] cells[i].name == n;
                assert(w != k);
                assert(r[w] == cells[w]);
            }
            if has_cell(r, n) {
                let w = choose|i: int| 0 <= i < r.len() && #[trigger] r[i].name == n;
                assert(w != k);
                assert(r[w] == cells[w]);
            }
            assert forall|i: int| 0 <= i < r.len() && #[trigger] r[i].name == n implies exists|j: int|
                0 <= j < cells.len() && cells[j] == r[i] by {
                assert(i != k);
                assert(cells[i] == r[i]);
            }
        }
    } else {
        assert(r == cells.push(c));
        let k = cells.len() as int;
        assert(r[k] == c);
        assert forall|i: int, j: int| 0 <= i < j < r.len() implies #[trigger] r[i].name != #[trigger] r[j].name by {
            if j == k {
                assert(r[i] == cells[i]);
            } else {
                assert(r[i] == cells[i] && r[j] == cells[j]);
            }
        }
        assert forall|i: int| 0 <= i < r.len() && #[trigger] r[i].name == c.name implies r[i] == c by {
            if i != k {
                assert(r[i] == cells[i]);
            }
        }
        if n != c.name {
            if has_cell(cells, n) {
                let w = choose|i: int| 0 <= i < cells.len() && #[trigger] cells[i].name == n;
                assert(r[w] == cells[w]);
            }
            if has_cell(r, n) {
                let w = choose|i: int| 0 <= i < r.len() && #[trigger] r[i].name == n;
                assert(r[w] == cells[w]);
            }
            assert forall|i: int| 0 <= i < r.len() && #[trigger] r[i].name == n implies exists|j: int|
                0 <= j < cells.len() && cells[j] == r[i] by {
                assert(cells[i] == r[i]);
            }
        }
    }
}

proof fn lemma_slot_exists(layers: Seq<LayerView>, id: u16)
    requires
        ids_increasing(layers),
        !has_layer(layers, id),
    ensures
        exists|k: int| layer_slot(layers, k, id),
    decreases layers.len(),
{
    if layers.len() == 0 {
        assert(layer_slot(layers, 0, id));
    } else {
        let rest = layers.drop_last();
        assert forall|i: int| 0 <= i < rest.len() implies #[trigger] rest[i].id != id by {
            assert(rest[i] == layers[i]);
        }
        assert forall|i: int, j: int| 0 <= i < j < rest.len() implies #[trigger] rest[i].id < #[trigger] rest[j].id by {
            assert(rest[i] == layers[i] && rest[j] == layers[j]);
        }
        let n = layers.len() - 1;
        if layers[n].id < id {
            assert forall|i: int| 0 <= i < layers.len() implies #[trigger] layers[i].id < id by {
                if i < n {
                    assert(layers[i].id < layers[n].id);
                }
            }
            assert(layer_slot(layers, layers.len() as int, id));
        } else {
            assert(layers[n].id != id);
            lemma_slot_exists(rest, id);
            let k = choose|k: int| layer_slot(rest, k, id);
            assert forall|i: int| 0 <= i < k implies #[trigger] layers[i].id < id by {
                assert(rest[i] == layers[i]);
            }
            assert forall|i: int| k <= i < layers.len() implies #[trigger] layers[i].id > id by {
                if i < n {
                    assert(rest[i] == layers[i]);
                }
            }
            assert(layer_slot(layers, k, id));
        }
    }
}

proof fn lemma_first_root_exists(cells: Seq<CellView>, k: int)
    requires
        0 <= k < cells.len(),
        !is_referenced(cells, cells[k].name),
    ensures
        exists|j: int| first_root(cells, j),
    decreases k,
{
    if forall|m: int| 0 <= m < k ==> is_referenced(cells, #[trigger] cells[m].name) {
        assert(first_root(cells, k));
    } else {
        let m = choose|m: int| 0 <= m < k && !is_referenced(cells, #[trigger] cells[m].name);
        lemma_first_root_exists(cells, m);
    }
}

/// Registering a layer keeps the ids increasing, keeps every layer that
/// was there as it was, adds a default layer `id` where there was none, and
/// adds nothing else.
pub proof fn law_register_layer(layers: Seq<LayerView>, id: u16)
    requires
        ids_increasing(layers),
    ensures
        ids_increasing(with_layer(layers, id)),
        has_layer(with_layer(layers, id), id),
        forall|i: int| 0 <= i < layers.len() ==> with_layer(layers, id).contains(#[trigger] layers[i]),
        forall|i: int| 0 <= i < with_layer(layers, id).len() ==> layers.contains(#[trigger] with_layer(layers, id)[i])
            || with_layer(layers, id)[i] == default_layer(id),
        with_layer(with_layer(layers, id), id) == with_layer(layers, id),
{
    if !has_layer(layers, id) {
        lemma_slot_exists(layers, id);
        let k = choose|j: int| layer_slot(layers, j, id);
        assert(layer_slot(layers, k, id));
        let c = choose|j: int| layer_slot(layers, j, id);
        if c != k {
            if c < k {
                assert(layers[c].id > id);
            } else {
                assert(layers[k].id > id);
            }
        }
        let nl = layers.insert(k, default_layer(id));
        assert(with_layer(layers, id) == nl);
        assert(nl[k].id == id);
        assert forall|i: int, j: int| 0 <= i < j < nl.len() implies #[trigger] nl[i].id < #[trigger] nl[j].id by {
            if i < k && j > k {
                assert(nl[j] == layers[j - 1]);
            } else if i == k && j > k {
                assert(nl[j] == layers[j - 1]);
            } else if i > k {
                assert(nl[j] == layers[j - 1]);
                assert(nl[i] == layers[i - 1]);
            }
        }
        assert forall|i: int| 0 <= i < layers.len() implies nl.contains(#[trigger] layers[i]) by {
            if i < k {
                assert(nl[i] == layers[i]);
            } else {
                assert(nl[i + 1] == layers[i]);
            }
        }
        assert forall|i: int| 0 <= i < nl.len() implies layers.contains(#[trigger] nl[i]) || nl[i] == default_layer(id) by {
            if i < k {
                assert(layers[i] == nl[i]);
            } else if i > k {
                assert(layers[i - 1] == nl[i]);
            }
        }
        assert(has_layer(nl, id));
    } else {
        assert forall|i: int| 0 <= i < layers.len() implies layers.contains(#[trigger] layers[i]) by {}
    }
}

/// After a cell is inserted, the layer of each of its shapes is
/// registered, and the layers that were there stay as they were.
pub proof fn law_shape_layers_registered(layers: Seq<LayerView>, shapes: Seq<ShapeView>)
    requires
        ids_increasing(layers),
    ensures
        ids_increasing(with_layers_of(layers, shapes)),
        forall|i: int| 0 <= i < shapes.len() ==> has_layer(with_layers_of(layers, shapes), #[trigger] shapes[i].layer()),
        forall|i: int| 0 <= i < layers.len() ==> with_layers_of(layers, shapes).contains(#[trigger] layers[i]),
    decreases shapes.len(),
{
    if shapes.len() > 0 {
        let rest = shapes.drop_last();
        law_shape_layers_registered(layers, rest);
        let mid = with_layers_of(layers, rest);
        let id = shapes.last().layer();
        law_register_layer(mid, id);
        let r = with_layer(mid, id);
        assert forall|i: int| 0 <= i < shapes.len() implies has_layer(r, #[trigger] shapes[i].layer()) by {
            if i < shapes.len() - 1 {
                assert(rest[i] == shapes[i]);
                assert(has_layer(mid, rest[i].layer()));
                let w = choose|w: int| 0 <= w < mid.len() && #[trigger] mid[w].id == rest[i].layer();
                assert(r.contains(mid[w]));
                let v = choose|v: int| 0 <= v < r.len() && r[v] == mid[w];
                assert(r[v].id == shapes[i].layer());
            }
        }
        assert forall|i: int| 0 <= i < layers.len() implies r.contains(#[trigger] layers[i]) by {
            assert(mid.contains(layers[i]));
            let w = choose|w: int| 0 <= w < mid.len() && mid[w] == layers[i];
            assert(r.contains(mid[w]));
        }
    }
}

/// Toggling a layer twice leaves the layers as they were.
pub proof fn law_toggle_twice(layers: Seq<LayerView>, id: u16)
    ensures
        toggled(toggled(layers, id), id) == layers,
{
    assert(toggled(toggled(layers, id), id) =~= layers);
}

/// A new layer is named `Layer <id>` and gets a `#rrggbb` colour, one of
/// twelve, the same for ids twelve apart and different for neighbouring
/// ids.
pub proof fn law_default_layer(id: u16)
    ensures
        default_layer(id).name == "Layer "@ + crate::text::decimal(id as nat),
        default_layer(id).color.len() == 7,
        default_layer(id).color[0] == '#',
        default_layer(id).visible,
        id < 0xffff ==> default_layer(id).color != default_layer((id + 1) as u16).color,
        id >= 12 ==> default_layer(id).color == default_layer((id - 12) as u16).color,
{
    reveal_strlit("#3a86ff");
    reveal_strlit("#ff006e");
    reveal_strlit("#8338ec");
    reveal_strlit("#fb5607");
    reveal_strlit("#ffbe0b");
    reveal_strlit("#06d6a0");
    reveal_strlit("#118ab2");
    reveal_strlit("#ef233c");
    reveal_strlit("#b5179e");
    reveal_strlit("#4cc9f0");
    reveal_strlit("#4361ee");
    reveal_strlit("#f72585");
    let k = (id % 12) as int;
    assert(palette(k).len() == 7 && palette(k)[0] == '#');
    if id < 0xffff {
        let k2 = ((id + 1) as u16 % 12) as int;
        assert(k2 == (k + 1) % 12);
        assert(palette(k) != palette(k2)) by {
            if k == 0 { assert(palette(k)[1] != palette(k2)[1]); }
            else if k == 1 { assert(palette(k)[1] != palette(k2)[1]); }
            else if k == 2 { assert(palette(k)[1] != palette(k2)[1]); }
            else if k == 3 { assert(palette(k)[2] != palette(k2)[2]); }
            else if k == 4 { assert(palette(k)[1] != palette(k2)[1]); }
            else if k == 5 { assert(palette(k)[1] != palette(k2)[1]); }
            else if k == 6 { assert(palette(k)[1] != palette(k2)[1]); }
            else if k == 7 { assert(palette(k)[1] != palette(k2)[1]); }
            else if k == 8 { assert(palette(k)[1] != palette(k2)[1]); }
            else if k == 9 { assert(palette(k)[2] != palette(k2)[2]); }
            else if k == 10 { assert(palette(k)[1] != palette(k2)[1]); }
            else { assert(palette(k)[1] != palette(k2)[1]); }
        }
    }
}

/// The ids of the shown shapes increase, name shapes of the list, and name
/// exactly the shapes whose layer is shown; with no layer selected, every
/// shape is shown.
pub proof fn law_shown_ids(layers: Seq<u16>, visible: Seq<u16>)
    requires
        layers.len() <= usize::MAX,
    ensures
        forall|a: int, b: int| 0 <= a < b < shown_ids(layers, visible).len() ==> #[trigger] shown_ids(layers, visible)[a]
            < #[trigger] shown_ids(layers, visible)[b],
        forall|a: int| 0 <= a < shown_ids(layers, visible).len() ==> #[trigger] shown_ids(layers, visible)[a]
            < layers.len(),
        forall|i: int| 0 <= i < layers.len() ==> (layer_shown(visible, #[trigger] layers[i]) <==> shown_ids(
            layers,
            visible,
        ).contains(i as u64)),
        visible.len() == 0 ==> shown_ids(layers, visible).len() == layers.len(),
    decreases layers.len(),
{
    if layers.len() > 0 {
        let rest = layers.drop_last();
        law_shown_ids(rest, visible);
        let r = shown_ids(rest, visible);
        let s = shown_ids(layers, visible);
        let n = layers.len() - 1;
        assert forall|a: int, b: int| 0 <= a < b < s.len() implies #[trigger] s[a] < #[trigger] s[b] by {
            if b < r.len() {
                assert(s[a] == r[a] && s[b] == r[b]);
            } else {
                assert(s[a] == r[a]);
                assert(s[b] == n as u64);
            }
        }
        assert forall|a: int| 0 <= a < s.len() implies #[trigger] s[a] < layers.len() by {
            if a < r.len() {
                assert(s[a] == r[a]);
            }
        }
        assert forall|i: int| 0 <= i < layers.len() implies (layer_shown(visible, #[trigger] layers[i]) <==> s.contains(
            i as u64,
        )) by {
            if i < n {
                assert(rest[i] == layers[i]);
                if r.contains(i as u64) {
                    let w = choose|w: int| 0 <= w < r.len() && r[w] == i as u64;
                    assert(s[w] == i as u64);
                }
                if s.contains(i as u64) {
                    let w = choose|w: int| 0 <= w < s.len() && s[w] == i as u64;
                    if w < r.len() {
                        assert(r[w] == i as u64);
                    }
                }
            } else {
                if layer_shown(visible, layers[i]) {
                    assert(s[r.len() as int] == i as u64);
                } else {
                    if s.contains(i as u64) {
                        let w = choose|w: int| 0 <= w < s.len() && s[w] == i as u64;
                        assert(r[w] < rest.len());
                    }
                }
            }
        }
    }
}

/// The top cell, where there is one, is a cell that no cell places; where
/// there is none, every cell is placed by some cell.
pub proof fn law_top_cell(cells: Seq<CellView>)
    ensures
        match top_cell_of(cells) {
            Some(n) => has_cell(cells, n) && !is_referenced(cells, n),
            None => forall|k: int| 0 <= k < cells.len() ==> is_referenced(cells, #[trigger] cells[k].name),
        },
{
    match top_cell_of(cells) {
        Some(n) => {
            let k = choose|k: int| first_root(cells, k);
            assert(cells[k].name == n);
        },
        None => {
            assert forall|k: int| 0 <= k < cells.len() implies is_referenced(cells, #[trigger] cells[k].name) by {
                if !is_referenced(cells, cells[k].name) {
                    lemma_first_root_exists(cells, k);
                }
            }
        },
    }
}

/// The bytes of one record: its length (header included, big-endian), its
/// record type and data type, then its payload.
pub open spec fn framed(rt: u8, dt: u8, payload: Seq<u8>) -> Seq<u8> {
    let n = payload.len() + 4;
    seq![(n / 256) as u8, (n % 256) as u8, rt, dt] + payload
}

/// Reading where a record was written gives back its type and payload and
/// moves past it, whatever comes before or after it in the stream.
pub proof fn law_read_framed_record(before: Seq<u8>, rt: u8, dt: u8, payload: Seq<u8>, after: Seq<u8>)
    requires
        payload.len() + 4 <= 0xFFFF,
    ensures
        record_at(before + framed(rt, dt, payload) + after, before.len() as int) == Ok::<
            (u8, Seq<u8>, int),
            crate::types::GdsError,
        >((rt, payload, (before.len() + payload.len() + 4) as int)),
{
    let n: int = (payload.len() + 4) as int;
    let data = before + framed(rt, dt, payload) + after;
    let p = before.len() as int;
    assert(data[p] == (n / 256) as u8);
    assert(data[p + 1] == (n % 256) as u8);
    assert(data[p + 2] == rt);
    assert(be16(data[p], data[p + 1]) == n) by {
        assert(0 <= n / 256 < 256);
        assert(n == (n / 256) * 256 + n % 256);
    }
    assert(data.subrange(p + 4, p + n) =~= payload);
}

/// Every layer is the default layer of its id.
pub open spec fn layers_default(layers: Seq<LayerView>) -> bool {
    forall|i: int| 0 <= i < layers.len() ==> #[trigger] layers[i] == default_layer(layers[i].id)
}

/// The layer of every shape of every cell is registered.
pub open spec fn shape_layers_present(l: LayoutView) -> bool {
    forall|k: int, j: int|
        0 <= k < l.cells.len() && 0 <= j < l.cells[k].shapes.len() ==> has_layer(
            l.layers,
            #[trigger] l.cells[k].shapes[j].layer(),
        )
}

/// What holds of the layout at every point of a parse.
pub open spec fn parse_invariant(p: ParseView) -> bool {
    &&& p.layout.wf()
    &&& layers_default(p.layout.layers)
    &&& shape_layers_present(p.layout)
}

proof fn lemma_layers_of_default(layers: Seq<LayerView>, shapes: Seq<ShapeView>)
    requires
        ids_increasing(layers),
        layers_default(layers),
    ensures
        layers_default(with_layers_of(layers, shapes)),
    decreases shapes.len(),
{
    if shapes.len() > 0 {
        let rest = shapes.drop_last();
        lemma_layers_of_default(layers, rest);
        law_shape_layers_registered(layers, rest);
        let mid = with_layers_of(layers, rest);
        let id = shapes.last().layer();
        law_register_layer(mid, id);
        let r = with_layer(mid, id);
        assert forall|i: int| 0 <= i < r.len() implies #[trigger] r[i] == default_layer(r[i].id) by {
            if r[i] != default_layer(id) {
                assert(mid.contains(r[i]));
                let w = choose|w: int| 0 <= w < mid.len() && mid[w] == r[i];
                assert(mid[w] == default_layer(mid[w].id));
            }
        }
    }
}

proof fn lemma_has_layer_kept(old_layers: Seq<LayerView>, new_layers: Seq<LayerView>, id: u16)
    requires
        has_layer(old_layers, id),
        forall|i: int| 0 <= i < old_layers.len() ==> new_layers.contains(#[trigger] old_layers[i]),
    ensures
        has_layer(new_layers, id),
{
    let w = choose|w: int| 0 <= w < old_layers.len() && #[trigger] old_layers[w].id == id;
    assert(new_layers.contains(old_layers[w]));
    let v = choose|v: int| 0 <= v < new_layers.len() && new_layers[v] == old_layers[w];
    assert(new_layers[v].id == id);
}

proof fn lemma_close_cell_keeps(p: ParseView, c: CellView)
    requires
        parse_invariant(p),
    ensures
        parse_invariant(
            ParseView {
                layout: LayoutView {
                    layers: with_layers_of(p.layout.layers, c.shapes),
                    cells: with_cell(p.layout.cells, c),
                    ..p.layout
                },
                cell: None,
                state: crate::parser::StateView::InLibrary,
            },
        ),
{
    let layers = p.layout.layers;
    let cells = p.layout.cells;
    let nl = with_layers_of(layers, c.shapes);
    let nc = with_cell(cells, c);
    law_shape_layers_registered(layers, c.shapes);
    lemma_layers_of_default(layers, c.shapes);
    assert forall|k: int, j: int| 0 <= k < nc.len() && 0 <= j < nc[k].shapes.len() implies has_layer(
        nl,
        #[trigger] nc[k].shapes[j].layer(),
    ) by {
        let n = nc[k].name;
        law_lookup_after_insert(cells, c, n);
        if n == c.name {
            assert(nc[k] == c);
            assert(has_layer(nl, c.shapes[j].layer()));
        } else {
            let m = choose|m: int| 0 <= m < cells.len() && cells[m] == nc[k];
            assert(has_layer(layers, cells[m].shapes[j].layer()));
            lemma_has_layer_kept(layers, nl, nc[k].shapes[j].layer());
        }
    }
    law_lookup_after_insert(cells, c, c.name);
}

proof fn lemma_step_keeps(p: ParseView, rt: u8, d: Seq<u8>)
    requires
        parse_invariant(p),
    ensures
        step(p, rt, d) matches Step::Continue(q) ==> parse_invariant(q),
        step(p, rt, d) matches Step::Finish(q) ==> parse_invariant(q),
{
    if rt == crate::types::RT_ENDSTR {
        if let Some(c) = p.cell {
            lemma_close_cell_keeps(p, c);
        }
    }
}

proof fn lemma_run_keeps(data: Seq<u8>, pos: int, p: ParseView)
    requires
        parse_invariant(p),
    ensures
        run(data, pos, p) matches Outcome::Parsed(q) ==> parse_invariant(q),
    decreases data.len() - pos,
{
    if let Ok((rt, d, next)) = record_at(data, pos) {
        crate::parser::lemma_record_at_advances(data, pos);
        lemma_step_keeps(p, rt, d);
        if let Step::Continue(q) = step(p, rt, d) {
            lemma_run_keeps(data, next, q);
        }
    }
}

/// A layout that parsing a stream yields has cells of distinct names and
/// layers by increasing id; each layer is the default layer of its id, and
/// the layer of every shape of every cell is there; the top cell, where
/// there is one, is a cell that no cell places, and where there is none,
/// every cell is placed.
pub proof fn law_parsed_layout(data: Seq<u8>, pos: int)
    ensures
        parse_outcome(data, pos) matches Outcome::Parsed(p) ==> {
            let l = finished_layout(p);
            &&& names_distinct(l.cells)
            &&& ids_increasing(l.layers)
            &&& layers_default(l.layers)
            &&& shape_layers_present(l)
            &&& match l.top_cell {
                Some(t) => has_cell(l.cells, t) && !is_referenced(l.cells, t),
                None => forall|k: int| 0 <= k < l.cells.len() ==> is_referenced(l.cells, #[trigger] l.cells[k].name),
            }
        },
{
    lemma_run_keeps(data, pos, initial_parse());
    if let Outcome::Parsed(p) = parse_outcome(data, pos) {
        law_top_cell(p.layout.cells);
    }
}

proof fn lemma_drawn_drawn(shapes: Seq<ShapeDtoView>)
    ensures
        drawn(drawn(shapes)) == drawn(shapes),
        forall|i: int| 0 <= i < drawn(shapes).len() ==> !(#[trigger] drawn(shapes)[i] is Text),
    decreases shapes.len(),
{
    if shapes.len() > 0 {
        let rest = shapes.drop_last();
        lemma_drawn_drawn(rest);
        if !(shapes.last() is Text) {
            let d = drawn(rest).push(shapes.last());
            assert(d.drop_last() =~= drawn(rest));
            assert(drawn(d) == drawn(drawn(rest)).push(shapes.last()));
            assert forall|i: int| 0 <= i < d.len() implies !(#[trigger] d[i] is Text) by {
                if i < drawn(rest).len() {
                    assert(d[i] == drawn(rest)[i]);
                }
            }
        }
    }
}

/// The encoding leaves texts out: shapes encode as the shapes among them
/// that are not texts do, a text added to them changes nothing, and so an
/// answer encodes as the same answer without its top-level texts.
pub proof fn law_encoding_ignores_texts(shapes: Seq<ShapeDtoView>, t: ShapeDtoView, r: ResponseView)
    requires
        t is Text,
    ensures
        forall|i: int| 0 <= i < drawn(shapes).len() ==> !(#[trigger] drawn(shapes)[i] is Text),
        shapes_bytes(drawn(shapes)) == shapes_bytes(shapes),
        shapes_bytes(shapes.push(t)) == shapes_bytes(shapes),
        response_bytes(ResponseView { shapes: drawn(r.shapes), ..r }) == response_bytes(r),
{
    lemma_drawn_drawn(shapes);
    lemma_drawn_drawn(r.shapes);
    assert(shapes.push(t).drop_last() =~= shapes);
    assert(drawn(shapes.push(t)) == drawn(shapes));
}

/// A DATATYPE record inside a boundary or a path sets the datatype of the
/// element to the record's 16-bit value and leaves the rest of the element
/// and of the parser as it was.
pub proof fn law_datatype_record_sets_datatype(p: ParseView, d: Seq<u8>, layer: u16, datatype: u16, points: Seq<Point>, width: i32, path_type: u8)
    requires
        d.len() >= 2,
    ensures
        p.state == StateView::InShape(ShapeView::Polygon { layer, datatype, points }) ==> step(p, RT_DATATYPE, d)
            == Step::Continue(
            ParseView {
                state: StateView::InShape(
                    ShapeView::Polygon { layer, datatype: int16(d[0], d[1]) as u16, points },
                ),
                ..p
            },
        ),
        p.state == StateView::InShape(ShapeView::Path { layer, datatype, points, width, path_type }) ==> step(
            p,
            RT_DATATYPE,
            d,
        ) == Step::Continue(
            ParseView {
                state: StateView::InShape(
                    ShapeView::Path { layer, datatype: int16(d[0], d[1]) as u16, points, width, path_type },
                ),
                ..p
            },
        ),
{
}

/// A LAYER record inside a boundary or a path sets the layer of the element
/// to the record's 16-bit value and leaves the rest as it was.
pub proof fn law_layer_record_sets_layer(p: ParseView, d: Seq<u8>, layer: u16, datatype: u16, points: Seq<Point>, width: i32, path_type: u8)
    requires
        d.len() >= 2,
    ensures
        p.state == StateView::InShape(ShapeView::Polygon { layer, datatype, points }) ==> step(p, RT_LAYER, d)
            == Step::Continue(
            ParseView {
                state: StateView::InShape(ShapeView::Polygon { layer: int16(d[0], d[1]) as u16, datatype, points }),
                ..p
            },
        ),
        p.state == StateView::InShape(ShapeView::Path { layer, datatype, points, width, path_type }) ==> step(
            p,
            RT_LAYER,
            d,
        ) == Step::Continue(
            ParseView {
                state: StateView::InShape(
                    ShapeView::Path { layer: int16(d[0], d[1]) as u16, datatype, points, width, path_type },
                ),
                ..p
            },
        ),
{
}

/// ENDEL adds the shape being read, as it stands, at the end of the cell's
/// shapes, and goes back to reading the cell.
pub proof fn law_endel_adds_the_shape(p: ParseView, c: CellView, sh: ShapeView, d: Seq<u8>)
    requires
        p.cell == Some(c),
        p.state == StateView::InShape(sh),
    ensures
        step(p, RT_ENDEL, d) matches Step::Continue(q) && q.cell == Some(
            CellView { shapes: c.shapes.push(sh), ..c },
        ) && q.state == StateView::InCell && q.layout == p.layout,
{
}

proof fn lemma_le_lengths(v: u64, w: u16)
    ensures
        le64(v).len() == 8,
        le16(w).len() == 2,
{
}

proof fn lemma_words_len(ws: Seq<u64>)
    ensures
        words_bytes(ws).len() == 8 * ws.len(),
    decreases ws.len(),
{
    if ws.len() > 0 {
        lemma_words_len(ws.drop_last());
        lemma_le_lengths(ws.last(), 0);
    }
}

/// In the encoding of a placement, its name and transform are followed by
/// its column and row counts, then the column spacing (x, y) and last the
/// row spacing (x, y), each as the little-endian bytes of its bit pattern.
pub proof fn law_instance_layout(i: InstanceDtoView)
    ensures
        ({
            let b = instance_bytes(i);
            let base: int = (name_bytes(i.cell_name).len() + 8 * i.transform.len()) as int;
            &&& b.len() == base + 36
            &&& b.subrange(base, base + 2) == le16(i.cols)
            &&& b.subrange(base + 2, base + 4) == le16(i.rows)
            &&& b.subrange(base + 4, base + 12) == le64(i.col_vector.x)
            &&& b.subrange(base + 12, base + 20) == le64(i.col_vector.y)
            &&& b.subrange(base + 20, base + 28) == le64(i.row_vector.x)
            &&& b.subrange(base + 28, base + 36) == le64(i.row_vector.y)
        }),
{
    let b = instance_bytes(i);
    let n = name_bytes(i.cell_name);
    let w = words_bytes(i.transform);
    lemma_words_len(i.transform);
    lemma_le_lengths(i.col_vector.x, i.cols);
    lemma_le_lengths(i.col_vector.y, i.rows);
    lemma_le_lengths(i.row_vector.x, 0);
    lemma_le_lengths(i.row_vector.y, 0);
    let base: int = (n.len() + w.len()) as int;
    let tail = le16(i.cols) + le16(i.rows) + le64(i.col_vector.x) + le64(i.col_vector.y) + le64(i.row_vector.x)
        + le64(i.row_vector.y);
    assert(point_bytes(i.col_vector) == le64(i.col_vector.x) + le64(i.col_vector.y));
    assert(b =~= n + w + tail);
    assert(b.subrange(base, base + 2) =~= le16(i.cols));
    assert(b.subrange(base + 2, base + 4) =~= le16(i.rows));
    assert(b.subrange(base + 4, base + 12) =~= le64(i.col_vector.x));
    assert(b.subrange(base + 12, base + 20) =~= le64(i.col_vector.y));
    assert(b.subrange(base + 20, base + 28) =~= le64(i.row_vector.x));
    assert(b.subrange(base + 28, base + 36) =~= le64(i.row_vector.y));
}

/// With layers selected, a layer other than the outline layer is shown
/// exactly when it is one of them; with none selected every layer is
/// shown, and the outline layer always is.
pub proof fn law_layer_selection(visible: Seq<u16>, layer: u16)
    ensures
        visible.len() > 0 && layer != 999 ==> (layer_shown(visible, layer) <==> exists|i: int|
            0 <= i < visible.len() && visible[i] == layer),
        visible.len() == 0 ==> layer_shown(visible, layer),
        layer_shown(visible, 999),
{
    assert(OUTLINE_LAYER == 999);
}

/// Toggling layer `id` keeps the number and the order of the layers, flips
/// the visibility of the layers with that id and leaves every other layer
/// exactly as it was.
pub proof fn law_toggle_touches_only_its_layer(layers: Seq<LayerView>, id: u16)
    ensures
        toggled(layers, id).len() == layers.len(),
        forall|i: int| 0 <= i < layers.len() && layers[i].id != id ==> #[trigger] toggled(layers, id)[i] == layers[i],
        forall|i: int|
            0 <= i < layers.len() && layers[i].id == id ==> {
                let t = #[trigger] toggled(layers, id)[i];
                &&& t.id == id
                &&& t.name == layers[i].name
                &&& t.color == layers[i].color
                &&& t.visible == !layers[i].visible
            },
{
}

/// The number that a string of decimal digits stands for.
pub open spec fn digits_value(s: Seq<char>) -> int
    decreases s.len(),
{
    if s.len() == 0 {
        0
    } else {
        10 * digits_value(s.drop_last()) + (s.last() as int - '0' as int)
    }
}

proof fn lemma_digit_value(d: int)
    requires
        0 <= d < 10,
    ensures
        crate::text::digit_char(d) as int - '0' as int == d,
        '0' <= crate::text::digit_char(d) <= '9',
{
    assert('0' as int == 48);
    assert('9' as int == 57);
    if d == 0 { assert('0' as int == 48); }
    else if d == 1 { assert('1' as int == 49); }
    else if d == 2 { assert('2' as int == 50); }
    else if d == 3 { assert('3' as int == 51); }
    else if d == 4 { assert('4' as int == 52); }
    else if d == 5 { assert('5' as int == 53); }
    else if d == 6 { assert('6' as int == 54); }
    else if d == 7 { assert('7' as int == 55); }
    else if d == 8 { assert('8' as int == 56); }
    else { assert('9' as int == 57); }
}

/// The decimal text of `n` is made of digits, has no leading zero (but for
/// `0` itself) and reads back as `n`.
pub proof fn law_decimal_reads_back(n: nat)
    ensures
        decimal(n).len() >= 1,
        forall|k: int| 0 <= k < decimal(n).len() ==> '0' <= #[trigger] decimal(n)[k] <= '9',
        digits_value(decimal(n)) == n,
        n > 0 ==> decimal(n)[0] != '0',
    decreases n,
{
    if n < 10 {
        lemma_digit_value(n as int);
        assert(decimal(n) == seq![crate::text::digit_char(n as int)]);
        assert(decimal(n).drop_last() =~= Seq::<char>::empty());
        assert(digits_value(Seq::<char>::empty()) == 0);
        assert(digits_value(decimal(n)) == 10 * digits_value(decimal(n).drop_last()) + (decimal(n).last() as int
            - '0' as int));
    } else {
        law_decimal_reads_back(n / 10);
        lemma_digit_value((n % 10) as int);
        let s = decimal(n);
        let r = decimal(n / 10);
        assert(s == r.push(crate::text::digit_char((n % 10) as int)));
        assert(s.drop_last() =~= r);
        assert(s[0] == r[0]);
        assert forall|k: int| 0 <= k < s.len() implies '0' <= #[trigger] s[k] <= '9' by {
            if k < r.len() {
                assert(s[k] == r[k]);
            }
        }
        assert(s.last() == crate::text::digit_char((n % 10) as int));
        assert(digits_value(s) == 10 * digits_value(s.drop_last()) + (s.last() as int - '0' as int));
        assert(digits_value(s) == 10 * ((n / 10) as int) + (n % 10) as int);
        assert(10 * (n / 10) + n % 10 == n);
    }
}

} // verus!
