use gds_layout::cell::{Cell, Layout, Point, SrefInstance, REAL8_ONE, REAL8_ZERO};

fn sref(name: &str) -> SrefInstance {
    SrefInstance {
        cell_name: name.to_string(),
        position: Point { x: 0, y: 0 },
        rotation_deg: REAL8_ZERO,
        magnification: REAL8_ONE,
        mirror_x: false,
    }
}

fn names(v: &[&str]) -> Vec<String> {
    v.iter().map(|s| s.to_string()).collect()
}

fn three_levels() -> Layout {
    let mut layout = Layout::new("H");
    layout.insert_cell(Cell::new("UNIT"));
    let mut block = Cell::new("BLOCK");
    block.srefs.push(sref("UNIT"));
    layout.insert_cell(block);
    let mut top = Cell::new("TOP");
    top.srefs.push(sref("BLOCK"));
    top.srefs.push(sref("UNIT"));
    layout.insert_cell(top);
    layout.insert_cell(Cell::new("STRAY"));
    layout
}

#[test]
fn order_under_top_puts_placed_cells_first() {
    let mut layout = three_levels();
    let mut a = Cell::new("AUX");
    a.srefs.push(sref("STRAY"));
    layout.insert_cell(a);
    let mut holder = Cell::new("HOLDER");
    holder.srefs.push(sref("AUX"));
    holder.srefs.push(sref("TOP"));
    layout.insert_cell(holder);
    layout.find_top_cell();
    assert_eq!(layout.top_cell().as_deref(), Some("HOLDER"));
    assert_eq!(layout.dependency_order(), names(&["STRAY", "AUX", "UNIT", "BLOCK", "TOP", "HOLDER"]));
}

#[test]
fn order_without_top_starts_from_every_cell() {
    let layout = three_levels();
    assert_eq!(layout.dependency_order(), names(&["UNIT", "BLOCK", "TOP", "STRAY"]));
}

#[test]
fn order_keeps_names_without_cells() {
    let mut layout = Layout::new("M");
    let mut top = Cell::new("TOP");
    top.srefs.push(sref("MISSING"));
    layout.insert_cell(top);
    layout.find_top_cell();
    assert_eq!(layout.dependency_order(), names(&["MISSING", "TOP"]));
}

#[test]
fn order_terminates_on_a_cycle() {
    let mut layout = Layout::new("C");
    let mut a = Cell::new("A");
    a.srefs.push(sref("B"));
    let mut b = Cell::new("B");
    b.srefs.push(sref("A"));
    layout.insert_cell(a);
    layout.insert_cell(b);
    assert_eq!(layout.dependency_order(), names(&["B", "A"]));
}

#[test]
fn order_walks_placed_cells_in_name_order_and_breaks_cycles_at_a_revisit() {
    let mut layout = Layout::new("W");
    let mut top = Cell::new("TOP");
    top.srefs.push(sref("Z"));
    top.srefs.push(sref("M"));
    let mut z = Cell::new("Z");
    z.srefs.push(sref("M"));
    let mut m = Cell::new("M");
    m.srefs.push(sref("Z"));
    layout.insert_cell(top);
    layout.insert_cell(z);
    layout.insert_cell(m);
    layout.find_top_cell();
    assert_eq!(layout.top_cell().as_deref(), Some("TOP"));
    assert_eq!(layout.dependency_order(), names(&["Z", "M", "TOP"]));
}
