use vroom_client::{Cell, Color, Display, DrawOp};

fn cell(ch: char, color: Color) -> Cell {
    Cell { ch, color }
}

const RED: Color = Color::Rgb(255, 0, 0);
const BLUE: Color = Color::Rgb(0, 0, 255);

#[test]
fn only_the_changed_cell_is_redrawn() {
    let mut d = Display::new();
    let first = d.draw(vec![cell('A', RED), cell('B', BLUE)], 2);
    assert_eq!(first.len(), 2);
    let second = d.draw(vec![cell('A', RED), cell('C', BLUE)], 2);
    assert_eq!(second, vec![DrawOp { index: 1, x: 1, y: 0, cell: cell('C', BLUE) }]);
}

#[test]
fn drawing_the_same_frame_twice_is_idle() {
    let mut d = Display::new();
    let frame = vec![cell('x', RED), cell('y', BLUE), cell('z', RED), cell('w', BLUE)];
    assert_eq!(d.draw(frame.clone(), 2).len(), 4);
    assert!(d.draw(frame, 2).is_empty());
}

#[test]
fn k_changed_cells_give_k_writes_in_order() {
    let mut d = Display::new();
    let base: Vec<Cell> = (0..12).map(|_| cell('a', RED)).collect();
    d.draw(base.clone(), 4);
    let mut next = base.clone();
    next[9] = cell('b', RED);
    next[2] = cell('a', BLUE);
    next[5] = cell('c', BLUE);
    let ops = d.draw(next, 4);
    let idx: Vec<usize> = ops.iter().map(|o| o.index).collect();
    assert_eq!(idx, vec![2, 5, 9]);
    assert_eq!(ops[1], DrawOp { index: 5, x: 1, y: 1, cell: cell('c', BLUE) });
    assert_eq!(ops[2], DrawOp { index: 9, x: 1, y: 2, cell: cell('b', RED) });
}

#[test]
fn first_draw_paints_every_cell() {
    let mut d = Display::new();
    let frame = vec![cell('#', Color::Rgb(10, 10, 10)); 3 * 5];
    let ops = d.draw(frame, 3);
    assert_eq!(ops.len(), 15);
    assert_eq!(ops[14], DrawOp { index: 14, x: 2, y: 4, cell: cell('#', Color::Rgb(10, 10, 10)) });
}

#[test]
fn first_draw_skips_cells_equal_to_blank() {
    let mut d = Display::new();
    let ops = d.draw(vec![cell(' ', Color::Black), cell(' ', Color::Rgb(0, 0, 0))], 2);
    assert_eq!(ops, vec![DrawOp { index: 1, x: 1, y: 0, cell: cell(' ', Color::Rgb(0, 0, 0)) }]);
}

#[test]
fn a_grown_frame_is_drawn_only_up_to_the_remembered_size() {
    let mut d = Display::new();
    d.draw(vec![cell('a', RED); 2], 2);
    let ops = d.draw(vec![cell('b', RED); 4], 2);
    let idx: Vec<usize> = ops.iter().map(|o| o.index).collect();
    assert_eq!(idx, vec![0, 1]);
}

#[test]
fn a_shrunk_frame_leaves_the_rest_remembered() {
    let mut d = Display::new();
    d.draw(vec![cell('a', RED); 4], 2);
    assert_eq!(d.draw(vec![cell('b', RED)], 2).len(), 1);
    let ops = d.draw(vec![cell('b', RED), cell('a', RED), cell('a', RED), cell('z', RED)], 2);
    assert_eq!(ops, vec![DrawOp { index: 3, x: 1, y: 1, cell: cell('z', RED) }]);
}

#[test]
fn an_empty_frame_draws_nothing() {
    let mut d = Display::new();
    assert!(d.draw(Vec::new(), 0).is_empty());
    assert_eq!(d.draw(vec![cell('q', BLUE)], 1).len(), 1);
}
