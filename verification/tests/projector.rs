use nsv::projector::{project, visible_columns, Policy, Projection, Rect};
use nsv::scale::cells_within;
use nsv::viewport::Viewport;

fn rect(x: usize, y: usize, width: usize, height: usize) -> Rect {
    Rect { x, y, width, height }
}

fn view(zoom_exp: i32, x_offset: usize, y_offset: usize) -> Viewport {
    Viewport { zoom_exp, x_offset, y_offset }
}

#[test]
fn home_position_shows_the_bottom_left_corner() {
    let p = project(Viewport::new(), 4, 2, 640, 256, Policy::AnchoredBottom);
    assert_eq!(p, Projection::Window { source: rect(0, 0, 4, 2), dest: rect(0, 254, 4, 2) });
    let p = project(Viewport::new(), 1000, 300, 640, 256, Policy::AnchoredBottom);
    assert_eq!(p, Projection::Window { source: rect(0, 44, 640, 256), dest: rect(0, 0, 640, 256) });
}

#[test]
fn window_at_double_zoom() {
    let p = project(view(1, 2, 0), 100, 50, 64, 32, Policy::AnchoredBottom);
    assert_eq!(p, Projection::Window { source: rect(2, 34, 32, 16), dest: rect(0, 0, 64, 32) });
}

#[test]
fn y_offset_raises_the_window() {
    let p = project(view(1, 2, 10), 100, 50, 64, 32, Policy::AnchoredBottom);
    assert_eq!(p, Projection::Window { source: rect(2, 24, 32, 16), dest: rect(0, 0, 64, 32) });
    let p = project(view(1, 2, 34), 100, 50, 64, 32, Policy::AnchoredBottom);
    assert_eq!(p, Projection::Window { source: rect(2, 0, 32, 16), dest: rect(0, 0, 64, 32) });
}

#[test]
fn window_stops_at_the_top_row() {
    let p = project(view(1, 2, 40), 100, 50, 64, 32, Policy::AnchoredBottom);
    assert_eq!(p, Projection::Window { source: rect(2, 0, 32, 16), dest: rect(0, 0, 64, 32) });
    let p = project(view(0, 0, usize::MAX), 100, 50, 64, 32, Policy::AnchoredBottom);
    assert_eq!(p, Projection::Window { source: rect(0, 0, 64, 32), dest: rect(0, 0, 64, 32) });
}

#[test]
fn window_at_half_zoom() {
    let p = project(view(-1, 0, 0), 100, 50, 64, 32, Policy::AnchoredBottom);
    assert_eq!(p, Projection::Window { source: rect(0, 0, 100, 50), dest: rect(0, 7, 50, 25) });
    let p = project(view(-1, 0, 0), 101, 51, 64, 32, Policy::AnchoredBottom);
    assert_eq!(p, Projection::Window { source: rect(0, 0, 101, 51), dest: rect(0, 6, 51, 26) });
    let p = project(view(-3, 0, 0), 1000, 50, 64, 32, Policy::AnchoredBottom);
    assert_eq!(p, Projection::Window { source: rect(0, 0, 512, 50), dest: rect(0, 25, 64, 7) });
}

#[test]
fn window_ends_with_the_matrix() {
    let p = project(view(0, 90, 0), 100, 50, 64, 32, Policy::AnchoredBottom);
    assert_eq!(p, Projection::Window { source: rect(90, 18, 10, 32), dest: rect(0, 0, 10, 32) });
    let p = project(view(2, 99, 49), 100, 50, 64, 32, Policy::AnchoredBottom);
    assert_eq!(p, Projection::Window { source: rect(99, 0, 1, 8), dest: rect(0, 0, 4, 32) });
}

#[test]
fn offset_past_the_matrix_shows_no_column() {
    let p = project(view(0, 200, 0), 100, 50, 64, 32, Policy::AnchoredBottom);
    assert_eq!(p, Projection::Window { source: rect(100, 18, 0, 32), dest: rect(0, 0, 0, 32) });
}

#[test]
fn extreme_zoom_factors() {
    let p = project(view(70, 3, 5), 100, 50, 64, 32, Policy::AnchoredBottom);
    assert_eq!(p, Projection::Window { source: rect(3, 45, 0, 0), dest: rect(0, 32, 0, 0) });
    let p = project(view(i32::MAX, 3, 5), 100, 50, 64, 32, Policy::AnchoredBottom);
    assert_eq!(p, Projection::Window { source: rect(3, 45, 0, 0), dest: rect(0, 32, 0, 0) });
    let p = project(view(-70, 3, 5), 100, 50, 64, 32, Policy::AnchoredBottom);
    assert_eq!(p, Projection::Window { source: rect(3, 0, 97, 50), dest: rect(0, 31, 1, 1) });
    let p = project(view(i32::MIN, 3, 5), 100, 50, 64, 32, Policy::AnchoredBottom);
    assert_eq!(p, Projection::Window { source: rect(3, 0, 97, 50), dest: rect(0, 31, 1, 1) });
    let p = project(view(i32::MIN, 0, 0), 100, 50, 0, 0, Policy::AnchoredBottom);
    assert_eq!(p, Projection::Window { source: rect(0, 50, 0, 0), dest: rect(0, 0, 0, 0) });
}

#[test]
fn empty_display_or_matrix() {
    let p = project(view(0, 0, 0), 100, 50, 0, 0, Policy::AnchoredBottom);
    assert_eq!(p, Projection::Window { source: rect(0, 50, 0, 0), dest: rect(0, 0, 0, 0) });
    let p = project(view(0, 0, 0), 0, 0, 64, 32, Policy::AnchoredBottom);
    assert_eq!(p, Projection::Window { source: rect(0, 0, 0, 0), dest: rect(0, 32, 0, 0) });
}

#[test]
fn overlay_anchors_the_matrix_at_the_bottom_left() {
    let p = project(Viewport::new(), 100, 50, 640, 256, Policy::ClipScissor);
    assert_eq!(
        p,
        Projection::Overlay {
            source: rect(0, 0, 100, 50),
            column: 0,
            row: 50,
            x: 0,
            y: 256,
            zoom_exp: 0,
            scissor: rect(0, 0, 640, 256),
        }
    );
}

#[test]
fn overlay_follows_the_offsets_and_the_zoom() {
    let p = project(view(-2, 7, 9), 100, 50, 640, 256, Policy::ClipScissor);
    assert_eq!(
        p,
        Projection::Overlay {
            source: rect(0, 0, 100, 50),
            column: 7,
            row: 41,
            x: 0,
            y: 256,
            zoom_exp: -2,
            scissor: rect(0, 0, 640, 256),
        }
    );
    let p = project(view(3, 7, 60), 100, 50, 640, 256, Policy::ClipScissor);
    assert_eq!(
        p,
        Projection::Overlay {
            source: rect(0, 0, 100, 50),
            column: 7,
            row: 0,
            x: 0,
            y: 256,
            zoom_exp: 3,
            scissor: rect(0, 0, 640, 256),
        }
    );
}

#[test]
fn policies_agree_on_the_anchor() {
    for zoom_exp in -3..=3 {
        for x in [0usize, 1, 17, 99] {
            for y in [0usize, 1, 5] {
                let v = view(zoom_exp, x, y);
                let window = project(v, 100, 400, 64, 32, Policy::AnchoredBottom);
                let overlay = project(v, 100, 400, 64, 32, Policy::ClipScissor);
                match (window, overlay) {
                    (
                        Projection::Window { source, dest },
                        Projection::Overlay { column, row, x, y, .. },
                    ) => {
                        assert_eq!(column, source.x);
                        assert_eq!(row, source.y + source.height);
                        assert_eq!(x, dest.x);
                        assert_eq!(y, dest.y + dest.height);
                    }
                    _ => panic!("wrong kind of projection"),
                }
            }
        }
    }
}

#[test]
fn source_stays_inside_the_matrix_and_dest_inside_the_display() {
    let sizes = [0usize, 1, 2, 7, 64, 1000];
    for zoom_exp in [-70, -5, -1, 0, 1, 2, 9, 70] {
        for &mw in &sizes {
            for &mh in &sizes {
                for &dw in &[0usize, 1, 33, 640] {
                    for &dh in &[0usize, 1, 31, 256] {
                        for &x in &[0usize, 1, 6, 999, 5000] {
                            for &y in &[0usize, 1, 6, 999, 5000] {
                                let v = view(zoom_exp, x, y);
                                for policy in [Policy::AnchoredBottom, Policy::ClipScissor] {
                                    let (source, target) = match project(v, mw, mh, dw, dh, policy) {
                                        Projection::Window { source, dest } => (source, dest),
                                        Projection::Overlay { source, scissor, .. } => {
                                            (source, scissor)
                                        }
                                    };
                                    assert!(source.x + source.width <= mw);
                                    assert!(source.y + source.height <= mh);
                                    assert!(target.x + target.width <= dw);
                                    assert!(target.y + target.height <= dh);
                                }
                            }
                        }
                    }
                }
            }
        }
    }
}

#[test]
fn visible_columns_of_a_window() {
    assert_eq!(visible_columns(view(0, 0, 0), 4, 640), 4);
    assert_eq!(visible_columns(view(0, 0, 0), 1000, 640), 640);
    assert_eq!(visible_columns(view(1, 0, 0), 1000, 640), 320);
    assert_eq!(visible_columns(view(-3, 0, 0), 10000, 640), 5120);
    assert_eq!(visible_columns(view(0, 900, 0), 1000, 640), 100);
    assert_eq!(visible_columns(view(0, 1000, 0), 1000, 640), 0);
    assert_eq!(visible_columns(view(0, 2000, 0), 1000, 640), 0);
    assert_eq!(visible_columns(view(3, 0, 0), 1000, 7), 0);
}

#[test]
fn whole_cells_in_a_stretch_of_pixels() {
    assert_eq!(cells_within(64, 0, 1000), 64);
    assert_eq!(cells_within(64, 1, 1000), 32);
    assert_eq!(cells_within(65, 1, 1000), 32);
    assert_eq!(cells_within(7, 3, 10), 0);
    assert_eq!(cells_within(8, 3, 10), 1);
    assert_eq!(cells_within(5, -2, 100), 20);
    assert_eq!(cells_within(5, -2, 12), 12);
    assert_eq!(cells_within(5, -2, 20), 20);
    assert_eq!(cells_within(5, -2, 19), 19);
    assert_eq!(cells_within(64, 1, 3), 3);
    assert_eq!(cells_within(0, -64, 5), 0);
    assert_eq!(cells_within(1, -64, 5), 5);
    assert_eq!(cells_within(1, -200, usize::MAX), usize::MAX);
    assert_eq!(cells_within(usize::MAX, -1, usize::MAX), usize::MAX);
    assert_eq!(cells_within(usize::MAX, 0, usize::MAX), usize::MAX);
    assert_eq!(cells_within(usize::MAX, (usize::BITS - 1) as i32, usize::MAX), 1);
    assert_eq!(cells_within(usize::MAX, usize::BITS as i32, usize::MAX), 0);
    assert_eq!(cells_within(usize::MAX, i32::MAX, usize::MAX), 0);
    assert_eq!(cells_within(1, i32::MIN, 9), 9);
    assert_eq!(cells_within(1, -((usize::BITS - 1) as i32), usize::MAX), 1 << (usize::BITS - 1));
}
