use luxifer::interact::Handle;

#[test]
fn is_corner_erkennt_ecken() {
    assert!(Handle::Se.is_corner() && Handle::Nw.is_corner());
    assert!(!Handle::N.is_corner() && !Handle::E.is_corner());
}

#[test]
fn corner_handles_move_two_edges() {
    for h in [Handle::Nw, Handle::Ne, Handle::Sw, Handle::Se] {
        let horizontal = h.moves_left() || h.moves_right();
        let vertical = h.moves_top() || h.moves_bottom();
        assert!(horizontal && vertical);
    }
    assert!(Handle::W.moves_left() && !Handle::W.moves_top());
    assert!(Handle::S.moves_bottom() && !Handle::S.moves_right());
}

/// Rectangle boxes as (x, y, w, h) and the marquee corners: which boxes lie
/// inside and which touch, as the caller tests them.
fn marquee_tests(boxes: &[(f64, f64, f64, f64)], x1: f64, y1: f64, x2: f64, y2: f64) -> (Vec<bool>, Vec<bool>) {
    let (lo_x, hi_x) = (x1.min(x2), x1.max(x2));
    let (lo_y, hi_y) = (y1.min(y2), y1.max(y2));
    let contained = boxes
        .iter()
        .map(|b| b.0 >= lo_x && b.1 >= lo_y && b.0 + b.2 <= hi_x && b.1 + b.3 <= hi_y)
        .collect();
    let touches = boxes
        .iter()
        .map(|b| b.0 <= hi_x && b.0 + b.2 >= lo_x && b.1 <= hi_y && b.1 + b.3 >= lo_y)
        .collect();
    (contained, touches)
}

#[test]
fn marquee_waehlt_nur_vollstaendig_umschlossene() {
    let mut s = luxifer::state::AppState::new();
    s.add_shape(1);
    s.add_shape(2);
    let (c, t) = marquee_tests(&[(10.0, 10.0, 20.0, 20.0), (200.0, 200.0, 20.0, 20.0)], 100.0, 0.0, 0.0, 100.0);
    s.select_in_rect(&c, &t, false);
    assert_eq!(s.selected, vec![0]);
}

#[test]
fn marquee_von_links_nach_rechts_waehlt_auch_schneidende_shapes() {
    let mut s = luxifer::state::AppState::new();
    s.add_shape(1);
    s.add_shape(2);
    s.add_shape(3);
    let boxes = [(10.0, 10.0, 20.0, 20.0), (80.0, 40.0, 50.0, 20.0), (150.0, 40.0, 20.0, 20.0)];
    let (c, t) = marquee_tests(&boxes, 0.0, 0.0, 100.0, 100.0);
    s.select_in_rect(&c, &t, true);
    assert_eq!(s.selected, vec![0, 1]);
    s.select_in_rect(&c, &t, false);
    assert_eq!(s.selected, vec![0]);
}

#[test]
fn marquee_skips_locked_layers_and_widens_groups() {
    let mut st = luxifer::state::AppState::new();
    st.add_shape(1);
    st.add_shape(2);
    st.shapes[0].group_id = Some(4);
    st.shapes[1].group_id = Some(4);
    let mut session = luxifer::session::EditorSession::new(st);
    session.select_rect(&vec![true, false], &vec![true, false], false);
    assert_eq!(session.state().selected, vec![0, 1]);
    let mut st = luxifer::state::AppState::new();
    st.add_shape(1);
    st.layers[0].locked = true;
    st.select_in_rect(&vec![true], &vec![true], true);
    assert!(st.selected.is_empty());
}
