use graph_calc::app::{fallback_curve_name, palette_color_at, App, CompileOutcome, Curve};
use graph_calc::math::{compile_expr, ExprError};
use graph_calc::store::StoredCurve;
use std::str::FromStr;

fn stored(name: &str, expr: &str, color: [u8; 4], visible: bool) -> StoredCurve {
    StoredCurve { name: name.to_string(), expr: expr.to_string(), color, visible }
}

fn names(app: &App) -> Vec<String> {
    app.curves.iter().map(|c| c.name.clone()).collect()
}

#[test]
fn fallback_names_count_from_one() {
    assert_eq!(fallback_curve_name(0), "f1(x)");
    assert_eq!(fallback_curve_name(8), "f9(x)");
    assert_eq!(fallback_curve_name(9), "f10(x)");
    assert_eq!(fallback_curve_name(122), "f123(x)");
}

#[test]
fn fresh_session_has_two_starter_curves() {
    let app = App::default();
    assert_eq!(names(&app), vec!["f1(x)", "f2(x)"]);
    assert_eq!(app.curves[0].expr, "sin(x)");
    assert_eq!(app.curves[1].expr, "x^2");
    assert_eq!(app.curves[0].color, [80, 145, 255, 255]);
    assert_eq!(app.curves[1].color, [255, 120, 80, 255]);
    assert!(app.curves.iter().all(|c| c.visible));
    assert_eq!(app.samples, 3000);
    assert!(app.dark_mode);
    assert!(app.last_error.is_none());
    assert_eq!(app.active_curve, None);
    assert_eq!(app.pending_focus(), None);
    assert_eq!(app.next_color_index(), 2);
}

#[test]
fn added_curve_is_named_colored_and_focused() {
    let mut app = App::default();
    app.add_curve("cos(x)");
    assert_eq!(app.curves.len(), 3);
    assert_eq!(app.curves[2].name, "f3(x)");
    assert_eq!(app.curves[2].expr, "cos(x)");
    assert_eq!(app.curves[2].color, palette_color_at(2));
    assert_eq!(app.curves[2].color, [120, 220, 160, 255]);
    assert!(app.curves[2].visible);
    assert_eq!(app.active_curve, Some(2));
    assert_eq!(app.pending_focus(), Some(2));
    assert_eq!(app.next_color_index(), 3);
}

#[test]
fn palette_cycles_after_six_colors() {
    let mut app = App::default();
    let mut colors = Vec::new();
    for _ in 0..8 {
        colors.push(app.next_curve_color());
    }
    assert_eq!(colors[0], [120, 220, 160, 255]);
    assert_eq!(colors[1], [200, 170, 255, 255]);
    assert_eq!(colors[2], [255, 210, 110, 255]);
    assert_eq!(colors[3], [250, 150, 220, 255]);
    assert_eq!(colors[4], [80, 145, 255, 255]);
    assert_eq!(colors[6], colors[0]);
    assert_eq!(colors[7], colors[1]);
}

#[test]
fn removing_adjusts_selection() {
    let mut app = App::default();
    app.add_curve("cos(x)");
    app.add_curve("tan(x)");
    app.active_curve = Some(3);
    app.remove_curve(1);
    assert_eq!(app.curves.len(), 3);
    assert_eq!(app.curves[1].expr, "cos(x)");
    assert_eq!(app.curves[2].expr, "tan(x)");
    assert_eq!(app.active_curve, Some(2));
    assert_eq!(app.pending_focus(), Some(2));
    app.remove_curve(2);
    assert_eq!(app.active_curve, None);
    assert_eq!(app.pending_focus(), None);
    app.active_curve = Some(0);
    app.remove_curve(1);
    assert_eq!(app.active_curve, Some(0));
}

#[test]
fn last_curve_is_never_removed() {
    let mut app = App::default();
    app.remove_curve(0);
    assert_eq!(app.curves.len(), 1);
    assert_eq!(app.curves[0].expr, "x^2");
    app.remove_curve(0);
    assert_eq!(app.curves.len(), 1);
    app.remove_curve(7);
    assert_eq!(app.curves.len(), 1);
}

#[test]
fn removal_fills_in_blank_names_for_new_places() {
    let mut app = App::default();
    app.add_curve("cos(x)");
    app.curves[2].name = "   ".to_string();
    app.remove_curve(0);
    assert_eq!(names(&app), vec!["f2(x)", "f2(x)"]);
}

#[test]
fn remove_undoes_add() {
    let mut app = App::default();
    app.curves[0].name = "g".to_string();
    let before: Vec<(String, String, [u8; 4], bool)> =
        app.curves.iter().map(|c| (c.name.clone(), c.expr.clone(), c.color, c.visible)).collect();
    app.add_curve("exp(x)");
    app.remove_curve(2);
    let after: Vec<(String, String, [u8; 4], bool)> =
        app.curves.iter().map(|c| (c.name.clone(), c.expr.clone(), c.color, c.visible)).collect();
    assert_eq!(before, after);
    assert_eq!(app.active_curve, None);
    assert_eq!(app.pending_focus(), None);
}

#[test]
fn reset_request_is_answered_once() {
    let mut app = App::default();
    assert!(!app.consume_reset_request());
    app.request_view_refresh();
    assert!(app.consume_reset_request());
    assert!(!app.consume_reset_request());
}

#[test]
fn focus_request_can_be_cleared() {
    let mut app = App::default();
    app.add_curve("x");
    assert_eq!(app.pending_focus(), Some(2));
    app.clear_pending_focus();
    assert_eq!(app.pending_focus(), None);
    assert_eq!(app.active_curve, Some(2));
}

#[test]
fn display_name_and_label() {
    let c = Curve { name: "  g ".to_string(), expr: "x^2 + pi".to_string(), color: [0, 0, 0, 255], visible: true };
    assert_eq!(c.display_name(4), "g");
    assert_eq!(c.formatted_label(4), "g = x² + π");
    let unnamed = Curve { name: " ".to_string(), expr: "sqrt(x)".to_string(), color: [0, 0, 0, 255], visible: true };
    assert_eq!(unnamed.display_name(4), "f5(x)");
    assert_eq!(unnamed.formatted_label(0), "f1(x) = √(x)");
}

#[test]
fn restoring_an_empty_session_gives_the_starter_curves() {
    let app = App::from_stored(Vec::new(), 5, false);
    assert_eq!(names(&app), vec!["f1(x)", "f2(x)"]);
    assert_eq!(app.curves[0].expr, "sin(x)");
    assert_eq!(app.samples, 64);
    assert!(!app.dark_mode);
    assert_eq!(app.next_color_index(), 2);
}

#[test]
fn restoring_a_session() {
    let saved = vec![
        stored("", "x", [10, 20, 30, 255], true),
        stored("h", "y", [10, 20, 30, 0], false),
        stored("k", "z", [200, 100, 50, 128], true),
    ];
    let app = App::from_stored(saved, 50_000, true);
    assert_eq!(names(&app), vec!["f1(x)", "h", "k"]);
    assert_eq!(app.curves[0].color, [10, 20, 30, 255]);
    assert_eq!(app.curves[1].color, [0, 0, 0, 0]);
    assert!(!app.curves[1].visible);
    assert_eq!(app.curves[2].color, egui::Color32::from_rgba_unmultiplied(200, 100, 50, 128).to_array());
    assert_eq!(app.curves[2].color[3], 128);
    assert_eq!(app.samples, 20_000);
    assert!(app.dark_mode);
    assert_eq!(app.next_color_index(), 3);
    assert_eq!(app.active_curve, None);
}

#[test]
fn saved_opaque_session_comes_back() {
    let mut app = App::default();
    app.add_curve("tan(x)");
    app.samples = 500;
    let saved = app.stored_curves();
    assert_eq!(saved.len(), 3);
    assert_eq!(saved[2].name, "f3(x)");
    assert_eq!(saved[2].color, [120, 220, 160, 255]);
    let back = App::from_stored(saved, app.samples, app.dark_mode);
    assert_eq!(names(&back), names(&app));
    for (a, b) in back.curves.iter().zip(app.curves.iter()) {
        assert_eq!(a.expr, b.expr);
        assert_eq!(a.color, b.color);
        assert_eq!(a.visible, b.visible);
    }
    assert_eq!(back.samples, 500);
    assert_eq!(back.next_color_index(), 3);
}

#[test]
fn curve_round_trip_through_saved_form() {
    let c = Curve { name: "n".to_string(), expr: "x".to_string(), color: [1, 2, 3, 255], visible: false };
    let s = c.to_stored();
    assert_eq!(s.name, "n");
    assert_eq!(s.color, [1, 2, 3, 255]);
    let back = Curve::from_stored(s);
    assert_eq!(back.color, c.color);
    assert_eq!(back.name, c.name);
    assert!(!back.visible);
}

#[test]
fn settings_are_clamped() {
    let mut app = App::default();
    app.samples = 1;
    app.ensure_valid_settings();
    assert_eq!(app.samples, 64);
    app.samples = 100_000;
    app.ensure_valid_settings();
    assert_eq!(app.samples, 20_000);
}

#[test]
fn compiling_curves_reports_the_first_failure() {
    let mut app = App::default();
    app.add_curve("(");
    app.add_curve("y");
    app.add_curve("  ");
    app.add_curve("cos(x)");
    app.curves[0].visible = false;
    let prepared = app.compile_curves();
    let indices: Vec<usize> = prepared.iter().map(|p| p.index).collect();
    assert_eq!(indices, vec![1, 5]);
    assert_eq!(prepared[0].label, "f2(x) = x²");
    assert_eq!(prepared[1].label, "f6(x) = cos(x)");
    assert_eq!(prepared[1].color, app.curves[5].color);
    let parse_msg = meval::Expr::from_str("(").err().expect("meval rejects").to_string();
    assert_eq!(app.last_error, Some(format!("f3(x) = (: {}", parse_msg)));
    assert_eq!(prepared[0].expr, meval::Expr::from_str("x^2").expect("parse"));
    assert_eq!(prepared[1].expr, meval::Expr::from_str("cos(x)").expect("parse"));
    let f = prepared[0].expr.clone().bind("x").expect("bind");
    assert!((f(3.0) - 9.0).abs() < 1e-12);
}

#[test]
fn compiling_valid_curves_clears_the_error() {
    let mut app = App::default();
    app.last_error = Some("old".to_string());
    let prepared = app.compile_curves();
    assert_eq!(prepared.len(), 2);
    assert!(app.last_error.is_none());
}

#[test]
fn preparing_from_given_outcomes() {
    let mut app = App::default();
    app.add_curve("z");
    let x = meval::Expr::from_str("x").expect("parse");
    let outcomes: Vec<CompileOutcome> = vec![
        Some(Err(ExprError::Invalid("bad one".to_string()))),
        Some(Ok(x)),
        Some(Err(ExprError::Empty)),
    ];
    let prepared = app.prepare_curves(outcomes);
    assert_eq!(prepared.len(), 1);
    assert_eq!(prepared[0].index, 1);
    assert_eq!(prepared[0].label, "f2(x) = x²");
    assert_eq!(app.last_error, Some("f1(x) = sin(x): bad one".to_string()));

    let skipped: Vec<CompileOutcome> = vec![None, None, Some(Err(ExprError::Empty))];
    let prepared = app.prepare_curves(skipped);
    assert!(prepared.is_empty());
    assert_eq!(app.last_error, Some("f3(x) = z: expression is empty".to_string()));
}

#[test]
fn compile_expr_result_feeds_preparation() {
    let mut app = App::default();
    let outcomes: Vec<CompileOutcome> = vec![Some(compile_expr("sin(x)")), None];
    let prepared = app.prepare_curves(outcomes);
    assert_eq!(prepared.len(), 1);
    assert!(app.last_error.is_none());
}

#[test]
fn stale_focus_request_is_dropped() {
    let mut app = App::default();
    app.add_curve("x");
    app.drop_stale_focus();
    assert_eq!(app.pending_focus(), Some(2));
    app.remove_curve(0);
    assert_eq!(app.pending_focus(), Some(1));
    app.drop_stale_focus();
    assert_eq!(app.pending_focus(), Some(1));
    app.curves.pop();
    app.drop_stale_focus();
    assert_eq!(app.pending_focus(), None);
}
