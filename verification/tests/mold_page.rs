use cce_designer::mold::{inner_shell_prims, Ramp};
use cce_designer::page::{is_landscape, is_page_node, toggle_of, HAlign, VAlign};

#[test]
fn ramp_parse_names_the_three_shapes() {
    assert_eq!(Ramp::parse("smooth"), Ramp::Smooth);
    assert_eq!(Ramp::parse("constant"), Ramp::Constant);
    assert_eq!(Ramp::parse("linear"), Ramp::Linear);
}

#[test]
fn ramp_parse_ignores_case_and_surrounding_space() {
    assert_eq!(Ramp::parse("  Smooth\t"), Ramp::Smooth);
    assert_eq!(Ramp::parse("\nCONSTANT "), Ramp::Constant);
    assert_eq!(Ramp::parse("\u{3000}smooth\u{a0}"), Ramp::Smooth);
}

#[test]
fn ramp_parse_falls_back_to_linear() {
    assert_eq!(Ramp::parse(""), Ramp::Linear);
    assert_eq!(Ramp::parse("smoothe"), Ramp::Linear);
    assert_eq!(Ramp::parse("s mooth"), Ramp::Linear);
    assert_eq!(Ramp::parse("ＳＭＯＯＴＨ"), Ramp::Linear, "only ASCII folds");
}

#[test]
fn page_node_types_are_the_four_page_operators() {
    for t in ["page", "page_grid", "page_border", "page_text", "Page", "PAGE_Text"] {
        assert!(is_page_node(t), "{t}");
    }
    for t in ["export", "sphere", " page", "page ", "pages", ""] {
        assert!(!is_page_node(t), "{t}");
    }
}

#[test]
fn toggles_read_true_one_and_on() {
    for v in ["true", "1", "on", " TRUE ", "On", "\ttrue\n"] {
        assert!(toggle_of(v), "{v:?}");
    }
    for v in ["false", "0", "off", "", "yes", "t rue", "10"] {
        assert!(!toggle_of(v), "{v:?}");
    }
}

#[test]
fn text_alignment_reads_its_exact_names() {
    assert_eq!(HAlign::from_param("Left"), HAlign::Left);
    assert_eq!(HAlign::from_param("Right"), HAlign::Right);
    assert_eq!(HAlign::from_param("Center"), HAlign::Center);
    assert_eq!(HAlign::from_param("left"), HAlign::Center, "the match is exact");
    assert_eq!(VAlign::from_param("Middle"), VAlign::Middle);
    assert_eq!(VAlign::from_param("Bottom"), VAlign::Bottom);
    assert_eq!(VAlign::from_param("Top"), VAlign::Top);
    assert_eq!(VAlign::from_param("bottom"), VAlign::Top);
}

#[test]
fn landscape_ignores_case_only() {
    assert!(is_landscape("Landscape"));
    assert!(is_landscape("LANDSCAPE"));
    assert!(!is_landscape("Portrait"));
    assert!(!is_landscape(" Landscape"));
}

#[test]
fn the_inner_shell_faces_the_cavity() {
    let prims = vec![vec![0, 1, 2], vec![2, 3, 0, 1]];
    assert_eq!(inner_shell_prims(&prims, 4), Some(vec![vec![6, 5, 4], vec![5, 4, 7, 6]]));
    assert_eq!(inner_shell_prims(&Vec::new(), 4), None, "a shell of nothing is not an empty shell");
    assert_eq!(inner_shell_prims(&vec![vec![]], 9), Some(vec![vec![]]));
}
