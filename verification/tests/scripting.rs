use cce_designer::detail::gather;
use cce_designer::expr::rewrite_paths;
use cce_designer::wrangle::{channel_path_spans, channel_refs, desugar};

/// `@name` is sugar for an index on the element, and only outside
/// strings and comments — a message that mentions `@` keeps it.
#[test]
fn wrangle_desugars_at_names_outside_strings_and_comments() {
    assert_eq!(desugar("@P.y += 1.0;"), "__at[\"P\"].y += 1.0;");
    assert_eq!(desugar("@mass = @mass * 2;"), "__at[\"mass\"] = __at[\"mass\"] * 2;");
    assert_eq!(desugar("let s = \"at @P\"; // @P here\n@x = 1;"), "let s = \"at @P\"; // @P here\n__at[\"x\"] = 1;");
    assert_eq!(desugar("/* @a */ @b = '@';"), "/* @a */ __at[\"b\"] = '@';");
    assert_eq!(desugar("a @ b"), "a @ b", "a bare @ is not sugar");
    assert_eq!(channel_refs("ch(\"../Radius\") + chs('Name') + search(\"x\") // ch(\"no\")"), vec!["../Radius".to_string(), "Name".to_string()]);
}

#[test]
fn desugar_keeps_escaped_quotes_inside_strings() {
    assert_eq!(desugar("\"a \\\" @b\" @c"), "\"a \\\" @b\" __at[\"c\"]");
    assert_eq!(desugar("@_tmp2+@9"), "__at[\"_tmp2\"]+@9");
    assert_eq!(desugar(""), "");
    assert_eq!(desugar("@"), "@");
}

#[test]
fn channel_calls_need_the_whole_name_and_a_quoted_path() {
    assert_eq!(channel_refs("chf( '../a' ) + ch ( \"b\" )"), vec!["../a".to_string(), "b".to_string()]);
    assert!(channel_refs("xch(\"a\") + ch(a) + chv(\"v\") + \"ch('in a string')\"").is_empty());
    assert!(channel_refs("ch(\"unterminated").is_empty());
    assert_eq!(channel_path_spans("ch(\"ab\")"), vec![(4, 6)]);
}

/// A rename rewrites the channel paths that pass through the node —
/// textually, so the user's spacing survives — and leaves every other
/// path alone.
#[test]
fn rename_rewrites_the_paths_through_a_node() {
    let src = "ch( \"../sphere1/Radius\" ) * chs('../text1/Font') + chf(\"/sphere1/Rows\")";
    let out = rewrite_paths(src, |path| path.contains("sphere1").then(|| path.replace("sphere1", "ball")));
    assert_eq!(out, "ch( \"../ball/Radius\" ) * chs('../text1/Font') + chf(\"/ball/Rows\")");
    assert_eq!(rewrite_paths("touch(\"x\")", |_| Some("no".into())), "touch(\"x\")", "only channel calls are paths");
}

#[test]
fn rewrite_with_no_answer_changes_nothing() {
    let src = "chi(\"../Source\") + 1";
    assert_eq!(rewrite_paths(src, |_| None), src);
    assert_eq!(rewrite_paths(src, |p| Some(format!("{p}/x"))), "chi(\"../Source/x\") + 1");
}

#[test]
fn test_detail_attribute_gather_is_the_one_reordering_primitive() {
    let data = vec![10.0_f32, 20.0, 30.0];
    // Delete, reorder and duplicate are all the same operation.
    assert_eq!(gather(&data, &[2, 0], 0.0), vec![30.0, 10.0]);
    assert_eq!(gather(&data, &[1, 1], 0.0), vec![20.0, 20.0]);
    // An out-of-range index yields a zero rather than panicking.
    assert_eq!(gather(&data, &[9], 0.0), vec![0.0]);
}

#[test]
fn gather_works_on_any_column() {
    let ints = vec![7_i32, 8, 9];
    assert_eq!(gather(&ints, &[], 0), Vec::<i32>::new());
    assert_eq!(gather(&ints, &[0, 3, 2], -1), vec![7, -1, 9]);
}

#[test]
fn a_rewrite_that_renames_nothing_changes_nothing() {
    let src = "ch( \"../sphere1/Radius\" ) * 2 + chs('x') // ch(\"kept\")";
    assert_eq!(rewrite_paths(src, |_p: &str| None), src);
    assert_eq!(rewrite_paths(src, |p: &str| Some(p.to_string())), src);
    assert_eq!(desugar("no sugar here; \"a\" /* b */"), "no sugar here; \"a\" /* b */");
}
