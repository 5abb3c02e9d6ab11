use cce_designer::page::{
    displayed_page, is_page_node, page_chain, page_kind, PageKind, PageNode, PagePreset,
};

fn pnode(id: &str, name: &str, ty: &str, input: &str) -> PageNode {
    PageNode {
        id: id.to_string(),
        name: name.to_string(),
        node_type: ty.to_string(),
        input: input.to_string(),
        visible: true,
    }
}

/// A sheet, a grid on it and a border on the grid.
fn sheet_grid_border() -> Vec<PageNode> {
    vec![
        pnode("p", "page1", "page", ""),
        pnode("g", "grid1", "page_grid", "page1"),
        pnode("b", "border1", "page_border", "grid1"),
    ]
}

/// The page nodes end to end, through the resolver: which nodes compose a
/// sheet, in order (the raster each one paints is the application's).
#[test]
fn test_the_page_nodes_compose_a_sheet_through_the_resolver() {
    let root = sheet_grid_border();
    assert!(is_page_node("page_grid") && !is_page_node("sphere"));

    let chain = page_chain(&root, 2).expect("the page chain resolved to nothing");
    assert_eq!(chain, vec![0, 1, 2], "sheet, then grid, then border");

    // An orphan composite is not a page: a border with nothing under it
    // resolves to nothing rather than inventing a sheet.
    let mut lone = sheet_grid_border();
    lone.push(pnode("o", "border2", "page_border", "nothing"));
    assert!(page_chain(&lone, 3).is_none(), "a border with no page under it invented one");

    // A cycle terminates rather than recursing forever.
    let mut looped = sheet_grid_border();
    looped[0] = pnode("p", "page1", "page_border", "border1");
    assert!(page_chain(&looped, 2).is_none());

    // The level's LAST visible page node is what gets displayed.
    let level = vec![0, 1, 2];
    assert_eq!(displayed_page(&root, &level), Some(vec![0, 1, 2]));
    let mut hidden = sheet_grid_border();
    hidden[2].visible = false;
    assert_eq!(displayed_page(&hidden, &level), Some(vec![0, 1]), "a hidden node still displayed");
}

#[test]
fn an_export_passes_a_page_through() {
    let mut nodes = sheet_grid_border();
    nodes.push(pnode("e", "export1", "Export", "  border1 "));
    assert_eq!(page_chain(&nodes, 3), Some(vec![0, 1, 2, 3]));
    // An export over geometry is not a page.
    nodes.push(pnode("s", "sphere1", "sphere", ""));
    nodes.push(pnode("e2", "export2", "export", "sphere1"));
    assert_eq!(page_chain(&nodes, 5), None);
    assert_eq!(page_chain(&nodes, 4), None, "a geometry node is not a page");
}

#[test]
fn a_sheet_is_a_chain_of_one_and_kinds_ignore_case() {
    let nodes = vec![pnode("p", "page1", "PAGE", "ignored")];
    assert_eq!(page_chain(&nodes, 0), Some(vec![0]));
    assert_eq!(page_kind("Page_Text"), Some(PageKind::Text));
    assert_eq!(page_kind("page_grid"), Some(PageKind::Grid));
    assert_eq!(page_kind("Page_Border"), Some(PageKind::Border));
    assert_eq!(page_kind("export"), Some(PageKind::Export));
    assert_eq!(page_kind("sphere"), None);
}

#[test]
fn the_first_node_of_a_name_is_the_input_and_ids_guard_cycles() {
    // Two nodes named "page1": the first wins, even though it is a border.
    let nodes = vec![
        pnode("x", "page1", "page_border", "page1"),
        pnode("p", "page1", "page", ""),
        pnode("b", "border1", "page_border", "page1"),
    ];
    // border1 -> x (first "page1") -> x again: its id was seen.
    assert_eq!(page_chain(&nodes, 2), None);
    // A self-reading sheet is fine: a sheet reads nothing.
    let nodes = vec![pnode("p", "page1", "page", "page1")];
    assert_eq!(page_chain(&nodes, 0), Some(vec![0]));
    // Two distinct nodes sharing an id count as seen.
    let nodes = vec![pnode("same", "page1", "page", ""), pnode("same", "b", "page_border", "page1")];
    assert_eq!(page_chain(&nodes, 1), None);
}

#[test]
fn nothing_displays_without_a_visible_page_node() {
    let mut nodes = sheet_grid_border();
    nodes.push(pnode("e", "export1", "export", "border1"));
    // An export is not a page node, so it is never what a level displays.
    assert_eq!(displayed_page(&nodes, &vec![3]), None);
    assert_eq!(displayed_page(&nodes, &vec![]), None);
    for n in nodes.iter_mut() {
        n.visible = false;
    }
    assert_eq!(displayed_page(&nodes, &vec![0, 1, 2, 3]), None);
}

#[test]
fn presets_name_sheets() {
    assert_eq!(PagePreset::parse(" Letter "), Some(PagePreset::Letter));
    assert_eq!(PagePreset::parse("a4"), Some(PagePreset::A4));
    assert_eq!(PagePreset::parse("LEGAL"), Some(PagePreset::Legal));
    assert_eq!(PagePreset::parse("Tabloid"), Some(PagePreset::Tabloid));
    assert_eq!(PagePreset::parse("A3"), None);
    assert_eq!(PagePreset::parse(""), None);
}

#[test]
fn a_composite_is_its_inputs_chain_with_itself_on_top() {
    let mut nodes = sheet_grid_border();
    nodes.push(pnode("e", "export1", "export", "border1"));
    let input_chain = page_chain(&nodes, 2).unwrap();
    let mut expected = input_chain.clone();
    expected.push(3);
    assert_eq!(page_chain(&nodes, 3), Some(expected));
    // An export sharing an id with a node of its input's chain closes a cycle.
    nodes[3].id = "g".to_string();
    assert_eq!(page_chain(&nodes, 3), None);
}
