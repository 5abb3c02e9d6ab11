use cce_designer::slots::{
    BREADCRUMB2_IDX, BREADCRUMB_IDX, CANVAS_IDX, CONTENT2_IDX, CONTENT_IDX, DIALOG_IDX, HEADER_IDX,
    LEFT_MENUBAR_IDX, NETWORK_PANEL2_IDX, NETWORK_PANEL_IDX, PAGE_IDX, PARAM_IDX,
    PARAM_MENUBAR_IDX, PLAYBAR_IDX, RIGHT_MENUBAR_IDX, SPLITTER1_IDX, SPLITTER2_IDX,
    SPREADSHEET_IDX, SPREADSHEET_MENUBAR_IDX, STATUS_IDX, VIEWPORT_IDX, WIDGET_COUNT,
};

/// The `*_IDX` constants are numbered from declaration order, densely: a
/// skipped number would leave the last slot addressed as `WIDGET_COUNT`.
#[test]
fn test_widget_roster_indices_are_dense() {
    let roster = [
        HEADER_IDX, CONTENT_IDX, SPLITTER1_IDX, VIEWPORT_IDX,
        SPLITTER2_IDX, PARAM_IDX, CANVAS_IDX, LEFT_MENUBAR_IDX,
        RIGHT_MENUBAR_IDX, PARAM_MENUBAR_IDX, STATUS_IDX, BREADCRUMB_IDX,
        SPREADSHEET_IDX, SPREADSHEET_MENUBAR_IDX, NETWORK_PANEL_IDX, PLAYBAR_IDX,
        NETWORK_PANEL2_IDX, CONTENT2_IDX, BREADCRUMB2_IDX, PAGE_IDX,
        DIALOG_IDX,
    ];
    assert_eq!(roster.len(), WIDGET_COUNT, "roster length vs WIDGET_COUNT");
    for (i, idx) in roster.iter().enumerate() {
        assert_eq!(i, *idx, "slot #{i} expanded to index {idx}");
    }
}
