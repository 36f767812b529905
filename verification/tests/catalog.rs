use blocko::node::NodeKind;
use blocko::search::{
    clamp_selection, matching_rows, search_catalog, search_rows, select_next, select_previous, text_less,
    CatalogItem, QuickSearchState, SearchSpawn,
};
use blocko::types::{CompareOp, TargetLanguage};
use blocko::workspace::Workspace;

#[test]
fn catalog_entries() {
    let cat = search_catalog();
    assert_eq!(cat.len(), 18);
    assert_eq!(cat[0].label, "Number");
    assert_eq!(cat[0].category, "Numbers");
    assert_eq!(cat[13].label, "While Loop");
    assert_eq!(cat[17].item, CatalogItem::Return);
}

#[test]
fn catalog_items_spawn_default_nodes() {
    assert!(matches!(CatalogItem::Number.make(), NodeKind::Number(v) if v == "0.0"));
    assert!(matches!(CatalogItem::Compare.make(), NodeKind::Compare(CompareOp::GreaterThan)));
    assert!(matches!(CatalogItem::SetVariable.make(), NodeKind::SetVariable(v) if v == "x"));
    match CatalogItem::FunctionDef.make() {
        NodeKind::FunctionDef { name, params } => {
            assert_eq!(name, "my_func");
            assert_eq!(params, "a, b");
        }
        other => panic!("unexpected {:?}", other),
    }
}

#[test]
fn rows_include_user_functions() {
    let rows = search_rows(&vec![(3, "Square".to_string())]);
    assert_eq!(rows.len(), 19);
    assert_eq!(rows[18].label, "ƒ Square");
    assert_eq!(rows[18].category, "Functions");
    assert_eq!(rows[18].keywords, "function call square");
    assert_eq!(rows[18].spawn, SearchSpawn::Function(3));
    assert_eq!(rows[0].spawn, SearchSpawn::Static(CatalogItem::Number));
}

#[test]
fn matching_is_case_insensitive_and_sorted() {
    let rows = search_rows(&vec![(3, "sq".to_string())]);
    assert_eq!(matching_rows(&rows, "loop"), vec![13]);
    assert_eq!(matching_rows(&rows, "LOGIC"), vec![5, 6, 7, 9, 8]);
    assert_eq!(matching_rows(&rows, "func"), vec![16, 15, 17, 18]);
    assert_eq!(matching_rows(&rows, "zzz"), Vec::<usize>::new());
    let all = matching_rows(&rows, "");
    assert_eq!(all.len(), 19);
    assert_eq!(rows[all[0]].category, "Flow");
    assert_eq!(rows[all[18]].category, "Numbers");
}

#[test]
fn text_order() {
    assert!(text_less("Add", "Sub"));
    assert!(text_less("Add", "Adder"));
    assert!(!text_less("Add", "Add"));
    assert!(!text_less("b", "B"));
}

#[test]
fn selection_moves_and_wraps() {
    assert_eq!(select_next(0, 3), 1);
    assert_eq!(select_next(2, 3), 0);
    assert_eq!(select_previous(0, 3), 2);
    assert_eq!(select_previous(2, 3), 1);
    assert_eq!(clamp_selection(5, 3), 2);
    assert_eq!(clamp_selection(5, 0), 0);
    assert_eq!(clamp_selection(1, 3), 1);
}

#[test]
fn quick_search_box() {
    let mut s = QuickSearchState::new();
    assert!(!s.open);
    s.query.push_str("abc");
    s.selected = 4;
    s.open_at_cursor();
    assert!(s.open && s.query.is_empty() && s.selected == 0);
    s.query.push_str("x");
    s.selected = 2;
    s.close();
    assert!(!s.open && s.query.is_empty());
    assert_eq!(s.selected, 2);
}

#[test]
fn operator_and_language_labels() {
    assert_eq!(CompareOp::GreaterThan.label(), "Greater Than (>)");
    assert_eq!(CompareOp::EqualTo.symbol(), "==");
    assert_eq!(CompareOp::LessThan.symbol(), "<");
    assert_eq!(TargetLanguage::Cpp.label(), "C++");
    assert_eq!(TargetLanguage::JavaScript.file_extension(), "js");
    assert_eq!(TargetLanguage::Python.file_extension(), "py");
}

#[test]
fn rows_spawn_nodes() {
    let mut w = Workspace::new();
    let f = w.create_function("area".to_string());
    assert!(matches!(w.spawn_for(SearchSpawn::Static(CatalogItem::Print)), NodeKind::Print));
    match w.spawn_for(SearchSpawn::Function(f)) {
        NodeKind::GroupNode { graph_id, name, data_out, .. } => {
            assert_eq!(graph_id, f);
            assert_eq!(name, "area");
            assert_eq!(data_out.len(), 1);
        }
        other => panic!("unexpected {:?}", other),
    }
}
