use solar_sema::sources::{AstItemId, FileKey, SourceId, Sources};

fn files(sources: &Sources<&'static str>) -> Vec<u32> {
    sources.as_slice().iter().map(|source| source.file.0).collect()
}

fn imports(sources: &Sources<&'static str>, index: usize) -> Vec<usize> {
    sources.as_slice()[index].imports.iter().map(|(_, id)| id.0).collect()
}

#[test]
fn files_are_added_once() {
    let mut sources: Sources<&'static str> = Sources::new();
    assert_eq!(sources.get_or_insert_file(FileKey(7)), (SourceId(0), true));
    assert_eq!(sources.get_or_insert_file(FileKey(7)), (SourceId(0), false));
    assert_eq!(sources.get_or_insert_file(FileKey(9)), (SourceId(1), true));
    assert_eq!(sources.len(), 2);
    assert_eq!(sources.get_file(FileKey(9)).map(|(id, _)| id), Some(SourceId(1)));
    assert!(sources.get_file(FileKey(8)).is_none());
}

#[test]
fn imports_resolve_to_existing_or_new_sources() {
    let mut sources: Sources<&'static str> = Sources::new();
    let (main, _) = sources.get_or_insert_file(FileKey(1));
    assert_eq!(sources.add_import(main, AstItemId(10), FileKey(2)), (SourceId(1), true));
    assert_eq!(sources.add_import(main, AstItemId(11), FileKey(1)), (SourceId(0), false));
    let recorded: Vec<(AstItemId, SourceId)> = sources.as_slice()[0].imports.clone();
    assert_eq!(recorded, vec![(AstItemId(10), SourceId(1)), (AstItemId(11), SourceId(0))]);
    assert!(sources.as_slice()[1].imports.is_empty());
}

#[test]
fn topo_sort_puts_imports_first() {
    // a imports b, b imports c.
    let mut sources: Sources<&'static str> = Sources::new();
    let (a, _) = sources.get_or_insert_file(FileKey(100));
    let (b, _) = sources.add_import(a, AstItemId(1), FileKey(200));
    sources.add_import(b, AstItemId(2), FileKey(300));
    sources.topo_sort();
    assert_eq!(files(&sources), vec![300, 200, 100]);
    assert_eq!(imports(&sources, 0), Vec::<usize>::new());
    assert_eq!(imports(&sources, 1), vec![0]);
    assert_eq!(imports(&sources, 2), vec![1]);
    assert_eq!(sources.as_slice()[2].imports[0].0, AstItemId(1));
}

#[test]
fn topo_sort_keeps_shared_imports_before_all_importers() {
    // a imports b and c; b imports c; d is independent.
    let mut sources: Sources<&'static str> = Sources::new();
    let (a, _) = sources.get_or_insert_file(FileKey(1));
    let (b, _) = sources.add_import(a, AstItemId(1), FileKey(2));
    sources.add_import(a, AstItemId(2), FileKey(3));
    sources.add_import(b, AstItemId(3), FileKey(3));
    sources.get_or_insert_file(FileKey(4));
    sources.topo_sort();
    assert_eq!(files(&sources), vec![3, 2, 1, 4]);
    assert_eq!(imports(&sources, 1), vec![0]);
    assert_eq!(imports(&sources, 2), vec![1, 0]);
    assert_eq!(imports(&sources, 3), Vec::<usize>::new());
}

#[test]
fn topo_sort_with_an_import_cycle() {
    // a imports b, b imports a.
    let mut sources: Sources<&'static str> = Sources::new();
    let (a, _) = sources.get_or_insert_file(FileKey(1));
    let (b, _) = sources.add_import(a, AstItemId(1), FileKey(2));
    sources.add_import(b, AstItemId(2), FileKey(1));
    sources.topo_sort();
    assert_eq!(files(&sources), vec![2, 1]);
    assert_eq!(imports(&sources, 0), vec![1]);
    assert_eq!(imports(&sources, 1), vec![0]);
}

#[test]
fn topo_sort_of_a_single_source_keeps_it() {
    let mut sources: Sources<&'static str> = Sources::new();
    let (a, _) = sources.get_or_insert_file(FileKey(5));
    sources.add_import(a, AstItemId(1), FileKey(5));
    sources.topo_sort();
    assert_eq!(files(&sources), vec![5]);
    assert_eq!(imports(&sources, 0), vec![0]);
}

#[test]
fn asts_lists_the_parsed_sources() {
    let mut sources: Sources<&'static str> = Sources::new();
    let (a, _) = sources.get_or_insert_file(FileKey(1));
    let (b, _) = sources.get_or_insert_file(FileKey(2));
    let (c, _) = sources.get_or_insert_file(FileKey(3));
    sources.set_ast(a, Some("first"));
    sources.set_ast(c, Some("third"));
    assert_eq!(sources.asts(), vec![&"first", &"third"]);
    sources.set_ast(b, Some("second"));
    sources.set_ast(a, None);
    assert_eq!(sources.asts(), vec![&"second", &"third"]);
}
