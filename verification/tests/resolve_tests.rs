use lcov_rs::cover::resolve;
use lcov_rs::errors::{CHECKSUM_MISMATCH, COUNT_ARITY_MISMATCH, UNRESOLVABLE_FLOW_GRAPH};
use lcov_rs::model::{
    ArcNotes, BlockNotes, DataFunction, DataModel, FunctionNotes, LineRecord, NotesModel,
};
use lcov_rs::resolve::resolve_function_counts;

fn arc(source: u32, dest: u32, on_tree: bool) -> ArcNotes {
    ArcNotes {
        source_block: source,
        destination_block: dest,
        flags: if on_tree { 1 } else { 0 },
    }
}

fn line(path: &str, block: u32, line_number: u32) -> LineRecord {
    LineRecord { src_path: path.to_string(), block, line_number }
}

fn function(
    identifier: u32,
    name: &str,
    path: &str,
    start: u32,
    nblocks: usize,
    arcs: Vec<ArcNotes>,
    lines: Vec<LineRecord>,
) -> FunctionNotes {
    FunctionNotes {
        identifier,
        line_number_checksum: 0x11111111,
        config_checksum: 0x22222222,
        src_path: path.to_string(),
        name: name.to_string(),
        line_number: start,
        blocks: vec![BlockNotes { flags: 0 }; nblocks],
        arcs,
        lines,
    }
}

fn data_for(identifier: u32, counts: Vec<u64>) -> DataModel {
    DataModel {
        version: "A93*".to_string(),
        functions: vec![DataFunction {
            identifier,
            line_number_checksum: 0x11111111,
            config_checksum: 0x22222222,
            counts,
        }],
    }
}

fn notes_for(f: FunctionNotes) -> NotesModel {
    let mut paths: Vec<String> = vec![f.src_path.clone()];
    for l in &f.lines {
        if !paths.contains(&l.src_path) {
            paths.push(l.src_path.clone());
        }
    }
    paths.sort();
    NotesModel { version: "A93*".to_string(), functions: vec![f], source_paths: paths }
}

#[test]
fn end_to_end_scenario() {
    // blocks [0,1,2]; instrumented arcs 0->1 (count 5) and 0->2 (count 2);
    // spanning-tree arcs 1->2 and 2->0. Conservation at block 1 forces
    // 1->2 = 5; at block 2 it forces 2->0 = 5 + 2 = 7, so the entry's
    // total invocation count is 7 and block 2's inflow is 7, consistent.
    let f = function(
        1,
        "main",
        "app.c",
        1,
        3,
        vec![arc(0, 1, false), arc(0, 2, false), arc(1, 2, true), arc(2, 0, true)],
        vec![line("app.c", 0, 1), line("app.c", 1, 2), line("app.c", 2, 3)],
    );
    let rc = resolve_function_counts(&f, &vec![5, 2]).unwrap();
    assert_eq!(rc, vec![5, 2, 5, 7]);
    let notes = notes_for(f);
    let data = data_for(1, vec![5, 2]);
    let cov = resolve(&notes, &data).unwrap();
    assert_eq!(cov.files.len(), 1);
    let file = &cov.files[0];
    assert_eq!(file.src_path, "app.c");
    assert_eq!(file.functions.len(), 1);
    assert_eq!(file.functions[0].name, "main");
    assert_eq!(file.functions[0].count, 7);
    let got: Vec<(u32, u64)> = file.lines.iter().map(|l| (l.line_number, l.count)).collect();
    assert_eq!(got, vec![(1, 7), (2, 5), (3, 7)]);
}

#[test]
fn conservation_holds_on_resolved_graph() {
    let f = function(
        1,
        "main",
        "app.c",
        1,
        3,
        vec![arc(0, 1, false), arc(0, 2, false), arc(1, 2, true), arc(2, 0, true)],
        vec![],
    );
    let rc = resolve_function_counts(&f, &vec![5, 2]).unwrap();
    for b in 1..3u32 {
        let inflow: u64 = f
            .arcs
            .iter()
            .zip(rc.iter())
            .filter(|(a, _)| a.destination_block == b)
            .map(|(_, c)| *c)
            .sum();
        let outflow: u64 = f
            .arcs
            .iter()
            .zip(rc.iter())
            .filter(|(a, _)| a.source_block == b)
            .map(|(_, c)| *c)
            .sum();
        assert_eq!(inflow, outflow);
    }
}

#[test]
fn arity_mismatch_is_fatal() {
    // one instrumented arc but two raw counts
    let f = function(1, "f", "a.c", 1, 2, vec![arc(0, 1, false)], vec![]);
    let e = resolve_function_counts(&f, &vec![5, 6]).unwrap_err();
    assert_eq!(e.code, COUNT_ARITY_MISMATCH);
    let notes = notes_for(function(1, "f", "a.c", 1, 2, vec![arc(0, 1, false)], vec![]));
    let data = data_for(1, vec![5, 6]);
    let e2 = resolve(&notes, &data).unwrap_err();
    assert_eq!(e2.code, COUNT_ARITY_MISMATCH);
}

#[test]
fn underdetermined_graph_is_unresolvable() {
    // the spanning-tree arc 0->2 never appears in an equation with a
    // single unknown, so propagation cannot finish
    let f = function(
        1,
        "f",
        "a.c",
        1,
        3,
        vec![arc(0, 1, false), arc(0, 2, true), arc(1, 2, true)],
        vec![],
    );
    let e = resolve_function_counts(&f, &vec![5]).unwrap_err();
    assert_eq!(e.code, UNRESOLVABLE_FLOW_GRAPH);
}

#[test]
fn inconsistent_counts_are_unresolvable() {
    // both arcs of a straight line 0->1->2 are instrumented with
    // different counts, so block 1 receives 5 but passes on 4
    let f = function(
        1,
        "f",
        "a.c",
        1,
        3,
        vec![arc(0, 1, false), arc(1, 2, false)],
        vec![],
    );
    let e = resolve_function_counts(&f, &vec![5, 4]).unwrap_err();
    assert_eq!(e.code, UNRESOLVABLE_FLOW_GRAPH);
}

#[test]
fn checksum_mismatch_is_fatal() {
    let f = function(1, "f", "a.c", 1, 1, vec![], vec![]);
    let notes = notes_for(f);
    let mut data = data_for(1, vec![]);
    data.functions[0].config_checksum = 0x33333333;
    let e = resolve(&notes, &data).unwrap_err();
    assert_eq!(e.code, CHECKSUM_MISMATCH);
}

#[test]
fn function_missing_from_data_counts_as_no_counts() {
    // a function with no instrumented arcs resolves even when the data
    // file has no entry for it
    let f = function(9, "f", "a.c", 1, 1, vec![], vec![line("a.c", 0, 1)]);
    let notes = notes_for(f);
    let data = DataModel { version: "A93*".to_string(), functions: vec![] };
    let cov = resolve(&notes, &data).unwrap();
    assert_eq!(cov.files[0].functions[0].count, 0);
}

#[test]
fn line_aggregation_sums_blocks() {
    // blocks 1 and 2 resolve to 3 and 4 and both claim line 10
    let f = function(
        1,
        "f",
        "a.c",
        1,
        3,
        vec![arc(0, 1, false), arc(0, 2, false), arc(1, 0, true), arc(2, 0, true)],
        vec![line("a.c", 1, 10), line("a.c", 2, 10)],
    );
    let rc = resolve_function_counts(&f, &vec![3, 4]).unwrap();
    assert_eq!(rc, vec![3, 4, 3, 4]);
    let notes = notes_for(function(
        1,
        "f",
        "a.c",
        1,
        3,
        vec![arc(0, 1, false), arc(0, 2, false), arc(1, 0, true), arc(2, 0, true)],
        vec![line("a.c", 1, 10), line("a.c", 2, 10)],
    ));
    let data = data_for(1, vec![3, 4]);
    let cov = resolve(&notes, &data).unwrap();
    let got: Vec<(u32, u64)> = cov.files[0].lines.iter().map(|l| (l.line_number, l.count)).collect();
    assert_eq!(got, vec![(10, 7)]);
}

#[test]
fn resolving_twice_gives_identical_coverage() {
    let f = function(
        1,
        "main",
        "app.c",
        1,
        3,
        vec![arc(0, 1, false), arc(0, 2, false), arc(1, 2, true), arc(2, 0, true)],
        vec![line("app.c", 1, 2), line("app.c", 2, 3)],
    );
    let notes = notes_for(f);
    let data = data_for(1, vec![5, 2]);
    let once = lcov_rs::report::render(&resolve(&notes, &data).unwrap());
    let twice = lcov_rs::report::render(&resolve(&notes, &data).unwrap());
    assert_eq!(once, twice);
}

#[test]
fn arc_flag_low_bit_marks_spanning_tree() {
    assert!(arc(0, 1, true).is_on_tree());
    assert!(!arc(0, 1, false).is_on_tree());
    let a = ArcNotes { source_block: 0, destination_block: 1, flags: 2 };
    assert!(!a.is_on_tree());
    let b = ArcNotes { source_block: 0, destination_block: 1, flags: 3 };
    assert!(b.is_on_tree());
}
